//! A per-category accumulator: a total magnitude plus per-segment sums.

use vstd::prelude::*;

use crate::values::ChartValue;

verus! {

broadcast use vstd::seq_lib::group_filter_ensures;

/// The left-to-right running total of the values of `s`, starting from
/// zero.
pub open spec fn sum_of<V: ChartValue>(s: Seq<(usize, V)>) -> V
    decreases s.len(),
{
    if s.len() == 0 {
        V::zero_spec()
    } else {
        sum_of(s.drop_last()).add_spec(s.last().1)
    }
}

/// The additions of `s` that went to segment `idx`, in order.
pub open spec fn segment_history<V: ChartValue>(s: Seq<(usize, V)>, idx: usize) -> Seq<
    (usize, V),
> {
    s.filter(|p: (usize, V)| p.0 == idx)
}

/// Whether the entries of `s` are in strictly ascending segment order.
pub open spec fn entries_sorted<A>(s: Seq<(usize, A)>) -> bool {
    forall|i: int, j: int|
        0 <= i < j < s.len() ==> (#[trigger] s[i]).0 < (#[trigger] s[j]).0
}

/// Whether some entry of `s` carries segment index `idx`.
pub open spec fn has_entry<A>(s: Seq<(usize, A)>, idx: usize) -> bool {
    exists|i: int| 0 <= i < s.len() && (#[trigger] s[i]).0 == idx
}

/// The value of the entry of `s` carrying segment index `idx`.
pub open spec fn entry_value<A>(s: Seq<(usize, A)>, idx: usize) -> A {
    s[choose|i: int| 0 <= i < s.len() && (#[trigger] s[i]).0 == idx].1
}

/// In a sorted entry sequence, the entry at a matching position is the one
/// `entry_value` denotes.
pub proof fn lemma_entry_value_at<A>(s: Seq<(usize, A)>, idx: usize, i: int)
    requires
        entries_sorted(s),
        0 <= i < s.len(),
        s[i].0 == idx,
    ensures
        has_entry(s, idx),
        entry_value(s, idx) == s[i].1,
{
    assert(has_entry(s, idx));
    let c = choose|c: int| 0 <= c < s.len() && (#[trigger] s[c]).0 == idx;
    if c < i {
        assert(s[c].0 < s[i].0);
        assert(false);
    }
    if i < c {
        assert(s[i].0 < s[c].0);
        assert(false);
    }
}

/// Appending one addition extends the history of its own segment and
/// leaves every other segment's history unchanged.
proof fn lemma_segment_history_push<V: ChartValue>(s: Seq<(usize, V)>, e: (usize, V), idx: usize)
    ensures
        segment_history(s.push(e), idx) == (if e.0 == idx {
            segment_history(s, idx).push(e)
        } else {
            segment_history(s, idx)
        }),
{
    reveal(Seq::filter);
    assert(s.push(e).drop_last() =~= s);
}

/// A category's accumulated data: the total of all values ever added
/// ("magnitude") and the same total broken down by segment index.
pub struct SegmentedValue<V: ChartValue> {
    /// One `(segment index, accumulated value)` entry per segment that has
    /// received an addition, in strictly ascending index order.
    pub segments: Vec<(usize, V)>,
    /// The running total of every value ever added.
    pub magnitude: V,
    /// The full sequence of `(segment index, value)` additions, in order.
    pub history: Ghost<Seq<(usize, V)>>,
}

impl<V: ChartValue> SegmentedValue<V> {
    /// The invariant: entries are sorted by segment index, the magnitude is
    /// the sum of the whole history, and each entry is the sum of its own
    /// segment's history.
    pub open spec fn wf(&self) -> bool {
        &&& entries_sorted(self.segments@)
        &&& self.magnitude == sum_of(self.history@)
        &&& forall|i: int|
            0 <= i < self.segments@.len() ==> (#[trigger] self.segments@[i]).1 == sum_of(
                segment_history(self.history@, self.segments@[i].0),
            )
        &&& forall|i: int|
            0 <= i < self.segments@.len() ==> segment_history(
                self.history@,
                (#[trigger] self.segments@[i]).0,
            ).len() > 0
        &&& forall|idx: usize|
            #[trigger] segment_history(self.history@, idx).len() > 0 ==> has_entry(
                self.segments@,
                idx,
            )
    }

    /// The accumulated value of segment `idx`, when present.
    pub open spec fn spec_value_of(&self, idx: usize) -> Option<V> {
        if has_entry(self.segments@, idx) {
            Some(entry_value(self.segments@, idx))
        } else {
            None
        }
    }

    /// An accumulator with nothing added yet.
    pub fn new() -> (r: Self)
        ensures
            r.wf(),
            r.segments@ == Seq::<(usize, V)>::empty(),
            r.history@ == Seq::<(usize, V)>::empty(),
            r.magnitude == V::zero_spec(),
    {
        let r = SegmentedValue {
            segments: Vec::new(),
            magnitude: V::zero_value(),
            history: Ghost(Seq::empty()),
        };
        proof {
            assert(sum_of(r.history@) == V::zero_spec());
        }
        r
    }
}

impl<V: ChartValue> SegmentedValue<V> {
    /// Adds `value` into segment `segment_index`'s bucket (creating it at
    /// zero when absent) and into the magnitude.
    #[verifier::rlimit(80)]
    pub fn add(&mut self, segment_index: usize, value: V)
        requires
            old(self).wf(),
            old(self).magnitude.can_add(value),
            (match old(self).spec_value_of(segment_index) {
                Some(v) => v.can_add(value),
                None => true,
            }),
        ensures
            final(self).wf(),
            final(self).history@ == old(self).history@.push((segment_index, value)),
            final(self).magnitude == old(self).magnitude.add_spec(value),
            final(self).spec_value_of(segment_index) == (match old(self).spec_value_of(
                segment_index,
            ) {
                Some(v) => Some(v.add_spec(value)),
                None => Some(value),
            }),
            forall|idx: usize|
                idx != segment_index ==> final(self).spec_value_of(idx) == old(self).spec_value_of(
                    idx,
                ),
    {
        let ghost oldseg = self.segments@;
        let ghost h = self.history@;
        let ghost e = (segment_index, value);
        let ghost newhist = h.push(e);
        proof {
            assert(newhist.drop_last() =~= h);
            lemma_segment_history_push(h, e, segment_index);
            assert forall|idx: usize| idx != segment_index implies segment_history(newhist, idx)
                == segment_history(h, idx) by {
                lemma_segment_history_push(h, e, idx);
            }
        }
        let n = self.segments.len();
        let mut i: usize = 0;
        while i < n && self.segments[i].0 < segment_index
            invariant
                i <= n,
                self == old(self),
                n == self.segments@.len(),
                forall|j: int| 0 <= j < i ==> (#[trigger] self.segments@[j]).0 < segment_index,
            decreases n - i,
        {
            i += 1;
        }
        self.magnitude = self.magnitude.add_value(value);
        self.history = Ghost(newhist);
        if i < n && self.segments[i].0 == segment_index {
            let entry = self.segments.remove(i);
            proof {
                lemma_entry_value_at(oldseg, segment_index, i as int);
                assert(entry == oldseg[i as int]);
                assert(old(self).spec_value_of(segment_index) == Some(entry.1));
            }
            let entry2 = (entry.0, entry.1.add_value(value));
            self.segments.insert(i, entry2);
            proof {
                let new = self.segments@;
                assert(new =~= oldseg.update(i as int, entry2));
                assert forall|k: int| 0 <= k < new.len() implies (#[trigger] new[k]).0
                    == oldseg[k].0 by {}
                assert(entries_sorted(new));
                assert forall|k: int| 0 <= k < new.len() && k != i implies new[k] == oldseg[k]
                    && oldseg[k].0 != segment_index by {
                    if k < i {
                        assert(oldseg[k].0 < oldseg[i as int].0);
                    } else {
                        assert(oldseg[i as int].0 < oldseg[k].0);
                    }
                }
                assert forall|k: int| 0 <= k < new.len() implies (#[trigger] new[k]).1 == sum_of(
                    segment_history(newhist, new[k].0),
                ) && segment_history(newhist, new[k].0).len() > 0 by {
                    if k == i {
                        assert(segment_history(newhist, segment_index) == segment_history(
                            h,
                            segment_index,
                        ).push(e));
                        assert(segment_history(newhist, segment_index).drop_last()
                            =~= segment_history(h, segment_index));
                        assert(oldseg[k].1 == sum_of(segment_history(h, segment_index)));
                    } else {
                        assert(segment_history(newhist, new[k].0) == segment_history(
                            h,
                            new[k].0,
                        ));
                        assert(oldseg[k].1 == sum_of(segment_history(h, oldseg[k].0)));
                    }
                }
                assert forall|idx: usize|
                    #[trigger] segment_history(newhist, idx).len() > 0 implies has_entry(
                    new,
                    idx,
                ) by {
                    if idx == segment_index {
                        assert(new[i as int].0 == idx);
                    } else {
                        assert(segment_history(h, idx).len() > 0);
                        let w = choose|w: int| 0 <= w < oldseg.len() && (#[trigger] oldseg[w]).0
                            == idx;
                        assert(new[w].0 == idx);
                    }
                }
                assert(self.wf());
                lemma_entry_value_at(new, segment_index, i as int);
                assert forall|idx: usize| idx != segment_index implies self.spec_value_of(idx)
                    == old(self).spec_value_of(idx) by {
                    if has_entry(oldseg, idx) {
                        let w = choose|w: int| 0 <= w < oldseg.len() && (#[trigger] oldseg[w]).0
                            == idx;
                        lemma_entry_value_at(oldseg, idx, w);
                        lemma_entry_value_at(new, idx, w);
                        assert(w != i);
                    } else {
                        if has_entry(new, idx) {
                            let w = choose|w: int| 0 <= w < new.len() && (#[trigger] new[w]).0
                                == idx;
                            assert(oldseg[w].0 == idx);
                            assert(false);
                        }
                    }
                }
            }
        } else {
            proof {
                assert forall|k: int| 0 <= k < oldseg.len() implies (#[trigger] oldseg[k]).0
                    != segment_index by {
                    if k >= i {
                        if k > i {
                            assert(oldseg[i as int].0 < oldseg[k].0);
                        }
                    }
                }
                assert(!has_entry(oldseg, segment_index));
                assert(old(self).spec_value_of(segment_index) == Option::<V>::None);
                if segment_history(h, segment_index).len() > 0 {
                    assert(has_entry(oldseg, segment_index));
                    assert(false);
                }
                assert(segment_history(h, segment_index) =~= Seq::<(usize, V)>::empty());
                V::lemma_zero_add(value);
            }
            self.segments.insert(i, (segment_index, value));
            proof {
                let new = self.segments@;
                assert(new == oldseg.insert(i as int, e));
                assert forall|k: int| 0 <= k < new.len() implies #[trigger] new[k] == (if k < i {
                    oldseg[k]
                } else if k == i {
                    e
                } else {
                    oldseg[k - 1]
                }) by {}
                assert forall|k1: int, k2: int| 0 <= k1 < k2 < new.len() implies (
                #[trigger] new[k1]).0 < (#[trigger] new[k2]).0 by {
                    if k2 == i {
                        assert(new[k1] == oldseg[k1]);
                    } else if k1 == i && k2 > i {
                        assert(new[k2] == oldseg[k2 - 1]);
                        assert(oldseg[k2 - 1].0 >= oldseg[i as int].0 || k2 - 1 == i);
                    }
                }
                assert(entries_sorted(new));
                assert(segment_history(newhist, segment_index) == segment_history(
                    h,
                    segment_index,
                ).push(e));
                assert(segment_history(newhist, segment_index) =~= Seq::<(usize, V)>::empty().push(
                    e,
                ));
                let single = Seq::<(usize, V)>::empty().push(e);
                assert(single.drop_last() =~= Seq::<(usize, V)>::empty());
                assert(single.last() == e);
                assert(sum_of(Seq::<(usize, V)>::empty()) == V::zero_spec());
                assert(sum_of(single) == V::zero_spec().add_spec(value));
                assert(sum_of(segment_history(newhist, segment_index)) == V::zero_spec().add_spec(
                    value,
                ));
                assert forall|k: int| 0 <= k < new.len() implies (#[trigger] new[k]).1 == sum_of(
                    segment_history(newhist, new[k].0),
                ) && segment_history(newhist, new[k].0).len() > 0 by {
                    if k == i {
                    } else {
                        let ko = if k < i { k } else { k - 1 };
                        assert(new[k] == oldseg[ko]);
                        assert(oldseg[ko].0 != segment_index);
                        assert(segment_history(newhist, new[k].0) == segment_history(
                            h,
                            new[k].0,
                        ));
                        assert(oldseg[ko].1 == sum_of(segment_history(h, oldseg[ko].0)));
                    }
                }
                assert forall|idx: usize|
                    #[trigger] segment_history(newhist, idx).len() > 0 implies has_entry(
                    new,
                    idx,
                ) by {
                    if idx == segment_index {
                        assert(new[i as int].0 == idx);
                    } else {
                        assert(segment_history(h, idx).len() > 0);
                        let w = choose|w: int| 0 <= w < oldseg.len() && (#[trigger] oldseg[w]).0
                            == idx;
                        if w < i {
                            assert(new[w].0 == idx);
                        } else {
                            assert(new[w + 1].0 == idx);
                        }
                    }
                }
                assert(self.wf());
                lemma_entry_value_at(new, segment_index, i as int);
                assert forall|idx: usize| idx != segment_index implies self.spec_value_of(idx)
                    == old(self).spec_value_of(idx) by {
                    if has_entry(oldseg, idx) {
                        let w = choose|w: int| 0 <= w < oldseg.len() && (#[trigger] oldseg[w]).0
                            == idx;
                        lemma_entry_value_at(oldseg, idx, w);
                        if w < i {
                            lemma_entry_value_at(new, idx, w);
                        } else {
                            lemma_entry_value_at(new, idx, w + 1);
                        }
                    } else {
                        if has_entry(new, idx) {
                            let w = choose|w: int| 0 <= w < new.len() && (#[trigger] new[w]).0
                                == idx;
                            if w < i {
                                assert(oldseg[w].0 == idx);
                            } else {
                                assert(w != i);
                                assert(oldseg[w - 1].0 == idx);
                            }
                            assert(false);
                        }
                    }
                }
            }
        }
    }

    /// The accumulated value of segment `segment_index`, or `None` when the
    /// segment never received an addition.
    pub fn value_of_segment(&self, segment_index: usize) -> (r: Option<V>)
        requires
            self.wf(),
        ensures
            r == self.spec_value_of(segment_index),
    {
        let n = self.segments.len();
        let mut i: usize = 0;
        while i < n
            invariant
                i <= n,
                n == self.segments@.len(),
                self.wf(),
                forall|j: int| 0 <= j < i ==> (#[trigger] self.segments@[j]).0 != segment_index,
            decreases n - i,
        {
            let entry = self.segments[i];
            if entry.0 == segment_index {
                proof {
                    lemma_entry_value_at(self.segments@, segment_index, i as int);
                }
                return Some(entry.1);
            }
            i += 1;
        }
        proof {
            if has_entry(self.segments@, segment_index) {
                let w = choose|w: int|
                    0 <= w < self.segments@.len() && (#[trigger] self.segments@[w]).0
                        == segment_index;
                assert(false);
            }
        }
        None
    }

    /// Whether at least one segment bucket exists.
    pub fn has_values(&self) -> (r: bool)
        ensures
            r == (self.segments@.len() > 0),
    {
        self.segments.len() > 0
    }

    /// The total magnitude: the sum of every value ever added, regardless
    /// of how the additions were spread over segments.
    pub fn height(&self) -> (r: V)
        requires
            self.wf(),
        ensures
            r == self.magnitude,
            r == sum_of(self.history@),
    {
        self.magnitude
    }

    /// The `(segment index, accumulated value)` pairs in ascending segment
    /// order.
    pub fn values(&self) -> (r: &Vec<(usize, V)>)
        ensures
            r@ == self.segments@,
    {
        &self.segments
    }
}

impl<V: ChartValue> Default for SegmentedValue<V> {
    /// An accumulator with nothing added yet.
    fn default() -> (r: Self)
        ensures
            r.wf(),
            r.segments@ == Seq::<(usize, V)>::empty(),
            r.history@ == Seq::<(usize, V)>::empty(),
            r.magnitude == V::zero_spec(),
    {
        Self::new()
    }
}

} // verus!
