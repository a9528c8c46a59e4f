//! The ordered categorical aggregation engine.

use vstd::prelude::*;

use crate::categorised_value::CategorisedValue;
use crate::decimal::push_char;
use crate::keys::ChartKey;
use crate::ordered_set::{
    lemma_first_index_of_match, lemma_insert_all_take_step, seq_contains_key, seq_define,
    seq_first_index, seq_insert_all, OrderedSet,
};
use crate::segmented_value::{
    entries_sorted, entry_value, has_entry, lemma_entry_value_at, segment_history, sum_of,
    SegmentedValue,
};
use crate::values::ChartValue;

verus! {

/// The histories of all category rows: for each row, its category index
/// and the ordered sequence of `(segment index, value)` additions it
/// received.
pub type RowHistories<VAL> = Seq<(usize, Seq<(usize, VAL)>)>;

/// What one addition does to the row histories: it extends the history of
/// the row with category index `ci` (creating the row in ascending index
/// position when absent) by `(si, v)`.
pub open spec fn rows_add<VAL: ChartValue>(
    rows: RowHistories<VAL>,
    ci: usize,
    si: usize,
    v: VAL,
) -> RowHistories<VAL>
    decreases rows.len(),
{
    if rows.len() == 0 {
        seq![(ci, seq![(si, v)])]
    } else if rows[0].0 == ci {
        seq![(rows[0].0, rows[0].1.push((si, v)))] + rows.drop_first()
    } else if rows[0].0 > ci {
        seq![(ci, seq![(si, v)])] + rows
    } else {
        seq![rows[0]] + rows_add(rows.drop_first(), ci, si, v)
    }
}

/// The category index a key receives from `cats`: its existing first
/// index, or the next free one.
pub open spec fn assigned_index<CAT: ChartKey>(cats: Seq<CAT>, key: CAT) -> usize {
    if seq_contains_key(cats, key) {
        seq_first_index(cats, key) as usize
    } else {
        cats.len() as usize
    }
}

/// Whether one addition stays within machine limits: the two sets can
/// still issue an index, and neither the row's magnitude nor its segment
/// bucket overflows.
pub open spec fn spec_can_step<CAT: ChartKey, SEG: ChartKey, VAL: ChartValue>(
    cats: Seq<CAT>,
    segs: Seq<SEG>,
    rows: RowHistories<VAL>,
    d: CategorisedValue<CAT, SEG, VAL>,
) -> bool {
    let ci = assigned_index(cats, d.category_key);
    let si = assigned_index(segs, d.segment_key);
    &&& cats.len() < usize::MAX
    &&& segs.len() < usize::MAX
    &&& (has_entry(rows, ci) ==> {
        let hist = entry_value(rows, ci);
        &&& sum_of(hist).can_add(d.value)
        &&& (segment_history(hist, si).len() > 0 ==> sum_of(segment_history(hist, si)).can_add(
            d.value,
        ))
    })
}

/// What one addition does to the whole aggregation state.
pub open spec fn spec_step<CAT: ChartKey, SEG: ChartKey, VAL: ChartValue>(
    cats: Seq<CAT>,
    segs: Seq<SEG>,
    rows: RowHistories<VAL>,
    d: CategorisedValue<CAT, SEG, VAL>,
) -> (Seq<CAT>, Seq<SEG>, RowHistories<VAL>) {
    let ci = assigned_index(cats, d.category_key);
    let si = assigned_index(segs, d.segment_key);
    (seq_define(cats, d.category_key), seq_define(segs, d.segment_key), rows_add(
        rows,
        ci,
        si,
        d.value,
    ))
}

/// `spec_step` folded over a data sequence, left to right.
pub open spec fn spec_aggregate<CAT: ChartKey, SEG: ChartKey, VAL: ChartValue>(
    cats: Seq<CAT>,
    segs: Seq<SEG>,
    rows: RowHistories<VAL>,
    data: Seq<CategorisedValue<CAT, SEG, VAL>>,
) -> (Seq<CAT>, Seq<SEG>, RowHistories<VAL>)
    decreases data.len(),
{
    if data.len() == 0 {
        (cats, segs, rows)
    } else {
        let st = spec_step(cats, segs, rows, data[0]);
        spec_aggregate(st.0, st.1, st.2, data.drop_first())
    }
}

/// Whether every addition of `data`, applied in order, stays within
/// machine limits.
pub open spec fn spec_can_aggregate<CAT: ChartKey, SEG: ChartKey, VAL: ChartValue>(
    cats: Seq<CAT>,
    segs: Seq<SEG>,
    rows: RowHistories<VAL>,
    data: Seq<CategorisedValue<CAT, SEG, VAL>>,
) -> bool
    decreases data.len(),
{
    if data.len() == 0 {
        true
    } else {
        let st = spec_step(cats, segs, rows, data[0]);
        spec_can_step(cats, segs, rows, data[0]) && spec_can_aggregate(
            st.0,
            st.1,
            st.2,
            data.drop_first(),
        )
    }
}

/// Aggregating two data batches one after the other equals aggregating
/// their concatenation.
pub proof fn lemma_aggregate_append<CAT: ChartKey, SEG: ChartKey, VAL: ChartValue>(
    cats: Seq<CAT>,
    segs: Seq<SEG>,
    rows: RowHistories<VAL>,
    a: Seq<CategorisedValue<CAT, SEG, VAL>>,
    b: Seq<CategorisedValue<CAT, SEG, VAL>>,
)
    ensures
        spec_aggregate(cats, segs, rows, a + b) == ({
            let st = spec_aggregate(cats, segs, rows, a);
            spec_aggregate(st.0, st.1, st.2, b)
        }),
    decreases a.len(),
{
    if a.len() == 0 {
        assert(a + b =~= b);
    } else {
        assert((a + b)[0] == a[0]);
        assert((a + b).drop_first() =~= a.drop_first() + b);
        let st = spec_step(cats, segs, rows, a[0]);
        lemma_aggregate_append(st.0, st.1, st.2, a.drop_first(), b);
    }
}

/// Extending the processed prefix by one datum applies one more step.
pub proof fn lemma_aggregate_take_step<CAT: ChartKey, SEG: ChartKey, VAL: ChartValue>(
    cats: Seq<CAT>,
    segs: Seq<SEG>,
    rows: RowHistories<VAL>,
    data: Seq<CategorisedValue<CAT, SEG, VAL>>,
    i: int,
)
    requires
        0 <= i < data.len(),
    ensures
        spec_aggregate(cats, segs, rows, data.take(i + 1)) == ({
            let st = spec_aggregate(cats, segs, rows, data.take(i));
            spec_step(st.0, st.1, st.2, data[i])
        }),
{
    assert(data.take(i + 1) =~= data.take(i) + seq![data[i]]);
    lemma_aggregate_append(cats, segs, rows, data.take(i), seq![data[i]]);
    let st = spec_aggregate(cats, segs, rows, data.take(i));
    let single = seq![data[i]];
    assert(single[0] == data[i]);
    assert(single.drop_first().len() == 0);
    let st2 = spec_step(st.0, st.1, st.2, data[i]);
    assert(spec_aggregate(st.0, st.1, st.2, single) == spec_aggregate(
        st2.0,
        st2.1,
        st2.2,
        single.drop_first(),
    ));
}

/// In a sorted row sequence, `rows_add` updates the matching row in place.
proof fn lemma_rows_add_found<VAL: ChartValue>(
    rows: RowHistories<VAL>,
    ci: usize,
    si: usize,
    v: VAL,
    i: int,
)
    requires
        entries_sorted(rows),
        0 <= i < rows.len(),
        rows[i].0 == ci,
    ensures
        rows_add(rows, ci, si, v) == rows.update(i, (ci, rows[i].1.push((si, v)))),
    decreases i,
{
    if i == 0 {
        assert(rows_add(rows, ci, si, v) == seq![(rows[0].0, rows[0].1.push((si, v)))]
            + rows.drop_first());
        assert(rows_add(rows, ci, si, v) =~= rows.update(0, (ci, rows[0].1.push((si, v)))));
    } else {
        assert(rows[0].0 < rows[i].0);
        assert(rows.drop_first()[i - 1] == rows[i]);
        lemma_rows_add_found(rows.drop_first(), ci, si, v, i - 1);
        assert(rows_add(rows, ci, si, v) == seq![rows[0]] + rows.drop_first().update(
            i - 1,
            (ci, rows[i].1.push((si, v))),
        ));
        assert(rows_add(rows, ci, si, v) =~= rows.update(i, (ci, rows[i].1.push((si, v)))));
    }
}

/// In a sorted row sequence without the category, `rows_add` inserts a new
/// one-entry row at the position that keeps the order.
proof fn lemma_rows_add_new<VAL: ChartValue>(
    rows: RowHistories<VAL>,
    ci: usize,
    si: usize,
    v: VAL,
    i: int,
)
    requires
        entries_sorted(rows),
        0 <= i <= rows.len(),
        forall|j: int| 0 <= j < i ==> (#[trigger] rows[j]).0 < ci,
        i < rows.len() ==> rows[i].0 > ci,
    ensures
        rows_add(rows, ci, si, v) == rows.insert(i, (ci, seq![(si, v)])),
    decreases i,
{
    if rows.len() == 0 {
        assert(rows_add(rows, ci, si, v) =~= rows.insert(0, (ci, seq![(si, v)])));
    } else if i == 0 {
        assert(rows[0].0 > ci);
        assert(rows_add(rows, ci, si, v) =~= rows.insert(0, (ci, seq![(si, v)])));
    } else {
        assert(rows[0].0 < ci);
        assert forall|j: int| 0 <= j < i - 1 implies (#[trigger] rows.drop_first()[j]).0 < ci by {
            assert(rows.drop_first()[j] == rows[j + 1]);
        }
        if i - 1 < rows.drop_first().len() {
            assert(rows.drop_first()[i - 1] == rows[i]);
        }
        lemma_rows_add_new(rows.drop_first(), ci, si, v, i - 1);
        assert(rows_add(rows, ci, si, v) == seq![rows[0]] + rows.drop_first().insert(
            i - 1,
            (ci, seq![(si, v)]),
        ));
        assert(rows_add(rows, ci, si, v) =~= rows.insert(i, (ci, seq![(si, v)])));
    }
}

/// The rendering of one segment entry: the bare value when fewer than two
/// segments are defined overall, otherwise `<segment label>: <value>`.
pub open spec fn render_entry<SEG: ChartKey, VAL: ChartValue>(
    segs: Seq<SEG>,
    entry: (usize, VAL),
    values_only: bool,
) -> Seq<char> {
    if values_only {
        entry.1.value_label_spec()
    } else {
        segs[entry.0 as int].key_label_spec() + seq![':', ' '] + entry.1.value_label_spec()
    }
}

/// The renderings of a row's entries in ascending segment order, joined by
/// `", "`.
pub open spec fn render_entries<SEG: ChartKey, VAL: ChartValue>(
    segs: Seq<SEG>,
    entries: Seq<(usize, VAL)>,
    values_only: bool,
) -> Seq<char>
    decreases entries.len(),
{
    if entries.len() == 0 {
        Seq::empty()
    } else if entries.len() == 1 {
        render_entry(segs, entries[0], values_only)
    } else {
        render_entries(segs, entries.drop_last(), values_only) + seq![',', ' '] + render_entry(
            segs,
            entries.last(),
            values_only,
        )
    }
}

/// The rendering of one category row: a tab, the category label, a colon,
/// the body (bare totals, or `{ ... }` with segment labels), a comma
/// unless the row is the last, and a newline.
pub open spec fn render_row<CAT: ChartKey, SEG: ChartKey, VAL: ChartValue>(
    cats: Seq<CAT>,
    segs: Seq<SEG>,
    row: (usize, SegmentedValue<VAL>),
    values_only: bool,
    is_last: bool,
) -> Seq<char> {
    seq!['\t'] + cats[row.0 as int].key_label_spec() + seq![':', ' '] + (if values_only {
        render_entries(segs, row.1.segments@, true)
    } else {
        seq!['{', ' '] + render_entries(segs, row.1.segments@, false) + seq![' ', '}']
    }) + (if is_last {
        Seq::<char>::empty()
    } else {
        seq![',']
    }) + seq!['\n']
}

/// The renderings of all rows, in order; `total` is the full row count,
/// deciding which row is the last.
pub open spec fn render_rows<CAT: ChartKey, SEG: ChartKey, VAL: ChartValue>(
    cats: Seq<CAT>,
    segs: Seq<SEG>,
    rows: Seq<(usize, SegmentedValue<VAL>)>,
    values_only: bool,
    total: int,
) -> Seq<char>
    decreases rows.len(),
{
    if rows.len() == 0 {
        Seq::empty()
    } else {
        render_rows(cats, segs, rows.drop_last(), values_only, total) + render_row(
            cats,
            segs,
            rows.last(),
            values_only,
            rows.len() == total,
        )
    }
}

/// The aggregation engine: two ordered key sets handing out category and
/// segment indices in first-seen order, and one accumulator per category
/// index, kept in ascending index order.
pub struct CategorisedValues<CAT: ChartKey, SEG: ChartKey, VAL: ChartValue> {
    /// The category keys, position is category index.
    pub category_keys: OrderedSet<CAT>,
    /// The segment keys, position is segment index.
    pub segment_keys: OrderedSet<SEG>,
    /// One `(category index, accumulator)` row per category that received
    /// data, in ascending index order.
    pub values: Vec<(usize, SegmentedValue<VAL>)>,
}

impl<CAT: ChartKey, SEG: ChartKey, VAL: ChartValue> CategorisedValues<CAT, SEG, VAL> {
    /// The histories of all rows, the model that the contracts fold over.
    pub open spec fn spec_rows(self) -> RowHistories<VAL> {
        self.values@.map_values(|row: (usize, SegmentedValue<VAL>)| (row.0, row.1.history@))
    }

    /// The invariant: both key sets are well formed, rows are sorted by
    /// category index, each row is a well-formed accumulator, and every
    /// index stored anywhere has been issued by the matching key set.
    pub open spec fn wf(self) -> bool {
        &&& self.category_keys.wf()
        &&& self.segment_keys.wf()
        &&& entries_sorted(self.values@)
        &&& forall|r: int|
            0 <= r < self.values@.len() ==> (#[trigger] self.values@[r]).0
                < self.category_keys@.len()
        &&& forall|r: int| 0 <= r < self.values@.len() ==> (#[trigger] self.values@[r]).1.wf()
        &&& forall|r: int, k: int|
            0 <= r < self.values@.len() && 0 <= k < self.values@[r].1.segments@.len() ==> (
            #[trigger] self.values@[r].1.segments@[k]).0 < self.segment_keys@.len()
    }

    /// An engine with no keys and no data.
    pub fn new() -> (r: Self)
        ensures
            r.wf(),
            r.category_keys@ == Seq::<CAT>::empty(),
            r.segment_keys@ == Seq::<SEG>::empty(),
            r.values@ == Seq::<(usize, SegmentedValue<VAL>)>::empty(),
    {
        CategorisedValues {
            category_keys: OrderedSet::new(),
            segment_keys: OrderedSet::new(),
            values: Vec::new(),
        }
    }

    /// Pre-seeds the category order: the given keys receive indices in the
    /// given order (first occurrences only) before any data-driven key.
    /// Must come before any data: it resets the category set, so indices
    /// already stored in rows would dangle otherwise.
    pub fn with_categories(self, keys: Vec<CAT>) -> (r: Self)
        requires
            self.wf(),
            self.values@.len() == 0,
        ensures
            r.wf(),
            r.category_keys@ == seq_insert_all(Seq::<CAT>::empty(), keys@),
            r.segment_keys == self.segment_keys,
            r.values@.len() == 0,
    {
        let mut result = self;
        result.category_keys.clear();
        let n = keys.len();
        let mut i: usize = 0;
        while i < n
            invariant
                i <= n,
                n == keys@.len(),
                result.category_keys.wf(),
                result.category_keys@ == seq_insert_all(Seq::<CAT>::empty(), keys@.take(i as int)),
                result.segment_keys == self.segment_keys,
                result.values@ == self.values@,
                result.values@.len() == 0,
                self.wf(),
            decreases n - i,
        {
            proof {
                crate::ordered_set::lemma_insert_all_len(Seq::<CAT>::empty(), keys@.take(i as int));
                lemma_insert_all_take_step(Seq::<CAT>::empty(), keys@, i as int);
            }
            result.category_keys.define_if_not_exist(&keys[i]);
            i += 1;
        }
        proof {
            assert(keys@.take(n as int) =~= keys@);
        }
        result
    }

    /// Pre-seeds the segment order, exactly as `with_categories` does for
    /// categories. Must come before any data.
    pub fn with_segments(self, keys: Vec<SEG>) -> (r: Self)
        requires
            self.wf(),
            self.values@.len() == 0,
        ensures
            r.wf(),
            r.segment_keys@ == seq_insert_all(Seq::<SEG>::empty(), keys@),
            r.category_keys == self.category_keys,
            r.values@.len() == 0,
    {
        let mut result = self;
        result.segment_keys.clear();
        let n = keys.len();
        let mut i: usize = 0;
        while i < n
            invariant
                i <= n,
                n == keys@.len(),
                result.segment_keys.wf(),
                result.segment_keys@ == seq_insert_all(Seq::<SEG>::empty(), keys@.take(i as int)),
                result.category_keys == self.category_keys,
                result.values@ == self.values@,
                result.values@.len() == 0,
                self.wf(),
            decreases n - i,
        {
            proof {
                crate::ordered_set::lemma_insert_all_len(Seq::<SEG>::empty(), keys@.take(i as int));
                lemma_insert_all_take_step(Seq::<SEG>::empty(), keys@, i as int);
            }
            result.segment_keys.define_if_not_exist(&keys[i]);
            i += 1;
        }
        proof {
            assert(keys@.take(n as int) =~= keys@);
        }
        result
    }

    /// Adds `value` into the accumulator of category index `bar_index`,
    /// segment index `stack_index`, creating the row when absent.
    fn add_to_category(&mut self, bar_index: usize, stack_index: usize, value: VAL)
        requires
            old(self).wf(),
            bar_index < old(self).category_keys@.len(),
            stack_index < old(self).segment_keys@.len(),
            has_entry(old(self).spec_rows(), bar_index) ==> ({
                let hist = entry_value(old(self).spec_rows(), bar_index);
                &&& sum_of(hist).can_add(value)
                &&& (segment_history(hist, stack_index).len() > 0 ==> sum_of(
                    segment_history(hist, stack_index),
                ).can_add(value))
            }),
        ensures
            final(self).wf(),
            final(self).category_keys == old(self).category_keys,
            final(self).segment_keys == old(self).segment_keys,
            final(self).spec_rows() == rows_add(
                old(self).spec_rows(),
                bar_index,
                stack_index,
                value,
            ),
    {
        let ghost oldrows = self.spec_rows();
        let ghost oldvals = self.values@;
        proof {
            assert forall|r: int| 0 <= r < oldvals.len() implies (#[trigger] oldrows[r]).0
                == oldvals[r].0 && oldrows[r].1 == oldvals[r].1.history@ by {}
            assert(entries_sorted(oldrows));
        }
        let n = self.values.len();
        let mut i: usize = 0;
        while i < n && self.values[i].0 < bar_index
            invariant
                i <= n,
                self == old(self),
                n == self.values@.len(),
                forall|j: int| 0 <= j < i ==> (#[trigger] self.values@[j]).0 < bar_index,
            decreases n - i,
        {
            i += 1;
        }
        if i < n && self.values[i].0 == bar_index {
            let mut row = self.values.remove(i);
            proof {
                lemma_entry_value_at(oldrows, bar_index, i as int);
                assert(oldrows[i as int].1 == row.1.history@);
                assert(entry_value(oldrows, bar_index) == row.1.history@);
                assert(row.1.wf());
                assert(row.1.magnitude == sum_of(row.1.history@));
                if has_entry(row.1.segments@, stack_index) {
                    let w = choose|w: int|
                        0 <= w < row.1.segments@.len() && (#[trigger] row.1.segments@[w]).0
                            == stack_index;
                    assert(row.1.segments@[w].1 == sum_of(
                        segment_history(row.1.history@, stack_index),
                    ));
                    assert(segment_history(row.1.history@, stack_index).len() > 0);
                    lemma_entry_value_at(row.1.segments@, stack_index, w);
                }
            }
            row.1.add(stack_index, value);
            self.values.insert(i, row);
            proof {
                lemma_rows_add_found(oldrows, bar_index, stack_index, value, i as int);
                let new = self.values@;
                assert(new =~= oldvals.update(i as int, new[i as int]));
                assert(self.spec_rows() =~= rows_add(oldrows, bar_index, stack_index, value));
                assert forall|r: int| 0 <= r < new.len() implies (#[trigger] new[r]).0
                    == oldvals[r].0 by {}
                assert(entries_sorted(new));
                assert forall|r: int, k: int|
                    0 <= r < new.len() && 0 <= k < new[r].1.segments@.len() implies (
                #[trigger] new[r].1.segments@[k]).0 < self.segment_keys@.len() by {
                    if r == i {
                        let seg = new[r].1.segments@[k].0;
                        if seg != stack_index {
                            assert(new[r].1.spec_value_of(seg) == oldvals[r].1.spec_value_of(seg));
                            lemma_entry_value_at(new[r].1.segments@, seg, k);
                            assert(has_entry(oldvals[r].1.segments@, seg));
                            let w = choose|w: int|
                                0 <= w < oldvals[r].1.segments@.len()
                                    && (#[trigger] oldvals[r].1.segments@[w]).0 == seg;
                            assert(oldvals[r].1.segments@[w].0 < self.segment_keys@.len());
                        }
                    }
                }
            }
        } else {
            proof {
                assert forall|r: int| 0 <= r < oldrows.len() implies (#[trigger] oldrows[r]).0
                    != bar_index by {
                    if r > i {
                        assert(oldvals[i as int].0 < oldvals[r].0);
                    }
                }
                if has_entry(oldrows, bar_index) {
                    let w = choose|w: int|
                        0 <= w < oldrows.len() && (#[trigger] oldrows[w]).0 == bar_index;
                    assert(false);
                }
            }
            let mut sv: SegmentedValue<VAL> = SegmentedValue::new();
            proof {
                if has_entry(sv.segments@, stack_index) {
                    let w = choose|w: int|
                        0 <= w < sv.segments@.len() && (#[trigger] sv.segments@[w]).0
                            == stack_index;
                    assert(false);
                }
                VAL::lemma_zero_add(value);
            }
            let ghost sv0 = sv;
            sv.add(stack_index, value);
            proof {
                assert forall|k: int| 0 <= k < sv.segments@.len() implies (
                #[trigger] sv.segments@[k]).0 < self.segment_keys@.len() by {
                    let seg = sv.segments@[k].0;
                    if seg != stack_index {
                        assert(sv.segments@[k].0 == seg);
                        assert(has_entry(sv.segments@, seg));
                        assert(sv.spec_value_of(seg) == sv0.spec_value_of(seg));
                        if has_entry(sv0.segments@, seg) {
                            let w = choose|w: int|
                                0 <= w < sv0.segments@.len() && (#[trigger] sv0.segments@[w]).0
                                    == seg;
                            assert(false);
                        }
                        assert(false);
                    }
                }
            }
            self.values.insert(i, (bar_index, sv));
            proof {
                lemma_rows_add_new(oldrows, bar_index, stack_index, value, i as int);
                let new = self.values@;
                assert(new == oldvals.insert(i as int, new[i as int]));
                assert(sv.history@ =~= seq![(stack_index, value)]);
                assert(self.spec_rows() =~= rows_add(oldrows, bar_index, stack_index, value));
                assert forall|k: int| 0 <= k < new.len() implies #[trigger] new[k] == (if k
                    < i {
                    oldvals[k]
                } else if k == i {
                    (bar_index, sv)
                } else {
                    oldvals[k - 1]
                }) by {}
                assert forall|j: int| i <= j < oldvals.len() implies (#[trigger] oldvals[j]).0
                    > bar_index by {
                    if j > i {
                        assert(oldvals[i as int].0 < oldvals[j].0);
                    }
                }
                assert forall|k1: int, k2: int| 0 <= k1 < k2 < new.len() implies (
                #[trigger] new[k1]).0 < (#[trigger] new[k2]).0 by {
                    if k2 < i {
                        assert(oldvals[k1].0 < oldvals[k2].0);
                    } else if k2 == i {
                        assert(new[k1] == oldvals[k1]);
                    } else if k1 < i {
                        assert(new[k2] == oldvals[k2 - 1]);
                        assert(oldvals[k2 - 1].0 > bar_index);
                        assert(oldvals[k1].0 < bar_index);
                    } else if k1 == i {
                        assert(new[k2] == oldvals[k2 - 1]);
                        assert(oldvals[k2 - 1].0 > bar_index);
                    } else {
                        assert(oldvals[k1 - 1].0 < oldvals[k2 - 1].0);
                    }
                }
                assert(entries_sorted(new));
            }
        }
    }

    /// Converts, resolves, and accumulates every datum of `data`, in
    /// order. Repeated calls keep accumulating; nothing is replaced.
    pub fn add_data(self, data: Vec<CategorisedValue<CAT, SEG, VAL>>) -> (r: Self)
        requires
            self.wf(),
            spec_can_aggregate(self.category_keys@, self.segment_keys@, self.spec_rows(), data@),
        ensures
            r.wf(),
            ({
                let st = spec_aggregate(
                    self.category_keys@,
                    self.segment_keys@,
                    self.spec_rows(),
                    data@,
                );
                &&& r.category_keys@ == st.0
                &&& r.segment_keys@ == st.1
                &&& r.spec_rows() == st.2
            }),
    {
        let ghost c0 = self.category_keys@;
        let ghost s0 = self.segment_keys@;
        let ghost r0 = self.spec_rows();
        let mut result = self;
        let n = data.len();
        let mut i: usize = 0;
        proof {
            assert(data@.take(0) =~= Seq::<CategorisedValue<CAT, SEG, VAL>>::empty());
            assert(data@.skip(0) =~= data@);
        }
        while i < n
            invariant
                i <= n,
                n == data@.len(),
                result.wf(),
                ({
                    let st = spec_aggregate(c0, s0, r0, data@.take(i as int));
                    &&& result.category_keys@ == st.0
                    &&& result.segment_keys@ == st.1
                    &&& result.spec_rows() == st.2
                }),
                spec_can_aggregate(
                    result.category_keys@,
                    result.segment_keys@,
                    result.spec_rows(),
                    data@.skip(i as int),
                ),
            decreases n - i,
        {
            let ghost cats = result.category_keys@;
            let ghost segs = result.segment_keys@;
            let ghost rows = result.spec_rows();
            let d = &data[i];
            proof {
                assert(data@.skip(i as int)[0] == data@[i as int]);
                assert(spec_can_step(cats, segs, rows, data@[i as int]));
            }
            let bar_index = result.category_keys.define_if_not_exist(&d.category_key);
            proof {
                if seq_contains_key(cats, d.category_key) {
                    lemma_first_index_of_match(cats, d.category_key, bar_index as int);
                }
                assert(bar_index == assigned_index(cats, d.category_key));
            }
            let stack_index = result.segment_keys.define_if_not_exist(&d.segment_key);
            proof {
                if seq_contains_key(segs, d.segment_key) {
                    lemma_first_index_of_match(segs, d.segment_key, stack_index as int);
                }
                assert(stack_index == assigned_index(segs, d.segment_key));
                assert forall|r: int| 0 <= r < result.values@.len() implies (
                #[trigger] result.values@[r]).0 < result.category_keys@.len() by {}
            }
            result.add_to_category(bar_index, stack_index, d.value);
            proof {
                let st = spec_step(cats, segs, rows, data@[i as int]);
                assert(result.category_keys@ == st.0);
                assert(result.segment_keys@ == st.1);
                assert(result.spec_rows() == st.2);
                lemma_aggregate_take_step(c0, s0, r0, data@, i as int);
                assert(data@.skip(i as int).drop_first() =~= data@.skip(i as int + 1));
            }
            i += 1;
        }
        proof {
            assert(data@.take(n as int) =~= data@);
        }
        result
    }

    /// The `(category index, accumulator)` rows in ascending category
    /// index order.
    pub fn categories(&self) -> (r: &Vec<(usize, SegmentedValue<VAL>)>)
        ensures
            r@ == self.values@,
    {
        &self.values
    }

    /// The category key that holds `index`.
    pub fn category_index_to_label(&self, index: usize) -> (r: &CAT)
        requires
            index < self.category_keys@.len(),
        ensures
            *r == self.category_keys@[index as int],
    {
        match self.category_keys.key(index) {
            Some(k) => k,
            None => {
                proof {
                    assert(false);
                }
                vstd::pervasive::unreached()
            },
        }
    }

    /// The segment key that holds `index`.
    pub fn segment_index_to_label(&self, index: usize) -> (r: &SEG)
        requires
            index < self.segment_keys@.len(),
        ensures
            *r == self.segment_keys@[index as int],
    {
        match self.segment_keys.key(index) {
            Some(k) => k,
            None => {
                proof {
                    assert(false);
                }
                vstd::pervasive::unreached()
            },
        }
    }

    /// The full textual rendering: `{}` when no category holds data, else
    /// one line per category between `{` and ` }`.
    pub open spec fn render_spec(self) -> Seq<char> {
        if self.values@.len() == 0 {
            seq!['{', '}']
        } else {
            seq!['{', '\n'] + render_rows(
                self.category_keys@,
                self.segment_keys@,
                self.values@,
                self.segment_keys@.len() < 2,
                self.values@.len() as int,
            ) + seq![' ', '}']
        }
    }

    /// Renders the whole engine as text, exactly as `render_spec` says.
    #[verifier::rlimit(80)]
    pub fn to_string(&self) -> (r: String)
        requires
            self.wf(),
        ensures
            r@ == self.render_spec(),
    {
        let mut out = String::new();
        let n = self.values.len();
        if n == 0 {
            push_char(&mut out, '{');
            push_char(&mut out, '}');
            proof {
                assert(out@ =~= self.render_spec());
            }
            return out;
        }
        let values_only = self.segment_keys.len() < 2;
        push_char(&mut out, '{');
        push_char(&mut out, '\n');
        let ghost cats = self.category_keys@;
        let ghost segs = self.segment_keys@;
        let mut i: usize = 0;
        while i < n
            invariant
                i <= n,
                n == self.values@.len(),
                self.wf(),
                values_only == (self.segment_keys@.len() < 2),
                cats == self.category_keys@,
                segs == self.segment_keys@,
                out@ == seq!['{', '\n'] + render_rows(
                    cats,
                    segs,
                    self.values@.take(i as int),
                    values_only,
                    n as int,
                ),
            decreases n - i,
        {
            let ghost row_start = out@;
            let row = &self.values[i];
            push_char(&mut out, '\t');
            let cat_label = self.category_index_to_label(row.0).key_label();
            out.append(cat_label.as_str());
            push_char(&mut out, ':');
            push_char(&mut out, ' ');
            if !values_only {
                push_char(&mut out, '{');
                push_char(&mut out, ' ');
            }
            let ghost entries = row.1.segments@;
            let ghost body_start = out@;
            let m = row.1.segments.len();
            let mut k: usize = 0;
            while k < m
                invariant
                    k <= m,
                    i < n,
                    n == self.values@.len(),
                    self.wf(),
                    values_only == (self.segment_keys@.len() < 2),
                    segs == self.segment_keys@,
                    entries == self.values@[i as int].1.segments@,
                    m == entries.len(),
                    out@ == body_start + render_entries(
                        segs,
                        entries.take(k as int),
                        values_only,
                    ),
                decreases m - k,
            {
                if k > 0 {
                    push_char(&mut out, ',');
                    push_char(&mut out, ' ');
                }
                let entry = self.values[i].1.segments[k];
                if !values_only {
                    let seg_label = self.segment_index_to_label(entry.0).key_label();
                    out.append(seg_label.as_str());
                    push_char(&mut out, ':');
                    push_char(&mut out, ' ');
                }
                let val_label = entry.1.value_label();
                out.append(val_label.as_str());
                proof {
                    assert(entries.take(k as int + 1).drop_last() =~= entries.take(k as int));
                    assert(entries.take(k as int + 1).last() == entries[k as int]);
                    assert(out@ =~= body_start + render_entries(
                        segs,
                        entries.take(k as int + 1),
                        values_only,
                    ));
                }
                k += 1;
            }
            proof {
                assert(entries.take(m as int) =~= entries);
            }
            if !values_only {
                push_char(&mut out, ' ');
                push_char(&mut out, '}');
            }
            if i + 1 < n {
                push_char(&mut out, ',');
            }
            push_char(&mut out, '\n');
            proof {
                assert(self.values@.take(i as int + 1).drop_last() =~= self.values@.take(
                    i as int,
                ));
                assert(self.values@.take(i as int + 1).last() == self.values@[i as int]);
                assert(out@ =~= row_start + render_row(
                    cats,
                    segs,
                    self.values@[i as int],
                    values_only,
                    i + 1 == n,
                ));
                assert(out@ =~= seq!['{', '\n'] + render_rows(
                    cats,
                    segs,
                    self.values@.take(i as int + 1),
                    values_only,
                    n as int,
                ));
            }
            i += 1;
        }
        proof {
            assert(self.values@.take(n as int) =~= self.values@);
        }
        push_char(&mut out, ' ');
        push_char(&mut out, '}');
        proof {
            assert(out@ =~= self.render_spec());
        }
        out
    }
}

} // verus!
