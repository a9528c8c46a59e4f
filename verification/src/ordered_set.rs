//! A set that assigns stable, first-seen-order indices to keys.

use vstd::prelude::*;

use crate::keys::ChartKey;

verus! {

/// Whether some key of `s` is `key_eq`-equal to `key`.
pub open spec fn seq_contains_key<K: ChartKey>(s: Seq<K>, key: K) -> bool {
    exists|i: int| 0 <= i < s.len() && s[i].key_eq(&key)
}

/// The least index of `s` whose key is `key_eq`-equal to `key`.
pub open spec fn seq_first_index<K: ChartKey>(s: Seq<K>, key: K) -> int
    recommends
        seq_contains_key(s, key),
    decreases s.len(),
{
    if s.len() == 0 {
        0
    } else if s[0].key_eq(&key) {
        0
    } else {
        1 + seq_first_index(s.drop_first(), key)
    }
}

/// What one "define if not exists" does to the key sequence: nothing when a
/// `key_eq`-equal key is present, an append otherwise.
pub open spec fn seq_define<K: ChartKey>(s: Seq<K>, key: K) -> Seq<K> {
    if seq_contains_key(s, key) {
        s
    } else {
        s.push(key)
    }
}

/// `seq_define` folded over a sequence of keys, left to right.
pub open spec fn seq_insert_all<K: ChartKey>(s: Seq<K>, keys: Seq<K>) -> Seq<K>
    decreases keys.len(),
{
    if keys.len() == 0 {
        s
    } else {
        seq_insert_all(seq_define(s, keys[0]), keys.drop_first())
    }
}

/// Well-formedness of a key sequence: no two keys are `key_eq`-equal.
pub open spec fn seq_wf<K: ChartKey>(s: Seq<K>) -> bool {
    forall|i: int, j: int| 0 <= i < j < s.len() ==> !(#[trigger] s[i].key_eq(&s[j]))
}

/// A bijection between keys and their insertion ranks: the key inserted
/// first (among `key_eq`-distinct keys) holds index 0, the next new one
/// index 1, and so on. Indices never change once assigned; re-inserting an
/// existing key changes nothing.
pub struct OrderedSet<K: ChartKey> {
    /// The distinct keys, in first-seen order; position is index.
    pub list: Vec<K>,
}

impl<K: ChartKey> View for OrderedSet<K> {
    type V = Seq<K>;

    open spec fn view(&self) -> Seq<K> {
        self.list@
    }
}

impl<K: ChartKey> OrderedSet<K> {
    /// The invariant: no two stored keys are `key_eq`-equal.
    pub open spec fn wf(&self) -> bool {
        seq_wf(self@)
    }

    /// An empty set.
    pub fn new() -> (s: Self)
        ensures
            s@ == Seq::<K>::empty(),
            s.wf(),
    {
        OrderedSet { list: Vec::new() }
    }

    /// Removes every key; all previously issued indices become invalid.
    pub fn clear(&mut self)
        ensures
            final(self)@ == Seq::<K>::empty(),
            final(self).wf(),
    {
        self.list.clear();
    }

    /// The number of distinct keys defined so far.
    pub fn len(&self) -> (n: usize)
        ensures
            n == self@.len(),
    {
        self.list.len()
    }

    /// Returns the index of `key`, appending it at the next index (the
    /// current size) first when no `key_eq`-equal key is present.
    pub fn define_if_not_exist(&mut self, key: &K) -> (index: usize)
        requires
            old(self).wf(),
            old(self)@.len() < usize::MAX,
        ensures
            final(self).wf(),
            final(self)@ == seq_define(old(self)@, *key),
            index < final(self)@.len(),
            final(self)@[index as int].key_eq(key),
            forall|j: int| 0 <= j < index ==> !(#[trigger] final(self)@[j].key_eq(key)),
            seq_contains_key(old(self)@, *key) ==> final(self)@ == old(self)@,
            !seq_contains_key(old(self)@, *key) ==> index == old(self)@.len(),
    {
        let n = self.list.len();
        let mut i: usize = 0;
        while i < n
            invariant
                i <= n,
                n == self.list@.len(),
                self == old(self),
                self.wf(),
                forall|j: int| 0 <= j < i ==> !(#[trigger] self.list@[j].key_eq(key)),
            decreases n - i,
        {
            if self.list[i].eq_key(key) {
                return i;
            }
            i += 1;
        }
        let fresh = key.clone_key();
        self.list.push(fresh);
        proof {
            key.lemma_key_eq_reflexive();
        }
        n
    }

    /// The index of `key`, or `None` when no `key_eq`-equal key is present.
    pub fn index_of(&self, key: &K) -> (r: Option<usize>)
        ensures
            match r {
                Some(i) => i < self@.len() && self@[i as int].key_eq(key) && (forall|j: int|
                    0 <= j < i ==> !(#[trigger] self@[j].key_eq(key))),
                None => forall|j: int| 0 <= j < self@.len() ==> !(#[trigger] self@[j].key_eq(key)),
            },
    {
        let n = self.list.len();
        let mut i: usize = 0;
        while i < n
            invariant
                i <= n,
                n == self.list@.len(),
                forall|j: int| 0 <= j < i ==> !(#[trigger] self.list@[j].key_eq(key)),
            decreases n - i,
        {
            if self.list[i].eq_key(key) {
                return Some(i);
            }
            i += 1;
        }
        None
    }

    /// The key stored at `index`, or `None` when `index` is out of bounds.
    pub fn key(&self, index: usize) -> (r: Option<&K>)
        ensures
            match r {
                Some(k) => index < self@.len() && *k == self@[index as int],
                None => index >= self@.len(),
            },
    {
        if index < self.list.len() {
            Some(&self.list[index])
        } else {
            None
        }
    }

    /// The keys in index order.
    pub fn iter(&self) -> (r: &Vec<K>)
        ensures
            r@ == self@,
    {
        &self.list
    }
}

/// A define never disturbs indices already assigned: every existing
/// position keeps its key, whatever key comes in.
pub proof fn lemma_define_stable<K: ChartKey>(s: Seq<K>, key: K)
    ensures
        seq_define(s, key).len() >= s.len(),
        forall|i: int| 0 <= i < s.len() ==> seq_define(s, key)[i] == s[i],
{
}

/// Re-inserting a key that is already present changes neither the size nor
/// any index.
pub proof fn lemma_reinsert_unchanged<K: ChartKey>(s: Seq<K>, key: K)
    requires
        seq_contains_key(s, key),
    ensures
        seq_define(s, key) == s,
{
}

/// In a well-formed set each key matches exactly one index.
pub proof fn lemma_index_unique<K: ChartKey>(s: Seq<K>, key: K, i: int, j: int)
    requires
        seq_wf(s),
        0 <= i < s.len(),
        0 <= j < s.len(),
        s[i].key_eq(&key),
        s[j].key_eq(&key),
    ensures
        i == j,
{
    if i != j {
        let a = if i < j { i } else { j };
        let b = if i < j { j } else { i };
        s[b].lemma_key_eq_symmetric(&key);
        s[a].lemma_key_eq_transitive(&key, &s[b]);
        assert(false);
    }
}

/// Processing keys in two batches equals processing their concatenation.
pub proof fn lemma_insert_all_append<K: ChartKey>(s: Seq<K>, a: Seq<K>, b: Seq<K>)
    ensures
        seq_insert_all(s, a + b) == seq_insert_all(seq_insert_all(s, a), b),
    decreases a.len(),
{
    if a.len() == 0 {
        assert(a + b =~= b);
    } else {
        assert((a + b)[0] == a[0]);
        assert((a + b).drop_first() =~= a.drop_first() + b);
        lemma_insert_all_append(seq_define(s, a[0]), a.drop_first(), b);
    }
}

/// Inserting more keys only appends: the existing prefix stays intact.
pub proof fn lemma_insert_all_stable<K: ChartKey>(s: Seq<K>, keys: Seq<K>)
    ensures
        seq_insert_all(s, keys).len() >= s.len(),
        forall|i: int| 0 <= i < s.len() ==> seq_insert_all(s, keys)[i] == s[i],
    decreases keys.len(),
{
    if keys.len() > 0 {
        let s1 = seq_define(s, keys[0]);
        lemma_insert_all_stable(s1, keys.drop_first());
        let out = seq_insert_all(s, keys);
        assert(out == seq_insert_all(s1, keys.drop_first()));
        assert forall|i: int| 0 <= i < s.len() implies out[i] == s[i] by {
            assert(out[i] == s1[i]);
            assert(s1[i] == s[i]);
        }
    }
}

/// Inserting keys grows the set by at most one index per key.
pub proof fn lemma_insert_all_len<K: ChartKey>(s: Seq<K>, keys: Seq<K>)
    ensures
        seq_insert_all(s, keys).len() <= s.len() + keys.len(),
    decreases keys.len(),
{
    if keys.len() > 0 {
        lemma_insert_all_len(seq_define(s, keys[0]), keys.drop_first());
    }
}

/// Extending the processed prefix by one key applies one more define.
pub proof fn lemma_insert_all_take_step<K: ChartKey>(s: Seq<K>, keys: Seq<K>, i: int)
    requires
        0 <= i < keys.len(),
    ensures
        seq_insert_all(s, keys.take(i + 1)) == seq_define(
            seq_insert_all(s, keys.take(i)),
            keys[i],
        ),
{
    assert(keys.take(i + 1) =~= keys.take(i) + seq![keys[i]]);
    lemma_insert_all_append(s, keys.take(i), seq![keys[i]]);
    let p = seq_insert_all(s, keys.take(i));
    let single = seq![keys[i]];
    assert(single.len() == 1);
    assert(single[0] == keys[i]);
    assert(single.drop_first().len() == 0);
    assert(seq_insert_all(p, single) == seq_insert_all(seq_define(p, keys[i]), single.drop_first()));
}

/// A key is found in the final set exactly when an original key or one of
/// the inserted keys matches it.
pub proof fn lemma_insert_all_contains<K: ChartKey>(s: Seq<K>, keys: Seq<K>, key: K)
    ensures
        seq_contains_key(seq_insert_all(s, keys), key) <==> (seq_contains_key(s, key) || exists|
            i: int,
        | 0 <= i < keys.len() && (#[trigger] keys[i].key_eq(&key))),
    decreases keys.len(),
{
    if keys.len() > 0 {
        let s1 = seq_define(s, keys[0]);
        lemma_insert_all_contains(s1, keys.drop_first(), key);
        assert forall|i: int| 0 <= i < keys.drop_first().len() implies keys.drop_first()[i]
            == keys[i + 1] by {}
        if seq_contains_key(s, keys[0]) {
            if keys[0].key_eq(&key) {
                let w = choose|w: int| 0 <= w < s.len() && s[w].key_eq(&keys[0]);
                s[w].lemma_key_eq_transitive(&keys[0], &key);
                assert(seq_contains_key(s, key));
            }
        } else {
            assert(s1 == s.push(keys[0]));
            assert(s1[s.len() as int] == keys[0]);
            if seq_contains_key(s1, key) {
                let w = choose|w: int| 0 <= w < s1.len() && s1[w].key_eq(&key);
                if w < s.len() {
                    assert(seq_contains_key(s, key));
                } else {
                    assert(keys[0].key_eq(&key));
                }
            }
            if seq_contains_key(s, key) {
                let w = choose|w: int| 0 <= w < s.len() && s[w].key_eq(&key);
                assert(s1[w].key_eq(&key));
                assert(seq_contains_key(s1, key));
            }
            if keys[0].key_eq(&key) {
                assert(s1[s.len() as int].key_eq(&key));
                assert(seq_contains_key(s1, key));
            }
        }
        if exists|i: int| 0 <= i < keys.len() && (#[trigger] keys[i].key_eq(&key)) {
            let i = choose|i: int| 0 <= i < keys.len() && (#[trigger] keys[i].key_eq(&key));
            if i > 0 {
                assert(keys.drop_first()[i - 1].key_eq(&key));
            }
        }
    }
}

/// When neither the present keys nor the inserted keys match `key`, no key
/// of the final set matches it either.
pub proof fn lemma_insert_all_no_match<K: ChartKey>(s: Seq<K>, keys: Seq<K>, key: K)
    requires
        forall|i: int| 0 <= i < s.len() ==> !(#[trigger] s[i].key_eq(&key)),
        forall|m: int| 0 <= m < keys.len() ==> !(#[trigger] keys[m].key_eq(&key)),
    ensures
        forall|i: int|
            0 <= i < seq_insert_all(s, keys).len() ==> !(#[trigger] seq_insert_all(s, keys)[i].key_eq(
                &key,
            )),
    decreases keys.len(),
{
    if keys.len() > 0 {
        let s1 = seq_define(s, keys[0]);
        assert forall|i: int| 0 <= i < s1.len() implies !(#[trigger] s1[i].key_eq(&key)) by {
            if i < s.len() {
                assert(s1[i] == s[i]);
            } else {
                assert(s1[i] == keys[0]);
            }
        }
        assert forall|m: int| 0 <= m < keys.drop_first().len() implies !(
        #[trigger] keys.drop_first()[m].key_eq(&key)) by {
            assert(keys.drop_first()[m] == keys[m + 1]);
        }
        lemma_insert_all_no_match(s1, keys.drop_first(), key);
        let out = seq_insert_all(s, keys);
        assert(out == seq_insert_all(s1, keys.drop_first()));
        assert forall|i: int| 0 <= i < out.len() implies !(#[trigger] out[i].key_eq(&key)) by {
            assert(!seq_insert_all(s1, keys.drop_first())[i].key_eq(&key));
        }
    }
}

/// `seq_first_index` is the least matching index.
pub proof fn lemma_first_index_of_match<K: ChartKey>(s: Seq<K>, key: K, m: int)
    requires
        0 <= m < s.len(),
        s[m].key_eq(&key),
        forall|i: int| 0 <= i < m ==> !(#[trigger] s[i].key_eq(&key)),
    ensures
        seq_contains_key(s, key),
        seq_first_index(s, key) == m,
    decreases m,
{
    if m > 0 {
        assert(s.drop_first()[m - 1] == s[m]);
        assert forall|i: int| 0 <= i < m - 1 implies !(#[trigger] s.drop_first()[i].key_eq(&key)) by {
            assert(s.drop_first()[i] == s[i + 1]);
        }
        lemma_first_index_of_match(s.drop_first(), key, m - 1);
    }
}

/// The heart of the first-seen ordering: when a whole sequence of keys is
/// inserted into an empty set, the first occurrence of each distinct key
/// receives the index equal to the number of distinct keys seen strictly
/// before it, and keeps that index to the end.
pub proof fn lemma_first_occurrence_rank<K: ChartKey>(keys: Seq<K>, j: int)
    requires
        0 <= j < keys.len(),
        forall|j2: int| 0 <= j2 < j ==> !(#[trigger] keys[j2].key_eq(&keys[j])),
    ensures
        ({
            let s = seq_insert_all(Seq::<K>::empty(), keys);
            let rank = seq_insert_all(Seq::<K>::empty(), keys.take(j)).len();
            &&& seq_contains_key(s, keys[j])
            &&& seq_first_index(s, keys[j]) == rank
            &&& s[rank as int].key_eq(&keys[j])
        }),
{
    let empty = Seq::<K>::empty();
    let p = seq_insert_all(empty, keys.take(j));
    let rank = p.len() as int;
    lemma_insert_all_contains(empty, keys.take(j), keys[j]);
    assert forall|i: int| 0 <= i < keys.take(j).len() implies !(#[trigger] keys.take(j)[i].key_eq(
        &keys[j],
    )) by {
        assert(keys.take(j)[i] == keys[i]);
    }
    assert(!seq_contains_key(p, keys[j]));
    assert(keys.take(j + 1) =~= keys.take(j) + seq![keys[j]]);
    lemma_insert_all_append(empty, keys.take(j), seq![keys[j]]);
    let single = seq![keys[j]];
    let p2 = seq_insert_all(p, single);
    assert(single.len() == 1);
    assert(single[0] == keys[j]);
    assert(seq_define(p, keys[j]) == p.push(keys[j]));
    assert(single.drop_first().len() == 0);
    assert(p2 == seq_insert_all(p.push(keys[j]), single.drop_first()));
    assert(p2 == p.push(keys[j]));
    assert(keys =~= keys.take(j + 1) + keys.skip(j + 1));
    lemma_insert_all_append(empty, keys.take(j + 1), keys.skip(j + 1));
    let s = seq_insert_all(empty, keys);
    assert(s == seq_insert_all(p2, keys.skip(j + 1)));
    lemma_insert_all_stable(p2, keys.skip(j + 1));
    assert(p2[rank] == keys[j]);
    assert(s[rank] == keys[j]);
    keys[j].lemma_key_eq_reflexive();
    lemma_insert_all_no_match(empty, keys.take(j), keys[j]);
    assert forall|i: int| 0 <= i < rank implies !(#[trigger] s[i].key_eq(&keys[j])) by {
        assert(s[i] == p2[i]);
        assert(p2[i] == p[i]);
        assert(!p[i].key_eq(&keys[j]));
    }
    lemma_first_index_of_match(s, keys[j], rank);
}

} // verus!
