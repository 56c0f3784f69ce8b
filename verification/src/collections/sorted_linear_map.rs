use super::key::{KeyOrder, SortKey};
use vstd::prelude::*;
use vstd::string::StringExecFns;
use crate::display::{debug_entry, is_entry_text, join_comma, string_push};
use vstd::std_specs::cmp::PartialEqSpec;
use vstd::std_specs::iter::IteratorSpec;

verus! {

/// A map kept as a vector of entries sorted by key, with no key twice. Lookups are binary
/// searches; insertions and removals shift the entries after the position.
#[derive(Clone)]
pub struct SortedLinearMap<K: SortKey, V> {
    data: Vec<(K, V)>,
}

impl<K: SortKey, V> SortedLinearMap<K, V> {
    /// The entries in key order.
    pub closed spec fn entries(&self) -> Seq<(K, V)> {
        self.data@
    }

    /// The views of the keys, in order.
    pub open spec fn keys(&self) -> Seq<K::V> {
        self.entries().map_values(|e: (K, V)| e.0@)
    }

    /// Keys are strictly increasing.
    pub open spec fn wf(&self) -> bool {
        forall|i: int, j: int|
            0 <= i < j < self.entries().len() ==> K::view_lt(
                #[trigger] self.entries()[i].0@,
                #[trigger] self.entries()[j].0@,
            )
    }

    /// The map from (views of) keys to values.
    pub open spec fn view(&self) -> Map<K::V, V> {
        Map::new(
            |k: K::V| self.keys().contains(k),
            |k: K::V| self.entries()[self.keys().index_of(k)].1,
        )
    }

    /// The entry at `i` is what the map holds for its key.
    pub proof fn lemma_view_at(&self, i: int)
        requires
            self.wf(),
            0 <= i < self.entries().len(),
        ensures
            self@.contains_key(self.entries()[i].0@),
            self@[self.entries()[i].0@] == self.entries()[i].1,
    {
        let k = self.entries()[i].0@;
        assert(self.keys()[i] == k);
        assert(self.keys().contains(k));
        let j = self.keys().index_of(k);
        assert(self.keys()[j] == k);
        if j != i {
            K::lemma_lt_irreflexive(k);
            if j < i {
                assert(K::view_lt(self.entries()[j].0@, self.entries()[i].0@));
            } else {
                assert(K::view_lt(self.entries()[i].0@, self.entries()[j].0@));
            }
        }
    }

    /// A key is in the map exactly when some entry has it.
    pub proof fn lemma_view_contains(&self, k: K::V)
        ensures
            self@.contains_key(k) <==> exists|i: int|
                0 <= i < self.entries().len() && #[trigger] self.entries()[i].0@ == k,
    {
        if self@.contains_key(k) {
            let j = self.keys().index_of(k);
            assert(self.keys()[j] == k);
            assert(self.entries()[j].0@ == k);
        }
        if exists|i: int| 0 <= i < self.entries().len() && #[trigger] self.entries()[i].0@ == k {
            let i = choose|i: int| 0 <= i < self.entries().len() && #[trigger] self.entries()[i].0@ == k;
            assert(self.keys()[i] == k);
        }
    }

    /// The number of keys is the number of entries.
    pub proof fn lemma_len(&self)
        requires
            self.wf(),
        ensures
            self@.dom().finite(),
            self@.dom().len() == self.entries().len(),
    {
        let ks = self.keys();
        assert forall|i: int, j: int| 0 <= i < ks.len() && 0 <= j < ks.len() && i != j implies ks[i] != ks[j] by {
            K::lemma_lt_irreflexive(ks[i]);
            if i < j {
                assert(K::view_lt(self.entries()[i].0@, self.entries()[j].0@));
            } else {
                assert(K::view_lt(self.entries()[j].0@, self.entries()[i].0@));
            }
        }
        assert(ks.no_duplicates());
        ks.unique_seq_to_set();
        assert(self@.dom() =~= ks.to_set());
    }

    pub fn new() -> (r: Self)
        ensures
            r.wf(),
            r@ == Map::<K::V, V>::empty(),
    {
        let r = SortedLinearMap { data: Vec::new() };
        assert(r@ =~= Map::<K::V, V>::empty());
        r
    }

    pub fn with_capacity(capacity: usize) -> (r: Self)
        ensures
            r.wf(),
            r@ == Map::<K::V, V>::empty(),
    {
        let r = SortedLinearMap { data: Vec::with_capacity(capacity) };
        assert(r@ =~= Map::<K::V, V>::empty());
        r
    }

    pub fn len(&self) -> (r: usize)
        requires
            self.wf(),
        ensures
            r == self@.len(),
            r == self.entries().len(),
    {
        proof {
            self.lemma_len();
        }
        self.data.len()
    }

    pub fn is_empty(&self) -> (r: bool)
        requires
            self.wf(),
        ensures
            r <==> self@.len() == 0,
            r <==> self@ == Map::<K::V, V>::empty(),
    {
        proof {
            self.lemma_len();
            if self.entries().len() > 0 {
                self.lemma_view_at(0);
            } else {
                assert(self@ =~= Map::<K::V, V>::empty());
            }
        }
        self.data.len() == 0
    }

    /// Binary search for `key`: `Ok` with its position, or `Err` with the position where it
    /// would be inserted.
    fn search(&self, key: &K) -> (r: Result<usize, usize>)
        requires
            self.wf(),
        ensures
            r matches Ok(i) ==> i < self.entries().len() && self.entries()[i as int].0@ == key@,
            r matches Err(i) ==> {
                &&& i <= self.entries().len()
                &&& forall|j: int| 0 <= j < i ==> K::view_lt(#[trigger] self.entries()[j].0@, key@)
                &&& forall|j: int|
                    i <= j < self.entries().len() ==> K::view_lt(key@, #[trigger] self.entries()[j].0@)
            },
    {
        let mut lo: usize = 0;
        let mut hi: usize = self.data.len();
        while lo < hi
            invariant
                self.wf(),
                lo <= hi <= self.entries().len(),
                forall|j: int| 0 <= j < lo ==> K::view_lt(#[trigger] self.entries()[j].0@, key@),
                forall|j: int|
                    hi <= j < self.entries().len() ==> K::view_lt(key@, #[trigger] self.entries()[j].0@),
            decreases hi - lo,
        {
            let mid = lo + (hi - lo) / 2;
            match self.data[mid].0.compare_key(key) {
                KeyOrder::Less => {
                    assert forall|j: int| 0 <= j < mid + 1 implies K::view_lt(
                        #[trigger] self.entries()[j].0@,
                        key@,
                    ) by {
                        if j < mid {
                            K::lemma_lt_transitive(
                                self.entries()[j].0@,
                                self.entries()[mid as int].0@,
                                key@,
                            );
                        }
                    }
                    lo = mid + 1;
                },
                KeyOrder::Equal => {
                    return Ok(mid);
                },
                KeyOrder::Greater => {
                    assert forall|j: int| mid <= j < self.entries().len() implies K::view_lt(
                        key@,
                        #[trigger] self.entries()[j].0@,
                    ) by {
                        if j > mid {
                            K::lemma_lt_transitive(
                                key@,
                                self.entries()[mid as int].0@,
                                self.entries()[j].0@,
                            );
                        }
                    }
                    hi = mid;
                },
            }
        }
        Err(lo)
    }

    pub fn get(&self, key: &K) -> (r: Option<&V>)
        requires
            self.wf(),
        ensures
            r is Some <==> self@.contains_key(key@),
            r is Some ==> *r->0 == self@[key@],
    {
        match self.search(key) {
            Ok(index) => {
                proof {
                    self.lemma_view_at(index as int);
                }
                Some(&self.data[index].1)
            },
            Err(index) => {
                proof {
                    self.lemma_view_contains(key@);
                    if self@.contains_key(key@) {
                        let i = choose|i: int|
                            0 <= i < self.entries().len() && #[trigger] self.entries()[i].0@ == key@;
                        K::lemma_lt_irreflexive(key@);
                        if i < index {
                            assert(K::view_lt(self.entries()[i].0@, key@));
                        } else {
                            assert(K::view_lt(key@, self.entries()[i].0@));
                        }
                    }
                }
                None
            },
        }
    }


    /// The map is `m` when each entry agrees with `m` and each key of `m` has an entry.
    proof fn lemma_view_from_entries(&self, m: Map<K::V, V>)
        requires
            self.wf(),
            forall|i: int|
                0 <= i < self.entries().len() ==> m.contains_key(#[trigger] self.entries()[i].0@)
                    && m[self.entries()[i].0@] == self.entries()[i].1,
            forall|k: K::V|
                m.contains_key(k) ==> exists|i: int|
                    0 <= i < self.entries().len() && #[trigger] self.entries()[i].0@ == k,
        ensures
            self@ == m,
    {
        assert forall|k: K::V| self@.contains_key(k) <==> m.contains_key(k) by {
            self.lemma_view_contains(k);
        }
        assert forall|k: K::V| self@.contains_key(k) implies self@[k] == m[k] by {
            self.lemma_view_contains(k);
            let i = choose|i: int| 0 <= i < self.entries().len() && #[trigger] self.entries()[i].0@ == k;
            self.lemma_view_at(i);
        }
        assert(self@ =~= m);
    }

    /// Inserts `value` under `key`; returns the value that `key` had before, if any. An entry
    /// that is already there keeps its key.
    pub fn insert(&mut self, key: K, value: V) -> (r: Option<V>)
        requires
            old(self).wf(),
        ensures
            final(self).wf(),
            final(self)@ == old(self)@.insert(key@, value),
            r is Some <==> old(self)@.contains_key(key@),
            r is Some ==> r->0 == old(self)@[key@],
    {
        let ghost old_map = self@;
        let ghost old_entries = self.entries();
        let ghost kv = key@;
        match self.search(&key) {
            Ok(index) => {
                proof {
                    self.lemma_view_at(index as int);
                }
                let (k, old_value) = self.data.remove(index);
                self.data.insert(index, (k, value));
                proof {
                    let m = old_map.insert(kv, value);
                    assert(self.entries() =~= old_entries.update(index as int, (k, value)));
                    assert forall|i: int| 0 <= i < self.entries().len() implies m.contains_key(
                        #[trigger] self.entries()[i].0@,
                    ) && m[self.entries()[i].0@] == self.entries()[i].1 by {
                        if i != index {
                            old(self).lemma_view_at(i);
                            K::lemma_lt_irreflexive(kv);
                            if i < index {
                                assert(K::view_lt(old_entries[i].0@, old_entries[index as int].0@));
                            } else {
                                assert(K::view_lt(old_entries[index as int].0@, old_entries[i].0@));
                            }
                        }
                    }
                    assert forall|k2: K::V| m.contains_key(k2) implies exists|i: int|
                        0 <= i < self.entries().len() && #[trigger] self.entries()[i].0@ == k2 by {
                        if k2 == kv {
                            assert(self.entries()[index as int].0@ == k2);
                        } else {
                            old(self).lemma_view_contains(k2);
                            let i = choose|i: int|
                                0 <= i < old_entries.len() && #[trigger] old_entries[i].0@ == k2;
                            assert(self.entries()[i].0@ == k2);
                        }
                    }
                    self.lemma_view_from_entries(m);
                }
                Some(old_value)
            },
            Err(index) => {
                self.data.insert(index, (key, value));
                proof {
                    let m = old_map.insert(kv, value);
                    let n = self.entries();
                    assert(n =~= old_entries.insert(index as int, (key, value)));
                    assert forall|i: int, j: int| 0 <= i < j < n.len() implies K::view_lt(
                        #[trigger] n[i].0@,
                        #[trigger] n[j].0@,
                    ) by {
                        if j < index {
                        } else if j == index {
                        } else if i < index {
                            K::lemma_lt_transitive(n[i].0@, kv, n[j].0@);
                        } else if i == index {
                        } else {
                            assert(n[i] == old_entries[i - 1] && n[j] == old_entries[j - 1]);
                        }
                    }
                    old(self).lemma_view_contains(kv);
                    if old_map.contains_key(kv) {
                        let i = choose|i: int| 0 <= i < old_entries.len() && #[trigger] old_entries[i].0@ == kv;
                        K::lemma_lt_irreflexive(kv);
                        if i < index {
                            assert(K::view_lt(old_entries[i].0@, kv));
                        } else {
                            assert(K::view_lt(kv, old_entries[i].0@));
                        }
                    }
                    assert forall|i: int| 0 <= i < n.len() implies m.contains_key(
                        #[trigger] n[i].0@,
                    ) && m[n[i].0@] == n[i].1 by {
                        if i < index {
                            old(self).lemma_view_at(i);
                            K::lemma_lt_irreflexive(kv);
                        } else if i > index {
                            old(self).lemma_view_at(i - 1);
                            assert(n[i] == old_entries[i - 1]);
                            K::lemma_lt_irreflexive(kv);
                        }
                    }
                    assert forall|k2: K::V| m.contains_key(k2) implies exists|i: int|
                        0 <= i < n.len() && #[trigger] n[i].0@ == k2 by {
                        if k2 == kv {
                            assert(n[index as int].0@ == k2);
                        } else {
                            old(self).lemma_view_contains(k2);
                            let i = choose|i: int|
                                0 <= i < old_entries.len() && #[trigger] old_entries[i].0@ == k2;
                            if i < index {
                                assert(n[i].0@ == k2);
                            } else {
                                assert(n[i + 1].0@ == k2);
                            }
                        }
                    }
                    self.lemma_view_from_entries(m);
                }
                None
            },
        }
    }

    /// Removes `key`; returns the value that it had, if any.
    pub fn remove(&mut self, key: &K) -> (r: Option<V>)
        requires
            old(self).wf(),
        ensures
            final(self).wf(),
            final(self)@ == old(self)@.remove(key@),
            r is Some <==> old(self)@.contains_key(key@),
            r is Some ==> r->0 == old(self)@[key@],
    {
        let ghost old_map = self@;
        let ghost old_entries = self.entries();
        let ghost kv = key@;
        match self.search(key) {
            Ok(index) => {
                proof {
                    self.lemma_view_at(index as int);
                }
                let (_k, old_value) = self.data.remove(index);
                proof {
                    let m = old_map.remove(kv);
                    let n = self.entries();
                    assert(n =~= old_entries.remove(index as int));
                    assert forall|i: int, j: int| 0 <= i < j < n.len() implies K::view_lt(
                        #[trigger] n[i].0@,
                        #[trigger] n[j].0@,
                    ) by {
                        let oi = if i < index { i } else { i + 1 };
                        let oj = if j < index { j } else { j + 1 };
                        assert(n[i] == old_entries[oi] && n[j] == old_entries[oj]);
                    }
                    assert forall|i: int| 0 <= i < n.len() implies m.contains_key(
                        #[trigger] n[i].0@,
                    ) && m[n[i].0@] == n[i].1 by {
                        let oi = if i < index { i } else { i + 1 };
                        assert(n[i] == old_entries[oi]);
                        old(self).lemma_view_at(oi);
                        K::lemma_lt_irreflexive(kv);
                        if oi < index {
                            assert(K::view_lt(old_entries[oi].0@, old_entries[index as int].0@));
                        } else {
                            assert(K::view_lt(old_entries[index as int].0@, old_entries[oi].0@));
                        }
                    }
                    assert forall|k2: K::V| m.contains_key(k2) implies exists|i: int|
                        0 <= i < n.len() && #[trigger] n[i].0@ == k2 by {
                        old(self).lemma_view_contains(k2);
                        let i = choose|i: int|
                            0 <= i < old_entries.len() && #[trigger] old_entries[i].0@ == k2;
                        if i < index {
                            assert(n[i].0@ == k2);
                        } else {
                            assert(i != index);
                            assert(n[i - 1].0@ == k2);
                        }
                    }
                    self.lemma_view_from_entries(m);
                }
                Some(old_value)
            },
            Err(index) => {
                proof {
                    old(self).lemma_view_contains(kv);
                    if old_map.contains_key(kv) {
                        let i = choose|i: int| 0 <= i < old_entries.len() && #[trigger] old_entries[i].0@ == kv;
                        K::lemma_lt_irreflexive(kv);
                        if i < index {
                            assert(K::view_lt(old_entries[i].0@, kv));
                        } else {
                            assert(K::view_lt(kv, old_entries[i].0@));
                        }
                    }
                    assert(old_map.remove(kv) =~= old_map);
                }
                None
            },
        }
    }

    /// Removes every entry.
    pub fn clear(&mut self)
        requires
            old(self).wf(),
        ensures
            final(self).wf(),
            final(self)@ == Map::<K::V, V>::empty(),
    {
        self.data.clear();
        assert(self@ =~= Map::<K::V, V>::empty());
    }


    /// A map of the pairs of `pairs`. Where a key occurs more than once, the map holds one of
    /// the values given for it.
    pub fn from_vec(pairs: Vec<(K, V)>) -> (r: Self)
        ensures
            r.wf(),
            forall|k: K::V|
                r@.contains_key(k) <==> exists|i: int|
                    0 <= i < pairs@.len() && #[trigger] pairs@[i].0@ == k,
            forall|k: K::V|
                r@.contains_key(k) ==> exists|i: int|
                    0 <= i < pairs@.len() && #[trigger] pairs@[i].0@ == k && pairs@[i].1 == r@[k],
    {
        let ghost ps = pairs@;
        let mut map = SortedLinearMap::with_capacity(pairs.len());
        for pair in it: pairs
            invariant
                map.wf(),
                it.seq() == ps,
                forall|k: K::V|
                    map@.contains_key(k) <==> exists|i: int|
                        0 <= i < it.index() && #[trigger] ps[i].0@ == k,
                forall|k: K::V|
                    map@.contains_key(k) ==> exists|i: int|
                        0 <= i < it.index() && #[trigger] ps[i].0@ == k && ps[i].1 == map@[k],
        {
            let ghost idx = it.index();
            let (k, v) = pair;
            map.insert(k, v);
            proof {
                assert(ps[idx] == pair);
            }
        }
        map
    }

    /// The entries, in increasing key order.
    pub fn iter(&self) -> (r: core::slice::Iter<'_, (K, V)>)
        ensures
            r.remaining().map_values(|e: &(K, V)| *e) == self.entries(),
    {
        broadcast use vstd::std_specs::slice::axiom_spec_slice_iter;

        let r = self.data.as_slice().iter();
        assert(r.remaining().map_values(|e: &(K, V)| *e) =~= self.entries());
        r
    }

    /// The entries, in increasing key order, taken out of the map.
    pub fn into_iter(self) -> (r: std::vec::IntoIter<(K, V)>)
        ensures
            r.remaining() == self.entries(),
    {
        broadcast use vstd::std_specs::vec::axiom_spec_into_iter;

        self.data.into_iter()
    }

    /// The entries, in increasing key order, taken out of the map, which is left empty.
    pub fn drain(&mut self) -> (r: std::vec::IntoIter<(K, V)>)
        ensures
            r.remaining() == old(self).entries(),
            final(self).wf(),
            final(self)@ == Map::<K::V, V>::empty(),
    {
        broadcast use vstd::std_specs::vec::axiom_spec_into_iter;

        let mut data: Vec<(K, V)> = Vec::new();
        std::mem::swap(&mut data, &mut self.data);
        assert(self@ =~= Map::<K::V, V>::empty());
        data.into_iter()
    }

    /// The map as `Debug` shows a map: `{k1: v1, k2: v2}`, one `key: value` text for each
    /// entry, joined by `, `, in braces. The entries come in increasing key order; the text of
    /// each key and value is their own `Debug`, which is left unsaid here.
    pub fn debug_text(&self) -> (r: String) where K: core::fmt::Debug, V: core::fmt::Debug
        ensures
            exists|pieces: Seq<Seq<char>>|
                #![trigger join_comma(pieces)]
                {
                    &&& pieces.len() == self.entries().len()
                    &&& forall|i: int| 0 <= i < pieces.len() ==> is_entry_text(#[trigger] pieces[i])
                    &&& r@ == seq!['{'] + join_comma(pieces) + seq!['}']
                },
    {
        let mut s = String::new();
        string_push(&mut s, '{');
        let ghost mut pieces: Seq<Seq<char>> = Seq::empty();
        let mut i: usize = 0;
        while i < self.data.len()
            invariant
                i <= self.data@.len(),
                pieces.len() == i,
                forall|j: int| 0 <= j < pieces.len() ==> is_entry_text(#[trigger] pieces[j]),
                s@ == seq!['{'] + join_comma(pieces),
            decreases self.data@.len() - i,
        {
            let ghost before = s@;
            if i > 0 {
                s.append(", ");
                proof {
                    reveal_strlit(", ");
                }
            }
            let entry = debug_entry(&self.data[i].0, &self.data[i].1);
            s.append(entry.as_str());
            proof {
                let old_pieces = pieces;
                pieces = pieces.push(entry@);
                assert(pieces.drop_last() =~= old_pieces);
                if i == 0 {
                    assert(s@ =~= seq!['{'] + join_comma(pieces));
                } else {
                    assert(s@ =~= seq!['{'] + join_comma(pieces));
                }
            }
            i = i + 1;
        }
        let ghost body = s@;
        string_push(&mut s, '}');
        proof {
            assert(self.entries().len() == self.data@.len());
            assert(s@ =~= seq!['{'] + join_comma(pieces) + seq!['}']);
        }
        s
    }

    pub fn contains_key(&self, key: &K) -> (r: bool)
        requires
            self.wf(),
        ensures
            r == self@.contains_key(key@),
    {
        self.get(key).is_some()
    }
}


impl<K: SortKey, V: PartialEq> SortedLinearMap<K, V> {
    /// Entry-wise equality: the same keys, in the same order, with equal values.
    pub closed spec fn entries_eq(&self, other: &Self) -> bool {
        &&& self.data@.len() == other.data@.len()
        &&& forall|i: int|
            0 <= i < self.data@.len() ==> (#[trigger] self.data@[i]).0@ == other.data@[i].0@
                && self.data@[i].1.eq_spec(&other.data@[i].1)
    }
}

/// Two well-formed maps are equal, entry by entry, exactly when they hold the same keys with
/// equal values: where values compare by `==` as they are, that is when their views are
/// equal.
#[verifier::spinoff_prover]
pub proof fn law_map_eq_is_view_eq<K: SortKey, V: PartialEq>(
    a: &SortedLinearMap<K, V>,
    b: &SortedLinearMap<K, V>,
)
    requires
        a.wf(),
        b.wf(),
        forall|x: V, y: V| #[trigger] x.eq_spec(&y) <==> x == y,
    ensures
        a.entries_eq(b) <==> a@ == b@,
{
    if a@ == b@ {
        law_entries_follow_contents(a, b);
        assert forall|i: int| 0 <= i < a.data@.len() implies (#[trigger] a.data@[i]).0@
            == b.data@[i].0@ && a.data@[i].1.eq_spec(&b.data@[i].1) by {
            assert(a.keys()[i] == b.keys()[i]);
            assert(a.entries()[i].1 == b.entries()[i].1);
            assert(a.data@[i].1 == b.data@[i].1);
            assert(a.data@[i].1.eq_spec(&b.data@[i].1));
        }
    }
    if a.entries_eq(b) {
        assert(a.keys() =~= b.keys());
        assert forall|k: K::V| a@.contains_key(k) <==> b@.contains_key(k) by {}
        assert forall|k: K::V| a@.contains_key(k) implies a@[k] == b@[k] by {
            let i = a.keys().index_of(k);
            assert(a.keys()[i] == k);
            a.lemma_view_at(i);
            b.lemma_view_at(i);
            assert(a.data@[i].1.eq_spec(&b.data@[i].1));
        }
        assert(a@ =~= b@);
    }
}

impl<K: SortKey, V: PartialEq> PartialEq for SortedLinearMap<K, V> {
    fn eq(&self, other: &Self) -> (r: bool) {
        if self.data.len() != other.data.len() {
            return false;
        }
        let mut i: usize = 0;
        while i < self.data.len()
            invariant
                i <= self.data@.len(),
                self.data@.len() == other.data@.len(),
                V::obeys_eq_spec() ==> forall|j: int|
                    0 <= j < i ==> (#[trigger] self.data@[j]).0@ == other.data@[j].0@
                        && self.data@[j].1.eq_spec(&other.data@[j].1),
            decreases self.data@.len() - i,
        {
            match self.data[i].0.compare_key(&other.data[i].0) {
                KeyOrder::Equal => {},
                _ => {
                    return false;
                },
            }
            if !(self.data[i].1 == other.data[i].1) {
                return false;
            }
            i = i + 1;
        }
        true
    }
}

impl<K: SortKey, V: PartialEq> vstd::std_specs::cmp::PartialEqSpecImpl for SortedLinearMap<K, V> {
    open spec fn obeys_eq_spec() -> bool {
        V::obeys_eq_spec()
    }

    open spec fn eq_spec(&self, other: &Self) -> bool {
        self.entries_eq(other)
    }
}

impl<K: SortKey, V> Default for SortedLinearMap<K, V> {
    fn default() -> (r: Self)
        ensures
            r.wf(),
            r@ == Map::<K::V, V>::empty(),
    {
        Self::new()
    }
}

/// Strictly increasing in the order of `K`.
pub open spec fn strictly_sorted<K: SortKey>(x: Seq<K::V>) -> bool {
    forall|i: int, j: int| 0 <= i < j < x.len() ==> K::view_lt(#[trigger] x[i], #[trigger] x[j])
}

/// Two strictly increasing sequences with the same elements are the same sequence.
proof fn lemma_sorted_unique<K: SortKey>(x: Seq<K::V>, y: Seq<K::V>)
    requires
        strictly_sorted::<K>(x),
        strictly_sorted::<K>(y),
        forall|k: K::V| x.contains(k) <==> y.contains(k),
    ensures
        x == y,
    decreases x.len(),
{
    if x.len() == 0 {
        if y.len() > 0 {
            assert(y.contains(y[0]));
        }
        assert(x =~= y);
    } else if y.len() == 0 {
        assert(x.contains(x[0]));
    } else {
        assert(x.contains(x[0]));
        assert(y.contains(y[0]));
        let j = choose|j: int| 0 <= j < y.len() && y[j] == x[0];
        let i = choose|i: int| 0 <= i < x.len() && x[i] == y[0];
        if x[0] != y[0] {
            assert(i > 0 && j > 0);
            assert(K::view_lt(x[0], x[i]));
            assert(K::view_lt(y[0], y[j]));
            K::lemma_lt_transitive(x[0], y[0], x[0]);
            K::lemma_lt_irreflexive(x[0]);
        }
        let xt = x.drop_first();
        let yt = y.drop_first();
        assert forall|k: K::V| xt.contains(k) <==> yt.contains(k) by {
            if xt.contains(k) {
                let p = choose|p: int| 0 <= p < xt.len() && xt[p] == k;
                assert(x[p + 1] == k);
                assert(K::view_lt(x[0], x[p + 1]));
                K::lemma_lt_irreflexive(k);
                assert(y.contains(k));
                let q = choose|q: int| 0 <= q < y.len() && y[q] == k;
                assert(q != 0);
                assert(yt[q - 1] == k);
            }
            if yt.contains(k) {
                let p = choose|p: int| 0 <= p < yt.len() && yt[p] == k;
                assert(y[p + 1] == k);
                assert(K::view_lt(y[0], y[p + 1]));
                K::lemma_lt_irreflexive(k);
                assert(x.contains(k));
                let q = choose|q: int| 0 <= q < x.len() && x[q] == k;
                assert(q != 0);
                assert(xt[q - 1] == k);
            }
        }
        lemma_sorted_unique::<K>(xt, yt);
        assert(x =~= seq![x[0]] + xt);
        assert(y =~= seq![y[0]] + yt);
    }
}

/// A map's entries follow from what it holds: two maps that hold the same keys with the same
/// values have the same entries, in the same order, whatever insertions and removals made
/// them.
pub proof fn law_entries_follow_contents<K: SortKey, V>(
    a: &SortedLinearMap<K, V>,
    b: &SortedLinearMap<K, V>,
)
    requires
        a.wf(),
        b.wf(),
        a@ == b@,
    ensures
        a.keys() == b.keys(),
        forall|i: int| 0 <= i < a.entries().len() ==> #[trigger] a.entries()[i].1 == b.entries()[i].1,
{
    assert(strictly_sorted::<K>(a.keys())) by {
        assert forall|i: int, j: int| 0 <= i < j < a.keys().len() implies K::view_lt(
            #[trigger] a.keys()[i],
            #[trigger] a.keys()[j],
        ) by {
            assert(K::view_lt(a.entries()[i].0@, a.entries()[j].0@));
        }
    }
    assert(strictly_sorted::<K>(b.keys())) by {
        assert forall|i: int, j: int| 0 <= i < j < b.keys().len() implies K::view_lt(
            #[trigger] b.keys()[i],
            #[trigger] b.keys()[j],
        ) by {
            assert(K::view_lt(b.entries()[i].0@, b.entries()[j].0@));
        }
    }
    assert forall|k: K::V| a.keys().contains(k) <==> b.keys().contains(k) by {
        assert(a@.contains_key(k) <==> a.keys().contains(k));
        assert(b@.contains_key(k) <==> b.keys().contains(k));
    }
    lemma_sorted_unique::<K>(a.keys(), b.keys());
    assert forall|i: int| 0 <= i < a.entries().len() implies #[trigger] a.entries()[i].1
        == b.entries()[i].1 by {
        a.lemma_view_at(i);
        assert(a.keys()[i] == b.keys()[i]);
        assert(b.entries().len() == b.keys().len());
        b.lemma_view_at(i);
    }
}

} // verus!
