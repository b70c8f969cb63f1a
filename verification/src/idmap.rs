//! A finite map keyed by strings, kept sorted by key so that equal maps have
//! equal representations.

use vstd::prelude::*;

use crate::text::{
    lemma_seq_lt_asymmetric, lemma_seq_lt_irreflexive, lemma_seq_lt_total,
    lemma_seq_lt_transitive, seq_lt, str_eq, str_less,
};

verus! {

/// Values stored in an [`IdMap`]: they carry their own validity and can be
/// copied with their view preserved.
pub trait MapValue: View + Sized {
    spec fn valid(&self) -> bool;

    fn duplicate(&self) -> (r: Self)
        requires
            self.valid(),
        ensures
            r@ == self@,
            r.valid(),
    ;

    fn same(&self, other: &Self) -> (r: bool)
        requires
            self.valid(),
            other.valid(),
        ensures
            r == (self@ == other@),
    ;
}

impl MapValue for u64 {
    open spec fn valid(&self) -> bool {
        true
    }

    fn same(&self, other: &u64) -> (r: bool) {
        *self == *other
    }

    fn duplicate(&self) -> (r: u64) {
        *self
    }
}

impl MapValue for bool {
    open spec fn valid(&self) -> bool {
        true
    }

    fn same(&self, other: &bool) -> (r: bool) {
        *self == *other
    }

    fn duplicate(&self) -> (r: bool) {
        *self
    }
}

impl MapValue for () {
    open spec fn valid(&self) -> bool {
        true
    }

    fn same(&self, other: &()) -> (r: bool) {
        true
    }

    fn duplicate(&self) -> (r: ()) {
        ()
    }
}

impl MapValue for String {
    open spec fn valid(&self) -> bool {
        true
    }

    fn same(&self, other: &String) -> (r: bool) {
        str_eq(self.as_str(), other.as_str())
    }

    fn duplicate(&self) -> (r: String) {
        self.clone()
    }
}

/// Keys in strictly increasing order.
pub open spec fn strictly_sorted(ks: Seq<Seq<char>>) -> bool {
    forall|i: int, j: int| 0 <= i < j < ks.len() ==> seq_lt(#[trigger] ks[i], #[trigger] ks[j])
}

/// The map that pairs `ks[i]` with `vs[i]` (a later pair overrides an earlier).
pub open spec fn pairs_map<V>(ks: Seq<Seq<char>>, vs: Seq<V>) -> Map<Seq<char>, V>
    decreases ks.len(),
{
    if ks.len() == 0 || vs.len() == 0 {
        Map::empty()
    } else {
        pairs_map(ks.drop_last(), vs.drop_last()).insert(ks.last(), vs.last())
    }
}

/// In a strictly sorted key sequence no key occurs twice.
pub proof fn lemma_sorted_distinct(ks: Seq<Seq<char>>)
    requires
        strictly_sorted(ks),
    ensures
        forall|i: int, j: int| 0 <= i < ks.len() && 0 <= j < ks.len() && i != j ==> ks[i] != ks[j],
{
    assert forall|i: int, j: int| 0 <= i < ks.len() && 0 <= j < ks.len() && i != j implies ks[i]
        != ks[j] by {
        if i < j {
            lemma_seq_lt_irreflexive(ks[i]);
        } else {
            lemma_seq_lt_irreflexive(ks[j]);
        }
    }
}

/// What `pairs_map` holds when keys are distinct.
pub proof fn lemma_pairs_map<V>(ks: Seq<Seq<char>>, vs: Seq<V>)
    requires
        ks.len() == vs.len(),
        forall|i: int, j: int| 0 <= i < ks.len() && 0 <= j < ks.len() && i != j ==> ks[i] != ks[j],
    ensures
        forall|k: Seq<char>| #[trigger] pairs_map(ks, vs).contains_key(k) <==> ks.contains(k),
        forall|i: int| 0 <= i < ks.len() ==> #[trigger] pairs_map(ks, vs)[ks[i]] == vs[i],
        pairs_map(ks, vs).dom().finite(),
        pairs_map(ks, vs).dom().len() == ks.len(),
    decreases ks.len(),
{
    if ks.len() > 0 {
        let ks0 = ks.drop_last();
        let vs0 = vs.drop_last();
        lemma_pairs_map(ks0, vs0);
        let m0 = pairs_map(ks0, vs0);
        assert(!ks0.contains(ks.last())) by {
            if ks0.contains(ks.last()) {
                let i = choose|i: int| 0 <= i < ks0.len() && ks0[i] == ks.last();
                assert(ks[i] == ks[ks.len() - 1]);
            }
        }
        assert forall|k: Seq<char>| #[trigger] pairs_map(ks, vs).contains_key(k) <==> ks.contains(
            k,
        ) by {
            if ks.contains(k) && k != ks.last() {
                let i = choose|i: int| 0 <= i < ks.len() && ks[i] == k;
                assert(ks0[i] == k);
            }
            if ks0.contains(k) {
                let i = choose|i: int| 0 <= i < ks0.len() && ks0[i] == k;
                assert(ks[i] == k);
            }
            if k == ks.last() {
                assert(ks[ks.len() - 1] == k);
            }
        }
        assert forall|i: int| 0 <= i < ks.len() implies #[trigger] pairs_map(ks, vs)[ks[i]]
            == vs[i] by {
            if i < ks.len() - 1 {
                assert(ks0[i] == ks[i]);
            }
        }
    }
}

/// A string-keyed map whose entries are stored in increasing key order.
#[derive(Debug)]
pub struct IdMap<V> {
    entries: Vec<(String, V)>,
}

impl<V: MapValue> IdMap<V> {
    /// The keys, in storage order.
    pub closed spec fn keys(&self) -> Seq<Seq<char>> {
        Seq::new(self.entries@.len(), |i: int| self.entries@[i].0@)
    }

    /// The values' views, in storage order.
    pub closed spec fn vals(&self) -> Seq<V::V> {
        Seq::new(self.entries@.len(), |i: int| self.entries@[i].1@)
    }

    /// Entries are strictly ordered by key and every value is valid.
    pub closed spec fn wf(&self) -> bool {
        &&& strictly_sorted(self.keys())
        &&& forall|i: int| 0 <= i < self.entries@.len() ==> (#[trigger] self.entries@[i]).1.valid()
    }

    /// How the view relates to the stored keys and values.
    pub proof fn lemma_view(&self)
        requires
            self.wf(),
        ensures
            self.keys().len() == self.vals().len(),
            strictly_sorted(self.keys()),
            forall|k: Seq<char>| #[trigger] self@.contains_key(k) <==> self.keys().contains(k),
            forall|i: int| 0 <= i < self.keys().len() ==> #[trigger] self@[self.keys()[i]] == self.vals()[i],
            forall|i: int, j: int|
                0 <= i < self.keys().len() && 0 <= j < self.keys().len() && i != j
                    ==> self.keys()[i] != self.keys()[j],
            self@.dom().finite(),
            self@.dom().len() == self.keys().len(),
    {
        lemma_sorted_distinct(self.keys());
        lemma_pairs_map(self.keys(), self.vals());
    }

    /// An empty map.
    pub fn new() -> (r: Self)
        ensures
            r.wf(),
            r@ == Map::<Seq<char>, V::V>::empty(),
    {
        let r = IdMap { entries: Vec::new() };
        assert(r@ =~= Map::<Seq<char>, V::V>::empty());
        r
    }

    /// Number of entries.
    pub fn len(&self) -> (r: usize)
        ensures
            r == self.keys().len(),
    {
        self.entries.len()
    }

    /// The `i`-th key in order.
    pub fn key_at(&self, i: usize) -> (r: &String)
        requires
            i < self.keys().len(),
        ensures
            r@ == self.keys()[i as int],
    {
        &self.entries[i].0
    }

    /// The `i`-th value in key order.
    pub fn value_at(&self, i: usize) -> (r: &V)
        requires
            self.wf(),
            i < self.keys().len(),
        ensures
            r@ == self.vals()[i as int],
            r.valid(),
    {
        &self.entries[i].1
    }

    /// Whether the map has no entries.
    pub fn is_empty(&self) -> (r: bool)
        requires
            self.wf(),
        ensures
            r == (self@ == Map::<Seq<char>, V::V>::empty()),
    {
        proof {
            self.lemma_view();
        }
        if self.entries.len() == 0 {
            assert(self@ =~= Map::<Seq<char>, V::V>::empty()) by {
                assert forall|k: Seq<char>| !#[trigger] self@.contains_key(k) by {
                    if self.keys().contains(k) {
                        let i = choose|i: int| 0 <= i < self.keys().len() && self.keys()[i] == k;
                    }
                }
            }
            true
        } else {
            assert(self@.contains_key(self.keys()[0]));
            assert(!Map::<Seq<char>, V::V>::empty().contains_key(self.keys()[0]));
            false
        }
    }

    /// Index of `k`, if present.
    pub fn find(&self, k: &str) -> (r: Option<usize>)
        requires
            self.wf(),
        ensures
            match r {
                Some(i) => i < self.keys().len() && self.keys()[i as int] == k@,
                None => !self.keys().contains(k@),
            },
            r is Some <==> self@.contains_key(k@),
    {
        proof {
            self.lemma_view();
        }
        let mut i: usize = 0;
        while i < self.entries.len()
            invariant
                i <= self.entries.len(),
                self.wf(),
                forall|j: int| 0 <= j < i ==> self.keys()[j] != k@,
            decreases self.entries.len() - i,
        {
            if str_eq(self.entries[i].0.as_str(), k) {
                assert(self.keys()[i as int] == k@);
                assert(self.keys().contains(k@));
                proof {
                    self.lemma_view();
                }
                return Some(i);
            }
            i = i + 1;
        }
        proof {
            if self.keys().contains(k@) {
                let j = choose|j: int| 0 <= j < self.keys().len() && self.keys()[j] == k@;
                assert(self.keys()[j] != k@);
            }
        }
        None
    }

    /// Whether `k` is a key.
    pub fn contains_key(&self, k: &str) -> (r: bool)
        requires
            self.wf(),
        ensures
            r == self@.contains_key(k@),
    {
        self.find(k).is_some()
    }

    /// The value stored under `k`, if any.
    pub fn get(&self, k: &str) -> (r: Option<&V>)
        requires
            self.wf(),
        ensures
            match r {
                Some(v) => self@.contains_key(k@) && v@ == self@[k@] && v.valid(),
                None => !self@.contains_key(k@),
            },
    {
        proof {
            self.lemma_view();
        }
        match self.find(k) {
            Some(i) => Some(&self.entries[i].1),
            None => None,
        }
    }

    /// Stores `v` under `k`, replacing any previous value.
    pub fn insert(&mut self, k: String, v: V)
        requires
            old(self).wf(),
            v.valid(),
        ensures
            final(self).wf(),
            final(self)@ == old(self)@.insert(k@, v@),
    {
        proof {
            self.lemma_view();
        }
        let ghost old_keys = self.keys();
        let ghost old_vals = self.vals();
        let ghost old_map = self@;
        let mut p: usize = 0;
        while p < self.entries.len() && str_less(self.entries[p].0.as_str(), k.as_str())
            invariant
                p <= self.entries.len(),
                self.keys() == old_keys,
                self.vals() == old_vals,
                self.wf(),
                forall|j: int| 0 <= j < p ==> seq_lt(#[trigger] self.keys()[j], k@),
            decreases self.entries.len() - p,
        {
            p = p + 1;
        }
        if p < self.entries.len() && self.entries[p].0 == k {
            let ghost kk = self.keys();
            assert(kk[p as int] == k@);
            self.entries.set(p, (k, v));
            proof {
                assert(self.keys() =~= kk.update(p as int, k@));
                assert(self.keys() =~= kk);
                assert(self.vals() =~= old_vals.update(p as int, v@));
                self.lemma_view();
                assert(self@ =~= old_map.insert(k@, v@)) by {
                    assert forall|key: Seq<char>| #[trigger] self@.contains_key(key)
                        <==> old_map.insert(k@, v@).contains_key(key) by {
                        if old_keys.contains(key) {
                            let i = choose|i: int| 0 <= i < old_keys.len() && old_keys[i] == key;
                            assert(self.keys()[i] == key);
                        }
                        if key == k@ {
                            assert(self.keys()[p as int] == key);
                        }
                    }
                    assert forall|key: Seq<char>| #[trigger] self@.contains_key(key) implies self@[key]
                        == old_map.insert(k@, v@)[key] by {
                        let i = choose|i: int| 0 <= i < self.keys().len() && self.keys()[i] == key;
                        assert(self@[self.keys()[i]] == self.vals()[i]);
                        if i != p {
                            assert(old_map[old_keys[i]] == old_vals[i]);
                        }
                    }
                }
            }
        } else {
            proof {
                if p < old_keys.len() {
                    lemma_seq_lt_total(old_keys[p as int], k@);
                }
            }
            self.entries.insert(p, (k, v));
            proof {
                assert(self.keys() =~= old_keys.insert(p as int, k@));
                assert(self.vals() =~= old_vals.insert(p as int, v@));
                assert(strictly_sorted(self.keys())) by {
                    assert forall|i: int, j: int| 0 <= i < j < self.keys().len() implies seq_lt(
                        #[trigger] self.keys()[i],
                        #[trigger] self.keys()[j],
                    ) by {
                        if j < p {
                            assert(seq_lt(old_keys[i], old_keys[j]));
                        } else if j == p {
                            assert(seq_lt(old_keys[i], k@));
                        } else if i == p {
                            assert(seq_lt(k@, old_keys[p as int]));
                            if j - 1 > p {
                                assert(seq_lt(old_keys[p as int], old_keys[j - 1]));
                                lemma_seq_lt_transitive(k@, old_keys[p as int], old_keys[j - 1]);
                            }
                        } else if i < p {
                            assert(seq_lt(old_keys[i], old_keys[j - 1]));
                        } else {
                            assert(seq_lt(old_keys[i - 1], old_keys[j - 1]));
                        }
                    }
                }
                self.lemma_view();
                assert(!old_keys.contains(k@)) by {
                    if old_keys.contains(k@) {
                        let i = choose|i: int| 0 <= i < old_keys.len() && old_keys[i] == k@;
                        if i < p {
                            lemma_seq_lt_irreflexive(k@);
                        } else {
                            if i > p {
                                assert(seq_lt(old_keys[p as int], old_keys[i]));
                                lemma_seq_lt_asymmetric(k@, old_keys[p as int]);
                            }
                            lemma_seq_lt_irreflexive(k@);
                        }
                    }
                }
                assert(self@ =~= old_map.insert(k@, v@)) by {
                    assert forall|key: Seq<char>| #[trigger] self@.contains_key(key)
                        <==> old_map.insert(k@, v@).contains_key(key) by {
                        if old_keys.contains(key) {
                            let i = choose|i: int| 0 <= i < old_keys.len() && old_keys[i] == key;
                            if i < p {
                                assert(self.keys()[i] == key);
                            } else {
                                assert(self.keys()[i + 1] == key);
                            }
                        }
                        if key == k@ {
                            assert(self.keys()[p as int] == key);
                        }
                        if self.keys().contains(key) {
                            let i = choose|i: int| 0 <= i < self.keys().len() && self.keys()[i] == key;
                            if i < p {
                                assert(old_keys[i] == key);
                            } else if i > p {
                                assert(old_keys[i - 1] == key);
                            }
                        }
                    }
                    assert forall|key: Seq<char>| #[trigger] self@.contains_key(key) implies self@[key]
                        == old_map.insert(k@, v@)[key] by {
                        let i = choose|i: int| 0 <= i < self.keys().len() && self.keys()[i] == key;
                        assert(self@[self.keys()[i]] == self.vals()[i]);
                        if i < p {
                            assert(old_map[old_keys[i]] == old_vals[i]);
                        } else if i > p {
                            assert(old_map[old_keys[i - 1]] == old_vals[i - 1]);
                        }
                    }
                }
            }
        }
    }

    /// Removes `k` if present.
    pub fn remove(&mut self, k: &str)
        requires
            old(self).wf(),
        ensures
            final(self).wf(),
            final(self)@ == old(self)@.remove(k@),
    {
        proof {
            self.lemma_view();
        }
        let ghost old_keys = self.keys();
        let ghost old_vals = self.vals();
        let ghost old_map = self@;
        match self.find(k) {
            None => {
                assert(self@ =~= old_map.remove(k@));
            },
            Some(p) => {
                self.entries.remove(p);
                proof {
                    assert(self.keys() =~= old_keys.remove(p as int));
                    assert(self.vals() =~= old_vals.remove(p as int));
                    assert(strictly_sorted(self.keys())) by {
                        assert forall|i: int, j: int| 0 <= i < j < self.keys().len() implies seq_lt(
                            #[trigger] self.keys()[i],
                            #[trigger] self.keys()[j],
                        ) by {
                            if j < p {
                                assert(seq_lt(old_keys[i], old_keys[j]));
                            } else if i < p {
                                assert(seq_lt(old_keys[i], old_keys[j + 1]));
                            } else {
                                assert(seq_lt(old_keys[i + 1], old_keys[j + 1]));
                            }
                        }
                    }
                    self.lemma_view();
                    assert(self@ =~= old_map.remove(k@)) by {
                        assert forall|key: Seq<char>| #[trigger] self@.contains_key(key)
                            <==> old_map.remove(k@).contains_key(key) by {
                            if old_keys.contains(key) && key != k@ {
                                let i = choose|i: int| 0 <= i < old_keys.len() && old_keys[i] == key;
                                if i < p {
                                    assert(self.keys()[i] == key);
                                } else {
                                    assert(i != p);
                                    assert(self.keys()[i - 1] == key);
                                }
                            }
                            if self.keys().contains(key) {
                                let i = choose|i: int| 0 <= i < self.keys().len() && self.keys()[i] == key;
                                if i < p {
                                    assert(old_keys[i] == key);
                                } else {
                                    assert(old_keys[i + 1] == key);
                                }
                            }
                        }
                        assert forall|key: Seq<char>| #[trigger] self@.contains_key(key) implies self@[key]
                            == old_map.remove(k@)[key] by {
                            let i = choose|i: int| 0 <= i < self.keys().len() && self.keys()[i] == key;
                            assert(self@[self.keys()[i]] == self.vals()[i]);
                            if i < p {
                                assert(old_map[old_keys[i]] == old_vals[i]);
                            } else {
                                assert(old_map[old_keys[i + 1]] == old_vals[i + 1]);
                            }
                        }
                    }
                }
            },
        }
    }
}

impl<V: MapValue> View for IdMap<V> {
    type V = Map<Seq<char>, V::V>;

    closed spec fn view(&self) -> Map<Seq<char>, V::V> {
        pairs_map(self.keys(), self.vals())
    }
}

/// Strictly sorted key sequences holding the same keys are equal.
pub proof fn lemma_sorted_unique(a: Seq<Seq<char>>, b: Seq<Seq<char>>)
    requires
        strictly_sorted(a),
        strictly_sorted(b),
        forall|x: Seq<char>| a.contains(x) <==> b.contains(x),
    ensures
        a == b,
    decreases a.len(),
{
    if a.len() == 0 {
        if b.len() > 0 {
            assert(b.contains(b[0]));
        }
        assert(a =~= b);
    } else {
        assert(a.contains(a[0]));
        let j = choose|j: int| 0 <= j < b.len() && b[j] == a[0];
        assert(b.contains(b[0]));
        let i = choose|i: int| 0 <= i < a.len() && a[i] == b[0];
        if j > 0 {
            assert(seq_lt(b[0], b[j]));
            if i > 0 {
                assert(seq_lt(a[0], a[i]));
                lemma_seq_lt_asymmetric(b[0], a[0]);
            } else {
                lemma_seq_lt_irreflexive(a[0]);
            }
        }
        assert(b[0] == a[0]);
        let a1 = a.drop_first();
        let b1 = b.drop_first();
        assert forall|x: Seq<char>| a1.contains(x) <==> b1.contains(x) by {
            if a1.contains(x) {
                let k = choose|k: int| 0 <= k < a1.len() && a1[k] == x;
                assert(a.contains(x));
                let m = choose|m: int| 0 <= m < b.len() && b[m] == x;
                assert(seq_lt(a[0], a[k + 1]));
                if m == 0 {
                    lemma_seq_lt_irreflexive(x);
                }
                assert(b1[m - 1] == x);
            }
            if b1.contains(x) {
                let k = choose|k: int| 0 <= k < b1.len() && b1[k] == x;
                assert(b.contains(x));
                let m = choose|m: int| 0 <= m < a.len() && a[m] == x;
                assert(seq_lt(b[0], b[k + 1]));
                if m == 0 {
                    lemma_seq_lt_irreflexive(x);
                }
                assert(a1[m - 1] == x);
            }
        }
        lemma_sorted_unique(a1, b1);
        assert(a =~= seq![a[0]] + a1);
        assert(b =~= seq![b[0]] + b1);
    }
}

impl<V: MapValue> IdMap<V> {
    /// Whether two maps hold the same entries.
    pub fn same(&self, other: &Self) -> (r: bool)
        requires
            self.wf(),
            other.wf(),
        ensures
            r == (self@ == other@),
    {
        proof {
            self.lemma_view();
            other.lemma_view();
        }
        if self.entries.len() != other.entries.len() {
            proof {
                if self@ == other@ {
                    assert(self@.dom() == other@.dom());
                }
            }
            return false;
        }
        let mut i: usize = 0;
        while i < self.entries.len()
            invariant
                self.wf(),
                other.wf(),
                self.entries@.len() == other.entries@.len(),
                i <= self.entries@.len(),
                self.keys().take(i as int) == other.keys().take(i as int),
                self.vals().take(i as int) == other.vals().take(i as int),
                self.keys().len() == self.entries@.len(),
                other.keys().len() == other.entries@.len(),
                self.vals().len() == self.entries@.len(),
                other.vals().len() == other.entries@.len(),
            decreases self.entries@.len() - i,
        {
            if !str_eq(self.entries[i].0.as_str(), other.entries[i].0.as_str()) {
                proof {
                    self.lemma_view();
                    other.lemma_view();
                    assert(self.keys()[i as int] != other.keys()[i as int]);
                    if self@ == other@ {
                        assert forall|x: Seq<char>| self.keys().contains(x) <==> other.keys().contains(x) by {
                            assert(self@.contains_key(x) <==> self.keys().contains(x));
                            assert(other@.contains_key(x) <==> other.keys().contains(x));
                        }
                        lemma_sorted_unique(self.keys(), other.keys());
                    }
                }
                return false;
            }
            assert(self.entries@[i as int].1.valid());
            assert(other.entries@[i as int].1.valid());
            if !self.entries[i].1.same(&other.entries[i].1) {
                proof {
                    self.lemma_view();
                    other.lemma_view();
                    assert(self.vals()[i as int] != other.vals()[i as int]);
                    if self@ == other@ {
                        assert forall|x: Seq<char>| self.keys().contains(x) <==> other.keys().contains(x) by {
                            assert(self@.contains_key(x) <==> self.keys().contains(x));
                            assert(other@.contains_key(x) <==> other.keys().contains(x));
                        }
                        lemma_sorted_unique(self.keys(), other.keys());
                        assert(self@[self.keys()[i as int]] == self.vals()[i as int]);
                        assert(other@[other.keys()[i as int]] == other.vals()[i as int]);
                    }
                }
                return false;
            }
            assert(self.entries@[i as int].0@ == other.entries@[i as int].0@);
            assert(self.entries@[i as int].1@ == other.entries@[i as int].1@);
            assert(self.keys()[i as int] == self.entries@[i as int].0@);
            assert(other.keys()[i as int] == other.entries@[i as int].0@);
            assert(self.vals()[i as int] == self.entries@[i as int].1@);
            assert(other.vals()[i as int] == other.entries@[i as int].1@);
            assert(self.vals()[i as int] == other.vals()[i as int]);
            assert(self.keys()[i as int] == other.keys()[i as int]);
            assert(self.keys().take(i + 1) =~= self.keys().take(i as int).push(self.keys()[i as int]));
            assert(other.keys().take(i + 1) =~= other.keys().take(i as int).push(other.keys()[i as int]));
            assert(self.vals().take(i + 1) =~= self.vals().take(i as int).push(self.vals()[i as int]));
            assert(other.vals().take(i + 1) =~= other.vals().take(i as int).push(other.vals()[i as int]));
            i = i + 1;
        }
        proof {
            self.lemma_view();
            other.lemma_view();
            assert(self.keys().take(self.entries@.len() as int) =~= self.keys());
            assert(other.keys().take(self.entries@.len() as int) =~= other.keys());
            assert(self.vals().take(self.entries@.len() as int) =~= self.vals());
            assert(other.vals().take(self.entries@.len() as int) =~= other.vals());
        }
        true
    }
}

impl<V: MapValue> IdMap<V> {
    /// A copy of the map.
    pub fn duplicate(&self) -> (r: Self)
        requires
            self.wf(),
        ensures
            r.wf(),
            r@ == self@,
            r.keys() == self.keys(),
    {
        let mut entries: Vec<(String, V)> = Vec::new();
        let mut i: usize = 0;
        while i < self.entries.len()
            invariant
                i <= self.entries.len(),
                entries@.len() == i,
                self.wf(),
                forall|j: int| 0 <= j < i ==> (#[trigger] entries@[j]).0@ == self.entries@[j].0@ && entries@[j].1@ == self.entries@[j].1@ && entries@[j].1.valid(),
            decreases self.entries.len() - i,
        {
            let k = self.entries[i].0.clone();
            let v = self.entries[i].1.duplicate();
            entries.push((k, v));
            i = i + 1;
        }
        let r = IdMap { entries };
        assert(r.keys() =~= self.keys());
        assert(r.vals() =~= self.vals());
        r
    }
}

} // verus!
