//! A small map kept as a vector of entries in strictly increasing key order.
//!
//! The save format writes every keyed collection in key order, so that the
//! same state always produces the same bytes. Keeping the entries sorted at
//! all times makes that order a property of the map itself rather than
//! something a writer has to rebuild.
use vstd::prelude::*;

verus! {

/// A key with a strict total order.
pub trait MapKey: Sized {
    spec fn precedes(self, other: Self) -> bool;

    proof fn lemma_irreflexive(a: Self)
        ensures
            !a.precedes(a),
    ;

    proof fn lemma_transitive(a: Self, b: Self, c: Self)
        requires
            a.precedes(b),
            b.precedes(c),
        ensures
            a.precedes(c),
    ;

    proof fn lemma_total(a: Self, b: Self)
        ensures
            a.precedes(b) || b.precedes(a) || a == b,
    ;

    fn comes_before(&self, other: &Self) -> (r: bool)
        ensures
            r == self.precedes(*other),
    ;

    fn same_key(&self, other: &Self) -> (r: bool)
        ensures
            r == (*self == *other),
    ;

    fn duplicate(&self) -> (r: Self)
        ensures
            r == *self,
    ;
}

impl MapKey for u16 {
    open spec fn precedes(self, other: Self) -> bool {
        self < other
    }

    proof fn lemma_irreflexive(a: Self) {
    }

    proof fn lemma_transitive(a: Self, b: Self, c: Self) {
    }

    proof fn lemma_total(a: Self, b: Self) {
    }

    fn comes_before(&self, other: &Self) -> (r: bool) {
        *self < *other
    }

    fn same_key(&self, other: &Self) -> (r: bool) {
        *self == *other
    }

    fn duplicate(&self) -> (r: Self) {
        *self
    }
}

/// Lexicographic order on block and chunk positions: x first, then y, then z.
pub open spec fn position_precedes(a: (i32, i32, i32), b: (i32, i32, i32)) -> bool {
    a.0 < b.0 || (a.0 == b.0 && (a.1 < b.1 || (a.1 == b.1 && a.2 < b.2)))
}

impl MapKey for (i32, i32, i32) {
    open spec fn precedes(self, other: Self) -> bool {
        position_precedes(self, other)
    }

    proof fn lemma_irreflexive(a: Self) {
    }

    proof fn lemma_transitive(a: Self, b: Self, c: Self) {
    }

    proof fn lemma_total(a: Self, b: Self) {
    }

    fn comes_before(&self, other: &Self) -> (r: bool) {
        self.0 < other.0 || (self.0 == other.0 && (self.1 < other.1 || (self.1 == other.1
            && self.2 < other.2)))
    }

    fn same_key(&self, other: &Self) -> (r: bool) {
        self.0 == other.0 && self.1 == other.1 && self.2 == other.2
    }

    fn duplicate(&self) -> (r: Self) {
        (self.0, self.1, self.2)
    }
}

/// Keys strictly increase along the sequence.
pub open spec fn sorted_keys<K: MapKey, V>(s: Seq<(K, V)>) -> bool {
    forall|i: int, j: int| 0 <= i < j < s.len() ==> (#[trigger] s[i]).0.precedes((#[trigger] s[j]).0)
}

/// Some entry of the sequence has key `k`.
pub open spec fn has_key<K, V>(s: Seq<(K, V)>, k: K) -> bool {
    exists|i: int| 0 <= i < s.len() && (#[trigger] s[i]).0 == k
}

/// The position of an entry with key `k`.
pub open spec fn index_of_key<K, V>(s: Seq<(K, V)>, k: K) -> int {
    choose|i: int| 0 <= i < s.len() && (#[trigger] s[i]).0 == k
}

/// The map a sequence of entries describes.
pub open spec fn seq_map<K, V>(s: Seq<(K, V)>) -> Map<K, V> {
    Map::new(|k: K| has_key(s, k), |k: K| s[index_of_key(s, k)].1)
}

/// Insert every entry of `s` into `acc`, first to last.
pub open spec fn insert_all<K, V>(acc: Map<K, V>, s: Seq<(K, V)>) -> Map<K, V>
    decreases s.len(),
{
    if s.len() == 0 {
        acc
    } else {
        insert_all(acc.insert(s[0].0, s[0].1), s.drop_first())
    }
}

/// In a sorted sequence a key occurs at most once.
pub proof fn lemma_key_unique<K: MapKey, V>(s: Seq<(K, V)>, i: int, j: int)
    requires
        sorted_keys(s),
        0 <= i < s.len(),
        0 <= j < s.len(),
        s[i].0 == s[j].0,
    ensures
        i == j,
{
    if i < j {
        assert(s[i].0.precedes(s[j].0));
        K::lemma_irreflexive(s[i].0);
    } else if j < i {
        assert(s[j].0.precedes(s[i].0));
        K::lemma_irreflexive(s[i].0);
    }
}

/// The map of a sorted sequence holds each entry exactly.
pub proof fn lemma_seq_map_at<K: MapKey, V>(s: Seq<(K, V)>, i: int)
    requires
        sorted_keys(s),
        0 <= i < s.len(),
    ensures
        seq_map(s).contains_key(s[i].0),
        seq_map(s)[s[i].0] == s[i].1,
        index_of_key(s, s[i].0) == i,
{
    assert(has_key(s, s[i].0));
    let j = index_of_key(s, s[i].0);
    lemma_key_unique(s, i, j);
}

/// Dropping the first entry of a sorted sequence removes exactly its key.
pub proof fn lemma_seq_map_drop_first<K: MapKey, V>(s: Seq<(K, V)>)
    requires
        sorted_keys(s),
        s.len() > 0,
    ensures
        sorted_keys(s.drop_first()),
        !seq_map(s.drop_first()).contains_key(s[0].0),
        seq_map(s) == seq_map(s.drop_first()).insert(s[0].0, s[0].1),
{
    let t = s.drop_first();
    assert forall|i: int, j: int| 0 <= i < j < t.len() implies (#[trigger] t[i]).0.precedes(
        (#[trigger] t[j]).0,
    ) by {
        assert(t[i] == s[i + 1] && t[j] == s[j + 1]);
    }
    if seq_map(t).contains_key(s[0].0) {
        let j = choose|j: int| 0 <= j < t.len() && (#[trigger] t[j]).0 == s[0].0;
        assert(t[j] == s[j + 1]);
        lemma_key_unique(s, 0, j + 1);
    }
    let lhs = seq_map(s);
    let rhs = seq_map(t).insert(s[0].0, s[0].1);
    assert forall|k: K| lhs.contains_key(k) <==> rhs.contains_key(k) by {
        if has_key(s, k) {
            let i = choose|i: int| 0 <= i < s.len() && (#[trigger] s[i]).0 == k;
            if i > 0 {
                assert(t[i - 1] == s[i]);
            }
        }
        if has_key(t, k) {
            let i = choose|i: int| 0 <= i < t.len() && (#[trigger] t[i]).0 == k;
            assert(t[i] == s[i + 1]);
        }
    }
    assert forall|k: K| #[trigger] lhs.contains_key(k) implies lhs[k] == rhs[k] by {
        let i = index_of_key(s, k);
        lemma_seq_map_at(s, i);
        if i > 0 {
            assert(t[i - 1] == s[i]);
            lemma_seq_map_at(t, i - 1);
        }
    }
    assert(lhs =~= rhs);
}

/// Inserting the entries of a sorted sequence in order lays that sequence's
/// map over the starting map.
pub proof fn lemma_insert_all<K: MapKey, V>(acc: Map<K, V>, s: Seq<(K, V)>)
    requires
        sorted_keys(s),
    ensures
        insert_all(acc, s) == acc.union_prefer_right(seq_map(s)),
    decreases s.len(),
{
    if s.len() == 0 {
        assert(seq_map(s) =~= Map::<K, V>::empty());
        assert(acc.union_prefer_right(seq_map(s)) =~= acc);
    } else {
        lemma_seq_map_drop_first(s);
        lemma_insert_all(acc.insert(s[0].0, s[0].1), s.drop_first());
        let t = s.drop_first();
        assert(acc.insert(s[0].0, s[0].1).union_prefer_right(seq_map(t)) =~= acc.union_prefer_right(
            seq_map(t).insert(s[0].0, s[0].1),
        ));
    }
}

/// A sorted sequence describes a finite map with one key per entry.
pub proof fn lemma_seq_map_len<K: MapKey, V>(s: Seq<(K, V)>)
    requires
        sorted_keys(s),
    ensures
        seq_map(s).dom().finite(),
        seq_map(s).dom().len() == s.len(),
{
    let ks = s.map_values(|e: (K, V)| e.0);
    assert(ks.no_duplicates()) by {
        assert forall|i: int, j: int| 0 <= i < ks.len() && 0 <= j < ks.len() && i != j implies ks[i]
            != ks[j] by {
            if ks[i] == ks[j] {
                lemma_key_unique(s, i, j);
            }
        }
    }
    ks.unique_seq_to_set();
    assert(seq_map(s).dom() =~= ks.to_set()) by {
        assert forall|k: K| seq_map(s).dom().contains(k) <==> ks.to_set().contains(k) by {
            if has_key(s, k) {
                let i = choose|i: int| 0 <= i < s.len() && (#[trigger] s[i]).0 == k;
                assert(ks[i] == k);
            }
            if ks.contains(k) {
                let i = choose|i: int| 0 <= i < ks.len() && ks[i] == k;
                assert(s[i].0 == k);
            }
        }
    }
    vstd::seq_lib::seq_to_set_is_finite(ks);
}

/// Two sorted sequences that describe the same map are the same sequence:
/// the entry order is determined by the keys.
pub proof fn lemma_sorted_canonical<K: MapKey, V>(s1: Seq<(K, V)>, s2: Seq<(K, V)>)
    requires
        sorted_keys(s1),
        sorted_keys(s2),
        seq_map(s1) == seq_map(s2),
    ensures
        s1 == s2,
    decreases s1.len(),
{
    if s1.len() == 0 {
        if s2.len() > 0 {
            lemma_seq_map_at(s2, 0);
        }
        assert(s1 =~= s2);
    } else {
        lemma_seq_map_at(s1, 0);
        let k1 = s1[0].0;
        assert(seq_map(s2).contains_key(k1));
        let j = index_of_key(s2, k1);
        lemma_seq_map_at(s2, j);
        if j > 0 {
            let k2 = s2[0].0;
            lemma_seq_map_at(s2, 0);
            assert(seq_map(s1).contains_key(k2));
            let i = index_of_key(s1, k2);
            lemma_seq_map_at(s1, i);
            if i == 0 {
                lemma_key_unique(s2, 0, j);
            } else {
                assert(s1[0].0.precedes(s1[i].0));
                assert(s2[0].0.precedes(s2[j].0));
                K::lemma_transitive(k1, k2, k1);
                K::lemma_irreflexive(k1);
            }
        }
        assert(s2.len() > 0);
        assert(s1[0] == s2[0]);
        lemma_seq_map_drop_first(s1);
        lemma_seq_map_drop_first(s2);
        assert(seq_map(s1.drop_first()) =~= seq_map(s1).remove(k1));
        assert(seq_map(s2.drop_first()) =~= seq_map(s2).remove(k1));
        lemma_sorted_canonical(s1.drop_first(), s2.drop_first());
        assert(s1 =~= s2) by {
            assert forall|x: int| 0 <= x < s1.len() implies s1[x] == s2[x] by {
                if x > 0 {
                    assert(s1[x] == s1.drop_first()[x - 1]);
                    assert(s2[x] == s2.drop_first()[x - 1]);
                }
            }
        }
    }
}

/// A map kept as entries in strictly increasing key order.
#[derive(Debug, PartialEq, Eq)]
pub struct OrderedMap<K: MapKey, V> {
    entries: Vec<(K, V)>,
}

impl<K: MapKey, V> View for OrderedMap<K, V> {
    type V = Map<K, V>;

    open spec fn view(&self) -> Map<K, V> {
        seq_map(self.entries())
    }
}

impl<K: MapKey, V> OrderedMap<K, V> {
    /// The entries, in key order.
    pub closed spec fn entries(self) -> Seq<(K, V)> {
        self.entries@
    }

    /// Keys strictly increase.
    pub open spec fn wf(self) -> bool {
        sorted_keys(self.entries())
    }

    /// Every map keeps its keys strictly increasing.
    #[verifier::type_invariant]
    pub open spec fn keys_increase(self) -> bool {
        self.wf()
    }


    pub fn new() -> (r: Self)
        ensures
            r.wf(),
            r.entries() == Seq::<(K, V)>::empty(),
            r@ == Map::<K, V>::empty(),
    {
        let r = OrderedMap { entries: Vec::new() };
        assert(r@ =~= Map::<K, V>::empty());
        r
    }

    /// Number of entries.
    pub fn len(&self) -> (r: usize)
        ensures
            r == self.entries().len(),
            self.wf(),
            r == self@.dom().len() && self@.dom().finite(),
    {
        proof {
            use_type_invariant(self);
            lemma_seq_map_len(self.entries());
        }
        self.entries.len()
    }

    /// True when the map holds nothing.
    pub fn is_empty(&self) -> (r: bool)
        ensures
            r == (self.entries().len() == 0),
            r == (self@ == Map::<K, V>::empty()),
    {
        if self.entries.len() == 0 {
            assert(self@ =~= Map::<K, V>::empty());
            true
        } else {
            assert(has_key(self.entries(), self.entries()[0].0));
            assert(self@.contains_key(self.entries()[0].0));
            false
        }
    }

    /// The key of the `i`-th entry in key order.
    pub fn key_at(&self, i: usize) -> (r: K)
        requires
            i < self.entries().len(),
        ensures
            r == self.entries()[i as int].0,
    {
        self.entries[i].0.duplicate()
    }

    /// The value of the `i`-th entry in key order.
    pub fn value_at(&self, i: usize) -> (r: &V)
        requires
            i < self.entries().len(),
        ensures
            *r == self.entries()[i as int].1,
    {
        &self.entries[i].1
    }

    /// Where key `k` sits, if it is present.
    pub fn find(&self, k: &K) -> (r: Option<usize>)
        ensures
            self.wf(),
            match r {
                Some(i) => i < self.entries().len() && self.entries()[i as int].0 == *k,
                None => !self@.contains_key(*k),
            },
    {
        proof {
            use_type_invariant(self);
        }
        let mut i: usize = 0;
        while i < self.entries.len()
            invariant
                i <= self.entries@.len(),
                self.wf(),
                forall|j: int| 0 <= j < i ==> (#[trigger] self.entries@[j]).0 != *k,
            decreases self.entries@.len() - i,
        {
            if self.entries[i].0.same_key(k) {
                return Some(i);
            }
            i = i + 1;
        }
        None
    }

    /// The value stored under `k`.
    pub fn get(&self, k: &K) -> (r: Option<&V>)
        ensures
            self.wf(),
            match r {
                Some(v) => self@.contains_key(*k) && *v == self@[*k],
                None => !self@.contains_key(*k),
            },
    {
        proof {
            use_type_invariant(self);
        }
        match self.find(k) {
            Some(i) => {
                proof {
                    lemma_seq_map_at(self.entries(), i as int);
                }
                Some(&self.entries[i].1)
            },
            None => None,
        }
    }

    /// Whether `k` is present.
    pub fn contains_key(&self, k: &K) -> (r: bool)
        ensures
            self.wf(),
            r == self@.contains_key(*k),
    {
        proof {
            use_type_invariant(self);
        }
        match self.find(k) {
            Some(i) => {
                proof {
                    lemma_seq_map_at(self.entries(), i as int);
                }
                true
            },
            None => false,
        }
    }

    /// Store `v` under `k`, replacing any earlier value.
    pub fn insert(&mut self, k: K, v: V)
        ensures
            old(self).wf(),
            final(self).wf(),
            final(self)@ == old(self)@.insert(k, v),
    {
        proof {
            use_type_invariant(&*self);
        }
        let mut entries: Vec<(K, V)> = Vec::new();
        std::mem::swap(&mut entries, &mut self.entries);
        let ghost s = entries@;
        let mut i: usize = 0;
        while i < entries.len() && entries[i].0.comes_before(&k)
            invariant
                entries@ == s,
                i <= s.len(),
                forall|j: int| 0 <= j < i ==> (#[trigger] s[j]).0.precedes(k),
            decreases s.len() - i,
        {
            i = i + 1;
        }
        if i < entries.len() && entries[i].0.same_key(&k) {
            entries.set(i, (k, v));
            let ghost t = entries@;
            assert(t == s.update(i as int, (k, v)));
            assert(sorted_keys(t)) by {
                assert forall|a: int, b: int| 0 <= a < b < t.len() implies (#[trigger] t[a]).0.precedes(
                    (#[trigger] t[b]).0,
                ) by {
                    assert(s[a].0.precedes(s[b].0));
                }
            }
            assert(seq_map(t) =~= seq_map(s).insert(k, v)) by {
                assert forall|key: K| #[trigger] seq_map(t).contains_key(key) <==> seq_map(
                    s,
                ).insert(k, v).contains_key(key) by {
                    if has_key(s, key) {
                        let j = choose|j: int| 0 <= j < s.len() && (#[trigger] s[j]).0 == key;
                        assert(t[j].0 == key);
                    }
                    if has_key(t, key) {
                        let j = choose|j: int| 0 <= j < t.len() && (#[trigger] t[j]).0 == key;
                        assert(s[j].0 == key);
                    }
                }
                assert forall|key: K| #[trigger] seq_map(t).contains_key(key) implies seq_map(t)[key]
                    == seq_map(s).insert(k, v)[key] by {
                    let j = index_of_key(t, key);
                    lemma_seq_map_at(t, j);
                    if j != i {
                        assert(s[j] == t[j]);
                        lemma_seq_map_at(s, j);
                    }
                }
            }
        } else {
            proof {
                if i < s.len() {
                    K::lemma_total(s[i as int].0, k);
                }
            }
            entries.insert(i, (k, v));
            let ghost t = entries@;
            assert(t.len() == s.len() + 1);
            assert forall|j: int| 0 <= j < t.len() implies #[trigger] t[j] == (if j < i {
                s[j]
            } else if j == i {
                (k, v)
            } else {
                s[j - 1]
            }) by {}
            assert(sorted_keys(t)) by {
                assert forall|a: int, b: int| 0 <= a < b < t.len() implies (#[trigger] t[a]).0.precedes(
                    (#[trigger] t[b]).0,
                ) by {
                    if b < i {
                        assert(s[a].0.precedes(s[b].0));
                    } else if b == i {
                        assert(s[a].0.precedes(k));
                    } else if a == i {
                        if b - 1 > i {
                            assert(s[i as int].0.precedes(s[b - 1].0));
                            K::lemma_transitive(k, s[i as int].0, s[b - 1].0);
                        }
                    } else if a < i {
                        assert(s[a].0.precedes(k));
                        if b - 1 > i {
                            assert(s[i as int].0.precedes(s[b - 1].0));
                            K::lemma_transitive(k, s[i as int].0, s[b - 1].0);
                        }
                        K::lemma_transitive(s[a].0, k, s[b - 1].0);
                    } else {
                        assert(s[a - 1].0.precedes(s[b - 1].0));
                    }
                }
            }
            assert(!has_key(s, k)) by {
                if has_key(s, k) {
                    let j = choose|j: int| 0 <= j < s.len() && (#[trigger] s[j]).0 == k;
                    if j < i {
                        K::lemma_irreflexive(k);
                    } else if j > i {
                        assert(s[i as int].0.precedes(s[j].0));
                        K::lemma_irreflexive(k);
                    }
                }
            }
            assert(seq_map(t) =~= seq_map(s).insert(k, v)) by {
                assert forall|key: K| #[trigger] seq_map(t).contains_key(key) <==> seq_map(
                    s,
                ).insert(k, v).contains_key(key) by {
                    if has_key(s, key) {
                        let j = choose|j: int| 0 <= j < s.len() && (#[trigger] s[j]).0 == key;
                        if j < i {
                            assert(t[j].0 == key);
                        } else {
                            assert(t[j + 1].0 == key);
                        }
                    }
                    if key == k {
                        assert(t[i as int].0 == key);
                    }
                    if has_key(t, key) {
                        let j = choose|j: int| 0 <= j < t.len() && (#[trigger] t[j]).0 == key;
                        if j < i {
                            assert(s[j].0 == key);
                        } else if j > i {
                            assert(s[j - 1].0 == key);
                        }
                    }
                }
                assert forall|key: K| #[trigger] seq_map(t).contains_key(key) implies seq_map(t)[key]
                    == seq_map(s).insert(k, v)[key] by {
                    let j = index_of_key(t, key);
                    lemma_seq_map_at(t, j);
                    if j < i {
                        lemma_seq_map_at(s, j);
                    } else if j > i {
                        lemma_seq_map_at(s, j - 1);
                    }
                }
            }
        }
        self.entries = entries;
    }

    /// Take the value stored under `k` out of the map.
    pub fn remove(&mut self, k: &K) -> (r: Option<V>)
        ensures
            old(self).wf(),
            final(self).wf(),
            final(self)@ == old(self)@.remove(*k),
            match r {
                Some(v) => old(self)@.contains_key(*k) && v == old(self)@[*k],
                None => !old(self)@.contains_key(*k),
            },
    {
        proof {
            use_type_invariant(&*self);
        }
        let ghost s = self.entries@;
        match self.find(k) {
            None => {
                assert(seq_map(s).remove(*k) =~= seq_map(s));
                None
            },
            Some(i) => {
                proof {
                    lemma_seq_map_at(s, i as int);
                }
                let mut entries: Vec<(K, V)> = Vec::new();
                std::mem::swap(&mut entries, &mut self.entries);
                let (_, v) = entries.remove(i);
                let ghost t = entries@;
                assert forall|j: int| 0 <= j < t.len() implies #[trigger] t[j] == (if j < i {
                    s[j]
                } else {
                    s[j + 1]
                }) by {}
                assert(sorted_keys(t)) by {
                    assert forall|a: int, b: int| 0 <= a < b < t.len() implies (#[trigger] t[a]).0.precedes(
                        (#[trigger] t[b]).0,
                    ) by {
                        if b < i {
                            assert(s[a].0.precedes(s[b].0));
                        } else if a < i {
                            assert(s[a].0.precedes(s[b + 1].0));
                        } else {
                            assert(s[a + 1].0.precedes(s[b + 1].0));
                        }
                    }
                }
                assert(seq_map(t) =~= seq_map(s).remove(*k)) by {
                    assert forall|key: K| #[trigger] seq_map(t).contains_key(key) <==> seq_map(
                        s,
                    ).remove(*k).contains_key(key) by {
                        if has_key(s, key) && key != *k {
                            let j = choose|j: int| 0 <= j < s.len() && (#[trigger] s[j]).0 == key;
                            if j < i {
                                assert(t[j].0 == key);
                            } else {
                                assert(j != i);
                                assert(t[j - 1].0 == key);
                            }
                        }
                        if has_key(t, key) {
                            let j = choose|j: int| 0 <= j < t.len() && (#[trigger] t[j]).0 == key;
                            if j < i {
                                assert(s[j].0 == key);
                                if key == *k {
                                    lemma_key_unique(s, j, i as int);
                                }
                            } else {
                                assert(s[j + 1].0 == key);
                                if key == *k {
                                    lemma_key_unique(s, j + 1, i as int);
                                }
                            }
                        }
                    }
                    assert forall|key: K| #[trigger] seq_map(t).contains_key(key) implies seq_map(t)[key]
                        == seq_map(s).remove(*k)[key] by {
                        let j = index_of_key(t, key);
                        lemma_seq_map_at(t, j);
                        if j < i {
                            lemma_seq_map_at(s, j);
                        } else {
                            lemma_seq_map_at(s, j + 1);
                        }
                    }
                }
                self.entries = entries;
                Some(v)
            },
        }
    }

    /// Forget every entry.
    pub fn clear(&mut self)
        ensures
            final(self).wf(),
            final(self)@ == Map::<K, V>::empty(),
            final(self).entries() == Seq::<(K, V)>::empty(),
    {
        self.entries = Vec::new();
        assert(self@ =~= Map::<K, V>::empty());
    }
}

impl<K: MapKey, V: Copy> OrderedMap<K, V> {
    /// An identical map: the same keys in the same order, with the same values.
    pub fn copied(&self) -> (r: Self)
        ensures
            r.entries() == self.entries(),
            r@ == self@,
    {
        proof {
            use_type_invariant(self);
        }
        let mut entries: Vec<(K, V)> = Vec::new();
        let mut i: usize = 0;
        while i < self.entries.len()
            invariant
                i <= self.entries@.len(),
                entries@ == self.entries@.take(i as int),
            decreases self.entries@.len() - i,
        {
            let k = self.entries[i].0.duplicate();
            let v = self.entries[i].1;
            entries.push((k, v));
            i = i + 1;
            assert(entries@ =~= self.entries@.take(i as int));
        }
        assert(entries@ =~= self.entries@);
        OrderedMap { entries }
    }
}

impl<K: MapKey, V: Clone> Clone for OrderedMap<K, V> {
    /// A copy with the same keys in the same order, each value cloned.
    fn clone(&self) -> (r: Self)
        ensures
            r.entries().len() == self.entries().len(),
            forall|i: int|
                0 <= i < self.entries().len() ==> (#[trigger] r.entries()[i]).0 == self.entries()[i].0
                    && cloned::<V>(self.entries()[i].1, r.entries()[i].1),
    {
        proof {
            use_type_invariant(self);
        }
        let mut entries: Vec<(K, V)> = Vec::new();
        let mut i: usize = 0;
        while i < self.entries.len()
            invariant
                i <= self.entries@.len(),
                entries@.len() == i,
                forall|j: int|
                    0 <= j < i ==> (#[trigger] entries@[j]).0 == self.entries@[j].0 && cloned::<V>(
                        self.entries@[j].1,
                        entries@[j].1,
                    ),
            decreases self.entries@.len() - i,
        {
            let k = self.entries[i].0.duplicate();
            let v = self.entries[i].1.clone();
            entries.push((k, v));
            i = i + 1;
        }
        assert(sorted_keys(entries@)) by {
            assert forall|a: int, b: int| 0 <= a < b < entries@.len() implies (#[trigger] entries@[a]).0.precedes(
                (#[trigger] entries@[b]).0,
            ) by {
                assert(self.entries@[a].0.precedes(self.entries@[b].0));
            }
        }
        OrderedMap { entries }
    }
}

} // verus!
