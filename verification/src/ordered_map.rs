//! A map kept as a vector of entries sorted strictly by key.  It stands for
//! `BTreeMap`: lookups, inserts and removals behave as on a finite map, and
//! the entries are walked in increasing key order.
use vstd::prelude::*;

use crate::text::{compare_str, lemma_seq_lt_irreflexive, lemma_seq_lt_total, lemma_seq_lt_transitive, seq_lt, KeyOrder};

verus! {

/// Keys with a strict total order that can be decided at run time.
pub trait MapKey: View + Sized {
    /// The strict order on views of keys.
    spec fn key_lt(a: Self::V, b: Self::V) -> bool;

    proof fn lemma_key_irreflexive(a: Self::V)
        ensures
            !Self::key_lt(a, a),
    ;

    proof fn lemma_key_transitive(a: Self::V, b: Self::V, c: Self::V)
        requires
            Self::key_lt(a, b),
            Self::key_lt(b, c),
        ensures
            Self::key_lt(a, c),
    ;

    proof fn lemma_key_total(a: Self::V, b: Self::V)
        requires
            a != b,
        ensures
            Self::key_lt(a, b) || Self::key_lt(b, a),
    ;

    fn compare_key(&self, other: &Self) -> (r: KeyOrder)
        ensures
            r == KeyOrder::Less <==> Self::key_lt(self@, other@),
            r == KeyOrder::Equal <==> self@ == other@,
            r == KeyOrder::Greater <==> Self::key_lt(other@, self@),
    ;

    fn copy_key(&self) -> (r: Self)
        ensures
            r@ == self@,
    ;
}

/// Strings are ordered as `String`'s `Ord` orders them.
impl MapKey for String {
    open spec fn key_lt(a: Seq<char>, b: Seq<char>) -> bool {
        seq_lt(a, b)
    }

    proof fn lemma_key_irreflexive(a: Seq<char>) {
        lemma_seq_lt_irreflexive(a);
    }

    proof fn lemma_key_transitive(a: Seq<char>, b: Seq<char>, c: Seq<char>) {
        lemma_seq_lt_transitive(a, b, c);
    }

    proof fn lemma_key_total(a: Seq<char>, b: Seq<char>) {
        lemma_seq_lt_total(a, b);
    }

    fn compare_key(&self, other: &Self) -> (r: KeyOrder) {
        compare_str(self.as_str(), other.as_str())
    }

    fn copy_key(&self) -> (r: Self) {
        self.clone()
    }
}

/// The keys of `s` increase strictly from left to right.
pub open spec fn keys_sorted<K: MapKey, W>(s: Seq<(K::V, W)>) -> bool {
    forall|i: int, j: int| 0 <= i < j < s.len() ==> K::key_lt(#[trigger] s[i].0, #[trigger] s[j].0)
}

/// No key occurs twice in `s`.
pub open spec fn keys_distinct<KV, W>(s: Seq<(KV, W)>) -> bool {
    forall|i: int, j: int| 0 <= i < s.len() && 0 <= j < s.len() && i != j ==> #[trigger] s[i].0 != #[trigger] s[j].0
}

/// `k` is the key of some entry of `s`.
pub open spec fn has_key<KV, W>(s: Seq<(KV, W)>, k: KV) -> bool {
    exists|i: int| 0 <= i < s.len() && #[trigger] s[i].0 == k
}

/// The finite map that a sequence of entries stands for.
pub open spec fn map_of<KV, W>(s: Seq<(KV, W)>) -> Map<KV, W> {
    Map::new(
        |k: KV| has_key(s, k),
        |k: KV| s[choose|i: int| 0 <= i < s.len() && #[trigger] s[i].0 == k].1,
    )
}

pub proof fn lemma_sorted_distinct<K: MapKey, W>(s: Seq<(K::V, W)>)
    requires
        keys_sorted::<K, W>(s),
    ensures
        keys_distinct(s),
{
    assert forall|i: int, j: int| 0 <= i < s.len() && 0 <= j < s.len() && i != j implies #[trigger] s[i].0 != #[trigger] s[j].0 by {
        K::lemma_key_irreflexive(s[i].0);
        if i < j {
            assert(K::key_lt(s[i].0, s[j].0));
        } else {
            assert(K::key_lt(s[j].0, s[i].0));
        }
    }
}

/// In a sequence with distinct keys, the map sends each entry's key to its value.
pub proof fn lemma_map_of_index<KV, W>(s: Seq<(KV, W)>, i: int)
    requires
        keys_distinct(s),
        0 <= i < s.len(),
    ensures
        map_of(s).contains_key(s[i].0),
        map_of(s)[s[i].0] == s[i].1,
{
    let k = s[i].0;
    assert(has_key(s, k));
    let j = choose|j: int| 0 <= j < s.len() && #[trigger] s[j].0 == k;
    assert(s[j].0 == s[i].0);
}

/// The views of a sequence of entries.
pub open spec fn view_pairs<K: View, V: View>(es: Seq<(K, V)>) -> Seq<(K::V, V::V)> {
    Seq::new(es.len(), |i: int| (es[i].0@, es[i].1@))
}

/// Two sequences of entries sorted by key that stand for the same map are
/// the same sequence: the entries of a sorted map are its key-value pairs in
/// increasing key order, and nothing else.
pub proof fn lemma_sorted_pairs_unique<K: MapKey, W>(s1: Seq<(K::V, W)>, s2: Seq<(K::V, W)>)
    requires
        keys_sorted::<K, W>(s1),
        keys_sorted::<K, W>(s2),
        map_of(s1) == map_of(s2),
    ensures
        s1 == s2,
{
    lemma_sorted_distinct::<K, W>(s1);
    lemma_sorted_distinct::<K, W>(s2);
    assert forall|i: int| 0 <= i < s1.len() && 0 <= i < s2.len() implies s1[i].0 == s2[i].0 by {
        lemma_sorted_same_key_at::<K, W>(s1, s2, i);
    }
    if s1.len() < s2.len() {
        let n = s1.len() as int;
        lemma_map_of_index(s2, n);
        let k = s2[n].0;
        assert(map_of(s1).contains_key(k));
        let j = choose|j: int| 0 <= j < s1.len() && #[trigger] s1[j].0 == k;
        assert(s1[j].0 == s2[j].0);
        assert(false);
    }
    if s2.len() < s1.len() {
        let n = s2.len() as int;
        lemma_map_of_index(s1, n);
        let k = s1[n].0;
        assert(map_of(s2).contains_key(k));
        let j = choose|j: int| 0 <= j < s2.len() && #[trigger] s2[j].0 == k;
        assert(s1[j].0 == s2[j].0);
        assert(false);
    }
    assert forall|i: int| 0 <= i < s1.len() implies s1[i] == s2[i] by {
        lemma_map_of_index(s1, i);
        lemma_map_of_index(s2, i);
    }
    assert(s1 =~= s2);
}

proof fn lemma_sorted_same_key_at<K: MapKey, W>(s1: Seq<(K::V, W)>, s2: Seq<(K::V, W)>, i: int)
    requires
        keys_sorted::<K, W>(s1),
        keys_sorted::<K, W>(s2),
        map_of(s1) == map_of(s2),
        0 <= i < s1.len(),
        0 <= i < s2.len(),
    ensures
        s1[i].0 == s2[i].0,
    decreases i,
{
    lemma_sorted_distinct::<K, W>(s1);
    lemma_sorted_distinct::<K, W>(s2);
    let k1 = s1[i].0;
    let k2 = s2[i].0;
    lemma_map_of_index(s1, i);
    lemma_map_of_index(s2, i);
    assert(map_of(s2).contains_key(k1));
    assert(map_of(s1).contains_key(k2));
    let j2 = choose|j: int| 0 <= j < s2.len() && #[trigger] s2[j].0 == k1;
    let j1 = choose|j: int| 0 <= j < s1.len() && #[trigger] s1[j].0 == k2;
    if j2 < i {
        lemma_sorted_same_key_at::<K, W>(s1, s2, j2);
        assert(s1[j2].0 == k1);
        assert(false);
    }
    if j1 < i {
        lemma_sorted_same_key_at::<K, W>(s1, s2, j1);
        assert(s2[j1].0 == k2);
        assert(false);
    }
    if j2 > i && j1 > i {
        assert(K::key_lt(k2, k1));
        assert(K::key_lt(k1, k2));
        K::lemma_key_transitive(k1, k2, k1);
        K::lemma_key_irreflexive(k1);
    }
}

/// A map of keys `K` to values `V`, walked in increasing key order.
pub struct OrderedMap<K: MapKey, V: View> {
    entries: Vec<(K, V)>,
}

impl<K: MapKey, V: View> OrderedMap<K, V> {
    /// The entries' views, in increasing key order.
    pub closed spec fn pairs(&self) -> Seq<(K::V, V::V)> {
        view_pairs(self.entries@)
    }

    #[verifier::type_invariant]
    closed spec fn sorted(&self) -> bool {
        keys_sorted::<K, V::V>(self.pairs())
    }

    /// An empty map.
    pub fn new() -> (m: Self)
        ensures
            m@ == Map::<K::V, V::V>::empty(),
            m.pairs() == Seq::<(K::V, V::V)>::empty(),
            keys_sorted::<K, V::V>(m.pairs()),
    {
        let m = OrderedMap { entries: Vec::new() };
        assert(m.pairs() =~= Seq::<(K::V, V::V)>::empty());
        assert(m@ =~= Map::<K::V, V::V>::empty());
        m
    }

    /// The number of entries.
    pub fn len(&self) -> (n: usize)
        ensures
            n == self.pairs().len(),
            n == self@.dom().len(),
            keys_sorted::<K, V::V>(self.pairs()),
    {
        proof {
            use_type_invariant(self);
            self.lemma_dom_len();
        }
        self.entries.len()
    }

    proof fn lemma_dom_len(&self)
        requires
            self.sorted(),
        ensures
            self@.dom().finite(),
            self@.dom().len() == self.pairs().len(),
        decreases self.pairs().len(),
    {
        let s = self.pairs();
        lemma_sorted_distinct::<K, V::V>(s);
        let keys = Seq::new(s.len(), |i: int| s[i].0);
        assert(self@.dom() =~= keys.to_set()) by {
            assert forall|k: K::V| self@.dom().contains(k) implies keys.to_set().contains(k) by {
                let i = choose|i: int| 0 <= i < s.len() && #[trigger] s[i].0 == k;
                assert(keys[i] == k);
            }
            assert forall|k: K::V| keys.to_set().contains(k) implies self@.dom().contains(k) by {
                let i = choose|i: int| 0 <= i < keys.len() && keys[i] == k;
                assert(s[i].0 == k);
            }
        }
        assert(keys.no_duplicates()) by {
            assert forall|i: int, j: int| 0 <= i < keys.len() && 0 <= j < keys.len() && i != j implies keys[i] != keys[j] by {
                assert(s[i].0 != s[j].0);
            }
        }
        keys.unique_seq_to_set();
    }

    /// The key of the `i`-th entry in increasing key order.
    pub fn key_at(&self, i: usize) -> (k: &K)
        requires
            i < self.pairs().len(),
        ensures
            k@ == self.pairs()[i as int].0,
            self@.contains_key(k@),
            i > 0 ==> K::key_lt(self.pairs()[i - 1].0, k@),
            keys_sorted::<K, V::V>(self.pairs()),
    {
        proof {
            use_type_invariant(self);
            lemma_sorted_distinct::<K, V::V>(self.pairs());
            lemma_map_of_index(self.pairs(), i as int);
            if i > 0 {
                assert(K::key_lt(self.pairs()[i - 1].0, self.pairs()[i as int].0));
            }
        }
        &self.entries[i].0
    }

    /// The value of the `i`-th entry in increasing key order.
    pub fn value_at(&self, i: usize) -> (v: &V)
        requires
            i < self.pairs().len(),
        ensures
            v@ == self.pairs()[i as int].1,
            self@[self.pairs()[i as int].0] == v@,
            keys_sorted::<K, V::V>(self.pairs()),
    {
        proof {
            use_type_invariant(self);
            lemma_sorted_distinct::<K, V::V>(self.pairs());
            lemma_map_of_index(self.pairs(), i as int);
        }
        &self.entries[i].1
    }

    /// Adds an entry whose key is greater than every key already present.
    pub fn push_greatest(&mut self, k: K, v: V)
        requires
            old(self).pairs().len() == 0 || K::key_lt(old(self).pairs().last().0, k@),
        ensures
            final(self).pairs() == old(self).pairs().push((k@, v@)),
            final(self)@ == old(self)@.insert(k@, v@),
            keys_sorted::<K, V::V>(final(self).pairs()),
    {
        proof { use_type_invariant(&*self); }
        let ghost s = self.pairs();
        let ghost t = s.push((k@, v@));
        proof {
            assert forall|a: int, b: int| 0 <= a < b < t.len() implies K::key_lt(#[trigger] t[a].0, #[trigger] t[b].0) by {
                if b == s.len() && a < s.len() - 1 {
                    assert(K::key_lt(s[a].0, s[s.len() - 1].0));
                    K::lemma_key_transitive(s[a].0, s[s.len() - 1].0, k@);
                }
                if b < s.len() {
                    assert(K::key_lt(s[a].0, s[b].0));
                }
            }
        }
        let mut es: Vec<(K, V)> = Vec::new();
        std::mem::swap(&mut es, &mut self.entries);
        es.push((k, v));
        assert(view_pairs(es@) =~= t);
        self.entries = es;
        proof {
            lemma_sorted_distinct::<K, V::V>(s);
            lemma_sorted_distinct::<K, V::V>(t);
            let kv = t.last().0;
            let vv = t.last().1;
            assert(map_of(t) =~= map_of(s).insert(kv, vv)) by {
                assert forall|x: K::V| #[trigger] map_of(t).contains_key(x) == map_of(s).insert(kv, vv).contains_key(x) by {
                    if has_key(s, x) {
                        let j = choose|j: int| 0 <= j < s.len() && #[trigger] s[j].0 == x;
                        assert(t[j].0 == x);
                    }
                    if x == kv {
                        assert(t[s.len() as int].0 == x);
                    }
                    if has_key(t, x) && x != kv {
                        let j = choose|j: int| 0 <= j < t.len() && #[trigger] t[j].0 == x;
                        assert(s[j].0 == x);
                    }
                }
                assert forall|x: K::V| #[trigger] map_of(t).contains_key(x) implies map_of(t)[x] == map_of(s).insert(kv, vv)[x] by {
                    let j = choose|j: int| 0 <= j < t.len() && #[trigger] t[j].0 == x;
                    lemma_map_of_index(t, j);
                    if x != kv {
                        assert(j < s.len());
                        assert(t[j] == s[j]);
                        lemma_map_of_index(s, j);
                    } else {
                        assert(t[s.len() as int].0 == kv);
                        assert(j == s.len());
                    }
                }
            }
        }
        proof { use_type_invariant(&*self); }
    }

    /// Finds `k`: `Ok(i)` when the `i`-th entry has key `k`, else `Err(i)` with
    /// `i` the position where `k` would be inserted to keep the order.
    fn find(&self, k: &K) -> (r: Result<usize, usize>)
        ensures
            match r {
                Ok(i) => i < self.pairs().len() && self.pairs()[i as int].0 == k@,
                Err(i) => {
                    &&& i <= self.pairs().len()
                    &&& forall|j: int| 0 <= j < i ==> K::key_lt(#[trigger] self.pairs()[j].0, k@)
                    &&& forall|j: int| i <= j < self.pairs().len() ==> K::key_lt(k@, #[trigger] self.pairs()[j].0)
                },
            },
    {
        proof { use_type_invariant(self); }
        let n = self.entries.len();
        let mut i: usize = 0;
        while i < n
            invariant
                n == self.pairs().len(),
                i <= n,
                keys_sorted::<K, V::V>(self.pairs()),
                forall|j: int| 0 <= j < i ==> K::key_lt(#[trigger] self.pairs()[j].0, k@),
            decreases n - i,
        {
            let c = self.entries[i].0.compare_key(k);
            assert(self.pairs()[i as int].0 == self.entries@[i as int].0@);
            match c {
                KeyOrder::Less => {},
                KeyOrder::Equal => {
                    return Ok(i);
                },
                KeyOrder::Greater => {
                    proof {
                        assert forall|j: int| i <= j < self.pairs().len() implies K::key_lt(k@, #[trigger] self.pairs()[j].0) by {
                            if j > i {
                                assert(K::key_lt(self.pairs()[i as int].0, self.pairs()[j].0));
                                K::lemma_key_transitive(k@, self.pairs()[i as int].0, self.pairs()[j].0);
                            }
                        }
                    }
                    return Err(i);
                },
            }
            i = i + 1;
        }
        Err(i)
    }

    /// The value stored under `k`, if any.
    pub fn get(&self, k: &K) -> (r: Option<&V>)
        ensures
            match r {
                Some(v) => self@.contains_key(k@) && self@[k@] == v@,
                None => !self@.contains_key(k@),
            },
            keys_sorted::<K, V::V>(self.pairs()),
    {
        proof {
            use_type_invariant(self);
            lemma_sorted_distinct::<K, V::V>(self.pairs());
        }
        match self.find(k) {
            Ok(i) => {
                proof { lemma_map_of_index(self.pairs(), i as int); }
                Some(&self.entries[i].1)
            },
            Err(i) => {
                proof {
                    if self@.contains_key(k@) {
                        let j = choose|j: int| 0 <= j < self.pairs().len() && #[trigger] self.pairs()[j].0 == k@;
                        K::lemma_key_irreflexive(k@);
                        if j < i {
                            assert(K::key_lt(self.pairs()[j].0, k@));
                        } else {
                            assert(K::key_lt(k@, self.pairs()[j].0));
                        }
                    }
                }
                None
            },
        }
    }

    /// Whether some entry has key `k`.
    pub fn contains_key(&self, k: &K) -> (b: bool)
        ensures
            b == self@.contains_key(k@),
            keys_sorted::<K, V::V>(self.pairs()),
    {
        match self.get(k) {
            Some(_) => true,
            None => false,
        }
    }

    /// Stores `v` under `k`, replacing any earlier value.
    pub fn insert(&mut self, k: K, v: V)
        ensures
            final(self)@ == old(self)@.insert(k@, v@),
            keys_sorted::<K, V::V>(final(self).pairs()),
    {
        proof { use_type_invariant(&*self); }
        let ghost s = self.pairs();
        let ghost kv = k@;
        let ghost vv = v@;
        proof { lemma_sorted_distinct::<K, V::V>(s); }
        match self.find(&k) {
            Ok(i) => {
                let ghost t = s.update(i as int, (kv, vv));
                proof {
                    assert forall|a: int, b: int| 0 <= a < b < t.len() implies K::key_lt(#[trigger] t[a].0, #[trigger] t[b].0) by {
                        assert(K::key_lt(s[a].0, s[b].0));
                    }
                }
                let mut es: Vec<(K, V)> = Vec::new();
                std::mem::swap(&mut es, &mut self.entries);
                es.set(i, (k, v));
                assert(view_pairs(es@) =~= t);
                self.entries = es;
                proof {
                    assert(self.pairs() =~= t);
                    lemma_sorted_distinct::<K, V::V>(t);
                    assert(map_of(t) =~= map_of(s).insert(kv, vv)) by {
                        assert forall|x: K::V| #[trigger] map_of(t).contains_key(x) == map_of(s).insert(kv, vv).contains_key(x) by {
                            if has_key(s, x) {
                                let j = choose|j: int| 0 <= j < s.len() && #[trigger] s[j].0 == x;
                                assert(t[j].0 == x);
                            }
                            if has_key(t, x) {
                                let j = choose|j: int| 0 <= j < t.len() && #[trigger] t[j].0 == x;
                                assert(s[j].0 == x);
                            }
                        }
                        assert forall|x: K::V| #[trigger] map_of(t).contains_key(x) implies map_of(t)[x] == map_of(s).insert(kv, vv)[x] by {
                            let j = choose|j: int| 0 <= j < t.len() && #[trigger] t[j].0 == x;
                            lemma_map_of_index(t, j);
                            if x != kv {
                                lemma_map_of_index(s, j);
                            }
                        }
                    }
                }
            },
            Err(i) => {
                let ghost t = s.insert(i as int, (kv, vv));
                proof {
                    assert forall|a: int, b: int| 0 <= a < b < t.len() implies K::key_lt(#[trigger] t[a].0, #[trigger] t[b].0) by {
                        if b < i {
                            assert(K::key_lt(s[a].0, s[b].0));
                        } else if b == i {
                            assert(K::key_lt(s[a].0, kv));
                        } else if a == i {
                            assert(K::key_lt(kv, s[b - 1].0));
                        } else if a < i {
                            assert(K::key_lt(s[a].0, s[b - 1].0));
                        } else {
                            assert(K::key_lt(s[a - 1].0, s[b - 1].0));
                        }
                    }
                }
                let mut es: Vec<(K, V)> = Vec::new();
                std::mem::swap(&mut es, &mut self.entries);
                es.insert(i, (k, v));
                assert(view_pairs(es@) =~= t);
                self.entries = es;
                proof {
                    assert(self.pairs() =~= t);
                    lemma_sorted_distinct::<K, V::V>(t);
                    assert(map_of(t) =~= map_of(s).insert(kv, vv)) by {
                        assert forall|x: K::V| #[trigger] map_of(t).contains_key(x) == map_of(s).insert(kv, vv).contains_key(x) by {
                            if has_key(s, x) {
                                let j = choose|j: int| 0 <= j < s.len() && #[trigger] s[j].0 == x;
                                if j < i {
                                    assert(t[j].0 == x);
                                } else {
                                    assert(t[j + 1].0 == x);
                                }
                            }
                            if x == kv {
                                assert(t[i as int].0 == x);
                            }
                            if has_key(t, x) && x != kv {
                                let j = choose|j: int| 0 <= j < t.len() && #[trigger] t[j].0 == x;
                                if j < i {
                                    assert(s[j].0 == x);
                                } else {
                                    assert(s[j - 1].0 == x);
                                }
                            }
                        }
                        assert forall|x: K::V| #[trigger] map_of(t).contains_key(x) implies map_of(t)[x] == map_of(s).insert(kv, vv)[x] by {
                            let j = choose|j: int| 0 <= j < t.len() && #[trigger] t[j].0 == x;
                            lemma_map_of_index(t, j);
                            if x != kv {
                                if j < i {
                                    assert(t[j] == s[j]);
                                    lemma_map_of_index(s, j);
                                } else {
                                    assert(j != i);
                                    assert(t[j] == s[j - 1]);
                                    lemma_map_of_index(s, j - 1);
                                }
                            } else {
                                assert(t[i as int].0 == kv);
                                assert(j == i);
                            }
                        }
                    }
                }
            },
        }
        proof { use_type_invariant(&*self); }
    }

    /// Removes the entry with key `k`, if any.
    pub fn remove(&mut self, k: &K)
        ensures
            final(self)@ == old(self)@.remove(k@),
            keys_sorted::<K, V::V>(final(self).pairs()),
    {
        proof { use_type_invariant(&*self); }
        let ghost s = self.pairs();
        proof { lemma_sorted_distinct::<K, V::V>(s); }
        match self.find(k) {
            Ok(i) => {
                let ghost t = s.remove(i as int);
                proof {
                    assert forall|a: int, b: int| 0 <= a < b < t.len() implies K::key_lt(#[trigger] t[a].0, #[trigger] t[b].0) by {
                        if b < i {
                            assert(K::key_lt(s[a].0, s[b].0));
                        } else if a < i {
                            assert(K::key_lt(s[a].0, s[b + 1].0));
                        } else {
                            assert(K::key_lt(s[a + 1].0, s[b + 1].0));
                        }
                    }
                }
                let mut es: Vec<(K, V)> = Vec::new();
                std::mem::swap(&mut es, &mut self.entries);
                es.remove(i);
                assert(view_pairs(es@) =~= t);
                self.entries = es;
                proof {
                    assert(self.pairs() =~= t);
                    lemma_sorted_distinct::<K, V::V>(t);
                    assert(map_of(t) =~= map_of(s).remove(k@)) by {
                        assert forall|x: K::V| #[trigger] map_of(t).contains_key(x) == map_of(s).remove(k@).contains_key(x) by {
                            if has_key(s, x) && x != k@ {
                                let j = choose|j: int| 0 <= j < s.len() && #[trigger] s[j].0 == x;
                                if j < i {
                                    assert(t[j].0 == x);
                                } else {
                                    assert(t[j - 1].0 == x);
                                }
                            }
                            if has_key(t, x) {
                                let j = choose|j: int| 0 <= j < t.len() && #[trigger] t[j].0 == x;
                                if j < i {
                                    assert(s[j].0 == x);
                                } else {
                                    assert(s[j + 1].0 == x);
                                }
                            }
                        }
                        assert forall|x: K::V| #[trigger] map_of(t).contains_key(x) implies map_of(t)[x] == map_of(s).remove(k@)[x] by {
                            let j = choose|j: int| 0 <= j < t.len() && #[trigger] t[j].0 == x;
                            lemma_map_of_index(t, j);
                            if j < i {
                                lemma_map_of_index(s, j);
                            } else {
                                lemma_map_of_index(s, j + 1);
                            }
                        }
                    }
                }
            },
            Err(i) => {
                proof {
                    assert(map_of(s) =~= map_of(s).remove(k@)) by {
                        if has_key(s, k@) {
                            let j = choose|j: int| 0 <= j < s.len() && #[trigger] s[j].0 == k@;
                            K::lemma_key_irreflexive(k@);
                            if j < i {
                                assert(K::key_lt(s[j].0, k@));
                            } else {
                                assert(K::key_lt(k@, s[j].0));
                            }
                        }
                    }
                }
            },
        }
        proof { use_type_invariant(&*self); }
    }
}

/// A map from strings to strings, walked in increasing key order.
pub type StrMap = OrderedMap<String, String>;

impl<K: MapKey, V: View> View for OrderedMap<K, V> {
    type V = Map<K::V, V::V>;

    open spec fn view(&self) -> Map<K::V, V::V> {
        map_of(self.pairs())
    }
}

} // verus!
