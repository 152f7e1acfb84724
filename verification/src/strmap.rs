//! Maps keyed by strings, and sorted string sets.
//!
//! `StrMap` keeps its entries in insertion order, so that every walk over it
//! is deterministic; a key is present at most once when the map is only
//! changed through `insert` and `index_or_insert`.
use vstd::prelude::*;

use crate::text::{chars_of, lemma_lex_total, lemma_lex_trans, lemma_lex_irrefl, lex_less, lex_lt, seq_eq, strictly_sorted};

verus! {

/// An insertion-ordered map from strings to values.
pub struct StrMap<V> {
    entries: Vec<(String, V)>,
}

impl<V> StrMap<V> {
    /// Number of entries.
    pub closed spec fn spec_len(self) -> nat {
        self.entries@.len()
    }

    /// Key of the entry at position `i`.
    pub closed spec fn key_at(self, i: int) -> Seq<char> {
        self.entries@[i].0@
    }

    /// Value of the entry at position `i`.
    pub closed spec fn val_at(self, i: int) -> V {
        self.entries@[i].1
    }

    /// The keys, in order.
    pub open spec fn key_seq(self) -> Seq<Seq<char>> {
        Seq::new(self.spec_len(), |i: int| self.key_at(i))
    }

    /// No key occurs twice.
    pub open spec fn distinct(self) -> bool {
        forall|i: int, j: int| 0 <= i < j < self.spec_len() ==> self.key_at(i) != self.key_at(j)
    }

    /// Position of the first entry at or after `i` whose key is `k`
    /// (`spec_len()` when there is none).
    pub open spec fn first_from(self, k: Seq<char>, i: int) -> int
        decreases self.spec_len() - i,
    {
        if i < 0 || i >= self.spec_len() {
            self.spec_len() as int
        } else if self.key_at(i) == k {
            i
        } else {
            self.first_from(k, i + 1)
        }
    }

    /// Position of the entry whose key is `k` (`spec_len()` when absent).
    pub open spec fn index_of(self, k: Seq<char>) -> int {
        self.first_from(k, 0)
    }

    /// The map has an entry for `k`.
    pub open spec fn has(self, k: Seq<char>) -> bool {
        self.index_of(k) < self.spec_len()
    }

    /// The value stored for `k`.
    pub open spec fn spec_get(self, k: Seq<char>) -> Option<V> {
        if self.has(k) {
            Some(self.val_at(self.index_of(k)))
        } else {
            None
        }
    }


    /// An empty map.
    pub fn new() -> (m: Self)
        ensures
            m.spec_len() == 0,
    {
        StrMap { entries: Vec::new() }
    }

    pub fn len(&self) -> (n: usize)
        ensures
            n == self.spec_len(),
    {
        self.entries.len()
    }

    /// Key at position `i`.
    pub fn key(&self, i: usize) -> (r: &String)
        requires
            i < self.spec_len(),
        ensures
            r@ == self.key_at(i as int),
    {
        &self.entries[i].0
    }

    /// Value at position `i`.
    pub fn val(&self, i: usize) -> (r: &V)
        requires
            i < self.spec_len(),
        ensures
            *r == self.val_at(i as int),
    {
        &self.entries[i].1
    }

    /// Mutable access to the value at position `i`; keys stay as they are.
    pub fn val_mut(&mut self, i: usize) -> (r: &mut V)
        requires
            i < old(self).spec_len(),
        ensures
            *r == old(self).val_at(i as int),
            final(self).spec_len() == old(self).spec_len(),
            forall|j: int| 0 <= j < old(self).spec_len() ==> final(self).key_at(j) == old(self).key_at(j),
            final(self).val_at(i as int) == *final(r),
            forall|j: int|
                0 <= j < old(self).spec_len() && j != i ==> final(self).val_at(j) == old(self).val_at(j),
    {
        &mut self.entries[i].1
    }

    /// Position of the entry whose key has the characters `k`.
    pub fn find_chars(&self, k: &Vec<char>) -> (r: Option<usize>)
        ensures
            match r {
                Some(i) => i == self.index_of(k@) && i < self.spec_len(),
                None => !self.has(k@),
            },
    {
        let n = self.entries.len();
        let mut i: usize = 0;
        while i < n
            invariant
                n == self.spec_len(),
                0 <= i <= n,
                self.first_from(k@, i as int) == self.first_from(k@, 0),
            decreases n - i,
        {
            let ki = chars_of(self.entries[i].0.as_str());
            if seq_eq(&ki, k) {
                return Some(i);
            }
            i = i + 1;
        }
        None
    }

    /// Position of the entry whose key is `k`.
    pub fn find(&self, k: &str) -> (r: Option<usize>)
        ensures
            match r {
                Some(i) => i == self.index_of(k@) && i < self.spec_len(),
                None => !self.has(k@),
            },
    {
        let kc = chars_of(k);
        self.find_chars(&kc)
    }

    /// `HashMap::get`.
    pub fn get(&self, k: &str) -> (r: Option<&V>)
        ensures
            match r {
                Some(v) => self.spec_get(k@) == Some(*v),
                None => self.spec_get(k@) is None,
            },
    {
        match self.find(k) {
            Some(i) => Some(self.val(i)),
            None => None,
        }
    }

    /// `HashMap::contains_key`.
    pub fn contains_key(&self, k: &str) -> (r: bool)
        ensures
            r == self.has(k@),
    {
        self.find(k).is_some()
    }

    pub proof fn lemma_first_from_unchanged(self, other: Self, k: Seq<char>, i: int)
        requires
            0 <= i <= self.spec_len(),
            other.spec_len() == self.spec_len() + 1,
            forall|j: int| 0 <= j < self.spec_len() ==> other.key_at(j) == self.key_at(j),
            other.key_at(self.spec_len() as int) == k,
            forall|j: int| i <= j < self.spec_len() ==> self.key_at(j) != k,
        ensures
            other.first_from(k, i) == self.spec_len(),
        decreases self.spec_len() - i,
    {
        if i < self.spec_len() {
            self.lemma_first_from_unchanged(other, k, i + 1);
        }
    }

    pub proof fn lemma_first_from_prefix(self, other: Self, k: Seq<char>, i: int)
        requires
            0 <= i <= self.spec_len() <= other.spec_len(),
            forall|j: int| 0 <= j < self.spec_len() ==> other.key_at(j) == self.key_at(j),
            self.first_from(k, i) < self.spec_len(),
        ensures
            other.first_from(k, i) == self.first_from(k, i),
        decreases self.spec_len() - i,
    {
        if i < self.spec_len() && self.key_at(i) != k {
            self.lemma_first_from_prefix(other, k, i + 1);
        }
    }

    pub proof fn lemma_first_from_absent(self, other: Self, k: Seq<char>, q: Seq<char>, i: int)
        requires
            0 <= i <= self.spec_len(),
            other.spec_len() == self.spec_len() + 1,
            forall|j: int| 0 <= j < self.spec_len() ==> other.key_at(j) == self.key_at(j),
            other.key_at(self.spec_len() as int) != q,
            self.first_from(q, i) == self.spec_len(),
        ensures
            other.first_from(q, i) == other.spec_len(),
        decreases self.spec_len() - i,
    {
        if i < self.spec_len() {
            self.lemma_first_from_absent(other, k, q, i + 1);
        } else {
            assert(other.first_from(q, i + 1) == other.spec_len());
        }
    }

    pub proof fn lemma_first_from_bounds(self, k: Seq<char>, i: int)
        requires
            0 <= i <= self.spec_len(),
        ensures
            i <= self.first_from(k, i) <= self.spec_len(),
            self.first_from(k, i) < self.spec_len() ==> self.key_at(self.first_from(k, i)) == k,
            forall|j: int| i <= j < self.first_from(k, i) ==> self.key_at(j) != k,
        decreases self.spec_len() - i,
    {
        if i < self.spec_len() && self.key_at(i) != k {
            self.lemma_first_from_bounds(k, i + 1);
        }
    }

    /// The position of `k`, inserting `(k, v)` at the end when absent
    /// (`HashMap::entry(k).or_insert(v)`).
    pub fn index_or_insert(&mut self, k: String, v: V) -> (i: usize)
        ensures
            old(self).has(k@) ==> {
                &&& *final(self) == *old(self)
                &&& i == old(self).index_of(k@)
            },
            !old(self).has(k@) ==> {
                &&& final(self).spec_len() == old(self).spec_len() + 1
                &&& i == old(self).spec_len()
                &&& final(self).key_at(i as int) == k@
                &&& final(self).val_at(i as int) == v
                &&& forall|j: int|
                    0 <= j < old(self).spec_len() ==> final(self).key_at(j) == old(self).key_at(j)
                        && final(self).val_at(j) == old(self).val_at(j)
            },
            i < final(self).spec_len(),
            final(self).has(k@),
            i == final(self).index_of(k@),
            old(self).distinct() ==> final(self).distinct(),
    {
        let kc = chars_of(k.as_str());
        match self.find_chars(&kc) {
            Some(i) => {
                proof {
                    self.lemma_first_from_bounds(k@, 0);
                }
                i
            },
            None => {
                let ghost old_self = *self;
                let n = self.entries.len();
                self.entries.push((k, v));
                proof {
                    old_self.lemma_first_from_bounds(kc@, 0);
                    old_self.lemma_first_from_unchanged(*self, kc@, 0);
                    assert forall|a: int, b: int|
                        0 <= a < b < self.spec_len() && old_self.distinct() implies self.key_at(a)
                        != self.key_at(b) by {
                        assert(self.key_at(a) == old_self.key_at(a));
                        if b == n {
                            assert(old_self.key_at(a) != kc@);
                        } else {
                            assert(self.key_at(b) == old_self.key_at(b));
                        }
                    }
                }
                n
            },
        }
    }

    /// `HashMap::insert`: sets the value of `k`, keeping its position when present.
    pub fn insert(&mut self, k: String, v: V)
        ensures
            final(self).has(k@),
            final(self).spec_get(k@) == Some(v),
            old(self).has(k@) ==> final(self).spec_len() == old(self).spec_len(),
            !old(self).has(k@) ==> final(self).spec_len() == old(self).spec_len() + 1,
            forall|q: Seq<char>| q != k@ ==> #[trigger] final(self).spec_get(q) == old(self).spec_get(q),
            forall|j: int|
                0 <= j < old(self).spec_len() ==> final(self).key_at(j) == old(self).key_at(j),
            !old(self).has(k@) ==> final(self).key_at(old(self).spec_len() as int) == k@,
            old(self).has(k@) ==> final(self).val_at(old(self).index_of(k@)) == v,
            !old(self).has(k@) ==> final(self).val_at(old(self).spec_len() as int) == v,
            forall|j: int|
                0 <= j < old(self).spec_len() && j != old(self).index_of(k@) ==> #[trigger] final(self).val_at(j)
                    == old(self).val_at(j),
            old(self).distinct() ==> final(self).distinct(),
    {
        let ghost old_self = *self;
        let ghost kv = k@;
        let kc = chars_of(k.as_str());
        match self.find_chars(&kc) {
            Some(i) => {
                *self.val_mut(i) = v;
                proof {
                    old_self.lemma_first_from_bounds(kv, 0);
                    old_self.lemma_first_from_same_keys(*self, kv, 0);
                }
            },
            None => {
                self.entries.push((k, v));
                proof {
                    old_self.lemma_first_from_bounds(kv, 0);
                    old_self.lemma_first_from_unchanged(*self, kv, 0);
                    assert forall|a: int, b: int|
                        0 <= a < b < self.spec_len() && old_self.distinct() implies self.key_at(a)
                        != self.key_at(b) by {
                        assert(self.key_at(a) == old_self.key_at(a));
                        if b == old_self.spec_len() {
                            assert(old_self.key_at(a) != kv);
                        } else {
                            assert(self.key_at(b) == old_self.key_at(b));
                        }
                    }
                }
            },
        }
        proof {
            assert forall|q: Seq<char>| q != kv implies #[trigger] self.spec_get(q) == old_self.spec_get(q) by {
                old_self.lemma_first_from_bounds(q, 0);
                self.lemma_first_from_bounds(q, 0);
                if old_self.has(q) {
                    old_self.lemma_first_from_prefix(*self, q, 0);
                } else if !old_self.has(kv) {
                    old_self.lemma_first_from_absent(*self, kv, q, 0);
                } else {
                    assert(self.spec_len() == old_self.spec_len());
                    old_self.lemma_first_from_same_keys(*self, q, 0);
                }
            }
        }
    }

    pub proof fn lemma_first_from_same_keys(self, other: Self, k: Seq<char>, i: int)
        requires
            0 <= i <= self.spec_len(),
            other.spec_len() == self.spec_len(),
            forall|j: int| 0 <= j < self.spec_len() ==> other.key_at(j) == self.key_at(j),
        ensures
            other.first_from(k, i) == self.first_from(k, i),
        decreases self.spec_len() - i,
    {
        if i < self.spec_len() {
            self.lemma_first_from_same_keys(other, k, i + 1);
        }
    }
}

/// A set of strings, kept in increasing order.
pub struct StrSet {
    items: Vec<String>,
}

/// The characters of each string.
pub open spec fn views(v: Seq<String>) -> Seq<Seq<char>> {
    v.map_values(|s: String| s@)
}

impl StrSet {
    #[verifier::type_invariant]
    spec fn inv(self) -> bool {
        strictly_sorted(views(self.items@))
    }

    /// The elements, in increasing order.
    pub closed spec fn elems(self) -> Seq<Seq<char>> {
        views(self.items@)
    }

    /// The elements as a set.
    pub open spec fn to_set(self) -> Set<Seq<char>> {
        self.elems().to_set()
    }

    /// An empty set.
    pub fn new() -> (r: Self)
        ensures
            r.elems() == Seq::<Seq<char>>::empty(),
    {
        let r = StrSet { items: Vec::new() };
        assert(views(r.items@) =~= Seq::<Seq<char>>::empty());
        r
    }

    /// The elements are strictly increasing.
    pub fn sorted(&self)
        ensures
            strictly_sorted(self.elems()),
    {
        proof {
            use_type_invariant(self);
        }
    }

    /// Number of elements.
    pub fn len(&self) -> (n: usize)
        ensures
            n == self.elems().len(),
    {
        self.items.len()
    }

    /// Adds `s`; the elements stay increasing and each occurs once.
    pub fn insert(&mut self, s: String)
        ensures
            final(self).to_set() == old(self).to_set().insert(s@),
            strictly_sorted(final(self).elems()),
    {
        proof {
            use_type_invariant(&*self);
        }
        let ghost old_elems = self.elems();
        let mut items: Vec<String> = Vec::new();
        std::mem::swap(&mut items, &mut self.items);
        assert(views(items@) == old_elems);
        let sc = chars_of(s.as_str());
        let mut p: usize = 0;
        while p < items.len()
            invariant
                0 <= p <= items@.len(),
                views(items@) == old_elems,
                strictly_sorted(old_elems),
                sc@ == s@,
                forall|k: int| 0 <= k < p ==> lex_lt(#[trigger] old_elems[k], s@),
            ensures
                0 <= p <= items@.len(),
                views(items@) == old_elems,
                forall|k: int| 0 <= k < p ==> lex_lt(#[trigger] old_elems[k], s@),
                p < items@.len() ==> !lex_lt(old_elems[p as int], s@),
            decreases items@.len() - p,
        {
            let ip = chars_of(items[p].as_str());
            assert(ip@ == old_elems[p as int]);
            if !lex_less(&ip, &sc) {
                break;
            }
            p = p + 1;
        }
        if p < items.len() {
            let ip = chars_of(items[p].as_str());
            if crate::text::seq_eq(&ip, &sc) {
                proof {
                    assert(old_elems.to_set().insert(s@) =~= old_elems.to_set()) by {
                        assert(old_elems[p as int] == s@);
                    }
                }
                self.items = items;
                return;
            }
        }
        let ghost before = items@;
        items.insert(p, s);
        proof {
            let ne = views(items@);
            assert(ne =~= old_elems.take(p as int).push(s@) + old_elems.skip(p as int));
            assert forall|i: int, j: int| 0 <= i < j < ne.len() implies lex_lt(ne[i], ne[j]) by {
                if j < p {
                } else if j == p {
                    assert(ne[i] == old_elems[i]);
                } else if i == p {
                    assert(ne[j] == old_elems[j - 1]);
                    let q = old_elems[p as int];
                    lemma_lex_total(q, s@);
                    if j - 1 > p {
                        lemma_lex_trans(s@, q, old_elems[j - 1]);
                    }
                } else if i < p {
                    assert(ne[j] == old_elems[j - 1]);
                    assert(ne[i] == old_elems[i]);
                } else {
                    assert(ne[j] == old_elems[j - 1]);
                    assert(ne[i] == old_elems[i - 1]);
                }
            }
            assert(ne.to_set() =~= old_elems.to_set().insert(s@)) by {
                assert forall|x: Seq<char>| ne.to_set().contains(x) <==> old_elems.to_set().insert(s@).contains(x) by {
                    if ne.to_set().contains(x) {
                        let k = choose|k: int| 0 <= k < ne.len() && ne[k] == x;
                        if k < p {
                            assert(old_elems[k] == x);
                        } else if k > p {
                            assert(old_elems[k - 1] == x);
                        }
                    }
                    if old_elems.to_set().contains(x) {
                        let k = choose|k: int| 0 <= k < old_elems.len() && old_elems[k] == x;
                        if k < p {
                            assert(ne[k] == x);
                        } else {
                            assert(ne[k + 1] == x);
                        }
                    }
                    if x == s@ {
                        assert(ne[p as int] == x);
                    }
                }
            }
        }
        self.items = items;
    }

    /// The elements, in increasing order.
    pub fn to_vec(&self) -> (r: Vec<String>)
        ensures
            views(r@) == self.elems(),
    {
        let mut r: Vec<String> = Vec::new();
        let mut i: usize = 0;
        while i < self.items.len()
            invariant
                0 <= i <= self.items@.len(),
                views(r@) == views(self.items@).take(i as int),
            decreases self.items@.len() - i,
        {
            let c = self.items[i].clone();
            assert(c@ == self.items@[i as int]@);
            let ghost before = r@;
            r.push(c);
            assert(views(r@) =~= views(before).push(c@));
            i = i + 1;
            assert(views(r@) =~= views(self.items@).take(i as int));
        }
        assert(views(self.items@).take(i as int) =~= views(self.items@));
        r
    }
}


/// Position of the first pair at or after `i` whose key is `k` (`s.len()`
/// when there is none).
pub open spec fn al_from<W>(s: Seq<(Seq<char>, W)>, k: Seq<char>, i: int) -> int
    decreases s.len() - i,
{
    if i < 0 || i >= s.len() {
        s.len() as int
    } else if s[i].0 == k {
        i
    } else {
        al_from(s, k, i + 1)
    }
}

/// Position of the first pair whose key is `k` (`s.len()` when absent).
pub open spec fn al_find<W>(s: Seq<(Seq<char>, W)>, k: Seq<char>) -> int {
    al_from(s, k, 0)
}

/// The value paired with `k`, or `d` when `k` is absent.
pub open spec fn al_get_or<W>(s: Seq<(Seq<char>, W)>, k: Seq<char>, d: W) -> W {
    let i = al_find(s, k);
    if i < s.len() {
        s[i].1
    } else {
        d
    }
}

/// `s` with the value of `k` replaced by `v`, or `(k, v)` appended when `k`
/// is absent.
pub open spec fn al_set<W>(s: Seq<(Seq<char>, W)>, k: Seq<char>, v: W) -> Seq<(Seq<char>, W)> {
    let i = al_find(s, k);
    if i < s.len() {
        s.update(i, (k, v))
    } else {
        s.push((k, v))
    }
}

/// The keys of `s` are those of `m`, position by position.
pub open spec fn keys_agree<V, W>(m: StrMap<V>, s: Seq<(Seq<char>, W)>) -> bool {
    &&& s.len() == m.spec_len()
    &&& forall|i: int| 0 <= i < s.len() ==> #[trigger] s[i].0 == m.key_at(i)
}

pub proof fn lemma_find_agrees<V, W>(m: StrMap<V>, s: Seq<(Seq<char>, W)>, k: Seq<char>, i: int)
    requires
        keys_agree(m, s),
        0 <= i <= s.len(),
    ensures
        m.first_from(k, i) == al_from(s, k, i),
    decreases s.len() - i,
{
    if i < s.len() {
        assert(s[i].0 == m.key_at(i));
        lemma_find_agrees(m, s, k, i + 1);
    }
}

pub proof fn lemma_al_from_bounds<W>(s: Seq<(Seq<char>, W)>, k: Seq<char>, i: int)
    requires
        0 <= i <= s.len(),
    ensures
        i <= al_from(s, k, i) <= s.len(),
        al_from(s, k, i) < s.len() ==> s[al_from(s, k, i)].0 == k,
    decreases s.len() - i,
{
    if i < s.len() && s[i].0 != k {
        lemma_al_from_bounds(s, k, i + 1);
    }
}

/// A map entry changed in place or added at the end (as `index_or_insert`
/// followed by a change through `val_mut` leaves it) is, in any view that
/// agrees on keys, an `al_set` of the new value.
pub proof fn lemma_set_agrees<V, W>(
    m0: StrMap<V>,
    m1: StrMap<V>,
    s0: Seq<(Seq<char>, W)>,
    s1: Seq<(Seq<char>, W)>,
    k: Seq<char>,
    i: int,
    v: W,
)
    requires
        keys_agree(m0, s0),
        keys_agree(m1, s1),
        m0.has(k) ==> m1.spec_len() == m0.spec_len() && i == m0.index_of(k),
        !m0.has(k) ==> m1.spec_len() == m0.spec_len() + 1 && i == m0.spec_len(),
        0 <= i < s1.len(),
        s1[i] == (k, v),
        forall|j: int| 0 <= j < m0.spec_len() && j != i ==> #[trigger] s1[j] == s0[j],
    ensures
        s1 == al_set(s0, k, v),
        al_find(s0, k) == m0.index_of(k),
{
    lemma_find_agrees(m0, s0, k, 0);
    lemma_al_from_bounds(s0, k, 0);
    m0.lemma_first_from_bounds(k, 0);
    assert(s1 =~= al_set(s0, k, v));
}

} // verus!
