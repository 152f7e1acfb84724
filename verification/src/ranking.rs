//! Ranking by score: a stable sort from the highest score to the lowest,
//! as `sort_by_key(|a| Reverse(a.1))` leaves a list.
use vstd::prelude::*;
use vstd::multiset::Multiset;

verus! {

/// `s` with `x` inserted after every leading entry whose score is at least
/// `x`'s.
pub open spec fn insert_desc(s: Seq<(usize, i128)>, x: (usize, i128)) -> Seq<(usize, i128)>
    decreases s.len(),
{
    if s.len() == 0 {
        seq![x]
    } else if s[0].1 >= x.1 {
        seq![s[0]] + insert_desc(s.drop_first(), x)
    } else {
        seq![x] + s
    }
}

/// The entries of `s` from the highest score to the lowest, entries with
/// equal scores in their order in `s` (a stable sort).
pub open spec fn sort_desc(s: Seq<(usize, i128)>) -> Seq<(usize, i128)>
    decreases s.len(),
{
    if s.len() == 0 {
        s
    } else {
        insert_desc(sort_desc(s.drop_last()), s.last())
    }
}

/// Scores never increase along `s`.
pub open spec fn descending(s: Seq<(usize, i128)>) -> bool {
    forall|i: int, j: int| 0 <= i < j < s.len() ==> s[i].1 >= s[j].1
}

/// The first `n` entries of `s` (all of them when there are fewer).
pub open spec fn first_n<T>(s: Seq<T>, n: nat) -> Seq<T> {
    if n <= s.len() {
        s.take(n as int)
    } else {
        s
    }
}

proof fn lemma_insert_at(s: Seq<(usize, i128)>, x: (usize, i128), k: int)
    requires
        0 <= k <= s.len(),
        forall|j: int| 0 <= j < k ==> s[j].1 >= x.1,
        k < s.len() ==> s[k].1 < x.1,
    ensures
        insert_desc(s, x) == s.take(k).push(x) + s.skip(k),
    decreases s.len(),
{
    if s.len() == 0 {
        assert(s.take(k).push(x) + s.skip(k) =~= seq![x]);
    } else if k == 0 {
        assert(s.take(0).push(x) + s.skip(0) =~= seq![x] + s);
    } else {
        lemma_insert_at(s.drop_first(), x, k - 1);
        assert(s.take(k).push(x) + s.skip(k) =~= seq![s[0]] + (s.drop_first().take(k - 1).push(x)
            + s.drop_first().skip(k - 1)));
    }
}

/// Inserting into a descending list keeps it descending, and the result
/// holds the same entries plus `x`.
pub proof fn lemma_insert_desc(s: Seq<(usize, i128)>, x: (usize, i128))
    requires
        descending(s),
    ensures
        descending(insert_desc(s, x)),
        insert_desc(s, x).len() == s.len() + 1,
        insert_desc(s, x).to_multiset() == s.to_multiset().insert(x),
    decreases s.len(),
{
    broadcast use vstd::seq_lib::group_to_multiset_ensures;
    if s.len() == 0 {
        assert(insert_desc(s, x) =~= seq![x]);
        assert(seq![x].to_multiset() =~= s.to_multiset().insert(x)) by {
            broadcast use vstd::seq_lib::group_to_multiset_ensures;
            assert(seq![x] =~= Seq::<(usize, i128)>::empty().push(x));
        }
    } else if s[0].1 >= x.1 {
        let t = s.drop_first();
        assert(descending(t));
        lemma_insert_desc(t, x);
        let r = insert_desc(s, x);
        assert(r == seq![s[0]] + insert_desc(t, x));
        assert forall|i: int, j: int| 0 <= i < j < r.len() implies r[i].1 >= r[j].1 by {
            if i == 0 {
                let y = insert_desc(t, x)[j - 1];
                assert(insert_desc(t, x).contains(y));
                assert(insert_desc(t, x).to_multiset().contains(y));
                assert(t.to_multiset().insert(x).contains(y));
                if y != x {
                    assert(t.to_multiset().contains(y));
                    broadcast use vstd::seq_lib::group_to_multiset_ensures;
                    let k = choose|k: int| 0 <= k < t.len() && t[k] == y;
                    assert(s[k + 1] == y);
                }
            } else {
                assert(r[i] == insert_desc(t, x)[i - 1]);
                assert(r[j] == insert_desc(t, x)[j - 1]);
            }
        }
        broadcast use vstd::seq_lib::group_to_multiset_ensures;
        assert(s =~= seq![s[0]] + t);
        vstd::seq_lib::lemma_multiset_commutative(seq![s[0]], t);
        vstd::seq_lib::lemma_multiset_commutative(seq![s[0]], insert_desc(t, x));
        assert(seq![s[0]].to_multiset() =~= Multiset::<(usize, i128)>::empty().insert(s[0])) by {
            assert(seq![s[0]] =~= Seq::<(usize, i128)>::empty().push(s[0]));
        }
        assert(r.to_multiset() =~= s.to_multiset().insert(x));
    } else {
        let r = insert_desc(s, x);
        assert(r == seq![x] + s);
        assert forall|i: int, j: int| 0 <= i < j < r.len() implies r[i].1 >= r[j].1 by {
            if i == 0 {
                assert(r[j] == s[j - 1]);
                assert(s[0].1 >= s[j - 1].1 || j - 1 == 0);
            } else {
                assert(r[i] == s[i - 1]);
                assert(r[j] == s[j - 1]);
            }
        }
        broadcast use vstd::seq_lib::group_to_multiset_ensures;
        vstd::seq_lib::lemma_multiset_commutative(seq![x], s);
        assert(seq![x].to_multiset() =~= Multiset::<(usize, i128)>::empty().insert(x)) by {
            assert(seq![x] =~= Seq::<(usize, i128)>::empty().push(x));
        }
        assert(r.to_multiset() =~= s.to_multiset().insert(x));
    }
}

/// The ranking is descending and holds exactly the entries of `s`.
pub proof fn lemma_sort_desc(s: Seq<(usize, i128)>)
    ensures
        descending(sort_desc(s)),
        sort_desc(s).to_multiset() == s.to_multiset(),
        sort_desc(s).len() == s.len(),
    decreases s.len(),
{
    if s.len() == 0 {
    } else {
        lemma_sort_desc(s.drop_last());
        lemma_insert_desc(sort_desc(s.drop_last()), s.last());
        broadcast use vstd::seq_lib::group_to_multiset_ensures;
        assert(s =~= s.drop_last().push(s.last()));
    }
}

/// Sorts the entries from the highest score to the lowest, keeping the
/// order of entries with equal scores.
pub fn sort_by_score_desc(v: Vec<(usize, i128)>) -> (r: Vec<(usize, i128)>)
    ensures
        r@ == sort_desc(v@),
{
    let mut out: Vec<(usize, i128)> = Vec::new();
    let mut i: usize = 0;
    while i < v.len()
        invariant
            0 <= i <= v@.len(),
            out@ == sort_desc(v@.take(i as int)),
        decreases v@.len() - i,
    {
        let x = v[i];
        proof {
            lemma_sort_desc(v@.take(i as int));
        }
        let mut k: usize = 0;
        while k < out.len() && out[k].1 >= x.1
            invariant
                0 <= k <= out@.len(),
                forall|j: int| 0 <= j < k ==> out@[j].1 >= x.1,
            decreases out@.len() - k,
        {
            k = k + 1;
        }
        proof {
            lemma_insert_at(out@, x, k as int);
        }
        let ghost before = out@;
        out.insert(k, x);
        assert(out@ =~= before.take(k as int).push(x) + before.skip(k as int));
        assert(v@.take(i + 1).drop_last() =~= v@.take(i as int));
        i = i + 1;
    }
    assert(v@.take(i as int) =~= v@);
    out
}

/// The first `n` entries.
pub fn keep_first<T>(v: &mut Vec<T>, n: usize)
    ensures
        final(v)@ == first_n(old(v)@, n as nat),
{
    if n < v.len() {
        v.truncate(n);
    }
}

} // verus!
