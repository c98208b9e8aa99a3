//! Stable ordering by a numeric rank, highest first: items of equal rank
//! keep the order in which they were met.

use vstd::prelude::*;

verus! {

/// An item that carries a numeric rank.
pub trait Ranked {
    spec fn rank(&self) -> int;

    fn rank_of(&self) -> (r: i128)
        ensures
            r as int == self.rank(),
    ;
}

/// `s` with `x` placed after every trailing item whose rank is not below
/// the rank of `x`.
pub open spec fn insert_ranked<T: Ranked>(s: Seq<T>, x: T) -> Seq<T>
    decreases s.len(),
{
    if s.len() == 0 {
        seq![x]
    } else if s.last().rank() >= x.rank() {
        s.push(x)
    } else {
        insert_ranked(s.drop_last(), x).push(s.last())
    }
}

/// The items of `s` by rank, highest first; equal ranks in their order in `s`.
pub open spec fn ranked<T: Ranked>(s: Seq<T>) -> Seq<T>
    decreases s.len(),
{
    if s.len() == 0 {
        Seq::empty()
    } else {
        insert_ranked(ranked(s.drop_last()), s.last())
    }
}

/// Ranks do not increase along `s`.
pub open spec fn is_rank_descending<T: Ranked>(s: Seq<T>) -> bool {
    forall|i: int, j: int| 0 <= i < j < s.len() ==> s[i].rank() >= s[j].rank()
}

proof fn lemma_insert_ranked_at<T: Ranked>(s: Seq<T>, x: T, p: int)
    requires
        0 <= p <= s.len(),
        forall|j: int| p <= j < s.len() ==> s[j].rank() < x.rank(),
        p == 0 || s[p - 1].rank() >= x.rank(),
    ensures
        insert_ranked(s, x) == s.take(p).push(x) + s.skip(p),
    decreases s.len(),
{
    if s.len() == 0 {
        assert(s.take(p).push(x) + s.skip(p) =~= seq![x]);
    } else if p == s.len() {
        assert(s.take(p) =~= s);
        assert(s.take(p).push(x) + s.skip(p) =~= s.push(x));
    } else {
        let t = s.drop_last();
        lemma_insert_ranked_at(t, x, p);
        assert(t.take(p) =~= s.take(p));
        assert(t.skip(p).push(s.last()) =~= s.skip(p));
        assert(s.take(p).push(x) + s.skip(p) =~= (t.take(p).push(x) + t.skip(p)).push(s.last()));
    }
}

proof fn lemma_insert_ranked_properties<T: Ranked>(s: Seq<T>, x: T)
    requires
        is_rank_descending(s),
    ensures
        is_rank_descending(insert_ranked(s, x)),
        insert_ranked(s, x).to_multiset() == s.to_multiset().insert(x),
    decreases s.len(),
{
    broadcast use vstd::seq_lib::group_to_multiset_ensures;

    if s.len() == 0 {
        assert(seq![x] =~= Seq::<T>::empty().push(x));
    } else if s.last().rank() >= x.rank() {
    } else {
        let t = s.drop_last();
        assert(is_rank_descending(t));
        lemma_insert_ranked_properties(t, x);
        let u = insert_ranked(t, x);
        assert(s =~= t.push(s.last()));
        assert forall|i: int| 0 <= i < u.len() implies u[i].rank() >= s.last().rank() by {
            assert(u.to_multiset().contains(u[i]));
            assert(t.to_multiset().insert(x).contains(u[i]));
            if u[i] != x {
                assert(t.to_multiset().contains(u[i]));
                assert(t.contains(u[i]));
            }
        }
    }
}

/// The ranked order is sorted by rank, highest first, and holds the same
/// items as the input.
pub proof fn lemma_ranked_properties<T: Ranked>(s: Seq<T>)
    ensures
        is_rank_descending(ranked(s)),
        ranked(s).to_multiset() == s.to_multiset(),
        ranked(s).len() == s.len(),
    decreases s.len(),
{
    broadcast use vstd::seq_lib::group_to_multiset_ensures;

    if s.len() > 0 {
        let t = s.drop_last();
        lemma_ranked_properties(t);
        lemma_insert_ranked_properties(ranked(t), s.last());
        assert(s =~= t.push(s.last()));
    }
    assert(ranked(s).to_multiset().len() == s.to_multiset().len());
}

/// The items of `items` by rank, highest first; items of equal rank keep
/// their order.
pub fn rank_descending<T: Ranked>(items: Vec<T>) -> (r: Vec<T>)
    ensures
        r@ == ranked(items@),
        is_rank_descending(r@),
        r@.to_multiset() == items@.to_multiset(),
{
    let mut r: Vec<T> = Vec::new();
    let ghost all = items@;
    for x in it: items
        invariant
            it.seq() == all,
            r@ == ranked(all.take(it.index() as int)),
    {
        proof {
            lemma_ranked_properties(all.take(it.index() as int));
        }
        let key = x.rank_of();
        let mut p: usize = r.len();
        while p > 0 && r[p - 1].rank_of() < key
            invariant
                p <= r.len(),
                key as int == x.rank(),
                forall|j: int| p <= j < r.len() ==> r@[j].rank() < x.rank(),
            decreases p,
        {
            p = p - 1;
        }
        proof {
            lemma_insert_ranked_at(r@, x, p as int);
            assert(all.take(it.index() + 1).drop_last() =~= all.take(it.index() as int));
        }
        r.insert(p, x);
        assert(r@ =~= ranked(all.take(it.index() + 1)));
    }
    proof {
        assert(all.take(all.len() as int) =~= all);
        lemma_ranked_properties(all);
    }
    r
}

} // verus!
