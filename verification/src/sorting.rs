//! Stable sorting by a total preorder.
use vstd::prelude::*;

verus! {

/// A type whose values come in an order.
pub trait Ranked: Sized {
    /// Whether `self` may stand before `other`.
    spec fn ranks_before(self, other: Self) -> bool;

    proof fn ranks_total(a: Self, b: Self)
        ensures
            a.ranks_before(b) || b.ranks_before(a),
    ;

    proof fn ranks_transitive(a: Self, b: Self, c: Self)
        requires
            a.ranks_before(b),
            b.ranks_before(c),
        ensures
            a.ranks_before(c),
    ;

    fn rank_before(&self, other: &Self) -> (r: bool)
        ensures
            r == self.ranks_before(*other),
    ;
}

/// No item stands behind one that it must come before.
pub open spec fn in_rank_order<T: Ranked>(s: Seq<T>) -> bool {
    forall|i: int, j: int| 0 <= i < j < s.len() ==> (#[trigger] s[i]).ranks_before(#[trigger] s[j])
}

/// How many items at the front may stand before `x`.
pub open spec fn rank_position<T: Ranked>(s: Seq<T>, x: T) -> int
    decreases s.len(),
{
    if s.len() == 0 {
        0
    } else if s.last().ranks_before(x) {
        s.len() as int
    } else {
        rank_position(s.drop_last(), x)
    }
}

/// `s` with `x` put behind everything that may stand before it.
pub open spec fn rank_insert<T: Ranked>(s: Seq<T>, x: T) -> Seq<T> {
    s.insert(rank_position(s, x), x)
}

/// The items in rank order, those of equal rank in the order they had.
pub open spec fn rank_sort<T: Ranked>(s: Seq<T>) -> Seq<T>
    decreases s.len(),
{
    if s.len() == 0 {
        s
    } else {
        rank_insert(rank_sort(s.drop_last()), s.last())
    }
}

pub proof fn lemma_rank_position<T: Ranked>(s: Seq<T>, x: T)
    ensures
        0 <= rank_position(s, x) <= s.len(),
        rank_position(s, x) > 0 ==> s[rank_position(s, x) - 1].ranks_before(x),
        forall|k: int| rank_position(s, x) <= k < s.len() ==> !(#[trigger] s[k]).ranks_before(x),
    decreases s.len(),
{
    if s.len() > 0 && !s.last().ranks_before(x) {
        let front = s.drop_last();
        lemma_rank_position(front, x);
        assert forall|k: int| rank_position(s, x) <= k < s.len() implies !(
        #[trigger] s[k]).ranks_before(x) by {
            if k < s.len() - 1 {
                assert(s[k] == front[k]);
            }
        }
    }
}

proof fn lemma_rank_insert<T: Ranked>(s: Seq<T>, x: T)
    requires
        in_rank_order(s),
    ensures
        in_rank_order(rank_insert(s, x)),
        rank_insert(s, x).to_multiset() == s.to_multiset().insert(x),
        rank_insert(s, x).len() == s.len() + 1,
{
    broadcast use vstd::seq_lib::group_to_multiset_ensures;

    let at = rank_position(s, x);
    let r = rank_insert(s, x);
    lemma_rank_position(s, x);
    assert forall|i: int, j: int| 0 <= i < j < r.len() implies (#[trigger] r[i]).ranks_before(
        #[trigger] r[j],
    ) by {
        if j < at {
        } else if j == at {
            if i < at - 1 {
                T::ranks_transitive(s[i], s[at - 1], x);
            }
        } else if i == at {
            T::ranks_total(x, s[j - 1]);
        } else if i < at {
            assert(r[i] == s[i]);
            assert(r[j] == s[j - 1]);
        } else {
            assert(r[i] == s[i - 1]);
            assert(r[j] == s[j - 1]);
        }
    }
    assert(r =~= s.take(at).push(x) + s.skip(at));
    assert(s =~= s.take(at) + s.skip(at));
    vstd::seq_lib::lemma_multiset_commutative(s.take(at), s.skip(at));
    vstd::seq_lib::lemma_multiset_commutative(s.take(at).push(x), s.skip(at));
    assert(r.to_multiset() =~= s.to_multiset().insert(x));
}

/// Sorting keeps exactly the items, and leaves them in rank order.
pub proof fn lemma_rank_sort<T: Ranked>(s: Seq<T>)
    ensures
        in_rank_order(rank_sort(s)),
        rank_sort(s).to_multiset() == s.to_multiset(),
        rank_sort(s).len() == s.len(),
    decreases s.len(),
{
    broadcast use vstd::seq_lib::group_to_multiset_ensures;

    if s.len() > 0 {
        lemma_rank_sort(s.drop_last());
        lemma_rank_insert(rank_sort(s.drop_last()), s.last());
        assert(s =~= s.drop_last().push(s.last()));
    }
}

/// What holds of every item holds of every item once sorted.
pub proof fn lemma_rank_sort_keeps<T: Ranked>(s: Seq<T>, i: int)
    requires
        0 <= i < rank_sort(s).len(),
    ensures
        s.contains(rank_sort(s)[i]),
{
    broadcast use vstd::seq_lib::group_to_multiset_ensures;

    lemma_rank_sort(s);
    assert(rank_sort(s).contains(rank_sort(s)[i]));
    assert(rank_sort(s).to_multiset().count(rank_sort(s)[i]) > 0);
    assert(s.to_multiset().count(rank_sort(s)[i]) > 0);
}

/// Sorts the items; those of equal rank keep the order they came in.
pub fn sort_ranked<T: Ranked>(v: Vec<T>) -> (r: Vec<T>)
    ensures
        r@ == rank_sort(v@),
        in_rank_order(r@),
        r@.to_multiset() == v@.to_multiset(),
{
    let mut rest = v;
    let mut rev: Vec<T> = Vec::new();
    let n: usize = rest.len();
    let mut i: usize = 0;
    while i < n
        invariant
            i <= n,
            n == v@.len(),
            rest@ == v@.take(n - i),
            rev@.len() == i,
            forall|k: int| 0 <= k < i ==> rev@[k] == v@[n - 1 - k],
        decreases n - i,
    {
        let x = rest.pop().unwrap();
        assert(rest@ =~= v@.take(n - i - 1));
        rev.push(x);
        i = i + 1;
    }
    let mut r: Vec<T> = Vec::new();
    let mut done: usize = 0;
    assert(v@.take(0) =~= Seq::<T>::empty());
    while done < n
        invariant
            done <= n,
            n == v@.len(),
            rev@.len() == n - done,
            forall|k: int| 0 <= k < n - done ==> rev@[k] == v@[n - 1 - k],
            r@ == rank_sort(v@.take(done as int)),
        decreases n - done,
    {
        let x = rev.pop().unwrap();
        assert(x == v@[done as int]);
        let ghost front = r@;
        let mut at: usize = r.len();
        assert(front.take(at as int) =~= front);
        while at > 0 && !r[at - 1].rank_before(&x)
            invariant
                r@ == front,
                at <= front.len(),
                rank_position(front, x) == rank_position(front.take(at as int), x),
            decreases at,
        {
            assert(front.take(at as int).drop_last() =~= front.take(at - 1));
            at = at - 1;
        }
        proof {
            if at > 0 {
                assert(front.take(at as int).last() == front[at - 1]);
            }
        }
        assert(rank_position(front, x) == at);
        r.insert(at, x);
        assert(v@.take(done + 1).drop_last() =~= v@.take(done as int));
        done = done + 1;
    }
    assert(v@.take(n as int) =~= v@);
    proof {
        lemma_rank_sort(v@);
    }
    r
}

} // verus!
