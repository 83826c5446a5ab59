//! Sorting by rank, with equals left in their order.
use vstd::prelude::*;

verus! {

/// `a` comes strictly before `b` in dictionary order.
pub open spec fn before(a: Seq<int>, b: Seq<int>) -> bool
    decreases a.len(),
{
    if b.len() == 0 {
        false
    } else if a.len() == 0 {
        true
    } else if a[0] != b[0] {
        a[0] < b[0]
    } else {
        before(a.drop_first(), b.drop_first())
    }
}

/// Of two different ranks one comes first.
pub proof fn lemma_before_total(a: Seq<int>, b: Seq<int>)
    ensures
        before(a, b) || before(b, a) || a == b,
        !(before(a, b) && before(b, a)),
    decreases a.len(),
{
    if a.len() > 0 && b.len() > 0 && a[0] == b[0] {
        lemma_before_total(a.drop_first(), b.drop_first());
        if a.drop_first() == b.drop_first() {
            assert(a =~= seq![a[0]] + a.drop_first());
            assert(b =~= seq![b[0]] + b.drop_first());
        }
    } else if a.len() == 0 && b.len() == 0 {
        assert(a =~= b);
    }
}

pub proof fn lemma_before_transitive(a: Seq<int>, b: Seq<int>, c: Seq<int>)
    requires
        before(a, b),
        before(b, c),
    ensures
        before(a, c),
    decreases a.len(),
{
    if a.len() > 0 && a[0] == b[0] && b[0] == c[0] {
        lemma_before_transitive(a.drop_first(), b.drop_first(), c.drop_first());
    }
}

/// What has a place in an order.
pub trait Ranked: Sized {
    /// The place, compared in dictionary order.
    spec fn rank(&self) -> Seq<int>;

    /// Whether this comes strictly before the other.
    fn comes_before(&self, other: &Self) -> (b: bool)
        ensures
            b == before(self.rank(), other.rank()),
    ;
}

/// `x` put in its place among the sorted `s`: behind all that it does not come before.
pub open spec fn insert_sorted<A>(s: Seq<A>, x: A, rank: spec_fn(A) -> Seq<int>) -> Seq<A>
    decreases s.len(),
{
    if s.len() > 0 && before(rank(x), rank(s.last())) {
        insert_sorted(s.drop_last(), x, rank).push(s.last())
    } else {
        s.push(x)
    }
}

/// `s` sorted by rank, with items of one rank in the order that they had.
pub open spec fn sorted<A>(s: Seq<A>, rank: spec_fn(A) -> Seq<int>) -> Seq<A>
    decreases s.len(),
{
    if s.len() == 0 {
        s
    } else {
        insert_sorted(sorted(s.drop_last(), rank), s.last(), rank)
    }
}

/// No item comes before one that stands in front of it.
pub open spec fn in_order<A>(s: Seq<A>, rank: spec_fn(A) -> Seq<int>) -> bool {
    forall|i: int, j: int|
        0 <= i < j < s.len() ==> !before(rank(#[trigger] s[j]), rank(#[trigger] s[i]))
}

proof fn lemma_insert_sorted<A>(s: Seq<A>, x: A, rank: spec_fn(A) -> Seq<int>)
    requires
        in_order(s, rank),
    ensures
        in_order(insert_sorted(s, x, rank), rank),
        insert_sorted(s, x, rank).len() == s.len() + 1,
        insert_sorted(s, x, rank).to_multiset() == s.to_multiset().insert(x),
    decreases s.len(),
{
    broadcast use vstd::seq_lib::group_to_multiset_ensures;

    let r = insert_sorted(s, x, rank);
    if s.len() > 0 && before(rank(x), rank(s.last())) {
        let head = s.drop_last();
        lemma_insert_sorted(head, x, rank);
        assert(s =~= head.push(s.last()));
        let h = insert_sorted(head, x, rank);
        assert forall|i: int, j: int| 0 <= i < j < r.len() implies !before(
            rank(#[trigger] r[j]),
            rank(#[trigger] r[i]),
        ) by {
            if j == h.len() {
                assert(h.to_multiset().count(r[i]) > 0) by {
                    assert(h.contains(h[i]));
                }
                if r[i] == x {
                    lemma_before_total(rank(x), rank(s.last()));
                } else {
                    assert(head.to_multiset().count(r[i]) > 0);
                    assert(head.contains(r[i]));
                    let k = choose|k: int| 0 <= k < head.len() && head[k] == r[i];
                    assert(s[k] == r[i]);
                    assert(s[s.len() - 1] == s.last());
                }
            } else {
                assert(r[i] == h[i] && r[j] == h[j]);
            }
        }
        assert(r.to_multiset() =~= s.to_multiset().insert(x));
    } else {
        assert forall|i: int, j: int| 0 <= i < j < r.len() implies !before(
            rank(#[trigger] r[j]),
            rank(#[trigger] r[i]),
        ) by {
            if j == s.len() && i < s.len() - 1 {
                assert(!before(rank(s[s.len() - 1]), rank(s[i])));
                if before(rank(x), rank(s[i])) {
                    lemma_before_total(rank(x), rank(s.last()));
                    if before(rank(s.last()), rank(x)) {
                        lemma_before_transitive(rank(s.last()), rank(x), rank(s[i]));
                    }
                }
            } else if j < s.len() {
                assert(r[i] == s[i] && r[j] == s[j]);
            }
        }
    }
}

/// Sorting leaves the items in order and keeps each of them, as often as it was there.
pub proof fn sorting_orders_and_keeps_all<A>(s: Seq<A>, rank: spec_fn(A) -> Seq<int>)
    ensures
        in_order(sorted(s, rank), rank),
        sorted(s, rank).len() == s.len(),
        sorted(s, rank).to_multiset() == s.to_multiset(),
    decreases s.len(),
{
    broadcast use vstd::seq_lib::group_to_multiset_ensures;

    if s.len() > 0 {
        sorting_orders_and_keeps_all(s.drop_last(), rank);
        lemma_insert_sorted(sorted(s.drop_last(), rank), s.last(), rank);
        assert(s =~= s.drop_last().push(s.last()));
    }
}

/// The items of one rank, in their order.
pub open spec fn of_rank<A>(s: Seq<A>, rank: spec_fn(A) -> Seq<int>, r: Seq<int>) -> Seq<A>
    decreases s.len(),
{
    if s.len() == 0 {
        s
    } else if rank(s.last()) == r {
        of_rank(s.drop_last(), rank, r).push(s.last())
    } else {
        of_rank(s.drop_last(), rank, r)
    }
}

proof fn lemma_insert_of_rank<A>(s: Seq<A>, x: A, rank: spec_fn(A) -> Seq<int>, r: Seq<int>)
    ensures
        of_rank(insert_sorted(s, x, rank), rank, r) == (if rank(x) == r {
            of_rank(s, rank, r).push(x)
        } else {
            of_rank(s, rank, r)
        }),
    decreases s.len(),
{
    let t = insert_sorted(s, x, rank);
    assert(t.len() > 0);
    if s.len() > 0 && before(rank(x), rank(s.last())) {
        lemma_before_total(rank(x), rank(s.last()));
        lemma_insert_of_rank(s.drop_last(), x, rank, r);
        assert(t.drop_last() =~= insert_sorted(s.drop_last(), x, rank));
    } else {
        assert(t.drop_last() =~= s);
    }
}

/// Sorting leaves items of one rank in the order that they had.
pub proof fn sorting_is_stable<A>(s: Seq<A>, rank: spec_fn(A) -> Seq<int>, r: Seq<int>)
    ensures
        of_rank(sorted(s, rank), rank, r) == of_rank(s, rank, r),
    decreases s.len(),
{
    if s.len() > 0 {
        sorting_is_stable(s.drop_last(), rank, r);
        lemma_insert_of_rank(sorted(s.drop_last(), rank), s.last(), rank, r);
    }
}

/// What is in order already stays as it is.
pub proof fn sorting_keeps_what_is_in_order<A>(s: Seq<A>, rank: spec_fn(A) -> Seq<int>)
    requires
        in_order(s, rank),
    ensures
        sorted(s, rank) == s,
    decreases s.len(),
{
    if s.len() > 0 {
        let head = s.drop_last();
        assert forall|i: int, j: int| 0 <= i < j < head.len() implies !before(
            rank(#[trigger] head[j]),
            rank(#[trigger] head[i]),
        ) by {
            assert(head[i] == s[i] && head[j] == s[j]);
        }
        sorting_keeps_what_is_in_order(head, rank);
        if head.len() > 0 {
            assert(!before(rank(s[s.len() - 1]), rank(s[s.len() - 2])));
        }
        assert(s =~= head.push(s.last()));
    }
}

/// Sorting commutes with a change of view that keeps the ranks.
pub proof fn lemma_sorted_map<A, B>(
    s: Seq<A>,
    rank: spec_fn(A) -> Seq<int>,
    f: spec_fn(A) -> B,
    shown: spec_fn(B) -> Seq<int>,
)
    requires
        forall|a: A| rank(a) == #[trigger] shown(f(a)),
    ensures
        sorted(s, rank).map_values(f) == sorted(s.map_values(f), shown),
    decreases s.len(),
{
    if s.len() > 0 {
        let head = s.drop_last();
        lemma_sorted_map(head, rank, f, shown);
        assert(s.map_values(f).drop_last() =~= head.map_values(f));
        assert(s.map_values(f).last() == f(s.last()));
        lemma_insert_map(sorted(head, rank), s.last(), rank, f, shown);
    } else {
        assert(sorted(s, rank).map_values(f) =~= sorted(s.map_values(f), shown));
    }
}

proof fn lemma_insert_map<A, B>(
    s: Seq<A>,
    x: A,
    rank: spec_fn(A) -> Seq<int>,
    f: spec_fn(A) -> B,
    shown: spec_fn(B) -> Seq<int>,
)
    requires
        forall|a: A| rank(a) == #[trigger] shown(f(a)),
    ensures
        insert_sorted(s, x, rank).map_values(f) == insert_sorted(s.map_values(f), f(x), shown),
    decreases s.len(),
{
    assert(rank(x) == shown(f(x)));
    if s.len() > 0 {
        assert(s.map_values(f).last() == f(s.last()));
        assert(rank(s.last()) == shown(f(s.last())));
        assert(s.map_values(f).drop_last() =~= s.drop_last().map_values(f));
        lemma_insert_map(s.drop_last(), x, rank, f, shown);
    }
    assert(insert_sorted(s, x, rank).map_values(f) =~= insert_sorted(
        s.map_values(f),
        f(x),
        shown,
    ));
}

/// Puts `x` in its place among the sorted items.
fn insert_ranked<T: Ranked>(v: &mut Vec<T>, x: T)
    ensures
        final(v)@ == insert_sorted(old(v)@, x, |t: T| t.rank()),
{
    let mut i: usize = v.len();
    let ghost rank = |t: T| t.rank();
    proof {
        assert(v@.take(v@.len() as int) =~= v@);
        assert(v@.skip(v@.len() as int) =~= Seq::empty());
    }
    assert(insert_sorted(v@, x, rank) =~= insert_sorted(v@.take(i as int), x, rank) + v@.skip(
        i as int,
    ));
    while i > 0 && x.comes_before(&v[i - 1])
        invariant
            i <= v@.len(),
            v@ == old(v)@,
            rank == |t: T| t.rank(),
            insert_sorted(v@, x, rank) == insert_sorted(v@.take(i as int), x, rank) + v@.skip(
                i as int,
            ),
        decreases i,
    {
        proof {
            let t = v@.take(i as int);
            assert(t.last() == v@[i - 1]);
            assert(t.drop_last() =~= v@.take(i - 1));
            assert(insert_sorted(t.drop_last(), x, rank).push(t.last()) + v@.skip(i as int)
                =~= insert_sorted(t.drop_last(), x, rank) + v@.skip(i - 1));
        }
        i -= 1;
    }
    proof {
        let t = v@.take(i as int);
        if i > 0 {
            assert(t.last() == v@[i - 1]);
        }
        assert(insert_sorted(t, x, rank) == t.push(x));
        assert(v@.insert(i as int, x) =~= t.push(x) + v@.skip(i as int));
    }
    v.insert(i, x);
}

/// Sorts by rank; items of one rank stay in the order that they had.
pub fn stable_sort<T: Ranked>(v: Vec<T>) -> (r: Vec<T>)
    ensures
        r@ == sorted(v@, |t: T| t.rank()),
{
    let mut r: Vec<T> = Vec::new();
    let ghost rank = |t: T| t.rank();
    for x in it: v
        invariant
            it.seq() == v@,
            rank == |t: T| t.rank(),
            r@ == sorted(v@.take(it.index() as int), rank),
    {
        proof {
            let i = it.index() as int;
            assert(v@.take(i + 1).drop_last() =~= v@.take(i));
        }
        insert_ranked(&mut r, x);
    }
    assert(v@.take(v@.len() as int) =~= v@);
    r
}

/// Of two ranks that are the same up to some place, the one comes first that is smaller there, or
/// that ends there.
pub proof fn ranks_differ_at_the_first_difference(a: Seq<int>, b: Seq<int>, p: int)
    requires
        0 <= p <= a.len(),
        p <= b.len(),
        a.take(p) == b.take(p),
    ensures
        p < a.len() && p < b.len() && a[p] < b[p] ==> before(a, b) && !before(b, a),
        p == a.len() && p < b.len() ==> before(a, b) && !before(b, a),
        p == a.len() && p == b.len() ==> !before(a, b),
    decreases p,
{
    if p > 0 {
        assert(a[0] == a.take(p)[0] && b[0] == b.take(p)[0]);
        assert(a.drop_first().take(p - 1) =~= a.take(p).drop_first());
        assert(b.drop_first().take(p - 1) =~= b.take(p).drop_first());
        ranks_differ_at_the_first_difference(a.drop_first(), b.drop_first(), p - 1);
    }
}

} // verus!
