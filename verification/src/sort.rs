//! Sorting keyed positions: pairs of a key and the place an item had before
//! the sort. Ordering such pairs by key first and by place second is a stable
//! sort of the items by their keys.

use vstd::multiset::group_multiset_axioms;
use vstd::prelude::*;
use vstd::relations::{sorted_by, total_ordering};
use vstd::seq_lib::{
    group_to_multiset_ensures, lemma_multiset_commutative, lemma_sorted_unique, to_multiset_build,
};

verus! {

/// `a` comes no later than `b`: its key is smaller, or the keys are equal
/// and `a` stood no later than `b` before the sort.
pub open spec fn keyed_leq(a: (i64, usize), b: (i64, usize)) -> bool {
    a.0 < b.0 || (a.0 == b.0 && a.1 <= b.1)
}

/// `keyed_leq` as a relation.
pub open spec fn keyed_order() -> spec_fn((i64, usize), (i64, usize)) -> bool {
    |a: (i64, usize), b: (i64, usize)| keyed_leq(a, b)
}

/// Each pair comes no later than all pairs that follow it.
pub open spec fn keyed_sorted(s: Seq<(i64, usize)>) -> bool {
    forall|i: int, j: int| 0 <= i < j < s.len() ==> keyed_leq(#[trigger] s[i], #[trigger] s[j])
}

/// The order on keyed positions is a total order.
pub proof fn lemma_keyed_order_total()
    ensures
        total_ordering(keyed_order()),
{
    let r = keyed_order();
    assert forall|a: (i64, usize), b: (i64, usize)| #[trigger] r(a, b) && r(b, a) implies a
        == b by {}
    assert(vstd::relations::antisymmetric(r));
    assert(vstd::relations::reflexive(r));
    assert(vstd::relations::transitive(r));
    assert(vstd::relations::strongly_connected(r));
}

/// Sorted pairs with the same members as `s` are the sorted form of `s`.
pub proof fn lemma_sorted_is_sort(s: Seq<(i64, usize)>, out: Seq<(i64, usize)>)
    requires
        keyed_sorted(out),
        out.to_multiset() == s.to_multiset(),
    ensures
        out == s.sort_by(keyed_order()),
{
    lemma_keyed_order_total();
    s.lemma_sort_by_ensures(keyed_order());
    assert(sorted_by(out, keyed_order()));
    lemma_sorted_unique(out, s.sort_by(keyed_order()), keyed_order());
}

fn leq(a: (i64, usize), b: (i64, usize)) -> (r: bool)
    ensures
        r == keyed_leq(a, b),
{
    a.0 < b.0 || (a.0 == b.0 && a.1 <= b.1)
}

/// Merges two sorted runs into one.
fn merge(a: &Vec<(i64, usize)>, b: &Vec<(i64, usize)>) -> (out: Vec<(i64, usize)>)
    requires
        keyed_sorted(a@),
        keyed_sorted(b@),
    ensures
        keyed_sorted(out@),
        out@.to_multiset() == a@.to_multiset().add(b@.to_multiset()),
{
    broadcast use group_multiset_axioms;
    broadcast use group_to_multiset_ensures;

    let mut out: Vec<(i64, usize)> = Vec::new();
    let mut i: usize = 0;
    let mut j: usize = 0;
    assert(a@.subrange(0, 0) =~= Seq::empty());
    assert(b@.subrange(0, 0) =~= Seq::empty());
    while i < a.len() || j < b.len()
        invariant
            i <= a.len(),
            j <= b.len(),
            keyed_sorted(a@),
            keyed_sorted(b@),
            keyed_sorted(out@),
            out@.to_multiset() == a@.subrange(0, i as int).to_multiset().add(
                b@.subrange(0, j as int).to_multiset(),
            ),
            forall|k: int|
                0 <= k < out.len() ==> (i < a.len() ==> keyed_leq(#[trigger] out[k], a[i as int]))
                    && (j < b.len() ==> keyed_leq(out[k], b[j as int])),
        decreases a.len() - i + b.len() - j,
    {
        broadcast use group_multiset_axioms;

        let ghost before = out@;
        if j >= b.len() || (i < a.len() && leq(a[i], b[j])) {
            let x = a[i];
            out.push(x);
            proof {
                let done_a = a@.subrange(0, i as int);
                let done_b = b@.subrange(0, j as int);
                assert(a@.subrange(0, i + 1) =~= done_a.push(x));
                assert(out@ == before.push(x));
                to_multiset_build(before, x);
                to_multiset_build(done_a, x);
                assert(done_a.to_multiset().add(done_b.to_multiset()).insert(x)
                    =~= done_a.to_multiset().insert(x).add(done_b.to_multiset()));
            }
            i = i + 1;
        } else {
            let x = b[j];
            out.push(x);
            proof {
                let done_a = a@.subrange(0, i as int);
                let done_b = b@.subrange(0, j as int);
                assert(b@.subrange(0, j + 1) =~= done_b.push(x));
                assert(out@ == before.push(x));
                to_multiset_build(before, x);
                to_multiset_build(done_b, x);
                assert(done_a.to_multiset().add(done_b.to_multiset()).insert(x)
                    =~= done_a.to_multiset().add(done_b.to_multiset().insert(x)));
            }
            j = j + 1;
        }
        assert(forall|k: int| 0 <= k < before.len() ==> out[k] == before[k]);
    }
    assert(a@.subrange(0, a.len() as int) =~= a@);
    assert(b@.subrange(0, b.len() as int) =~= b@);
    out
}

/// Sorts the pairs `v[lo..hi]` into a new vector.
fn sort_range(v: &Vec<(i64, usize)>, lo: usize, hi: usize) -> (out: Vec<(i64, usize)>)
    requires
        lo <= hi <= v.len(),
    ensures
        keyed_sorted(out@),
        out@.to_multiset() == v@.subrange(lo as int, hi as int).to_multiset(),
    decreases hi - lo,
{
    broadcast use group_multiset_axioms;
    broadcast use group_to_multiset_ensures;

    if hi - lo <= 1 {
        let mut out: Vec<(i64, usize)> = Vec::new();
        if lo < hi {
            out.push(v[lo]);
            assert(v@.subrange(lo as int, hi as int) =~= Seq::empty().push(v[lo as int]));
            assert(out@ =~= v@.subrange(lo as int, hi as int));
        } else {
            assert(out@ =~= v@.subrange(lo as int, hi as int));
        }
        out
    } else {
        let mid = lo + (hi - lo) / 2;
        let left = sort_range(v, lo, mid);
        let right = sort_range(v, mid, hi);
        proof {
            let l = v@.subrange(lo as int, mid as int);
            let r = v@.subrange(mid as int, hi as int);
            assert(v@.subrange(lo as int, hi as int) =~= l + r);
            lemma_multiset_commutative(l, r);
        }
        merge(&left, &right)
    }
}

/// Sorts keyed positions by key, and by place among equal keys.
pub fn sort_keyed(v: &Vec<(i64, usize)>) -> (out: Vec<(i64, usize)>)
    ensures
        out@ == v@.sort_by(keyed_order()),
{
    let out = sort_range(v, 0, v.len());
    proof {
        assert(v@.subrange(0, v.len() as int) =~= v@);
        lemma_sorted_is_sort(v@, out@);
    }
    out
}

} // verus!
