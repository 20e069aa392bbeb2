//! The bounding volume hierarchy: a binary tree over the objects of a scene
//! in which every node has a box around everything below it.

use crate::aabb::AABB;
use crate::hit::{answer, first_objects, is_nearest, lemma_nearest_agree, Extent, Hit, Query, Scan};
use crate::sort::{keyed_order, lemma_keyed_order_total, sort_keyed};
use vstd::arithmetic::power2::{lemma2_to64, lemma_pow2_unfold, pow2};
use vstd::prelude::*;

verus! {

/// What hangs below a node: one object, given by its index in the list of
/// objects, or another node.
#[derive(Debug, PartialEq, Eq)]
pub enum BVHChild {
    Object(usize),
    Node(Box<BVHNode>),
}

/// BVH Node struct, for creating a bounding volume hierarchy
#[derive(Debug, PartialEq, Eq)]
pub struct BVHNode {
    pub left: BVHChild,
    pub right: BVHChild,
    pub aabb: AABB,
}

/// Whether object `p` hangs at or below `child`.
pub open spec fn has_leaf(child: BVHChild, p: usize) -> bool
    decreases child,
{
    match child {
        BVHChild::Object(q) => q == p,
        BVHChild::Node(node) => has_leaf(node.left, p) || has_leaf(node.right, p),
    }
}

/// Number of nodes on the longest way from `child` down to an object.
pub open spec fn child_depth(child: BVHChild) -> nat
    decreases child,
{
    match child {
        BVHChild::Object(_) => 0,
        BVHChild::Node(node) => {
            let l = child_depth(node.left);
            let r = child_depth(node.right);
            if l >= r {
                l + 1
            } else {
                r + 1
            }
        },
    }
}

/// The bounding box of `child`: that of the object, or the one of the node.
pub open spec fn child_box(child: BVHChild, objects: Seq<Extent>) -> AABB {
    match child {
        BVHChild::Object(p) => objects[p as int].aabb,
        BVHChild::Node(node) => node.aabb,
    }
}

/// At and below `child`, every object is one of `objects` and the box of
/// every node is the smallest box around the boxes of its two children.
pub open spec fn child_boxed(child: BVHChild, objects: Seq<Extent>) -> bool
    decreases child,
{
    match child {
        BVHChild::Object(p) => p < objects.len(),
        BVHChild::Node(node) => {
            &&& child_boxed(node.left, objects)
            &&& child_boxed(node.right, objects)
            &&& node.aabb == AABB::spec_surround(
                child_box(node.left, objects),
                child_box(node.right, objects),
            )
        },
    }
}

/// The items with the key by which they are ordered along `axis`: the
/// midpoint of the item's box on that axis, and the item's place.
pub open spec fn keyed(items: Seq<usize>, objects: Seq<Extent>, axis: int) -> Seq<(i64, usize)> {
    Seq::new(
        items.len(),
        |i: int| (objects[items[i] as int].center.spec_axis(axis), i as usize),
    )
}

/// The items in the order of the midpoints of their boxes along `axis`;
/// items with equal midpoints keep the order they had.
pub open spec fn ordered(items: Seq<usize>, objects: Seq<Extent>, axis: int) -> Seq<usize> {
    let sorted = keyed(items, objects, axis).sort_by(keyed_order());
    Seq::new(items.len(), |i: int| items[sorted[i].1 as int])
}

/// The hierarchy over `items`, which are indices into `objects`: the items
/// are ordered along `axis` and split in the middle, and each half is built
/// in the same way along the next axis. Two items hang below one node; a
/// single item hangs below one node twice.
pub open spec fn spec_build(items: Seq<usize>, objects: Seq<Extent>, axis: int) -> BVHNode
    decreases items.len(),
{
    let order = ordered(items, objects, axis);
    if order.len() <= 1 {
        BVHNode {
            left: BVHChild::Object(order[0]),
            right: BVHChild::Object(order[0]),
            aabb: objects[order[0] as int].aabb,
        }
    } else if order.len() == 2 {
        BVHNode {
            left: BVHChild::Object(order[0]),
            right: BVHChild::Object(order[1]),
            aabb: AABB::spec_surround(
                objects[order[0] as int].aabb,
                objects[order[1] as int].aabb,
            ),
        }
    } else {
        let mid = order.len() / 2;
        let next = (axis + 1) % 3;
        let left = spec_build(order.subrange(0, mid as int), objects, next);
        let right = spec_build(order.subrange(mid as int, order.len() as int), objects, next);
        BVHNode {
            left: BVHChild::Node(Box::new(left)),
            right: BVHChild::Node(Box::new(right)),
            aabb: AABB::spec_surround(left.aabb, right.aabb),
        }
    }
}

/// All indices below `n`, in rising order.
pub open spec fn all_objects(n: nat) -> Seq<usize> {
    Seq::new(n, |i: int| i as usize)
}

/// Ordering the items moves them about and neither adds nor loses one:
/// each place of the result holds the item of a place of its own.
pub proof fn lemma_ordered_permutes(items: Seq<usize>, objects: Seq<Extent>, axis: int)
    requires
        items.len() <= usize::MAX,
    ensures
        ordered(items, objects, axis).len() == items.len(),
        forall|i: int|
            0 <= i < items.len() ==> items.contains(#[trigger] ordered(items, objects, axis)[i]),
        forall|i: int|
            0 <= i < items.len() ==> ordered(items, objects, axis).contains(#[trigger] items[i]),
{
    let k = keyed(items, objects, axis);
    let sorted = k.sort_by(keyed_order());
    let order = ordered(items, objects, axis);
    lemma_keyed_order_total();
    k.lemma_sort_by_ensures(keyed_order());
    vstd::seq_lib::to_multiset_len(k);
    vstd::seq_lib::to_multiset_len(sorted);
    assert(sorted.len() == items.len());
    assert forall|i: int| 0 <= i < items.len() implies items.contains(#[trigger] order[i]) by {
        let pair = sorted[i];
        assert(sorted.contains(pair));
        assert(k.contains(pair));
        let j = choose|j: int| 0 <= j < k.len() && k[j] == pair;
        assert(pair.1 == j);
        assert(items[j] == order[i]);
    }
    assert forall|i: int| 0 <= i < items.len() implies order.contains(#[trigger] items[i]) by {
        let pair = k[i];
        assert(k.contains(pair));
        vstd::seq_lib::to_multiset_contains(k, pair);
        vstd::seq_lib::to_multiset_contains(sorted, pair);
        assert(sorted.contains(pair));
        let j = choose|j: int| 0 <= j < sorted.len() && sorted[j] == pair;
        assert(order[j] == items[i]);
    }
}

/// The place that the item at place `i` of the ordered items had before.
pub open spec fn place_before(items: Seq<usize>, objects: Seq<Extent>, axis: int, i: int) -> int {
    keyed(items, objects, axis).sort_by(keyed_order())[i].1 as int
}

/// The key of the item at place `i`: the midpoint of its box on `axis`.
pub open spec fn key_at(items: Seq<usize>, objects: Seq<Extent>, axis: int, i: int) -> i64 {
    objects[items[i] as int].center.spec_axis(axis)
}

/// Ordering is a stable sort: each item of the result comes from a place of
/// its own among the items; the keys of the result never fall; and of two
/// items with the same key, the one that stood first before stands first
/// after.
pub proof fn lemma_ordered_is_stable_sort(items: Seq<usize>, objects: Seq<Extent>, axis: int)
    requires
        items.len() <= usize::MAX,
    ensures
        forall|i: int|
            0 <= i < items.len() ==> 0 <= #[trigger] place_before(items, objects, axis, i)
                < items.len() && ordered(items, objects, axis)[i] == items[place_before(
                items,
                objects,
                axis,
                i,
            )],
        forall|i: int, j: int|
            0 <= i < j < items.len() ==> #[trigger] place_before(items, objects, axis, i)
                != #[trigger] place_before(items, objects, axis, j),
        forall|i: int, j: int|
            0 <= i < j < items.len() ==> {
                let a = #[trigger] place_before(items, objects, axis, i);
                let b = #[trigger] place_before(items, objects, axis, j);
                key_at(items, objects, axis, a) < key_at(items, objects, axis, b) || (key_at(
                    items,
                    objects,
                    axis,
                    a,
                ) == key_at(items, objects, axis, b) && a < b)
            },
{
    let k = keyed(items, objects, axis);
    let sorted = k.sort_by(keyed_order());
    lemma_keyed_order_total();
    k.lemma_sort_by_ensures(keyed_order());
    vstd::seq_lib::to_multiset_len(k);
    vstd::seq_lib::to_multiset_len(sorted);
    assert(k.no_duplicates());
    k.lemma_multiset_has_no_duplicates();
    sorted.lemma_multiset_has_no_duplicates_conv();
    assert forall|i: int| 0 <= i < items.len() implies 0 <= #[trigger] place_before(
        items,
        objects,
        axis,
        i,
    ) < items.len() && sorted[i] == k[place_before(items, objects, axis, i)] by {
        let pair = sorted[i];
        assert(sorted.contains(pair));
        assert(k.contains(pair));
        let p = choose|p: int| 0 <= p < k.len() && k[p] == pair;
        assert(pair.1 == p);
    }
    assert forall|i: int, j: int| 0 <= i < j < items.len() implies #[trigger] place_before(
        items,
        objects,
        axis,
        i,
    ) != #[trigger] place_before(items, objects, axis, j) by {
        let a = place_before(items, objects, axis, i);
        let b = place_before(items, objects, axis, j);
        assert(sorted[i] == k[a]);
        assert(sorted[j] == k[b]);
        assert(sorted[i] != sorted[j]);
    }
    assert forall|i: int, j: int| 0 <= i < j < items.len() implies {
        let a = #[trigger] place_before(items, objects, axis, i);
        let b = #[trigger] place_before(items, objects, axis, j);
        key_at(items, objects, axis, a) < key_at(items, objects, axis, b) || (key_at(
            items,
            objects,
            axis,
            a,
        ) == key_at(items, objects, axis, b) && a < b)
    } by {
        let a = place_before(items, objects, axis, i);
        let b = place_before(items, objects, axis, j);
        assert(sorted[i] == k[a]);
        assert(sorted[j] == k[b]);
        assert(keyed_order()(sorted[i], sorted[j]));
        assert(a != b);
    }
}

/// The items in the order of their midpoints along `axis`.
fn order_on_axis(items: &Vec<usize>, objects: &Vec<Extent>, axis: u32) -> (order: Vec<usize>)
    requires
        axis < 3,
        forall|i: int| 0 <= i < items.len() ==> #[trigger] items[i] < objects.len(),
    ensures
        order@ == ordered(items@, objects@, axis as int),
{
    let n = items.len();
    let mut pairs: Vec<(i64, usize)> = Vec::new();
    let mut i: usize = 0;
    while i < n
        invariant
            n == items.len(),
            i <= n,
            axis < 3,
            forall|k: int| 0 <= k < items.len() ==> #[trigger] items[k] < objects.len(),
            pairs.len() == i,
            forall|k: int|
                0 <= k < i ==> #[trigger] pairs[k] == keyed(items@, objects@, axis as int)[k],
        decreases n - i,
    {
        let object = &objects[items[i]];
        pairs.push((object.center.axis(axis), i));
        i = i + 1;
    }
    assert(pairs@ =~= keyed(items@, objects@, axis as int));
    let sorted = sort_keyed(&pairs);
    proof {
        lemma_keyed_order_total();
        pairs@.lemma_sort_by_ensures(keyed_order());
        vstd::seq_lib::to_multiset_len(pairs@);
        vstd::seq_lib::to_multiset_len(sorted@);
        assert forall|k: int| 0 <= k < sorted.len() implies (#[trigger] sorted[k]).1 < n by {
            let pair = sorted[k];
            assert(sorted@.contains(pair));
            assert(pairs@.contains(pair));
        }
    }
    let mut order: Vec<usize> = Vec::new();
    let mut j: usize = 0;
    while j < n
        invariant
            n == items.len(),
            n == sorted.len(),
            j <= n,
            forall|k: int| 0 <= k < sorted.len() ==> (#[trigger] sorted[k]).1 < n,
            order.len() == j,
            forall|k: int| 0 <= k < j ==> #[trigger] order[k] == items[sorted[k].1 as int],
        decreases n - j,
    {
        order.push(items[sorted[j].1]);
        j = j + 1;
    }
    assert(order@ =~= ordered(items@, objects@, axis as int));
    order
}

/// A copy of `items[lo..hi]`.
fn part(items: &Vec<usize>, lo: usize, hi: usize) -> (out: Vec<usize>)
    requires
        lo <= hi <= items.len(),
    ensures
        out@ == items@.subrange(lo as int, hi as int),
{
    let mut out: Vec<usize> = Vec::new();
    let mut i: usize = lo;
    while i < hi
        invariant
            lo <= i <= hi <= items.len(),
            out@ == items@.subrange(lo as int, i as int),
        decreases hi - i,
    {
        out.push(items[i]);
        i = i + 1;
        assert(out@ =~= items@.subrange(lo as int, i as int));
    }
    out
}

/// Builds the hierarchy over `items`, which are indices into `objects`.
fn build(items: &Vec<usize>, objects: &Vec<Extent>, axis: u32) -> (node: BVHNode)
    requires
        axis < 3,
        items.len() >= 1,
        forall|i: int| 0 <= i < items.len() ==> #[trigger] items[i] < objects.len(),
    ensures
        node == spec_build(items@, objects@, axis as int),
    decreases items.len(),
{
    let order = order_on_axis(items, objects, axis);
    proof {
        lemma_ordered_permutes(items@, objects@, axis as int);
        assert forall|i: int| 0 <= i < order.len() implies #[trigger] order[i] < objects.len() by {
            assert(items@.contains(order[i]));
        }
    }
    let length = order.len();
    if length == 1 {
        BVHNode {
            left: BVHChild::Object(order[0]),
            right: BVHChild::Object(order[0]),
            aabb: objects[order[0]].aabb,
        }
    } else if length == 2 {
        BVHNode {
            left: BVHChild::Object(order[0]),
            right: BVHChild::Object(order[1]),
            aabb: AABB::surround(&objects[order[0]].aabb, &objects[order[1]].aabb),
        }
    } else {
        let mid = length / 2;
        let next = (axis + 1) % 3;
        let left_items = part(&order, 0, mid);
        let right_items = part(&order, mid, length);
        let left = build(&left_items, objects, next);
        let right = build(&right_items, objects, next);
        let aabb = AABB::surround(&left.aabb, &right.aabb);
        BVHNode { left: BVHChild::Node(Box::new(left)), right: BVHChild::Node(Box::new(right)), aabb }
    }
}

impl BVHNode {
    /// Builds the hierarchy over all of `src_objects`, the first split being
    /// made along `axis` (0=x, 1=y, 2=z).
    pub fn new(src_objects: &Vec<Extent>, axis: u32) -> (node: BVHNode)
        requires
            axis < 3,
            src_objects.len() >= 1,
        ensures
            node == spec_build(all_objects(src_objects.len() as nat), src_objects@, axis as int),
    {
        let n = src_objects.len();
        let mut items: Vec<usize> = Vec::new();
        let mut i: usize = 0;
        while i < n
            invariant
                i <= n,
                items@ == all_objects(i as nat),
            decreases n - i,
        {
            items.push(i);
            i = i + 1;
            assert(items@ =~= all_objects(i as nat));
        }
        build(&items, src_objects, axis)
    }
}

impl BVHNode {
    /// Whether object `p` hangs below this node.
    pub open spec fn has_leaf(self, p: usize) -> bool {
        has_leaf(self.left, p) || has_leaf(self.right, p)
    }

    /// The objects that hang below this node.
    pub open spec fn leaf_set(self) -> Set<usize> {
        Set::new(|p: usize| self.has_leaf(p))
    }

    /// Number of nodes on the longest way from this node down to an object,
    /// this node included.
    pub open spec fn depth(self) -> nat {
        let l = child_depth(self.left);
        let r = child_depth(self.right);
        if l >= r {
            l + 1
        } else {
            r + 1
        }
    }
}

/// Every item hangs in the hierarchy built over the items, and nothing else
/// does.
pub proof fn lemma_build_leaves(items: Seq<usize>, objects: Seq<Extent>, axis: int)
    requires
        1 <= items.len() <= usize::MAX,
    ensures
        forall|p: usize| #[trigger]
            spec_build(items, objects, axis).has_leaf(p) <==> items.contains(p),
    decreases items.len(),
{
    let order = ordered(items, objects, axis);
    let node = spec_build(items, objects, axis);
    lemma_ordered_permutes(items, objects, axis);
    if order.len() <= 2 {
        assert forall|p: usize| node.has_leaf(p) <==> items.contains(p) by {
            if items.contains(p) {
                let j = choose|j: int| 0 <= j < items.len() && items[j] == p;
                assert(order.contains(items[j]));
            }
            if node.has_leaf(p) {
                assert(items.contains(order[0]));
                if order.len() == 2 {
                    assert(items.contains(order[1]));
                }
            }
        }
    } else {
        let mid = (order.len() / 2) as int;
        let next = (axis + 1) % 3;
        let l = order.subrange(0, mid);
        let r = order.subrange(mid, order.len() as int);
        lemma_build_leaves(l, objects, next);
        lemma_build_leaves(r, objects, next);
        let left = spec_build(l, objects, next);
        let right = spec_build(r, objects, next);
        assert forall|p: usize| node.has_leaf(p) <==> items.contains(p) by {
            assert(has_leaf(node.left, p) == left.has_leaf(p));
            assert(has_leaf(node.right, p) == right.has_leaf(p));
            if left.has_leaf(p) {
                assert(l.contains(p));
                let i = choose|i: int| 0 <= i < l.len() && l[i] == p;
                assert(l[i] == order[i]);
                assert(items.contains(order[i]));
            }
            if right.has_leaf(p) {
                assert(r.contains(p));
                let i = choose|i: int| 0 <= i < r.len() && r[i] == p;
                assert(r[i] == order[mid + i]);
                assert(items.contains(order[mid + i]));
            }
            if items.contains(p) {
                let j = choose|j: int| 0 <= j < items.len() && items[j] == p;
                assert(order.contains(items[j]));
                let i = choose|i: int| 0 <= i < order.len() && order[i] == p;
                if i < mid {
                    assert(l[i] == p);
                    assert(l.contains(p));
                } else {
                    assert(r[i - mid] == p);
                    assert(r.contains(p));
                }
            }
        }
    }
}

/// The hierarchy is balanced: over one item it is one node deep, and over
/// `n >= 2` items its depth `d` has `2^(d-1) < n`, so it is no deeper than
/// the logarithm of `n` to base 2, rounded up.
pub proof fn lemma_build_depth(items: Seq<usize>, objects: Seq<Extent>, axis: int)
    requires
        1 <= items.len() <= usize::MAX,
    ensures
        spec_build(items, objects, axis).depth() >= 1,
        items.len() == 1 ==> spec_build(items, objects, axis).depth() == 1,
        items.len() >= 2 ==> pow2((spec_build(items, objects, axis).depth() - 1) as nat)
            < items.len(),
    decreases items.len(),
{
    let order = ordered(items, objects, axis);
    let node = spec_build(items, objects, axis);
    lemma2_to64();
    if order.len() > 2 {
        let len = order.len() as int;
        let mid = len / 2;
        let next = (axis + 1) % 3;
        let l = order.subrange(0, mid);
        let r = order.subrange(mid, len);
        lemma_build_depth(l, objects, next);
        lemma_build_depth(r, objects, next);
        let dl = spec_build(l, objects, next).depth();
        let dr = spec_build(r, objects, next).depth();
        assert(child_depth(node.left) == dl);
        assert(child_depth(node.right) == dr);
        lemma_pow2_unfold(dl);
        lemma_pow2_unfold(dr);
        assert(pow2(dl) < len);
        assert(pow2(dr) < len);
    }
}

/// In the hierarchy built over items that are all indices into `objects`,
/// the box of every node is the smallest box around its two children.
pub proof fn lemma_build_boxed(items: Seq<usize>, objects: Seq<Extent>, axis: int)
    requires
        1 <= items.len() <= usize::MAX,
        forall|i: int| 0 <= i < items.len() ==> #[trigger] items[i] < objects.len(),
    ensures
        child_boxed(BVHChild::Node(Box::new(spec_build(items, objects, axis))), objects),
    decreases items.len(),
{
    reveal_with_fuel(child_boxed, 2);
    let order = ordered(items, objects, axis);
    let node = spec_build(items, objects, axis);
    lemma_ordered_permutes(items, objects, axis);
    assert forall|i: int| 0 <= i < order.len() implies #[trigger] order[i] < objects.len() by {
        assert(items.contains(order[i]));
    }
    if order.len() <= 1 {
        objects[order[0] as int].aabb.lemma_surround_self();
    } else if order.len() > 2 {
        let len = order.len() as int;
        let mid = len / 2;
        let next = (axis + 1) % 3;
        let l = order.subrange(0, mid);
        let r = order.subrange(mid, len);
        assert forall|i: int| 0 <= i < l.len() implies #[trigger] l[i] < objects.len() by {
            assert(l[i] == order[i]);
        }
        assert forall|i: int| 0 <= i < r.len() implies #[trigger] r[i] < objects.len() by {
            assert(r[i] == order[mid + i]);
        }
        lemma_build_boxed(l, objects, next);
        lemma_build_boxed(r, objects, next);
    }
}

/// Where every node has the smallest box around its children and the boxes
/// of the objects are well formed, the box of `child` is well formed and
/// encloses the box of every object that hangs at or below it.
pub proof fn lemma_boxed_encloses(child: BVHChild, objects: Seq<Extent>, p: usize)
    requires
        child_boxed(child, objects),
        forall|k: int| 0 <= k < objects.len() ==> (#[trigger] objects[k]).aabb.well_formed(),
    ensures
        child_box(child, objects).well_formed(),
        has_leaf(child, p) ==> p < objects.len() && child_box(child, objects).encloses(
            objects[p as int].aabb,
        ),
    decreases child,
{
    match child {
        BVHChild::Object(q) => {},
        BVHChild::Node(node) => {
            lemma_boxed_encloses(node.left, objects, p);
            lemma_boxed_encloses(node.right, objects, p);
            AABB::lemma_surround(
                child_box(node.left, objects),
                child_box(node.right, objects),
            );
        },
    }
}

/// Number of questions that a search asks at most at and below `child`.
pub open spec fn weight(child: BVHChild) -> nat
    decreases child,
{
    match child {
        BVHChild::Object(_) => 1,
        BVHChild::Node(node) => 1 + weight(node.left) + weight(node.right),
    }
}

/// Number of questions that a search with these parts of the hierarchy
/// still to visit asks at most.
pub open spec fn pending_weight(pending: Seq<BVHChild>) -> nat
    decreases pending.len(),
{
    if pending.len() == 0 {
        0
    } else {
        weight(pending.last()) + pending_weight(pending.drop_last())
    }
}

/// Whether object `p` hangs in one of the parts still to visit.
pub open spec fn pending_has_leaf(pending: Seq<BVHChild>, p: usize) -> bool {
    exists|i: int| 0 <= i < pending.len() && has_leaf(#[trigger] pending[i], p)
}

/// Whether the test of the boxes never hides a nearer hit at or below
/// `child`: where `through` denies that the ray passes through the box of
/// a node before some distance, no object below that node is hit before
/// that distance. `nearest[p]` is the first hit of object `p`.
pub open spec fn conservative(
    child: BVHChild,
    nearest: Seq<Option<u64>>,
    through: spec_fn(AABB, u64) -> bool,
) -> bool
    decreases child,
{
    match child {
        BVHChild::Object(p) => p < nearest.len(),
        BVHChild::Node(node) => {
            &&& conservative(node.left, nearest, through)
            &&& conservative(node.right, nearest, through)
            &&& forall|p: usize, bound: u64|
                #![trigger has_leaf(child, p), through(node.aabb, bound)]
                has_leaf(child, p) && p < nearest.len() && !through(node.aabb, bound) ==> (
                nearest[p as int] matches Some(t) ==> t >= bound)
        },
    }
}

/// A search down the hierarchy for the nearest hit. The parts in `pending`
/// are still to be visited, the last one first; `best` is the nearest hit
/// found so far.
pub struct Search {
    pub pending: Seq<BVHChild>,
    pub t_max: u64,
    pub best: Option<Hit>,
}

impl Search {
    /// The search before anything was asked.
    pub open spec fn start(root: BVHNode, t_max: u64) -> Search {
        Search { pending: seq![BVHChild::Node(Box::new(root))], t_max, best: None }
    }

    /// The distance that a hit must not exceed to be of interest: that of
    /// the best hit so far, before any hit the farthest distance allowed.
    pub open spec fn closest(self) -> u64 {
        match self.best {
            Some(h) => h.t,
            None => self.t_max,
        }
    }

    /// What the search asks next.
    pub open spec fn query(self) -> Query {
        if self.pending.len() == 0 {
            Query::Done { hit: self.best }
        } else {
            match self.pending.last() {
                BVHChild::Object(p) => Query::Object { object: p, t_max: self.closest() },
                BVHChild::Node(node) => Query::Bounds { aabb: node.aabb, t_max: self.closest() },
            }
        }
    }

    /// The search after the answer to a question about the box of a node.
    /// If the ray misses the box, nothing below the node is visited; else
    /// the left child is visited next and the right child after it.
    pub open spec fn answer_bounds(self, through: bool) -> Search {
        match self.pending.last() {
            BVHChild::Node(node) => Search {
                pending: if through {
                    self.pending.drop_last().push(node.right).push(node.left)
                } else {
                    self.pending.drop_last()
                },
                ..self
            },
            BVHChild::Object(_) => self,
        }
    }

    /// The search after the answer of an object. The first hit is taken;
    /// after that only a hit that is strictly nearer than the best so far.
    pub open spec fn answer_object(self, t: Option<u64>) -> Search {
        match self.pending.last() {
            BVHChild::Object(p) => {
                let nearer = match t {
                    Some(t) => self.best is None || t < self.closest(),
                    None => false,
                };
                Search {
                    pending: self.pending.drop_last(),
                    t_max: self.t_max,
                    best: if nearer {
                        Some(Hit { object: p, t: t->0 })
                    } else {
                        self.best
                    },
                }
            },
            BVHChild::Node(_) => self,
        }
    }

    /// The result of the search when every object answers as its first hit
    /// in `nearest` demands and every box as `through` says.
    pub open spec fn run(
        self,
        nearest: Seq<Option<u64>>,
        through: spec_fn(AABB, u64) -> bool,
    ) -> Option<Hit>
        decreases pending_weight(self.pending),
        via Self::run_decreases
    {
        if self.pending.len() == 0 {
            self.best
        } else {
            match self.pending.last() {
                BVHChild::Object(p) => self.answer_object(
                    answer(nearest[p as int], self.closest()),
                ).run(nearest, through),
                BVHChild::Node(node) => self.answer_bounds(
                    through(node.aabb, self.closest()),
                ).run(nearest, through),
            }
        }
    }

    #[via_fn]
    proof fn run_decreases(
        self,
        nearest: Seq<Option<u64>>,
        through: spec_fn(AABB, u64) -> bool,
    ) {
        if self.pending.len() > 0 {
            match self.pending.last() {
                BVHChild::Object(p) => {},
                BVHChild::Node(node) => {
                    lemma_weight_of_children(self.pending.drop_last(), *node);
                    assert(self.pending =~= self.pending.drop_last().push(
                        BVHChild::Node(Box::new(*node)),
                    ));
                },
            }
        }
    }

    /// What is known of the search at every moment: its best hit is the
    /// first hit of its object and lies within `t_max`, and the test of the
    /// boxes hides nothing in the parts still to visit.
    pub open spec fn sound(self, nearest: Seq<Option<u64>>, through: spec_fn(AABB, u64) -> bool) -> bool {
        &&& self.best matches Some(h) ==> h.t <= self.t_max && h.object < nearest.len()
            && nearest[h.object as int] == Some(h.t)
        &&& forall|i: int|
            0 <= i < self.pending.len() ==> conservative(#[trigger] self.pending[i], nearest, through)
    }
}

/// Visiting the two children of a node in place of the node takes one
/// question less.
pub proof fn lemma_weight_of_children(rest: Seq<BVHChild>, node: BVHNode)
    ensures
        pending_weight(rest.push(node.right).push(node.left)) + 1 == pending_weight(
            rest.push(BVHChild::Node(Box::new(node))),
        ),
        pending_weight(rest) < pending_weight(rest.push(BVHChild::Node(Box::new(node)))),
{
    reveal_with_fuel(pending_weight, 3);
    let both = rest.push(node.right).push(node.left);
    assert(both.drop_last() =~= rest.push(node.right));
    assert(rest.push(node.right).drop_last() =~= rest);
    let whole = rest.push(BVHChild::Node(Box::new(node)));
    assert(whole.drop_last() =~= rest);
    assert(weight(whole.last()) == 1 + weight(node.left) + weight(node.right));
}

/// What a search that is sound returns: a hit is the first hit of its object
/// and lies within `t_max`; it is the best hit that the search had, or the
/// hit of an object in the parts still to visit; it is no farther than the
/// best hit that the search had; and no object in the parts still to visit
/// is hit before it. Without a hit, no such object is hit before `t_max`.
pub proof fn lemma_run(s: Search, nearest: Seq<Option<u64>>, through: spec_fn(AABB, u64) -> bool)
    requires
        s.sound(nearest, through),
    ensures
        s.run(nearest, through) matches Some(h) ==> {
            &&& h.t <= s.t_max
            &&& h.object < nearest.len()
            &&& nearest[h.object as int] == Some(h.t)
            &&& (s.best == Some(h) || pending_has_leaf(s.pending, h.object))
        },
        s.best matches Some(b) ==> (s.run(nearest, through) matches Some(h) && h.t <= b.t),
        forall|p: usize|
            pending_has_leaf(s.pending, p) && p < nearest.len() ==> (
            #[trigger] nearest[p as int] matches Some(t) ==> match s.run(nearest, through) {
                Some(h) => h.t <= t,
                None => t >= s.t_max,
            }),
    decreases pending_weight(s.pending),
{
    let r = s.run(nearest, through);
    if s.pending.len() > 0 {
        let last = s.pending.len() - 1;
        let rest = s.pending.drop_last();
        assert(conservative(s.pending[last], nearest, through));
        match s.pending.last() {
            BVHChild::Object(q) => {
                let s2 = s.answer_object(answer(nearest[q as int], s.closest()));
                assert forall|i: int| 0 <= i < s2.pending.len() implies conservative(
                    #[trigger] s2.pending[i],
                    nearest,
                    through,
                ) by {
                    assert(s2.pending[i] == s.pending[i]);
                }
                lemma_run(s2, nearest, through);
                assert(has_leaf(s.pending[last], q));
                if let Some(h) = r {
                    if s2.best != Some(h) {
                        let i = choose|i: int| 0 <= i < rest.len() && has_leaf(#[trigger] rest[i], h.object);
                        assert(has_leaf(s.pending[i], h.object));
                    }
                }
                assert forall|p: usize|
                    pending_has_leaf(s.pending, p) && p < nearest.len() implies (
                #[trigger] nearest[p as int] matches Some(t) ==> match r {
                    Some(h) => h.t <= t,
                    None => t >= s.t_max,
                }) by {
                    let i = choose|i: int| 0 <= i < s.pending.len() && has_leaf(#[trigger] s.pending[i], p);
                    if i < last {
                        assert(has_leaf(rest[i], p));
                    }
                }
            },
            BVHChild::Node(node) => {
                let s2 = s.answer_bounds(through(node.aabb, s.closest()));
                assert(s.pending =~= rest.push(BVHChild::Node(Box::new(*node))));
                lemma_weight_of_children(rest, *node);
                if through(node.aabb, s.closest()) {
                    assert forall|i: int| 0 <= i < s2.pending.len() implies conservative(
                        #[trigger] s2.pending[i],
                        nearest,
                        through,
                    ) by {
                        if i < last {
                            assert(s2.pending[i] == s.pending[i]);
                        }
                    }
                    lemma_run(s2, nearest, through);
                    if let Some(h) = r {
                        if s2.best != Some(h) {
                            let i = choose|i: int|
                                0 <= i < s2.pending.len() && has_leaf(#[trigger] s2.pending[i], h.object);
                            if i < last {
                                assert(has_leaf(s.pending[i], h.object));
                            } else {
                                assert(has_leaf(s.pending[last], h.object));
                            }
                        }
                    }
                    assert forall|p: usize|
                        pending_has_leaf(s.pending, p) && p < nearest.len() implies (
                    #[trigger] nearest[p as int] matches Some(t) ==> match r {
                        Some(h) => h.t <= t,
                        None => t >= s.t_max,
                    }) by {
                        let i = choose|i: int|
                            0 <= i < s.pending.len() && has_leaf(#[trigger] s.pending[i], p);
                        if i < last {
                            assert(has_leaf(s2.pending[i], p));
                        } else if has_leaf(node.right, p) {
                            assert(has_leaf(s2.pending[last], p));
                        } else {
                            assert(has_leaf(s2.pending[last + 1], p));
                        }
                    }
                } else {
                    assert forall|i: int| 0 <= i < s2.pending.len() implies conservative(
                        #[trigger] s2.pending[i],
                        nearest,
                        through,
                    ) by {
                        assert(s2.pending[i] == s.pending[i]);
                    }
                    lemma_run(s2, nearest, through);
                    if let Some(h) = r {
                        if s2.best != Some(h) {
                            let i = choose|i: int|
                                0 <= i < rest.len() && has_leaf(#[trigger] rest[i], h.object);
                            assert(has_leaf(s.pending[i], h.object));
                        }
                    }
                    assert forall|p: usize|
                        pending_has_leaf(s.pending, p) && p < nearest.len() implies (
                    #[trigger] nearest[p as int] matches Some(t) ==> match r {
                        Some(h) => h.t <= t,
                        None => t >= s.t_max,
                    }) by {
                        let i = choose|i: int|
                            0 <= i < s.pending.len() && has_leaf(#[trigger] s.pending[i], p);
                        if i < last {
                            assert(has_leaf(rest[i], p));
                        } else {
                            assert(has_leaf(s.pending[last], p));
                            assert(!through(node.aabb, s.closest()));
                        }
                    }
                }
            },
        }
    }
}

/// The search down the hierarchy finds the nearest hit: where the test of
/// the boxes hides no nearer hit, the result is a right answer for the
/// objects that hang in the hierarchy.
pub proof fn lemma_search_finds_nearest(
    root: BVHNode,
    nearest: Seq<Option<u64>>,
    through: spec_fn(AABB, u64) -> bool,
    t_max: u64,
)
    requires
        conservative(BVHChild::Node(Box::new(root)), nearest, through),
    ensures
        is_nearest(
            Search::start(root, t_max).run(nearest, through),
            nearest,
            root.leaf_set(),
            t_max,
        ),
{
    let s = Search::start(root, t_max);
    let top = BVHChild::Node(Box::new(root));
    assert(s.pending[0] == top);
    lemma_run(s, nearest, through);
    assert forall|p: usize| root.has_leaf(p) implies pending_has_leaf(s.pending, p) by {
        assert(has_leaf(s.pending[0], p));
    }
    assert forall|p: usize| pending_has_leaf(s.pending, p) implies root.has_leaf(p) by {
        let i = choose|i: int| 0 <= i < s.pending.len() && has_leaf(#[trigger] s.pending[i], p);
        assert(i == 0);
    }
}

/// The search down the hierarchy built over a list of objects finds a hit
/// at the same distance as going through the list does, where the test of
/// the boxes hides no nearer hit. One case is left out: a first hit at
/// exactly `t_max`, which the list finds and the test of a box may hide.
pub proof fn lemma_hierarchy_agrees_with_list(
    objects: Seq<Extent>,
    axis: int,
    nearest: Seq<Option<u64>>,
    through: spec_fn(AABB, u64) -> bool,
    t_max: u64,
)
    requires
        1 <= objects.len() <= usize::MAX,
        nearest.len() == objects.len(),
        conservative(
            BVHChild::Node(Box::new(spec_build(all_objects(objects.len()), objects, axis))),
            nearest,
            through,
        ),
    ensures
        ({
            let root = spec_build(all_objects(objects.len()), objects, axis);
            let tree = Search::start(root, t_max).run(nearest, through);
            let list = Scan::result(t_max, nearest);
            &&& tree matches Some(a) ==> (list matches Some(b) && a.t == b.t)
            &&& list matches Some(b) ==> b.t < t_max ==> (tree matches Some(a) && a.t == b.t)
        }),
{
    let items = all_objects(objects.len());
    let root = spec_build(items, objects, axis);
    let tree = Search::start(root, t_max).run(nearest, through);
    let list = Scan::result(t_max, nearest);
    lemma_build_leaves(items, objects, axis);
    assert forall|p: usize| root.leaf_set().contains(p) == first_objects(
        nearest.len() as int,
    ).contains(p) by {
        assert(root.has_leaf(p) <==> items.contains(p));
        if p < nearest.len() {
            assert(items[p as int] == p);
        }
    }
    assert(root.leaf_set() =~= first_objects(nearest.len() as int));
    lemma_search_finds_nearest(root, nearest, through, t_max);
    crate::hit::lemma_scan_finds_nearest(t_max, nearest);
    lemma_nearest_agree(tree, list, nearest, root.leaf_set(), t_max);
    if let Some(a) = tree {
        assert(answer(nearest[a.object as int], t_max) is Some);
    }
}

/// A part of the hierarchy that a search has still to visit.
pub enum Visit<'a> {
    Object(usize),
    Node(&'a BVHNode),
}

impl<'a> Visit<'a> {
    /// The part as a child of a node.
    pub open spec fn child(self) -> BVHChild {
        match self {
            Visit::Object(p) => BVHChild::Object(p),
            Visit::Node(node) => BVHChild::Node(Box::new(*node)),
        }
    }

    fn of(child: &'a BVHChild) -> (v: Visit<'a>)
        ensures
            v.child() == *child,
    {
        match child {
            BVHChild::Object(p) => Visit::Object(*p),
            BVHChild::Node(node) => Visit::Node(&**node),
        }
    }
}

/// A running search down a hierarchy. The caller asks it what to test next,
/// tests that against the ray, and hands back the answer.
pub struct Traversal<'a> {
    stack: Vec<Visit<'a>>,
    t_max: u64,
    best: Option<Hit>,
}

impl<'a> View for Traversal<'a> {
    type V = Search;

    closed spec fn view(&self) -> Search {
        Search {
            pending: Seq::new(self.stack@.len(), |i: int| self.stack@[i].child()),
            t_max: self.t_max,
            best: self.best,
        }
    }
}

impl<'a> Traversal<'a> {
    /// What the search asks next.
    pub fn query(&self) -> (q: Query)
        ensures
            q == self@.query(),
    {
        let closest = match self.best {
            Some(h) => h.t,
            None => self.t_max,
        };
        let n = self.stack.len();
        if n == 0 {
            Query::Done { hit: self.best }
        } else {
            match &self.stack[n - 1] {
                Visit::Object(p) => Query::Object { object: *p, t_max: closest },
                Visit::Node(node) => Query::Bounds { aabb: node.aabb, t_max: closest },
            }
        }
    }

    /// The nearest hit that the search has found so far.
    pub fn best(&self) -> (hit: Option<Hit>)
        ensures
            hit == self@.best,
    {
        self.best
    }

    /// Whether the search has found a hit so far. A search that has one
    /// ends with a hit.
    pub fn found(&self) -> (b: bool)
        ensures
            b == (self@.best is Some),
    {
        self.best.is_some()
    }

    /// Takes the answer to a question about a box: whether the ray passes
    /// through it before the distance asked for.
    pub fn answer_bounds(&mut self, through: bool)
        requires
            old(self)@.query() is Bounds,
        ensures
            final(self)@ == old(self)@.answer_bounds(through),
    {
        let ghost before = self@;
        let top = self.stack.pop();
        match top {
            Some(Visit::Node(node)) => {
                if through {
                    self.stack.push(Visit::of(&node.right));
                    self.stack.push(Visit::of(&node.left));
                }
                assert(self@.pending =~= before.answer_bounds(through).pending);
            },
            _ => {
                assert(false);
            },
        }
    }

    /// Takes the answer of an object: its first hit no farther than the
    /// distance asked for, if it has one.
    pub fn answer_object(&mut self, t: Option<u64>)
        requires
            old(self)@.query() is Object,
        ensures
            final(self)@ == old(self)@.answer_object(t),
    {
        let ghost before = self@;
        let top = self.stack.pop();
        match top {
            Some(Visit::Object(p)) => {
                match t {
                    Some(t) => {
                        let nearer = match self.best {
                            Some(h) => t < h.t,
                            None => true,
                        };
                        if nearer {
                            self.best = Some(Hit { object: p, t });
                        }
                    },
                    None => {},
                }
                assert(self@.pending =~= before.answer_object(t).pending);
            },
            _ => {
                assert(false);
            },
        }
    }
}

impl BVHNode {
    /// Starts the search for the nearest hit, no farther than `t_max`, among
    /// the objects that hang below this node.
    pub fn hit(&self, t_max: u64) -> (search: Traversal<'_>)
        ensures
            search@ == Search::start(*self, t_max),
    {
        let mut stack: Vec<Visit<'_>> = Vec::new();
        stack.push(Visit::Node(self));
        let search = Traversal { stack, t_max, best: None };
        assert(search@.pending =~= Search::start(*self, t_max).pending);
        search
    }

    pub fn bounding_box(&self) -> (aabb: AABB)
        ensures
            aabb == self.aabb,
    {
        self.aabb
    }
}

} // verus!
