use pathtracer::aabb::{Point3, AABB};
use pathtracer::bvh::{BVHChild, BVHNode};
use pathtracer::hit::{Extent, Hit, HittableList, Query};

fn cube(x: i64, y: i64, z: i64) -> Extent {
    Extent {
        aabb: AABB::new(Point3::new(x - 1, y - 1, z - 1), Point3::new(x + 1, y + 1, z + 1)),
        center: Point3::new(x, y, z),
    }
}

fn leaf(p: usize) -> BVHChild {
    BVHChild::Object(p)
}

fn node(left: BVHChild, right: BVHChild, aabb: AABB) -> BVHChild {
    BVHChild::Node(Box::new(BVHNode { left, right, aabb }))
}

fn around(a: &Extent, b: &Extent) -> AABB {
    AABB::surround(&a.aabb, &b.aabb)
}

fn depth(child: &BVHChild) -> u32 {
    match child {
        BVHChild::Object(_) => 0,
        BVHChild::Node(n) => 1 + depth(&n.left).max(depth(&n.right)),
    }
}

fn leaves(child: &BVHChild, out: &mut Vec<usize>) {
    match child {
        BVHChild::Object(p) => out.push(*p),
        BVHChild::Node(n) => {
            leaves(&n.left, out);
            leaves(&n.right, out);
        }
    }
}

fn boxes_hold(child: &BVHChild, objects: &[Extent]) -> AABB {
    match child {
        BVHChild::Object(p) => objects[*p].aabb,
        BVHChild::Node(n) => {
            let l = boxes_hold(&n.left, objects);
            let r = boxes_hold(&n.right, objects);
            assert_eq!(n.aabb, AABB::surround(&l, &r));
            n.aabb
        }
    }
}

/// Objects along a ray that runs in the direction of x at the height `y`
/// and the depth `z`: the ray hits an object where it enters its box.
fn first_hit(e: &Extent, y: i64, z: i64) -> Option<u64> {
    let (lo, hi) = (e.aabb.min(), e.aabb.max());
    if lo.y <= y && y <= hi.y && lo.z <= z && z <= hi.z && lo.x >= 0 {
        Some(lo.x as u64)
    } else {
        None
    }
}

fn passes(b: &AABB, y: i64, z: i64, t_max: u64) -> bool {
    let (lo, hi) = (b.min(), b.max());
    lo.y <= y && y <= hi.y && lo.z <= z && z <= hi.z && hi.x >= 0 && (lo.x < 0 || (lo.x as u64) < t_max)
}

fn search(root: &BVHNode, objects: &[Extent], y: i64, z: i64, t_max: u64) -> (Option<Hit>, usize) {
    let mut s = root.hit(t_max);
    let mut asked = 0;
    loop {
        match s.query() {
            Query::Bounds { aabb, t_max } => s.answer_bounds(passes(&aabb, y, z, t_max)),
            Query::Object { object, t_max } => {
                asked += 1;
                let t = match first_hit(&objects[object], y, z) {
                    Some(t) if t <= t_max => Some(t),
                    _ => None,
                };
                s.answer_object(t);
            }
            Query::Done { hit } => return (hit, asked),
        }
    }
}

fn scan(list: &HittableList, y: i64, z: i64, t_max: u64) -> Option<Hit> {
    let mut s = list.hit(t_max);
    loop {
        match s.query() {
            Query::Object { object, t_max } => {
                let t = match first_hit(&list.objects[object], y, z) {
                    Some(t) if t <= t_max => Some(t),
                    _ => None,
                };
                s.answer(t);
            }
            Query::Done { hit } => return hit,
            Query::Bounds { .. } => unreachable!(),
        }
    }
}

#[test]
fn one_object_hangs_twice() {
    let objects = vec![cube(3, 4, 5)];
    let root = BVHNode::new(&objects, 0);
    assert_eq!(root, BVHNode { left: leaf(0), right: leaf(0), aabb: objects[0].aabb });
}

#[test]
fn two_objects_are_ordered_along_the_axis() {
    let objects = vec![cube(9, 0, 0), cube(2, 5, 0)];
    let by_x = BVHNode::new(&objects, 0);
    assert_eq!(
        by_x,
        BVHNode { left: leaf(1), right: leaf(0), aabb: around(&objects[0], &objects[1]) }
    );
    let by_y = BVHNode::new(&objects, 1);
    assert_eq!(
        by_y,
        BVHNode { left: leaf(0), right: leaf(1), aabb: around(&objects[0], &objects[1]) }
    );
}

#[test]
fn three_objects_split_in_the_middle_and_cycle_the_axis() {
    // along x: 1, 2, 0; the right half {2, 0} is ordered along y: 0, 2
    let objects = vec![cube(30, 5, 0), cube(10, 0, 0), cube(20, 9, 0)];
    let root = BVHNode::new(&objects, 0);
    let right_box = around(&objects[0], &objects[2]);
    let expected = BVHNode {
        left: node(leaf(1), leaf(1), objects[1].aabb),
        right: node(leaf(0), leaf(2), right_box),
        aabb: AABB::surround(&objects[1].aabb, &right_box),
    };
    assert_eq!(root, expected);
}

#[test]
fn axis_two_is_followed_by_axis_zero() {
    // along z: 2, 1, 0; the right half {1, 0} is ordered along x: 0, 1
    let objects = vec![cube(1, 0, 30), cube(2, 0, 20), cube(3, 0, 10)];
    let root = BVHNode::new(&objects, 2);
    let right_box = around(&objects[0], &objects[1]);
    let expected = BVHNode {
        left: node(leaf(2), leaf(2), objects[2].aabb),
        right: node(leaf(0), leaf(1), right_box),
        aabb: AABB::surround(&objects[2].aabb, &right_box),
    };
    assert_eq!(root, expected);
}

#[test]
fn equal_midpoints_keep_their_order() {
    let objects = vec![cube(5, 0, 0), cube(5, 1, 0), cube(5, 2, 0), cube(5, 3, 0)];
    let root = BVHNode::new(&objects, 0);
    // along x all are equal: halves {0, 1} and {2, 3}; along y they are in order
    let l = around(&objects[0], &objects[1]);
    let r = around(&objects[2], &objects[3]);
    let expected = BVHNode {
        left: node(leaf(0), leaf(1), l),
        right: node(leaf(2), leaf(3), r),
        aabb: AABB::surround(&l, &r),
    };
    assert_eq!(root, expected);
}

#[test]
fn every_object_hangs_in_the_hierarchy() {
    for n in 1..40usize {
        let objects: Vec<Extent> =
            (0..n).map(|i| cube((i * 7 % 11) as i64, (i * 5 % 13) as i64, (i * 3 % 17) as i64)).collect();
        let root = BVHNode::new(&objects, 0);
        let mut found = Vec::new();
        leaves(&root.left, &mut found);
        leaves(&root.right, &mut found);
        found.sort();
        found.dedup();
        assert_eq!(found, (0..n).collect::<Vec<usize>>());
    }
}

#[test]
fn hierarchy_is_balanced() {
    for n in 1..200usize {
        let objects: Vec<Extent> = (0..n).map(|i| cube((i * 37 % 101) as i64, 0, 0)).collect();
        let root = BVHNode::new(&objects, 0);
        let d = 1 + depth(&root.left).max(depth(&root.right));
        if n == 1 {
            assert_eq!(d, 1);
        } else {
            assert!((1usize << (d - 1)) < n, "n = {}, depth = {}", n, d);
        }
    }
    let objects: Vec<Extent> = (0..8).map(|i| cube(i, 0, 0)).collect();
    let root = BVHNode::new(&objects, 0);
    assert_eq!(1 + depth(&root.left).max(depth(&root.right)), 3);
}

#[test]
fn node_boxes_surround_their_children() {
    let objects: Vec<Extent> =
        (0..23).map(|i| cube((i * 7 % 11) as i64, (i * 5 % 13) as i64, (i * 3 % 17) as i64)).collect();
    let root = BVHNode::new(&objects, 1);
    let l = boxes_hold(&root.left, &objects);
    let r = boxes_hold(&root.right, &objects);
    assert_eq!(root.bounding_box(), AABB::surround(&l, &r));
}

#[test]
fn search_asks_the_root_box_first() {
    let objects = vec![cube(9, 0, 0), cube(2, 5, 0)];
    let root = BVHNode::new(&objects, 0);
    let s = root.hit(77);
    assert!(!s.found());
    assert_eq!(s.query(), Query::Bounds { aabb: root.aabb, t_max: 77 });
}

#[test]
fn search_ends_when_the_root_box_is_missed() {
    let objects = vec![cube(9, 0, 0), cube(2, 5, 0)];
    let root = BVHNode::new(&objects, 0);
    let mut s = root.hit(77);
    s.answer_bounds(false);
    assert_eq!(s.query(), Query::Done { hit: None });
}

#[test]
fn search_visits_left_then_right_with_the_nearer_bound() {
    let objects = vec![cube(9, 0, 0), cube(2, 5, 0)];
    let root = BVHNode::new(&objects, 0);
    let mut s = root.hit(77);
    s.answer_bounds(true);
    assert_eq!(s.query(), Query::Object { object: 1, t_max: 77 });
    s.answer_object(Some(30));
    assert!(s.found());
    assert_eq!(s.best(), Some(Hit { object: 1, t: 30 }));
    assert_eq!(s.query(), Query::Object { object: 0, t_max: 30 });
    s.answer_object(Some(12));
    assert_eq!(s.query(), Query::Done { hit: Some(Hit { object: 0, t: 12 }) });
}

#[test]
fn search_keeps_the_left_hit_on_a_tie() {
    let objects = vec![cube(9, 0, 0), cube(2, 5, 0)];
    let root = BVHNode::new(&objects, 0);
    let mut s = root.hit(77);
    s.answer_bounds(true);
    s.answer_object(Some(30));
    s.answer_object(Some(30));
    assert_eq!(s.query(), Query::Done { hit: Some(Hit { object: 1, t: 30 }) });
}

#[test]
fn single_object_is_asked_twice_and_found_once() {
    let objects = vec![cube(4, 0, 0)];
    let root = BVHNode::new(&objects, 0);
    let (hit, asked) = search(&root, &objects, 0, 0, 1000);
    assert_eq!(hit, Some(Hit { object: 0, t: 3 }));
    assert_eq!(asked, 2);
}

#[test]
fn search_agrees_with_the_list_scan() {
    let mut seed: u64 = 2024;
    let mut next = move |m: u64| {
        seed = seed.wrapping_mul(6364136223846793005).wrapping_add(1442695040888963407);
        ((seed >> 33) % m) as i64
    };
    for n in (1..=500usize).step_by(7) {
        let mut list = HittableList::new();
        for _ in 0..n {
            list.add(cube(next(400) + 2, next(40), next(40)));
        }
        let root = BVHNode::new(&list.objects, 0);
        for _ in 0..20 {
            let (y, z) = (next(40), next(40));
            let (tree, asked) = search(&root, &list.objects, y, z, 1_000_000);
            let flat = scan(&list, y, z, 1_000_000);
            assert_eq!(tree.map(|h| h.t), flat.map(|h| h.t));
            if let Some(h) = tree {
                assert_eq!(first_hit(&list.objects[h.object], y, z), Some(h.t));
            }
            assert!(asked <= 2 * n);
        }
    }
}

#[test]
fn search_respects_the_farthest_distance() {
    let objects = vec![cube(10, 0, 0), cube(50, 0, 0), cube(90, 0, 0)];
    let root = BVHNode::new(&objects, 0);
    assert_eq!(search(&root, &objects, 0, 0, 1000).0, Some(Hit { object: 0, t: 9 }));
    assert_eq!(search(&root, &objects, 0, 0, 5).0, None);
    assert_eq!(search(&root, &objects, 5, 0, 1000).0, None);
}
