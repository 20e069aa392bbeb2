use pathtracer::aabb::{Point3, AABB};
use pathtracer::hit::{Extent, Hit, HittableList, Query, Scan};

fn cube(x: i64, y: i64, z: i64) -> Extent {
    Extent {
        aabb: AABB::new(Point3::new(x - 1, y - 1, z - 1), Point3::new(x + 1, y + 1, z + 1)),
        center: Point3::new(x, y, z),
    }
}

fn scan_all(list: &HittableList, t_max: u64, nearest: &[Option<u64>]) -> Option<Hit> {
    let mut scan = list.hit(t_max);
    loop {
        match scan.query() {
            Query::Object { object, t_max } => {
                let t = match nearest[object] {
                    Some(t) if t <= t_max => Some(t),
                    _ => None,
                };
                scan.answer(t);
            }
            Query::Done { hit } => return hit,
            Query::Bounds { .. } => unreachable!(),
        }
    }
}

#[test]
fn list_grows_by_add() {
    let mut list = HittableList::new();
    assert_eq!(list.len(), 0);
    list.add(cube(0, 0, 0));
    list.add(cube(5, 5, 5));
    assert_eq!(list.len(), 2);
    assert_eq!(list.objects[1], cube(5, 5, 5));
}

#[test]
fn bounding_box_of_list() {
    let mut list = HittableList::new();
    assert!(list.bounding_box().is_none());
    list.add(cube(10, 10, 10));
    assert_eq!(list.bounding_box(), Some(cube(10, 10, 10).aabb));
    list.add(cube(20, 5, 10));
    list.add(cube(12, 12, 30));
    let b = list.bounding_box().unwrap();
    assert_eq!(b.min(), Point3::new(9, 4, 9));
    assert_eq!(b.max(), Point3::new(21, 13, 31));
}

#[test]
fn scan_starts_at_first_object() {
    let mut list = HittableList::new();
    list.add(cube(0, 0, 0));
    let scan = list.hit(99);
    assert_eq!(scan, Scan { len: 1, next: 0, closest: 99, best: None });
    assert_eq!(scan.query(), Query::Object { object: 0, t_max: 99 });
}

#[test]
fn scan_of_empty_list_is_done() {
    let list = HittableList::new();
    assert_eq!(list.hit(5).query(), Query::Done { hit: None });
}

#[test]
fn scan_narrows_the_interval_after_a_hit() {
    let mut list = HittableList::new();
    for i in 0..3 {
        list.add(cube(i, 0, 0));
    }
    let mut scan = list.hit(100);
    scan.answer(Some(40));
    assert_eq!(scan.query(), Query::Object { object: 1, t_max: 40 });
    scan.answer(None);
    assert_eq!(scan.query(), Query::Object { object: 2, t_max: 40 });
    scan.answer(Some(7));
    assert_eq!(scan.query(), Query::Done { hit: Some(Hit { object: 2, t: 7 }) });
}

#[test]
fn scan_finds_the_nearest() {
    let mut list = HittableList::new();
    for i in 0..5 {
        list.add(cube(i, 0, 0));
    }
    let nearest = [Some(50), None, Some(20), Some(30), Some(200)];
    assert_eq!(scan_all(&list, 100, &nearest), Some(Hit { object: 2, t: 20 }));
    assert_eq!(scan_all(&list, 10, &nearest), None);
    assert_eq!(scan_all(&list, 20, &nearest), Some(Hit { object: 2, t: 20 }));
}

#[test]
fn scan_takes_the_later_of_equal_hits() {
    let mut list = HittableList::new();
    for i in 0..3 {
        list.add(cube(i, 0, 0));
    }
    let nearest = [Some(8), Some(8), None];
    assert_eq!(scan_all(&list, 100, &nearest), Some(Hit { object: 1, t: 8 }));
}
