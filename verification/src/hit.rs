//! Objects as the hierarchy sees them, hit records, and the search for the
//! nearest hit by going through a list of objects one by one.
//!
//! Distances along a ray are `u64` keys. The caller chooses them so that a
//! smaller key stands for a nearer point.

use crate::aabb::{Point3, AABB};
use vstd::prelude::*;

verus! {

/// What is known of an object: its bounding box, and the midpoint of that
/// box, by which objects are ordered along an axis.
#[derive(Clone, Copy, Debug, PartialEq, Eq, Structural)]
pub struct Extent {
    pub aabb: AABB,
    pub center: Point3,
}

/// A ray has hit the object with this index at distance `t`.
#[derive(Clone, Copy, Debug, PartialEq, Eq, Structural)]
pub struct Hit {
    pub object: usize,
    pub t: u64,
}

/// What a search asks of the caller next.
#[derive(Clone, Copy, Debug, PartialEq, Eq, Structural)]
pub enum Query {
    /// Does the ray pass through this box before `t_max`?
    Bounds { aabb: AABB, t_max: u64 },
    /// Where does the ray first hit this object, no farther than `t_max`?
    Object { object: usize, t_max: u64 },
    /// Nothing: the search has ended with this result.
    Done { hit: Option<Hit> },
}

/// What an object answers when asked for its first hit no farther than
/// `t_max`, if `nearest` is its first hit at any distance.
pub open spec fn answer(nearest: Option<u64>, t_max: u64) -> Option<u64> {
    match nearest {
        Some(t) => if t <= t_max {
            Some(t)
        } else {
            None
        },
        None => None,
    }
}

/// `hit` is a right answer to the question which of `objects` a ray hits
/// first before `t_max`, where `nearest[p]` is the first hit of object `p`:
/// a hit is the first hit of one of the objects, lies no farther than
/// `t_max`, and no object is hit before it; without a hit no object is hit
/// before `t_max`.
pub open spec fn is_nearest(
    hit: Option<Hit>,
    nearest: Seq<Option<u64>>,
    objects: Set<usize>,
    t_max: u64,
) -> bool {
    match hit {
        Some(h) => {
            &&& objects.contains(h.object)
            &&& h.object < nearest.len()
            &&& nearest[h.object as int] == Some(h.t)
            &&& h.t <= t_max
            &&& forall|p: usize|
                objects.contains(p) && p < nearest.len() ==> (
                #[trigger] nearest[p as int] matches Some(t) ==> h.t <= t)
        },
        None => forall|p: usize|
            objects.contains(p) && p < nearest.len() ==> (#[trigger] nearest[p as int] matches Some(
                t,
            ) ==> t >= t_max),
    }
}

/// Two right answers to the same question agree on the distance, unless one
/// of them is a hit at exactly `t_max` and the other is none.
pub proof fn lemma_nearest_agree(
    first: Option<Hit>,
    second: Option<Hit>,
    nearest: Seq<Option<u64>>,
    objects: Set<usize>,
    t_max: u64,
)
    requires
        is_nearest(first, nearest, objects, t_max),
        is_nearest(second, nearest, objects, t_max),
    ensures
        first matches Some(a) ==> (second matches Some(b) ==> a.t == b.t),
        first matches Some(a) ==> (second is None ==> a.t == t_max),
        second matches Some(b) ==> (first is None ==> b.t == t_max),
{
    if let Some(a) = first {
        assert(nearest[a.object as int] == Some(a.t));
        if let Some(b) = second {
            assert(nearest[b.object as int] == Some(b.t));
        }
    } else if let Some(b) = second {
        assert(nearest[b.object as int] == Some(b.t));
    }
}

/// The objects with an index below `n`.
pub open spec fn first_objects(n: int) -> Set<usize> {
    Set::new(|p: usize| p < n)
}

/// A list of objects.
pub struct HittableList {
    pub objects: Vec<Extent>,
}

/// The smallest box around the boxes of the first `n` objects; `n` is at
/// least 1.
pub open spec fn spec_bounding_box(objects: Seq<Extent>, n: int) -> AABB
    decreases n,
{
    if n <= 1 {
        objects[0].aabb
    } else {
        AABB::spec_surround(spec_bounding_box(objects, n - 1), objects[n - 1].aabb)
    }
}

/// The box around the objects encloses the box of each of them, and is
/// well formed, where the boxes of the objects are.
pub proof fn lemma_bounding_box(objects: Seq<Extent>, n: int, i: int)
    requires
        0 <= i < n <= objects.len(),
        forall|k: int| 0 <= k < n ==> (#[trigger] objects[k]).aabb.well_formed(),
    ensures
        spec_bounding_box(objects, n).well_formed(),
        spec_bounding_box(objects, n).encloses(objects[i].aabb),
    decreases n,
{
    if n > 1 {
        let rest = spec_bounding_box(objects, n - 1);
        if i < n - 1 {
            lemma_bounding_box(objects, n - 1, i);
        } else {
            lemma_bounding_box(objects, n - 1, 0);
        }
        AABB::lemma_surround(rest, objects[n - 1].aabb);
    }
}

impl HittableList {
    pub fn new() -> (list: HittableList)
        ensures
            list.objects@ == Seq::<Extent>::empty(),
    {
        HittableList { objects: Vec::new() }
    }

    /// Add an object to the list. Its index is the length the list had.
    pub fn add(&mut self, object: Extent)
        ensures
            final(self).objects@ == old(self).objects@.push(object),
    {
        self.objects.push(object);
    }

    pub fn len(&self) -> (n: usize)
        ensures
            n == self.objects@.len(),
    {
        self.objects.len()
    }

    /// The smallest box around all objects; `None` for an empty list.
    pub fn bounding_box(&self) -> (b: Option<AABB>)
        ensures
            self.objects@.len() == 0 ==> b is None,
            self.objects@.len() > 0 ==> b == Some(
                spec_bounding_box(self.objects@, self.objects@.len() as int),
            ),
    {
        if self.objects.len() == 0 {
            return None;
        }
        let mut temp_box = self.objects[0].aabb;
        let mut n: usize = 1;
        while n < self.objects.len()
            invariant
                1 <= n <= self.objects.len(),
                temp_box == spec_bounding_box(self.objects@, n as int),
            decreases self.objects.len() - n,
        {
            temp_box = AABB::surround(&temp_box, &self.objects[n].aabb);
            n = n + 1;
        }
        Some(temp_box)
    }

    /// Starts the search for the nearest hit, no farther than `t_max`, among
    /// all objects of the list.
    pub fn hit(&self, t_max: u64) -> (scan: Scan)
        ensures
            scan.len == self.objects@.len(),
            scan.next == 0,
            scan.closest == t_max,
            scan.best is None,
    {
        Scan { len: self.objects.len(), next: 0, closest: t_max, best: None }
    }
}

/// A search through a list of objects, one after the other. Objects before
/// `next` have been asked; `best` is the nearest hit among them and
/// `closest` its distance, or the farthest distance allowed while there is
/// no hit.
#[derive(Clone, Copy, Debug, PartialEq, Eq, Structural)]
pub struct Scan {
    pub len: usize,
    pub next: usize,
    pub closest: u64,
    pub best: Option<Hit>,
}

impl Scan {
    /// The search before any object was asked.
    pub open spec fn start(len: usize, t_max: u64) -> Scan {
        Scan { len, next: 0, closest: t_max, best: None }
    }

    /// What the search asks next.
    pub open spec fn spec_query(self) -> Query {
        if self.next < self.len {
            Query::Object { object: self.next, t_max: self.closest }
        } else {
            Query::Done { hit: self.best }
        }
    }

    /// The search after the object asked has answered. A hit replaces the
    /// best one so far; the objects after it are asked for nearer hits only.
    pub open spec fn spec_answer(self, t: Option<u64>) -> Scan {
        match t {
            Some(t) => Scan {
                len: self.len,
                next: (self.next + 1) as usize,
                closest: t,
                best: Some(Hit { object: self.next, t }),
            },
            None => Scan { next: (self.next + 1) as usize, ..self },
        }
    }

    /// The search after its first `n` objects have answered, each as its
    /// first hit in `nearest` demands.
    pub open spec fn after(len: usize, t_max: u64, nearest: Seq<Option<u64>>, n: int) -> Scan
        decreases n,
    {
        if n <= 0 {
            Scan::start(len, t_max)
        } else {
            let before = Scan::after(len, t_max, nearest, n - 1);
            before.spec_answer(answer(nearest[n - 1], before.closest))
        }
    }

    /// The result of the whole search.
    pub open spec fn result(t_max: u64, nearest: Seq<Option<u64>>) -> Option<Hit> {
        Scan::after(nearest.len() as usize, t_max, nearest, nearest.len() as int).best
    }

    /// What the search asks next.
    pub fn query(&self) -> (q: Query)
        ensures
            q == self.spec_query(),
    {
        if self.next < self.len {
            Query::Object { object: self.next, t_max: self.closest }
        } else {
            Query::Done { hit: self.best }
        }
    }

    /// Takes the answer of the object that was asked.
    pub fn answer(&mut self, t: Option<u64>)
        requires
            old(self).next < old(self).len,
        ensures
            *final(self) == old(self).spec_answer(t),
    {
        match t {
            Some(t) => {
                self.best = Some(Hit { object: self.next, t });
                self.closest = t;
            },
            None => {},
        }
        self.next = self.next + 1;
    }

    /// After `n` answers the search stands before object `n`, and its best
    /// hit is a right answer for the objects before it.
    pub proof fn lemma_after(len: usize, t_max: u64, nearest: Seq<Option<u64>>, n: int)
        requires
            0 <= n <= nearest.len(),
            nearest.len() <= usize::MAX,
        ensures
            ({
                let s = Scan::after(len, t_max, nearest, n);
                &&& s.len == len
                &&& s.next == n
                &&& s.closest <= t_max
                &&& s.best matches Some(h) ==> s.closest == h.t
                &&& s.best is None ==> s.closest == t_max
                &&& is_nearest(s.best, nearest, first_objects(n), t_max)
                &&& s.best is None ==> forall|i: int|
                    0 <= i < n ==> (#[trigger] nearest[i] matches Some(t) ==> t > t_max)
            }),
        decreases n,
    {
        if n > 0 {
            Scan::lemma_after(len, t_max, nearest, n - 1);
            let before = Scan::after(len, t_max, nearest, n - 1);
            let s = Scan::after(len, t_max, nearest, n);
            match s.best {
                Some(h) => {
                    assert forall|p: usize|
                        first_objects(n).contains(p) && p < nearest.len() implies (
                    #[trigger] nearest[p as int] matches Some(t) ==> h.t <= t) by {
                        if p < n - 1 {
                            assert(first_objects(n - 1).contains(p));
                        }
                    }
                },
                None => {
                    assert forall|p: usize|
                        first_objects(n).contains(p) && p < nearest.len() implies (
                    #[trigger] nearest[p as int] matches Some(t) ==> t >= t_max) by {
                        if p < n - 1 {
                            assert(first_objects(n - 1).contains(p));
                        }
                    }
                },
            }
        }
    }
}

/// Going through the list finds the nearest hit: the result is a right
/// answer for all objects, and where there is no hit, no object has a hit
/// up to `t_max`.
pub proof fn lemma_scan_finds_nearest(t_max: u64, nearest: Seq<Option<u64>>)
    requires
        nearest.len() <= usize::MAX,
    ensures
        is_nearest(
            Scan::result(t_max, nearest),
            nearest,
            first_objects(nearest.len() as int),
            t_max,
        ),
        Scan::result(t_max, nearest) is None ==> forall|i: int|
            0 <= i < nearest.len() ==> answer(#[trigger] nearest[i], t_max) is None,
{
    Scan::lemma_after(nearest.len() as usize, t_max, nearest, nearest.len() as int);
}

} // verus!
