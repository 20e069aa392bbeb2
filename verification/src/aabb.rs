//! Axis-aligned bounding boxes over ordered coordinate keys.
//!
//! A coordinate is an `i64` key. The caller chooses the keys so that their
//! order is the order of the coordinates they stand for; the smaller of two
//! keys then stands for the smaller of the two coordinates, which is all
//! that bounding boxes need.

use vstd::prelude::*;

verus! {

/// The smaller of two keys.
pub open spec fn lower(a: i64, b: i64) -> i64 {
    if b < a {
        b
    } else {
        a
    }
}

/// The larger of two keys.
pub open spec fn upper(a: i64, b: i64) -> i64 {
    if b > a {
        b
    } else {
        a
    }
}

/// A point, given by one coordinate key per axis.
#[derive(Clone, Copy, Debug, PartialEq, Eq, Structural)]
pub struct Point3 {
    pub x: i64,
    pub y: i64,
    pub z: i64,
}

impl Point3 {
    /// The key on an axis: 0 is x, 1 is y, anything else is z.
    pub open spec fn spec_axis(self, axis: int) -> i64 {
        if axis == 0 {
            self.x
        } else if axis == 1 {
            self.y
        } else {
            self.z
        }
    }

    /// On every axis this point is no larger than `other`.
    pub open spec fn le(self, other: Point3) -> bool {
        self.x <= other.x && self.y <= other.y && self.z <= other.z
    }

    /// The axis-wise smaller keys of two points.
    pub open spec fn spec_lower(self, other: Point3) -> Point3 {
        Point3 { x: lower(self.x, other.x), y: lower(self.y, other.y), z: lower(self.z, other.z) }
    }

    /// The axis-wise larger keys of two points.
    pub open spec fn spec_upper(self, other: Point3) -> Point3 {
        Point3 { x: upper(self.x, other.x), y: upper(self.y, other.y), z: upper(self.z, other.z) }
    }

    pub fn new(x: i64, y: i64, z: i64) -> (p: Point3)
        ensures
            p == (Point3 { x, y, z }),
    {
        Point3 { x, y, z }
    }

    /// The key on an axis (0 = x, 1 = y, 2 = z).
    pub fn axis(&self, axis: u32) -> (key: i64)
        requires
            axis < 3,
        ensures
            key == self.spec_axis(axis as int),
    {
        if axis == 0 {
            self.x
        } else if axis == 1 {
            self.y
        } else {
            self.z
        }
    }

    /// The axis-wise smaller keys of two points.
    pub fn lower(&self, other: &Point3) -> (p: Point3)
        ensures
            p == self.spec_lower(*other),
    {
        Point3 {
            x: if other.x < self.x {
                other.x
            } else {
                self.x
            },
            y: if other.y < self.y {
                other.y
            } else {
                self.y
            },
            z: if other.z < self.z {
                other.z
            } else {
                self.z
            },
        }
    }

    /// The axis-wise larger keys of two points.
    pub fn upper(&self, other: &Point3) -> (p: Point3)
        ensures
            p == self.spec_upper(*other),
    {
        Point3 {
            x: if other.x > self.x {
                other.x
            } else {
                self.x
            },
            y: if other.y > self.y {
                other.y
            } else {
                self.y
            },
            z: if other.z > self.z {
                other.z
            } else {
                self.z
            },
        }
    }
}

/// Axis aligned bounding box. On no axis is its minimum above its maximum.
#[derive(Clone, Copy, Debug, PartialEq, Eq, Structural)]
pub struct AABB {
    minimum: Point3,
    maximum: Point3,
}

impl AABB {
    /// The minimum corner.
    pub closed spec fn spec_min(self) -> Point3 {
        self.minimum
    }

    /// The maximum corner.
    pub closed spec fn spec_max(self) -> Point3 {
        self.maximum
    }

    /// The box with the given corners.
    pub closed spec fn with_corners(minimum: Point3, maximum: Point3) -> AABB {
        AABB { minimum, maximum }
    }

    /// On every axis the minimum is no larger than the maximum.
    pub open spec fn well_formed(self) -> bool {
        self.spec_min().le(self.spec_max())
    }

    /// The point lies inside the box or on its border.
    pub open spec fn contains(self, p: Point3) -> bool {
        self.spec_min().le(p) && p.le(self.spec_max())
    }

    /// The box `inner` lies inside this box.
    pub open spec fn encloses(self, inner: AABB) -> bool {
        self.spec_min().le(inner.spec_min()) && inner.spec_max().le(self.spec_max())
    }

    /// The smallest box around two points.
    pub open spec fn spec_new(a: Point3, b: Point3) -> AABB {
        AABB::with_corners(a.spec_lower(b), a.spec_upper(b))
    }

    /// The smallest box around two boxes.
    pub open spec fn spec_surround(box1: AABB, box2: AABB) -> AABB {
        AABB::with_corners(
            box1.spec_min().spec_lower(box2.spec_min()),
            box1.spec_max().spec_upper(box2.spec_max()),
        )
    }

    /// The smallest box around the first `n` of the points; `n` is at least 1.
    pub open spec fn spec_around(points: Seq<Point3>, n: int) -> AABB
        decreases n,
    {
        if n <= 1 {
            AABB::with_corners(points[0], points[0])
        } else {
            let rest = AABB::spec_around(points, n - 1);
            AABB::with_corners(
                rest.spec_min().spec_lower(points[n - 1]),
                rest.spec_max().spec_upper(points[n - 1]),
            )
        }
    }

    /// A box is its two corners.
    pub broadcast proof fn lemma_corners(minimum: Point3, maximum: Point3)
        ensures
            (#[trigger] AABB::with_corners(minimum, maximum)).spec_min() == minimum,
            AABB::with_corners(minimum, maximum).spec_max() == maximum,
    {
    }

    /// Boxes with the same corners are the same box.
    pub proof fn lemma_same_corners(self, other: AABB)
        requires
            self.spec_min() == other.spec_min(),
            self.spec_max() == other.spec_max(),
        ensures
            self == other,
    {
    }

    /// The box around two points is well formed and holds both; where the
    /// first point is nowhere above the second, they are its corners.
    pub proof fn lemma_new(a: Point3, b: Point3)
        ensures
            AABB::spec_new(a, b).well_formed(),
            AABB::spec_new(a, b).contains(a),
            AABB::spec_new(a, b).contains(b),
            a.le(b) ==> AABB::spec_new(a, b) == AABB::with_corners(a, b),
    {
    }

    /// The box around two well-formed boxes is well formed and encloses
    /// both, and it lies inside every box that encloses both.
    pub proof fn lemma_surround(box1: AABB, box2: AABB)
        requires
            box1.well_formed(),
            box2.well_formed(),
        ensures
            AABB::spec_surround(box1, box2).well_formed(),
            AABB::spec_surround(box1, box2).encloses(box1),
            AABB::spec_surround(box1, box2).encloses(box2),
            forall|outer: AABB|
                outer.encloses(box1) && outer.encloses(box2) ==> #[trigger] outer.encloses(
                    AABB::spec_surround(box1, box2),
                ),
    {
    }

    /// The box around a box and itself is that box.
    pub proof fn lemma_surround_self(self)
        ensures
            AABB::spec_surround(self, self) == self,
    {
    }

    /// Surrounding does not depend on the order of the two boxes.
    pub proof fn lemma_surround_commutes(box1: AABB, box2: AABB)
        ensures
            AABB::spec_surround(box1, box2) == AABB::spec_surround(box2, box1),
    {
    }

    /// The box around points is well formed and holds each of them.
    pub proof fn lemma_around(points: Seq<Point3>, n: int, i: int)
        requires
            0 <= i < n <= points.len(),
        ensures
            AABB::spec_around(points, n).well_formed(),
            AABB::spec_around(points, n).contains(points[i]),
        decreases n,
    {
        if n > 1 {
            if i < n - 1 {
                AABB::lemma_around(points, n - 1, i);
            } else {
                AABB::lemma_around(points, n - 1, 0);
            }
        }
    }

    /// Creates the smallest AABB around two points. Where `minimum` is on no
    /// axis above `maximum`, these are its corners.
    pub fn new(minimum: Point3, maximum: Point3) -> (b: AABB)
        ensures
            b == AABB::spec_new(minimum, maximum),
    {
        AABB { minimum: minimum.lower(&maximum), maximum: minimum.upper(&maximum) }
    }

    /// Creates the smallest AABB that bounds a set of points; `None` when
    /// there is no point.
    pub fn new_from_points(points: &Vec<Point3>) -> (b: Option<AABB>)
        ensures
            points.len() == 0 ==> b is None,
            points.len() > 0 ==> b == Some(AABB::spec_around(points@, points.len() as int)),
    {
        if points.len() == 0 {
            return None;
        }
        let mut minimum = points[0];
        let mut maximum = points[0];
        let mut n: usize = 1;
        while n < points.len()
            invariant
                1 <= n <= points.len(),
                AABB::with_corners(minimum, maximum) == AABB::spec_around(points@, n as int),
            decreases points.len() - n,
        {
            minimum = minimum.lower(&points[n]);
            maximum = maximum.upper(&points[n]);
            n = n + 1;
        }
        Some(AABB { minimum, maximum })
    }

    /// Returns the minimum point of the AABB
    pub fn min(&self) -> (p: Point3)
        ensures
            p == self.spec_min(),
    {
        self.minimum
    }

    /// Returns the maximum point of the AABB
    pub fn max(&self) -> (p: Point3)
        ensures
            p == self.spec_max(),
    {
        self.maximum
    }

    /// Create a bounding box that encompasses two bounding boxes
    pub fn surround(box1: &AABB, box2: &AABB) -> (b: AABB)
        ensures
            b == AABB::spec_surround(*box1, *box2),
    {
        AABB {
            minimum: box1.minimum.lower(&box2.minimum),
            maximum: box1.maximum.upper(&box2.maximum),
        }
    }
}

} // verus!
