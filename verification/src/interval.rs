//! The stretch of a ray that a test looks at, and the tests that only ask
//! where distances lie in it. Distances are ordered keys: a smaller key
//! stands for a nearer point.

use vstd::prelude::*;

verus! {

/// The farther of two distances.
pub open spec fn later(a: u64, b: u64) -> u64 {
    if a >= b {
        a
    } else {
        b
    }
}

/// The nearer of two distances.
pub open spec fn sooner(a: u64, b: u64) -> u64 {
    if a <= b {
        a
    } else {
        b
    }
}

/// Where a ray is between two parallel planes: from `enter` to `leave`.
#[derive(Clone, Copy, Debug, PartialEq, Eq, Structural)]
pub struct Slab {
    pub enter: u64,
    pub leave: u64,
}

/// The stretch of a ray from `t_min` to `t_max`.
#[derive(Clone, Copy, Debug, PartialEq, Eq, Structural)]
pub struct Interval {
    pub t_min: u64,
    pub t_max: u64,
}

/// The last distance at which the ray enters one of the first `n` slabs,
/// but no nearer than `t_min`.
pub open spec fn last_entry(t_min: u64, slabs: Seq<Slab>, n: int) -> u64
    decreases n,
{
    if n <= 0 {
        t_min
    } else {
        later(last_entry(t_min, slabs, n - 1), slabs[n - 1].enter)
    }
}

/// The first distance at which the ray leaves one of the first `n` slabs,
/// but no farther than `t_max`.
pub open spec fn first_exit(t_max: u64, slabs: Seq<Slab>, n: int) -> u64
    decreases n,
{
    if n <= 0 {
        t_max
    } else {
        sooner(first_exit(t_max, slabs, n - 1), slabs[n - 1].leave)
    }
}

/// With more slabs the ray enters the last one no sooner and leaves the
/// first one no later.
pub proof fn lemma_slabs_narrow(t_min: u64, t_max: u64, slabs: Seq<Slab>, k: int, n: int)
    requires
        0 <= k <= n,
    ensures
        last_entry(t_min, slabs, k) <= last_entry(t_min, slabs, n),
        first_exit(t_max, slabs, n) <= first_exit(t_max, slabs, k),
    decreases n - k,
{
    if k < n {
        lemma_slabs_narrow(t_min, t_max, slabs, k, n - 1);
    }
}

impl Interval {
    /// Whether the distance lies in the stretch, its two ends included.
    pub open spec fn spec_contains(self, t: u64) -> bool {
        self.t_min <= t <= self.t_max
    }

    /// Of two distances, `near` being the nearer, the first that lies in
    /// the stretch.
    pub open spec fn spec_first_root(self, near: u64, far: u64) -> Option<u64> {
        if self.spec_contains(near) {
            Some(near)
        } else if self.spec_contains(far) {
            Some(far)
        } else {
            None
        }
    }

    /// Whether the ray is inside all slabs at once somewhere in the
    /// stretch: it has entered the last slab, or the stretch has begun,
    /// before it leaves the first slab or the stretch ends.
    pub open spec fn spec_through(self, slabs: Seq<Slab>) -> bool {
        last_entry(self.t_min, slabs, slabs.len() as int) < first_exit(
            self.t_max,
            slabs,
            slabs.len() as int,
        )
    }

    /// The part of the way from `enter` to `leave` that lies in the
    /// stretch, if that is more than a point.
    pub open spec fn spec_clip(self, enter: u64, leave: u64) -> Option<Slab> {
        let slab = Slab { enter: later(enter, self.t_min), leave: sooner(leave, self.t_max) };
        if slab.enter >= slab.leave {
            None
        } else {
            Some(slab)
        }
    }

    pub fn new(t_min: u64, t_max: u64) -> (i: Interval)
        ensures
            i == (Interval { t_min, t_max }),
    {
        Interval { t_min, t_max }
    }

    /// Whether the distance lies in the stretch, its two ends included.
    pub fn contains(&self, t: u64) -> (b: bool)
        ensures
            b == self.spec_contains(t),
    {
        self.t_min <= t && t <= self.t_max
    }

    /// Of the two distances at which a ray meets a surface, `near` being
    /// the nearer, the first that lies in the stretch.
    pub fn first_root(&self, near: u64, far: u64) -> (root: Option<u64>)
        ensures
            root == self.spec_first_root(near, far),
    {
        if self.contains(near) {
            Some(near)
        } else if self.contains(far) {
            Some(far)
        } else {
            None
        }
    }

    /// Whether the ray passes through the box that the slabs bound, inside
    /// the stretch. The stretch is narrowed slab by slab, and the answer is
    /// no as soon as nothing is left of it.
    pub fn through(&self, slabs: &Vec<Slab>) -> (b: bool)
        ensures
            b == self.spec_through(slabs@),
    {
        let mut t_min = self.t_min;
        let mut t_max = self.t_max;
        let mut a: usize = 0;
        while a < slabs.len()
            invariant
                a <= slabs.len(),
                t_min == last_entry(self.t_min, slabs@, a as int),
                t_max == first_exit(self.t_max, slabs@, a as int),
            decreases slabs.len() - a,
        {
            if slabs[a].enter > t_min {
                t_min = slabs[a].enter;
            }
            if slabs[a].leave < t_max {
                t_max = slabs[a].leave;
            }
            a = a + 1;
            if t_max <= t_min {
                proof {
                    lemma_slabs_narrow(self.t_min, self.t_max, slabs@, a as int, slabs.len() as int);
                }
                return false;
            }
        }
        t_min < t_max
    }

    /// The part of the way from `enter` to `leave` that lies in the
    /// stretch, if that is more than a point.
    pub fn clip(&self, enter: u64, leave: u64) -> (part: Option<Slab>)
        ensures
            part == self.spec_clip(enter, leave),
    {
        let enter = if enter < self.t_min {
            self.t_min
        } else {
            enter
        };
        let leave = if leave > self.t_max {
            self.t_max
        } else {
            leave
        };
        if enter >= leave {
            None
        } else {
            Some(Slab { enter, leave })
        }
    }
}

} // verus!
