//! The integer side of gradient noise: three shuffled tables, and the hash
//! that picks the gradient of a lattice point from them.

use crate::utility::random_int;
use rand::rngs::StdRng;
use vstd::prelude::*;

verus! {

/// Number of gradients, and length of each table.
pub const POINT_COUNT: usize = 256;

/// The numbers below `n` in rising order.
pub open spec fn identity(n: int) -> Seq<usize> {
    Seq::new(n as nat, |i: int| i as usize)
}

/// Every number below the length of `s` occurs in it, and none twice: all
/// members are below the length and no two places hold the same one.
pub open spec fn is_permutation(s: Seq<usize>) -> bool {
    &&& forall|i: int| 0 <= i < s.len() ==> #[trigger] s[i] < s.len()
    &&& forall|i: int, j: int| 0 <= i < j < s.len() ==> s[i] != s[j]
}

/// `s` with the members at `i` and `j` exchanged.
pub open spec fn swapped(s: Seq<usize>, i: int, j: int) -> Seq<usize> {
    s.update(i, s[j]).update(j, s[i])
}

/// Exchanging two members neither adds nor loses one.
pub proof fn lemma_swapped_multiset(s: Seq<usize>, i: int, j: int)
    requires
        0 <= i < s.len(),
        0 <= j < s.len(),
    ensures
        swapped(s, i, j).to_multiset() == s.to_multiset(),
{
    broadcast use vstd::multiset::group_multiset_axioms;

    let half = s.update(i, s[j]);
    vstd::seq_lib::to_multiset_update(s, i, s[j]);
    vstd::seq_lib::to_multiset_update(half, j, s[i]);
    vstd::seq_lib::to_multiset_contains(s, s[i]);
    vstd::seq_lib::to_multiset_contains(s, s[j]);
    assert(swapped(s, i, j).to_multiset() =~= s.to_multiset());
}

/// Whether `draws` can steer a shuffle of `n` places: there is one draw for
/// each place, and the draw for a place is that place or one before it. The
/// first draw is for the last place.
pub open spec fn valid_draws(n: int, draws: Seq<usize>) -> bool {
    &&& draws.len() == n
    &&& forall|k: int| 0 <= k < n ==> #[trigger] draws[k] <= n - 1 - k
}

/// `s` after the first `k` steps of a shuffle of its first `n` places. Step
/// `k` exchanges the member at place `n - k` with the one at the place that
/// was drawn for it.
pub open spec fn shuffled(s: Seq<usize>, n: int, draws: Seq<usize>, k: int) -> Seq<usize>
    decreases k,
{
    if k <= 0 {
        s
    } else {
        swapped(shuffled(s, n, draws, k - 1), n - k, draws[k - 1] as int)
    }
}

/// The first steps of a shuffle do not depend on later draws.
pub proof fn lemma_shuffled_prefix(
    s: Seq<usize>,
    n: int,
    draws: Seq<usize>,
    more: Seq<usize>,
    k: int,
)
    requires
        0 <= k <= draws.len() <= more.len(),
        forall|i: int| 0 <= i < draws.len() ==> draws[i] == more[i],
    ensures
        shuffled(s, n, draws, k) == shuffled(s, n, more, k),
    decreases k,
{
    if k > 0 {
        lemma_shuffled_prefix(s, n, draws, more, k - 1);
    }
}

/// A shuffle moves the members about and neither adds nor loses one: the
/// length stays, places from `n` on keep their members, and a permutation
/// stays a permutation.
pub proof fn lemma_shuffled(s: Seq<usize>, n: int, draws: Seq<usize>, k: int)
    requires
        0 <= k <= n <= s.len(),
        valid_draws(n, draws),
    ensures
        shuffled(s, n, draws, k).len() == s.len(),
        forall|i: int| n <= i < s.len() ==> shuffled(s, n, draws, k)[i] == s[i],
        shuffled(s, n, draws, k).to_multiset() == s.to_multiset(),
        is_permutation(s) ==> is_permutation(shuffled(s, n, draws, k)),
    decreases k,
{
    if k > 0 {
        lemma_shuffled(s, n, draws, k - 1);
        let before = shuffled(s, n, draws, k - 1);
        let i = n - k;
        let j = draws[k - 1] as int;
        let after = swapped(before, i, j);
        lemma_swapped_multiset(before, i, j);
        if is_permutation(s) {
            assert forall|a: int, b: int| 0 <= a < b < after.len() implies after[a] != after[b] by {
                let a0 = if a == i {
                    j
                } else if a == j {
                    i
                } else {
                    a
                };
                let b0 = if b == i {
                    j
                } else if b == j {
                    i
                } else {
                    b
                };
                assert(after[a] == before[a0]);
                assert(after[b] == before[b0]);
                assert(a0 != b0);
                if a0 < b0 {
                    assert(before[a0] != before[b0]);
                } else {
                    assert(before[b0] != before[a0]);
                }
            }
        }
    }
}

/// Shuffles the first `n` places of `p` as the draws say, and says whether
/// it did: if `p` is shorter than `n` or the draws are not valid for `n`
/// places, `p` stays as it is.
pub fn permute_with(p: &mut Vec<usize>, n: usize, draws: &Vec<usize>) -> (done: bool)
    ensures
        done == (n <= old(p).len() && valid_draws(n as int, draws@)),
        done ==> final(p)@ == shuffled(old(p)@, n as int, draws@, n as int),
        !done ==> final(p)@ == old(p)@,
{
    if n > p.len() || draws.len() != n {
        return false;
    }
    let mut c: usize = 0;
    while c < n
        invariant
            c <= n,
            draws.len() == n,
            forall|k: int| 0 <= k < c ==> #[trigger] draws[k] <= n - 1 - k,
        decreases n - c,
    {
        if draws[c] > n - 1 - c {
            return false;
        }
        c = c + 1;
    }
    let ghost start = p@;
    let mut k: usize = 0;
    while k < n
        invariant
            k <= n <= p.len(),
            p.len() == start.len(),
            valid_draws(n as int, draws@),
            p@ == shuffled(start, n as int, draws@, k as int),
        decreases n - k,
    {
        let i = n - 1 - k;
        let target = draws[k];
        let tmp = p[i];
        let other = p[target];
        p.set(i, other);
        p.set(target, tmp);
        k = k + 1;
        proof {
            lemma_shuffled(start, n as int, draws@, k as int);
        }
    }
    true
}

/// Shuffles the first `n` places of `p` with draws from the generator.
///
/// Whatever is drawn, the result is that of a shuffle with valid draws.
pub fn permute(rng: &mut StdRng, p: &mut Vec<usize>, n: usize)
    requires
        n <= old(p).len(),
        n <= 0x7fff_ffff,
    ensures
        exists|draws: Seq<usize>|
            valid_draws(n as int, draws) && final(p)@ == #[trigger] shuffled(
                old(p)@,
                n as int,
                draws,
                n as int,
            ),
{
    let ghost start = p@;
    let ghost mut draws: Seq<usize> = Seq::empty();
    let mut k: usize = 0;
    while k < n
        invariant
            k <= n <= p.len(),
            n <= 0x7fff_ffff,
            p.len() == start.len(),
            draws.len() == k,
            forall|c: int| 0 <= c < k ==> #[trigger] draws[c] <= n - 1 - c,
            p@ == shuffled(start, n as int, draws, k as int),
        decreases n - k,
    {
        let i = n - 1 - k;
        let target = random_int(rng, 0, i as i32) as usize;
        let tmp = p[i];
        let other = p[target];
        p.set(i, other);
        p.set(target, tmp);
        proof {
            let more = draws.push(target);
            lemma_shuffled_prefix(start, n as int, draws, more, k as int);
            draws = more;
        }
        k = k + 1;
    }
    assert(valid_draws(n as int, draws));
}

/// The numbers below `point_count` in rising order.
fn rising(point_count: usize) -> (p: Vec<usize>)
    ensures
        p@ == identity(point_count as int),
{
    let mut p: Vec<usize> = Vec::new();
    let mut i: usize = 0;
    while i < point_count
        invariant
            i <= point_count,
            p@ == identity(i as int),
        decreases point_count - i,
    {
        p.push(i);
        i = i + 1;
        assert(p@ =~= identity(i as int));
    }
    p
}

/// A permutation of the numbers below `point_count`, shuffled with draws
/// from the generator.
pub fn perlin_generate_perm(rng: &mut StdRng, point_count: usize) -> (p: Vec<usize>)
    requires
        point_count <= 0x7fff_ffff,
    ensures
        p.len() == point_count,
        is_permutation(p@),
{
    let mut p = rising(point_count);
    permute(rng, &mut p, point_count);
    proof {
        let start = identity(point_count as int);
        let draws = choose|draws: Seq<usize>|
            valid_draws(point_count as int, draws) && p@ == #[trigger] shuffled(
                start,
                point_count as int,
                draws,
                point_count as int,
            );
        lemma_shuffled(start, point_count as int, draws, point_count as int);
    }
    p
}

/// The place in a table that stands for lattice coordinate `i`: the
/// remainder of `i` on division by the table length, which is never
/// negative.
pub open spec fn wrap(i: int) -> int {
    i % 256
}

/// The gradient that three table entries pick together.
pub open spec fn mix(x: usize, y: usize, z: usize) -> usize {
    ((x as u64) ^ (y as u64) ^ (z as u64)) as usize
}

/// Three table entries pick a gradient that exists.
pub proof fn lemma_mix_in_range(x: usize, y: usize, z: usize)
    requires
        x < 256,
        y < 256,
        z < 256,
    ensures
        mix(x, y, z) < 256,
{
    let a = x as u64;
    let b = y as u64;
    let c = z as u64;
    assert(a ^ b ^ c < 256) by (bit_vector)
        requires
            a < 256,
            b < 256,
            c < 256,
    ;
}

/// Permutation tables for gradient noise.
pub struct Perlin {
    point_count: usize,
    perm_x: Vec<usize>,
    perm_y: Vec<usize>,
    perm_z: Vec<usize>,
}

impl Perlin {
    /// The table for the x axis.
    pub closed spec fn spec_perm_x(&self) -> Seq<usize> {
        self.perm_x@
    }

    /// The table for the y axis.
    pub closed spec fn spec_perm_y(&self) -> Seq<usize> {
        self.perm_y@
    }

    /// The table for the z axis.
    pub closed spec fn spec_perm_z(&self) -> Seq<usize> {
        self.perm_z@
    }

    pub closed spec fn spec_point_count(&self) -> usize {
        self.point_count
    }

    /// Each table is a permutation of the numbers below `POINT_COUNT`.
    pub open spec fn well_formed(&self) -> bool {
        &&& self.spec_point_count() == POINT_COUNT
        &&& self.spec_perm_x().len() == POINT_COUNT
        &&& self.spec_perm_y().len() == POINT_COUNT
        &&& self.spec_perm_z().len() == POINT_COUNT
        &&& is_permutation(self.spec_perm_x())
        &&& is_permutation(self.spec_perm_y())
        &&& is_permutation(self.spec_perm_z())
    }

    /// The gradient of the lattice point `(i, j, k)`.
    pub open spec fn spec_gradient(&self, i: int, j: int, k: int) -> usize {
        mix(
            self.spec_perm_x()[wrap(i)],
            self.spec_perm_y()[wrap(j)],
            self.spec_perm_z()[wrap(k)],
        )
    }

    /// Tables shuffled with draws from the generator.
    pub fn new(rng: &mut StdRng) -> (perlin: Perlin)
        ensures
            perlin.well_formed(),
    {
        let point_count: usize = 256;
        let perm_x = perlin_generate_perm(rng, point_count);
        let perm_y = perlin_generate_perm(rng, point_count);
        let perm_z = perlin_generate_perm(rng, point_count);
        Perlin { point_count, perm_x, perm_y, perm_z }
    }

    /// Tables shuffled as the given draws say, one list of draws for each
    /// axis; `None` where a list is not valid for `POINT_COUNT` places.
    pub fn with_draws(x: &Vec<usize>, y: &Vec<usize>, z: &Vec<usize>) -> (perlin: Option<Perlin>)
        ensures
            perlin is Some <==> valid_draws(256, x@) && valid_draws(256, y@) && valid_draws(
                256,
                z@,
            ),
            perlin matches Some(p) ==> {
                &&& p.well_formed()
                &&& p.spec_perm_x() == shuffled(identity(256), 256, x@, 256)
                &&& p.spec_perm_y() == shuffled(identity(256), 256, y@, 256)
                &&& p.spec_perm_z() == shuffled(identity(256), 256, z@, 256)
            },
    {
        let point_count: usize = 256;
        let mut perm_x = rising(point_count);
        let mut perm_y = rising(point_count);
        let mut perm_z = rising(point_count);
        if !permute_with(&mut perm_x, point_count, x) {
            return None;
        }
        if !permute_with(&mut perm_y, point_count, y) {
            return None;
        }
        if !permute_with(&mut perm_z, point_count, z) {
            return None;
        }
        proof {
            lemma_shuffled(identity(256), 256, x@, 256);
            lemma_shuffled(identity(256), 256, y@, 256);
            lemma_shuffled(identity(256), 256, z@, 256);
        }
        Some(Perlin { point_count, perm_x, perm_y, perm_z })
    }

    /// The place in a table for lattice coordinate `i + d`.
    fn place(i: i32, d: u8) -> (at: usize)
        ensures
            at == wrap(i + d),
            at < 256,
    {
        let shifted: u64 = (i as i64 + d as i64 + 0x8000_0000) as u64;
        assert(shifted & 255 == shifted % 256) by (bit_vector);
        (shifted & 255) as usize
    }

    /// The gradient of the lattice point `(i + di, j + dj, k + dk)`.
    pub fn gradient(&self, i: i32, j: i32, k: i32, di: u8, dj: u8, dk: u8) -> (g: usize)
        requires
            self.well_formed(),
        ensures
            g == self.spec_gradient(i + di, j + dj, k + dk),
            g < POINT_COUNT,
    {
        let x = self.perm_x[Perlin::place(i, di)];
        let y = self.perm_y[Perlin::place(j, dj)];
        let z = self.perm_z[Perlin::place(k, dk)];
        proof {
            lemma_mix_in_range(x, y, z);
        }
        ((x as u64) ^ (y as u64) ^ (z as u64)) as usize
    }

    /// The gradients of the eight corners of the lattice cell whose lowest
    /// corner is `(i, j, k)`: the corner `(i + di, j + dj, k + dk)` has place
    /// `4 * di + 2 * dj + dk`.
    pub fn noise(&self, i: i32, j: i32, k: i32) -> (c: [usize; 8])
        requires
            self.well_formed(),
        ensures
            forall|di: int, dj: int, dk: int|
                0 <= di < 2 && 0 <= dj < 2 && 0 <= dk < 2 ==> #[trigger] c[4 * di + 2 * dj + dk]
                    == self.spec_gradient(i + di, j + dj, k + dk),
            forall|n: int| 0 <= n < 8 ==> #[trigger] c[n] < POINT_COUNT,
    {
        [
            self.gradient(i, j, k, 0, 0, 0),
            self.gradient(i, j, k, 0, 0, 1),
            self.gradient(i, j, k, 0, 1, 0),
            self.gradient(i, j, k, 0, 1, 1),
            self.gradient(i, j, k, 1, 0, 0),
            self.gradient(i, j, k, 1, 0, 1),
            self.gradient(i, j, k, 1, 1, 0),
            self.gradient(i, j, k, 1, 1, 1),
        ]
    }
}

} // verus!
