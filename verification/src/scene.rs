//! Rendering a scene in parallel: the split of the image rows into one band
//! per worker, and the assembly of the workers' results into one image.

use crate::buffer::{pixel_index, Buffer};
use crate::bvh::{all_objects, spec_build, BVHNode, Search, Traversal};
use crate::hit::HittableList;
use vstd::prelude::*;

verus! {

/// The rows `start..end` of the image, rendered by one worker.
#[derive(Clone, Copy, Debug, PartialEq, Eq, Structural)]
pub struct Band {
    pub start: u32,
    pub end: u32,
}

/// Why the results of the workers could not be assembled into an image.
#[derive(Clone, Copy, Debug, PartialEq, Eq, Structural)]
pub enum RenderError {
    /// No worker results were handed in.
    NoBands,
    /// The worker of this band did not deliver a result.
    BandFailed { band: usize },
    /// The worker of this band delivered the wrong number of pixels.
    BandSize { band: usize },
}

/// Rows in every band but the last.
pub open spec fn band_rows(height: int, workers: int) -> int {
    height / workers
}

/// First row of band `i`.
pub open spec fn band_start(height: int, workers: int, i: int) -> int {
    band_rows(height, workers) * i
}

/// One past the last row of band `i`. The last band takes the rows that are
/// left over when the height is not a multiple of the number of workers.
pub open spec fn band_end(height: int, workers: int, i: int) -> int {
    if i == workers - 1 {
        height
    } else {
        band_rows(height, workers) * (i + 1)
    }
}

/// The band that renders `row`.
pub open spec fn band_of_row(height: int, workers: int, row: int) -> int {
    let rows = band_rows(height, workers);
    if rows == 0 || row / rows >= workers {
        workers - 1
    } else {
        row / rows
    }
}

/// Whether `row` belongs to band `i`.
pub open spec fn band_contains(height: int, workers: int, i: int, row: int) -> bool {
    band_start(height, workers, i) <= row < band_end(height, workers, i)
}

/// Each band is a range of rows inside the image.
pub proof fn lemma_band_bounds(height: int, workers: int, i: int)
    requires
        0 <= height,
        1 <= workers,
        0 <= i < workers,
    ensures
        0 <= band_start(height, workers, i) <= band_end(height, workers, i) <= height,
{
    let rows = height / workers;
    assert(0 <= rows && rows * workers <= height) by (nonlinear_arith)
        requires
            rows == height / workers,
            0 <= height,
            1 <= workers,
    ;
    assert(0 <= rows * i && rows * i <= rows * (i + 1) && rows * (i + 1) <= rows * workers)
        by (nonlinear_arith)
        requires
            0 <= rows,
            0 <= i,
            i + 1 <= workers,
    ;
}

/// The bands follow one another without a gap: the first starts at row 0,
/// each ends where the next starts, and the last ends with the image.
pub proof fn lemma_bands_adjacent(height: int, workers: int, i: int)
    requires
        0 <= height,
        1 <= workers,
        0 <= i < workers,
    ensures
        band_start(height, workers, 0) == 0,
        band_end(height, workers, workers - 1) == height,
        i + 1 < workers ==> band_end(height, workers, i) == band_start(height, workers, i + 1),
{
    assert(band_rows(height, workers) * 0 == 0) by (nonlinear_arith);
}

/// Every row of the image lies in exactly one band: in `band_of_row`, and in
/// no other. So the bands cover the rows `0..height` without gap or overlap.
pub proof fn lemma_rows_partitioned(height: int, workers: int, row: int)
    requires
        1 <= workers,
        0 <= row < height,
    ensures
        0 <= band_of_row(height, workers, row) < workers,
        band_contains(height, workers, band_of_row(height, workers, row), row),
        forall|i: int|
            0 <= i < workers && #[trigger] band_contains(height, workers, i, row) ==> i
                == band_of_row(height, workers, row),
{
    let rows = height / workers;
    let b = band_of_row(height, workers, row);
    assert(0 <= rows && rows * workers <= height) by (nonlinear_arith)
        requires
            rows == height / workers,
            0 <= height,
            1 <= workers,
    ;
    if rows == 0 {
        assert(rows * (workers - 1) == 0) by (nonlinear_arith)
            requires
                rows == 0,
        ;
        assert forall|i: int|
            0 <= i < workers && #[trigger] band_contains(height, workers, i, row) implies i
            == b by {
            if i != workers - 1 {
                assert(rows * (i + 1) == 0) by (nonlinear_arith)
                    requires
                        rows == 0,
                ;
            }
        }
    } else {
        let q = row / rows;
        assert(0 <= q && q * rows <= row < q * rows + rows) by (nonlinear_arith)
            requires
                q == row / rows,
                0 <= row,
                0 < rows,
        ;
        if q >= workers {
            assert(rows * (workers - 1) <= rows * q) by (nonlinear_arith)
                requires
                    workers - 1 <= q,
                    0 <= rows,
            ;
            assert(rows * q == q * rows) by (nonlinear_arith);
        } else {
            assert(rows * q == q * rows && rows * (q + 1) == q * rows + rows)
                by (nonlinear_arith);
        }
        assert forall|i: int|
            0 <= i < workers && #[trigger] band_contains(height, workers, i, row) implies i
            == b by {
            if i < b {
                // band i ends at or before the start of band b
                assert(rows * (i + 1) <= rows * b) by (nonlinear_arith)
                    requires
                        i + 1 <= b,
                        0 <= rows,
                ;
                if q < workers {
                    assert(rows * q == q * rows) by (nonlinear_arith);
                }
            } else if i > b {
                // then b is q, and band i starts at or after the end of band q
                assert(rows * (b + 1) <= rows * i) by (nonlinear_arith)
                    requires
                        b + 1 <= i,
                        0 <= rows,
                ;
                assert(rows * (b + 1) == b * rows + rows) by (nonlinear_arith);
            }
        }
    }
}

/// The rows of band `i` when `height` rows are split among `workers` workers.
pub fn band(height: u32, workers: usize, i: usize) -> (b: Band)
    requires
        1 <= workers,
        i < workers,
    ensures
        b.start == band_start(height as int, workers as int, i as int),
        b.end == band_end(height as int, workers as int, i as int),
{
    proof {
        lemma_band_bounds(height as int, workers as int, i as int);
    }
    let rows: u64 = height as u64 / workers as u64;
    assert(rows == band_rows(height as int, workers as int));
    assert(rows * workers <= height) by (nonlinear_arith)
        requires
            rows == (height as int) / (workers as int),
            0 <= height,
            1 <= workers,
    ;
    assert(0 <= rows * i <= rows * (i + 1) <= height) by (nonlinear_arith)
        requires
            0 <= rows,
            rows * workers <= height,
            0 <= i,
            i + 1 <= workers,
    ;
    let start: u64 = rows * i as u64;
    let end: u64 = if i == workers - 1 {
        height as u64
    } else {
        rows * (i as u64 + 1)
    };
    Band { start: start as u32, end: end as u32 }
}

/// The seed for the random numbers of the worker of band `band`, where
/// `seed` is the seed of the whole render: the seeds that follow `seed`
/// are handed out band by band, going round at the largest seed.
pub open spec fn spec_band_seed(seed: u64, band: usize) -> u64 {
    ((seed + band + 1) % 0x1_0000_0000_0000_0000) as u64
}

/// Workers of different bands draw from different seeds.
pub proof fn lemma_band_seeds_differ(seed: u64, band1: usize, band2: usize)
    requires
        band1 != band2,
    ensures
        spec_band_seed(seed, band1) != spec_band_seed(seed, band2),
{
}

/// The seed for the random numbers of the worker of band `band`.
pub fn band_seed(seed: u64, band: usize) -> (s: u64)
    ensures
        s == spec_band_seed(seed, band),
{
    let wide: u128 = seed as u128 + band as u128 + 1;
    (wide % 0x1_0000_0000_0000_0000) as u64
}

/// The bands of all workers, band 0 first.
pub fn bands(height: u32, workers: usize) -> (v: Vec<Band>)
    requires
        1 <= workers,
    ensures
        v.len() == workers,
        forall|i: int|
            0 <= i < workers ==> (#[trigger] v[i]).start == band_start(
                height as int,
                workers as int,
                i,
            ) && v[i].end == band_end(height as int, workers as int, i),
{
    let mut v: Vec<Band> = Vec::new();
    let mut i: usize = 0;
    while i < workers
        invariant
            1 <= workers,
            i <= workers,
            v.len() == i,
            forall|j: int|
                0 <= j < i ==> (#[trigger] v[j]).start == band_start(
                    height as int,
                    workers as int,
                    j,
                ) && v[j].end == band_end(height as int, workers as int, j),
        decreases workers - i,
    {
        v.push(band(height, workers, i));
        i = i + 1;
    }
    v
}

/// The band whose result is joined in place `k`: workers are joined from the
/// last band, which holds the top rows of the image, down to band 0.
pub open spec fn joined_band(workers: int, k: int) -> int {
    workers - 1 - k
}

/// Number of pixels that the worker joined in place `k` has to deliver.
pub open spec fn chunk_len(width: int, height: int, workers: int, k: int) -> int {
    let b = joined_band(workers, k);
    (band_end(height, workers, b) - band_start(height, workers, b)) * width
}

/// What is wrong with the result joined in place `k`, if anything.
pub open spec fn chunk_fault<T>(
    width: int,
    height: int,
    chunks: Seq<Option<Vec<T>>>,
    k: int,
) -> Option<RenderError> {
    let band = joined_band(chunks.len() as int, k) as usize;
    match chunks[k] {
        None => Some(RenderError::BandFailed { band }),
        Some(pixels) => if pixels.len() != chunk_len(width, height, chunks.len() as int, k) {
            Some(RenderError::BandSize { band })
        } else {
            None
        },
    }
}

/// Whether all results are there and have the right size.
pub open spec fn chunks_sound<T>(width: int, height: int, chunks: Seq<Option<Vec<T>>>) -> bool {
    forall|k: int| 0 <= k < chunks.len() ==> #[trigger] chunk_fault(width, height, chunks, k) is None
}

/// The pixels of a result; none for a missing result.
pub open spec fn chunk_pixels<T>(chunk: Option<Vec<T>>) -> Seq<T> {
    match chunk {
        Some(pixels) => pixels@,
        None => Seq::empty(),
    }
}

/// The pixels of the first `k` results, one result after the other.
pub open spec fn joined<T>(chunks: Seq<Option<Vec<T>>>, k: int) -> Seq<T>
    decreases k,
{
    if k <= 0 {
        Seq::empty()
    } else {
        joined(chunks, k - 1) + chunk_pixels(chunks[k - 1])
    }
}

/// Number of image rows that the first `k` joined results hold.
pub open spec fn rows_joined(height: int, workers: int, k: int) -> int {
    if k <= 0 {
        0
    } else {
        height - band_start(height, workers, workers - k)
    }
}

/// The first `k` results hold the top `rows_joined` rows of the image.
pub proof fn lemma_joined_len<T>(width: int, height: int, chunks: Seq<Option<Vec<T>>>, k: int)
    requires
        0 <= width,
        0 <= height,
        0 <= k <= chunks.len(),
        forall|j: int| 0 <= j < k ==> #[trigger] chunk_fault(width, height, chunks, j) is None,
    ensures
        joined(chunks, k).len() == rows_joined(height, chunks.len() as int, k) * width,
    decreases k,
{
    let workers = chunks.len() as int;
    if k > 0 {
        lemma_joined_len(width, height, chunks, k - 1);
        let b = workers - k;
        assert(chunk_fault(width, height, chunks, k - 1) is None);
        assert(joined_band(workers, k - 1) == b);
        lemma_bands_adjacent(height, workers, b);
        let above = rows_joined(height, workers, k - 1);
        let end = band_end(height, workers, b);
        let start = band_start(height, workers, b);
        assert(above == height - end);
        assert((height - end) * width + (end - start) * width == (height - start) * width)
            by (nonlinear_arith);
    }
}

/// Pixel `o` of the result joined in place `k` stands in the joined pixels
/// right after all pixels of the results joined before it.
pub proof fn lemma_joined_index<T>(chunks: Seq<Option<Vec<T>>>, n: int, k: int, o: int)
    requires
        0 <= k < n <= chunks.len(),
        0 <= o < chunk_pixels(chunks[k]).len(),
    ensures
        joined(chunks, k).len() + o < joined(chunks, n).len(),
        joined(chunks, n)[joined(chunks, k).len() + o] == chunk_pixels(chunks[k])[o],
    decreases n,
{
    if k < n - 1 {
        lemma_joined_index(chunks, n - 1, k, o);
    } else {
        assert(joined(chunks, k + 1) == joined(chunks, k) + chunk_pixels(chunks[k]));
    }
}

/// Join order decides placement: when sound results are joined, the pixel
/// of column `x` in row `y` of the image is the one that the worker of the
/// row's band computed for it, the worker having gone through its rows from
/// the top one down and through each row from left to right.
pub proof fn lemma_joined_placement<T>(
    width: int,
    height: int,
    chunks: Seq<Option<Vec<T>>>,
    x: int,
    y: int,
)
    requires
        0 <= x < width,
        0 <= y < height,
        1 <= chunks.len(),
        chunks_sound(width, height, chunks),
    ensures
        ({
            let workers = chunks.len() as int;
            let b = band_of_row(height, workers, y);
            let k = joined_band(workers, b);
            let o = (band_end(height, workers, b) - 1 - y) * width + x;
            &&& 0 <= k < workers
            &&& 0 <= o < chunk_pixels(chunks[k]).len()
            &&& 0 <= pixel_index(width, height, y, x) < joined(chunks, workers).len()
            &&& joined(chunks, workers)[pixel_index(width, height, y, x)] == chunk_pixels(
                chunks[k],
            )[o]
        }),
{
    let workers = chunks.len() as int;
    let b = band_of_row(height, workers, y);
    lemma_rows_partitioned(height, workers, y);
    let k = joined_band(workers, b);
    let end = band_end(height, workers, b);
    let start = band_start(height, workers, b);
    let o = (end - 1 - y) * width + x;
    assert(chunk_fault(width, height, chunks, k) is None);
    assert(joined_band(workers, k) == b);
    assert(chunk_pixels(chunks[k]).len() == (end - start) * width);
    let up = end - 1 - y;
    assert(0 <= up * width && up * width + width <= (end - start) * width) by (nonlinear_arith)
        requires
            0 <= up,
            up + 1 <= end - start,
            0 <= width,
    ;
    lemma_joined_len(width, height, chunks, k);
    lemma_joined_len(width, height, chunks, workers);
    lemma_joined_index(chunks, workers, k, o);
    lemma_bands_adjacent(height, workers, b);
    lemma_bands_adjacent(height, workers, 0);
    assert(rows_joined(height, workers, k) == height - end);
    assert((height - end) * width + up * width == (height - y - 1) * width) by (nonlinear_arith)
        requires
            up == end - 1 - y,
    ;
}

/// Builds the image from the results of the workers, handed in in join
/// order: first the result of the last band, last the result of band 0. A
/// result holds the pixels of its band's rows from the top row down, each row
/// from left to right; a worker that failed has `None` in its place.
///
/// The first result in join order that is missing or has the wrong size is
/// reported with its band.
pub fn assemble<T: Copy>(width: u32, height: u32, chunks: &Vec<Option<Vec<T>>>) -> (r: Result<
    Buffer<T>,
    RenderError,
>)
    ensures
        chunks.len() == 0 ==> r == Err::<Buffer<T>, RenderError>(RenderError::NoBands),
        chunks.len() > 0 ==> match r {
            Ok(image) => {
                &&& chunks_sound(width as int, height as int, chunks@)
                &&& image.well_formed()
                &&& image.spec_width() == width
                &&& image.spec_height() == height
                &&& image.pixels() == joined(chunks@, chunks.len() as int)
            },
            Err(fault) => exists|k: int|
                {
                    &&& 0 <= k < chunks.len()
                    &&& #[trigger] chunk_fault(width as int, height as int, chunks@, k) == Some(
                        fault,
                    )
                    &&& forall|j: int|
                        0 <= j < k ==> #[trigger] chunk_fault(
                            width as int,
                            height as int,
                            chunks@,
                            j,
                        ) is None
                },
        },
{
    let workers = chunks.len();
    if workers == 0 {
        return Err(RenderError::NoBands);
    }
    let mut e: Vec<T> = Vec::new();
    let mut k: usize = 0;
    while k < workers
        invariant
            workers == chunks.len(),
            1 <= workers,
            k <= workers,
            e@ == joined(chunks@, k as int),
            forall|j: int|
                0 <= j < k ==> #[trigger] chunk_fault(width as int, height as int, chunks@, j)
                    is None,
        decreases workers - k,
    {
        let b = workers - 1 - k;
        let rows = band(height, workers, b);
        proof {
            lemma_band_bounds(height as int, workers as int, b as int);
        }
        let count: u64 = (rows.end - rows.start) as u64;
        assert(count * width <= 0xFFFF_FFFF * 0xFFFF_FFFF) by (nonlinear_arith)
            requires
                0 <= count <= 0xFFFF_FFFF,
                0 <= width <= 0xFFFF_FFFF,
        ;
        let expected: u64 = count * width as u64;
        assert(expected == chunk_len(width as int, height as int, workers as int, k as int));
        match &chunks[k] {
            None => {
                assert(chunks@[k as int] is None);
                assert(chunk_fault(width as int, height as int, chunks@, k as int) == Some(
                    RenderError::BandFailed { band: b },
                ));
                return Err(RenderError::BandFailed { band: b });
            },
            Some(pixels) => {
                assert(chunks@[k as int] == Some(*pixels));
                if pixels.len() as u64 != expected {
                    assert(chunk_fault(width as int, height as int, chunks@, k as int) == Some(
                        RenderError::BandSize { band: b },
                    ));
                    return Err(RenderError::BandSize { band: b });
                }
                let n = pixels.len();
                let mut j: usize = 0;
                while j < n
                    invariant
                        n == pixels.len(),
                        j <= n,
                        e@ == joined(chunks@, k as int) + pixels@.subrange(0, j as int),
                    decreases n - j,
                {
                    e.push(pixels[j]);
                    j = j + 1;
                    assert(e@ =~= joined(chunks@, k as int) + pixels@.subrange(0, j as int));
                }
                assert(pixels@.subrange(0, n as int) =~= pixels@);
                assert(chunk_pixels(chunks@[k as int]) == pixels@);
            },
        }
        k = k + 1;
    }
    proof {
        lemma_joined_len(width as int, height as int, chunks@, workers as int);
        lemma_bands_adjacent(height as int, workers as int, 0);
        assert(height * width == width * height) by (nonlinear_arith);
    }
    let image = Buffer::from_pixels(width, height, e);
    Ok(image.unwrap())
}

/// The pixels of the result joined in place `k` after mending: its own
/// pixels where nothing is wrong with it, else the pixels it had to deliver,
/// all of them `sentinel`.
pub open spec fn spec_mended<T>(
    width: int,
    height: int,
    chunks: Seq<Option<Vec<T>>>,
    k: int,
    sentinel: T,
) -> Seq<T> {
    if chunk_fault(width, height, chunks, k) is None {
        chunk_pixels(chunks[k])
    } else {
        Seq::new(chunk_len(width, height, chunks.len() as int, k) as nat, |i: int| sentinel)
    }
}

/// Confines the faults of workers to their bands: every result that is
/// missing or has the wrong size is replaced by one of the right size in
/// which every pixel is `sentinel`, and the other results stay as they are.
/// What comes back can be assembled.
pub fn mend<T: Copy>(width: u32, height: u32, chunks: &Vec<Option<Vec<T>>>, sentinel: T) -> (mended:
    Vec<Option<Vec<T>>>)
    requires
        width * height <= u32::MAX,
    ensures
        mended.len() == chunks.len(),
        forall|k: int|
            0 <= k < chunks.len() ==> (#[trigger] mended[k]) is Some && chunk_pixels(mended[k])
                == spec_mended(width as int, height as int, chunks@, k, sentinel),
        chunks_sound(width as int, height as int, mended@),
{
    let workers = chunks.len();
    let mut mended: Vec<Option<Vec<T>>> = Vec::new();
    let mut k: usize = 0;
    while k < workers
        invariant
            workers == chunks.len(),
            k <= workers,
            width * height <= u32::MAX,
            mended.len() == k,
            forall|j: int|
                0 <= j < k ==> (#[trigger] mended[j]) is Some && chunk_pixels(mended[j])
                    == spec_mended(width as int, height as int, chunks@, j, sentinel),
            forall|j: int|
                0 <= j < k ==> chunk_pixels(#[trigger] mended[j]).len() == chunk_len(
                    width as int,
                    height as int,
                    workers as int,
                    j,
                ),
        decreases workers - k,
    {
        let b = workers - 1 - k;
        let rows = band(height, workers, b);
        proof {
            lemma_band_bounds(height as int, workers as int, b as int);
        }
        let count: u64 = (rows.end - rows.start) as u64;
        assert(0 <= count * width <= height * width) by (nonlinear_arith)
            requires
                0 <= count <= height,
                0 <= width,
        ;
        assert(height * width == width * height) by (nonlinear_arith);
        let expected: usize = (count * width as u64) as usize;
        assert(expected == chunk_len(width as int, height as int, workers as int, k as int));
        let sound = match &chunks[k] {
            Some(pixels) => pixels.len() == expected,
            None => false,
        };
        let mut pixels: Vec<T> = Vec::new();
        let mut i: usize = 0;
        while i < expected
            invariant
                i <= expected,
                0 <= k < chunks.len(),
                sound ==> chunks@[k as int] is Some && chunk_pixels(chunks@[k as int]).len()
                    == expected,
                pixels@ == spec_mended_part(chunks@[k as int], sound, sentinel, i as int),
            decreases expected - i,
        {
            let pixel = match &chunks[k] {
                Some(own) => if sound {
                    own[i]
                } else {
                    sentinel
                },
                None => sentinel,
            };
            pixels.push(pixel);
            i = i + 1;
            assert(pixels@ =~= spec_mended_part(chunks@[k as int], sound, sentinel, i as int));
        }
        proof {
            let own = chunk_pixels(chunks@[k as int]);
            if sound {
                assert(chunk_fault(width as int, height as int, chunks@, k as int) is None);
                assert(pixels@ =~= own);
            } else {
                assert(chunk_fault(width as int, height as int, chunks@, k as int) is Some);
                assert(pixels@ =~= Seq::new(expected as nat, |i: int| sentinel));
            }
        }
        mended.push(Some(pixels));
        k = k + 1;
    }
    assert forall|j: int| 0 <= j < mended.len() implies #[trigger] chunk_fault(
        width as int,
        height as int,
        mended@,
        j,
    ) is None by {
        assert(mended[j] is Some);
    }
    mended
}

/// The first `n` pixels of a mended result: those of the worker where its
/// result is sound, else `sentinel` throughout.
pub open spec fn spec_mended_part<T>(chunk: Option<Vec<T>>, sound: bool, sentinel: T, n: int) -> Seq<
    T,
> {
    Seq::new(
        n as nat,
        |i: int|
            if sound {
                chunk_pixels(chunk)[i]
            } else {
                sentinel
            },
    )
}

/// Why a scene could not be set up.
#[derive(Clone, Copy, Debug, PartialEq, Eq, Structural)]
pub enum SceneError {
    /// There is no object, so no hierarchy can be built.
    NoObjects,
    /// The image has a negative side or more pixels than a buffer holds.
    BadSize,
}

/// What a scene keeps for rendering, besides the geometry and the shading
/// that the caller holds: the objects with their hierarchy, the size of the
/// image, the number of samples for each pixel and the depth of recursion.
pub struct Scene {
    objects: HittableList,
    width: i32,
    height: i32,
    samples: i32,
    max_depth: i32,
    bvh_root: BVHNode,
}

/// How tracing a ray goes on: the search for the nearest hit, and the depth
/// that is left for the rays that shading the hit sends out.
pub struct Trace<'a> {
    pub search: Traversal<'a>,
    pub depth: i32,
}

impl Scene {
    /// The objects of the scene.
    pub closed spec fn spec_objects(&self) -> Seq<crate::hit::Extent> {
        self.objects.objects@
    }

    pub closed spec fn spec_width(&self) -> i32 {
        self.width
    }

    pub closed spec fn spec_height(&self) -> i32 {
        self.height
    }

    pub closed spec fn spec_samples(&self) -> i32 {
        self.samples
    }

    pub closed spec fn spec_max_depth(&self) -> i32 {
        self.max_depth
    }

    /// The root of the hierarchy over the objects.
    pub closed spec fn spec_bvh_root(&self) -> BVHNode {
        self.bvh_root
    }

    /// The image has a size that a buffer can hold, there is an object, and
    /// the hierarchy is the one built over the objects, first along x.
    pub open spec fn well_formed(&self) -> bool {
        &&& self.spec_width() >= 0
        &&& self.spec_height() >= 0
        &&& self.spec_width() * self.spec_height() <= u32::MAX
        &&& self.spec_objects().len() >= 1
        &&& self.spec_bvh_root() == spec_build(
            all_objects(self.spec_objects().len()),
            self.spec_objects(),
            0,
        )
    }

    /// Sets up a scene and builds the hierarchy over its objects.
    pub fn new(objects: HittableList, width: i32, height: i32, samples: i32, max_depth: i32) -> (r:
        Result<Scene, SceneError>)
        ensures
            objects.objects@.len() == 0 ==> r is Err && r->Err_0 == SceneError::NoObjects,
            objects.objects@.len() > 0 && (width < 0 || height < 0 || width * height > u32::MAX)
                ==> r is Err && r->Err_0 == SceneError::BadSize,
            objects.objects@.len() > 0 && 0 <= width && 0 <= height && width * height <= u32::MAX
                ==> r is Ok,
            r matches Ok(scene) ==> {
                &&& scene.well_formed()
                &&& scene.spec_objects() == objects.objects@
                &&& scene.spec_width() == width
                &&& scene.spec_height() == height
                &&& scene.spec_samples() == samples
                &&& scene.spec_max_depth() == max_depth
            },
    {
        if objects.len() == 0 {
            return Err(SceneError::NoObjects);
        }
        if width < 0 || height < 0 {
            return Err(SceneError::BadSize);
        }
        assert(width * height <= 0x7FFF_FFFF * 0x7FFF_FFFF) by (nonlinear_arith)
            requires
                0 <= width <= 0x7FFF_FFFF,
                0 <= height <= 0x7FFF_FFFF,
        ;
        assert(0 <= width * height) by (nonlinear_arith)
            requires
                0 <= width,
                0 <= height,
        ;
        if width as u64 * height as u64 > 0xFFFF_FFFF {
            return Err(SceneError::BadSize);
        }
        let bvh_root = BVHNode::new(&objects.objects, 0);
        Ok(Scene { objects, width, height, samples, max_depth, bvh_root })
    }

    /// The objects of the scene.
    pub fn objects(&self) -> (list: &HittableList)
        ensures
            list.objects@ == self.spec_objects(),
    {
        &self.objects
    }

    /// Width of the image in pixels.
    pub fn width(&self) -> (w: i32)
        ensures
            w == self.spec_width(),
    {
        self.width
    }

    /// Height of the image in pixels.
    pub fn height(&self) -> (h: i32)
        ensures
            h == self.spec_height(),
    {
        self.height
    }

    /// Number of samples for each pixel.
    pub fn samples(&self) -> (n: i32)
        ensures
            n == self.spec_samples(),
    {
        self.samples
    }

    /// Depth of recursion with which the rays from the camera start.
    pub fn max_depth(&self) -> (d: i32)
        ensures
            d == self.spec_max_depth(),
    {
        self.max_depth
    }

    /// The root of the hierarchy over the objects.
    pub fn bvh_root(&self) -> (root: &BVHNode)
        ensures
            *root == self.spec_bvh_root(),
    {
        &self.bvh_root
    }

    /// Starts tracing a ray with `depth` levels of recursion left. With no
    /// level left the ray brings no light and nothing is searched. Else the
    /// nearest hit no farther than `t_max` is searched for, and the material
    /// of the hit shades it with one level less; a ray without a hit takes
    /// the colour of the background.
    pub fn ray_color(&self, depth: i32, t_max: u64) -> (trace: Option<Trace<'_>>)
        ensures
            depth <= 0 <==> trace is None,
            trace matches Some(t) ==> t.depth == depth - 1 && t.search@ == Search::start(
                self.spec_bvh_root(),
                t_max,
            ),
    {
        if depth <= 0 {
            None
        } else {
            Some(Trace { search: self.bvh_root.hit(t_max), depth: depth - 1 })
        }
    }

    /// Starts the search that tells whether anything is hit no farther than
    /// `t_max`: something is if the search ends with a hit.
    pub fn any_hit(&self, t_max: u64) -> (search: Traversal<'_>)
        ensures
            search@ == Search::start(self.spec_bvh_root(), t_max),
    {
        self.bvh_root.hit(t_max)
    }

    /// The bands of image rows for the given number of workers, band 0 first.
    pub fn bands(&self, workers: usize) -> (v: Vec<Band>)
        requires
            self.well_formed(),
            1 <= workers,
        ensures
            v.len() == workers,
            forall|i: int|
                0 <= i < workers ==> (#[trigger] v[i]).start == band_start(
                    self.spec_height() as int,
                    workers as int,
                    i,
                ) && v[i].end == band_end(self.spec_height() as int, workers as int, i),
    {
        bands(self.height as u32, workers)
    }

    /// Confines the faults of workers to their bands, as `mend` does for the
    /// size of this scene's image.
    pub fn mend<T: Copy>(&self, chunks: &Vec<Option<Vec<T>>>, sentinel: T) -> (mended: Vec<
        Option<Vec<T>>,
    >)
        requires
            self.well_formed(),
        ensures
            mended.len() == chunks.len(),
            forall|k: int|
                0 <= k < chunks.len() ==> (#[trigger] mended[k]) is Some && chunk_pixels(
                    mended[k],
                ) == spec_mended(
                    self.spec_width() as int,
                    self.spec_height() as int,
                    chunks@,
                    k,
                    sentinel,
                ),
            chunks_sound(self.spec_width() as int, self.spec_height() as int, mended@),
    {
        mend(self.width as u32, self.height as u32, chunks, sentinel)
    }

    /// Builds the image from the results of the workers, handed in in join
    /// order, as `assemble` does for the size of this scene's image.
    pub fn render<T: Copy>(&self, chunks: &Vec<Option<Vec<T>>>) -> (r: Result<
        Buffer<T>,
        RenderError,
    >)
        requires
            self.well_formed(),
        ensures
            chunks.len() == 0 ==> r == Err::<Buffer<T>, RenderError>(RenderError::NoBands),
            chunks.len() > 0 ==> match r {
                Ok(image) => {
                    &&& chunks_sound(
                        self.spec_width() as int,
                        self.spec_height() as int,
                        chunks@,
                    )
                    &&& image.well_formed()
                    &&& image.spec_width() == self.spec_width()
                    &&& image.spec_height() == self.spec_height()
                    &&& image.pixels() == joined(chunks@, chunks.len() as int)
                },
                Err(fault) => exists|k: int|
                    {
                        &&& 0 <= k < chunks.len()
                        &&& #[trigger] chunk_fault(
                            self.spec_width() as int,
                            self.spec_height() as int,
                            chunks@,
                            k,
                        ) == Some(fault)
                        &&& forall|j: int|
                            0 <= j < k ==> #[trigger] chunk_fault(
                                self.spec_width() as int,
                                self.spec_height() as int,
                                chunks@,
                                j,
                            ) is None
                    },
            },
    {
        assemble(self.width as u32, self.height as u32, chunks)
    }
}

} // verus!
