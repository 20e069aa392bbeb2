//! A rectangular pixel buffer with its origin in the bottom-left corner.

use vstd::prelude::*;

verus! {

/// Position in row-major storage of the pixel in row `r`, column `c` of an
/// image `width` pixels wide and `height` pixels high. Row 0 is the bottom
/// row of the image and is stored last.
pub open spec fn pixel_index(width: int, height: int, r: int, c: int) -> int {
    (height - r - 1) * width + c
}

/// Every pixel of the image has its own slot inside the storage.
pub proof fn lemma_pixel_index_in_range(width: int, height: int, r: int, c: int)
    requires
        0 <= r < height,
        0 <= c < width,
    ensures
        0 <= pixel_index(width, height, r, c) < width * height,
{
    let k = height - r - 1;
    assert(0 <= k * width) by (nonlinear_arith)
        requires
            0 <= k,
            0 <= width,
    ;
    assert(k * width + width <= height * width) by (nonlinear_arith)
        requires
            k + 1 <= height,
            0 <= width,
    ;
    assert(height * width == width * height) by (nonlinear_arith);
}

/// Two different pixels never share a slot.
pub proof fn lemma_pixel_index_injective(
    width: int,
    height: int,
    r1: int,
    c1: int,
    r2: int,
    c2: int,
)
    requires
        0 <= r1 < height,
        0 <= c1 < width,
        0 <= r2 < height,
        0 <= c2 < width,
        pixel_index(width, height, r1, c1) == pixel_index(width, height, r2, c2),
    ensures
        r1 == r2,
        c1 == c2,
{
    let k1 = height - r1 - 1;
    let k2 = height - r2 - 1;
    if k1 < k2 {
        assert(k1 * width + width <= k2 * width) by (nonlinear_arith)
            requires
                k1 + 1 <= k2,
                0 <= width,
        ;
    }
    if k2 < k1 {
        assert(k2 * width + width <= k1 * width) by (nonlinear_arith)
            requires
                k2 + 1 <= k1,
                0 <= width,
        ;
    }
}

/// A pixel that is written is read back, and writing it changes no other
/// pixel: after the slot of row `r1`, column `c1` is set to `value`, that
/// slot holds `value` and the slot of any other pixel holds what it held.
pub proof fn lemma_write_then_read<T>(
    pixels: Seq<T>,
    width: int,
    height: int,
    value: T,
    r1: int,
    c1: int,
    r2: int,
    c2: int,
)
    requires
        pixels.len() == width * height,
        0 <= r1 < height,
        0 <= c1 < width,
        0 <= r2 < height,
        0 <= c2 < width,
    ensures
        ({
            let written = pixels.update(pixel_index(width, height, r1, c1), value);
            let read = written[pixel_index(width, height, r2, c2)];
            if r1 == r2 && c1 == c2 {
                read == value
            } else {
                read == pixels[pixel_index(width, height, r2, c2)]
            }
        }),
{
    lemma_pixel_index_in_range(width, height, r1, c1);
    lemma_pixel_index_in_range(width, height, r2, c2);
    if pixel_index(width, height, r1, c1) == pixel_index(width, height, r2, c2) {
        lemma_pixel_index_injective(width, height, r1, c1, r2, c2);
    }
}

/// Image data: `width * height` pixels of type `T`.
pub struct Buffer<T> {
    e: Vec<T>,
    width: u32,
    height: u32,
}

impl<T: Copy> Buffer<T> {
    /// The storage holds exactly `width * height` pixels.
    pub closed spec fn well_formed(&self) -> bool {
        self.e.len() == self.width * self.height
    }

    /// A well-formed buffer has one stored pixel for each position.
    pub proof fn lemma_len(self)
        requires
            self.well_formed(),
        ensures
            self.pixels().len() == self.spec_width() * self.spec_height(),
    {
    }

    /// The stored pixels in storage order: top row first, each row left to right.
    pub closed spec fn pixels(&self) -> Seq<T> {
        self.e@
    }

    pub closed spec fn spec_width(&self) -> int {
        self.width as int
    }

    pub closed spec fn spec_height(&self) -> int {
        self.height as int
    }

    /// The pixel in column `x` of row `y`.
    pub open spec fn spec_at(&self, x: int, y: int) -> T {
        self.pixels()[pixel_index(self.spec_width(), self.spec_height(), y, x)]
    }

    /// A buffer of the given size with every pixel set to `fill`.
    pub fn new(width: u32, height: u32, fill: T) -> (b: Buffer<T>)
        requires
            width * height <= u32::MAX,
        ensures
            b.well_formed(),
            b.spec_width() == width,
            b.spec_height() == height,
            b.pixels() == Seq::new((width * height) as nat, |i: int| fill),
    {
        let n: u64 = width as u64 * height as u64;
        let mut e: Vec<T> = Vec::new();
        let mut i: u64 = 0;
        while i < n
            invariant
                i <= n,
                n == width * height,
                n <= u32::MAX,
                e@ == Seq::new(i as nat, |k: int| fill),
            decreases n - i,
        {
            e.push(fill);
            i = i + 1;
            assert(e@ =~= Seq::new(i as nat, |k: int| fill));
        }
        Buffer { e, width, height }
    }

    /// A buffer over pixels that are already in storage order, or `None`
    /// when their number is not `width * height`.
    pub fn from_pixels(width: u32, height: u32, pixels: Vec<T>) -> (b: Option<Buffer<T>>)
        ensures
            b is Some <==> pixels.len() == width * height,
            b matches Some(buf) ==> buf.well_formed() && buf.spec_width() == width && buf.spec_height() == height
                && buf.pixels() == pixels@,
    {
        assert(width * height <= 0xFFFF_FFFF * 0xFFFF_FFFF) by (nonlinear_arith)
            requires
                0 <= width <= 0xFFFF_FFFF,
                0 <= height <= 0xFFFF_FFFF,
        ;
        let n: u64 = width as u64 * height as u64;
        if pixels.len() as u64 == n {
            Some(Buffer { e: pixels, width, height })
        } else {
            None
        }
    }

    /// Storage position of row `r`, column `c`.
    fn index(&self, r: u32, c: u32) -> (i: usize)
        requires
            self.well_formed(),
            r < self.spec_height(),
            c < self.spec_width(),
        ensures
            i == pixel_index(self.spec_width(), self.spec_height(), r as int, c as int),
            i < self.pixels().len(),
    {
        proof {
            lemma_pixel_index_in_range(
                self.width as int,
                self.height as int,
                r as int,
                c as int,
            );
        }
        let k: u64 = (self.height - r - 1) as u64;
        assert(k * self.width >= 0 && k * self.width + c < self.width * self.height)
            by (nonlinear_arith)
            requires
                0 <= k,
                k + 1 <= self.height,
                0 <= c < self.width,
        ;
        (k * self.width as u64 + c as u64) as usize
    }

    /// Sets the pixel in column `x` of row `y`; every other pixel stays.
    pub fn write(&mut self, value: T, x: u32, y: u32)
        requires
            old(self).well_formed(),
            x < old(self).spec_width(),
            y < old(self).spec_height(),
        ensures
            final(self).well_formed(),
            final(self).spec_width() == old(self).spec_width(),
            final(self).spec_height() == old(self).spec_height(),
            final(self).pixels() == old(self).pixels().update(
                pixel_index(old(self).spec_width(), old(self).spec_height(), y as int, x as int),
                value,
            ),
    {
        let index = self.index(y, x);
        self.e.set(index, value);
    }

    /// Sets the pixel at storage position `index`; every other pixel stays.
    pub fn write_index(&mut self, value: T, index: usize)
        requires
            old(self).well_formed(),
            index < old(self).pixels().len(),
        ensures
            final(self).well_formed(),
            final(self).spec_width() == old(self).spec_width(),
            final(self).spec_height() == old(self).spec_height(),
            final(self).pixels() == old(self).pixels().update(index as int, value),
    {
        self.e.set(index, value);
    }

    /// The pixel in column `x` of row `y`.
    pub fn at(&self, x: u32, y: u32) -> (value: T)
        requires
            self.well_formed(),
            x < self.spec_width(),
            y < self.spec_height(),
        ensures
            value == self.spec_at(x as int, y as int),
    {
        let index = self.index(y, x);
        self.e[index]
    }

    /// Number of pixels in a row.
    pub fn width(&self) -> (w: u32)
        ensures
            w == self.spec_width(),
    {
        self.width
    }

    /// Number of rows.
    pub fn height(&self) -> (h: u32)
        ensures
            h == self.spec_height(),
    {
        self.height
    }

    /// Number of stored pixels.
    pub fn len(&self) -> (n: usize)
        ensures
            n == self.pixels().len(),
    {
        self.e.len()
    }

    /// The pixel at storage position `index`.
    pub fn at_index(&self, index: usize) -> (value: T)
        requires
            index < self.pixels().len(),
        ensures
            value == self.pixels()[index as int],
    {
        self.e[index]
    }
}

} // verus!
