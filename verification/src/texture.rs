//! Textures backed by an image.

use crate::buffer::Buffer;
use crate::image::{ImageError, Rgb};
use vstd::prelude::*;

verus! {

/// The nearest of the places `0..size` to `at`; `size` is at least 1.
pub open spec fn nearest_place(at: int, size: int) -> int {
    if at >= size {
        size - 1
    } else {
        at
    }
}

/// A texture that takes its colours from the pixels of an image.
pub struct ImageTexture {
    buffer: Buffer<Rgb>,
    width: u32,
    height: u32,
}

impl ImageTexture {
    /// The image behind the texture.
    pub closed spec fn image(&self) -> Buffer<Rgb> {
        self.buffer
    }

    /// The image has at least one pixel, and the texture knows its size.
    pub closed spec fn well_formed(&self) -> bool {
        &&& self.buffer.well_formed()
        &&& self.width == self.buffer.spec_width()
        &&& self.height == self.buffer.spec_height()
        &&& self.width >= 1
        &&& self.height >= 1
    }

    /// A texture over an image; an image without pixels makes no texture.
    pub fn from_buffer(buffer: Buffer<Rgb>) -> (r: Result<ImageTexture, ImageError>)
        requires
            buffer.well_formed(),
        ensures
            r is Ok <==> buffer.spec_width() >= 1 && buffer.spec_height() >= 1,
            r matches Ok(texture) ==> texture.well_formed() && texture.image() == buffer,
            r matches Err(e) ==> e == ImageError::Empty,
    {
        let width = buffer.width();
        let height = buffer.height();
        if width == 0 || height == 0 {
            Err(ImageError::Empty)
        } else {
            Ok(ImageTexture { buffer, width, height })
        }
    }

    /// Create a new ImageTexture from the bytes of a PNG file: the texture
    /// over the image of the file, or the reason why the file holds no
    /// image, or `Empty` where its image has no pixels.
    pub fn new(file: &Vec<u8>) -> (r: Result<ImageTexture, ImageError>)
        ensures
            match r {
                Ok(texture) => {
                    &&& texture.well_formed()
                    &&& Ok::<Seq<Rgb>, ImageError>(texture.image().pixels())
                        == crate::image::spec_png_image(file@)
                    &&& crate::image::png_frame(file@) matches Some(f) && f.0 >= 1 && f.1 >= 1
                        && texture.image().spec_width() == f.0 && texture.image().spec_height()
                        == f.1
                },
                Err(e) => {
                    ||| Err::<Seq<Rgb>, ImageError>(e) == crate::image::spec_png_image(file@)
                    ||| {
                        &&& e == ImageError::Empty
                        &&& crate::image::spec_png_image(file@) is Ok
                        &&& crate::image::png_frame(file@) matches Some(f) && (f.0 == 0 || f.1
                            == 0)
                    }
                },
            },
    {
        match Buffer::new_from_png(file) {
            Ok(buffer) => ImageTexture::from_buffer(buffer),
            Err(e) => Err(e),
        }
    }

    /// Width of the image in pixels.
    pub fn width(&self) -> (w: u32)
        requires
            self.well_formed(),
        ensures
            w == self.image().spec_width(),
            w >= 1,
    {
        self.width
    }

    /// Height of the image in pixels.
    pub fn height(&self) -> (h: u32)
        requires
            self.well_formed(),
        ensures
            h == self.image().spec_height(),
            h >= 1,
    {
        self.height
    }

    /// The pixel nearest to column `x` of row `y`: that pixel itself where
    /// the image has it, else the one on the border next to it.
    pub fn value(&self, x: u32, y: u32) -> (pixel: Rgb)
        requires
            self.well_formed(),
        ensures
            pixel == self.image().spec_at(
                nearest_place(x as int, self.image().spec_width()),
                nearest_place(y as int, self.image().spec_height()),
            ),
    {
        let column = if x >= self.width {
            self.width - 1
        } else {
            x
        };
        let row = if y >= self.height {
            self.height - 1
        } else {
            y
        };
        self.buffer.at(column, row)
    }
}

} // verus!
