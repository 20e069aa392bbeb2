//! Images of 8-bit RGB pixels and their PNG form.

use crate::buffer::Buffer;
use vstd::prelude::*;

verus! {

/// The gamma that rendered images are marked with: 1/2.2, in the units of a
/// PNG file, which are hundred-thousandths.
pub const SOURCE_GAMMA: u32 = 45454;

/// Code of the colour type "red, green, blue" in a PNG file.
pub const COLOR_RGB: u8 = 2;

/// One pixel: a red, a green and a blue sample.
#[derive(Clone, Copy, Debug, PartialEq, Eq, Structural)]
pub struct Rgb {
    pub r: u8,
    pub g: u8,
    pub b: u8,
}

/// Why an image could not be turned into a PNG file, or a file into an image.
#[derive(Clone, Copy, Debug, PartialEq, Eq, Structural)]
pub enum ImageError {
    /// The image has no pixels.
    Empty,
    /// The image is too large for this machine.
    TooLarge,
    /// The encoder refused the image.
    Encoding,
    /// The file is not a PNG file that the decoder can read.
    Decoding,
    /// The file does not hold 8-bit RGB pixels.
    Unsupported,
    /// The decoder delivered too few samples.
    Truncated,
}

/// One decoded picture of a PNG file: its size, the codes of its colour type
/// and of the bits per sample, and its samples row by row from the top.
pub struct Frame {
    pub width: u32,
    pub height: u32,
    pub color_type: u8,
    pub bit_depth: u8,
    pub data: Vec<u8>,
}

#[verifier::external_type_specification]
#[verifier::external_body]
pub struct ExEncodingError(png::EncodingError);

#[verifier::external_type_specification]
#[verifier::external_body]
pub struct ExDecodingError(png::DecodingError);

/// The PNG file that the encoder writes for an 8-bit RGB image of the given
/// size, gamma and samples; `None` where it writes none.
pub uninterp spec fn png_file(width: u32, height: u32, gamma: u32, data: Seq<u8>) -> Option<
    Seq<u8>,
>;

/// The first picture that the decoder reads from a file, as width, height,
/// colour type, bits per sample and samples; `None` where it reads none.
pub uninterp spec fn png_frame(file: Seq<u8>) -> Option<(u32, u32, u8, u8, Seq<u8>)>;

/// Encodes 8-bit RGB samples as a PNG file in memory.
///
/// Trusted: sets up `png::Encoder` on a vector with colour type `Rgb`, bit
/// depth `Eight` and the given source gamma, and calls `write_header`,
/// `write_image_data` and `finish` on it. The contract claims that the
/// outcome, a file or none, is a function of the arguments alone, and names
/// it; it does not claim that a file comes back. The encoder computes the sizes
/// `3 * width + 1` per row and `(3 * width + 1) * height` in all, which
/// must fit; `requires` sees to that.
#[verifier::external_body]
fn encode_rgb8(width: u32, height: u32, gamma: u32, data: &Vec<u8>) -> (r: Result<
    Vec<u8>,
    png::EncodingError,
>)
    requires
        data.len() == 3 * width * height,
        height >= 1,
        data.len() + height <= usize::MAX,
    ensures
        match r {
            Ok(file) => png_file(width, height, gamma, data@) == Some(file@),
            Err(_) => png_file(width, height, gamma, data@) is None,
        },
{
    let mut file = Vec::new();
    let mut encoder = png::Encoder::new(&mut file, width, height);
    encoder.set_color(png::ColorType::Rgb);
    encoder.set_depth(png::BitDepth::Eight);
    encoder.set_source_gamma(png::ScaledFloat::from_scaled(gamma));
    let mut writer = encoder.write_header()?;
    writer.write_image_data(data)?;
    writer.finish()?;
    Ok(file)
}

/// Decodes the first picture of a PNG file in memory.
///
/// Trusted: calls `png::Decoder::new` on the bytes, `read_info`, and
/// `next_frame` into a buffer of `output_buffer_size` bytes. The contract
/// claims that the outcome is a function of the file alone, and names it.
#[verifier::external_body]
fn decode_frame(file: &Vec<u8>) -> (r: Result<Frame, png::DecodingError>)
    ensures
        r matches Ok(frame) ==> png_frame(file@) == Some(
            (frame.width, frame.height, frame.color_type, frame.bit_depth, frame.data@),
        ),
        r is Err ==> png_frame(file@) is None,
{
    let decoder = png::Decoder::new(file.as_slice());
    let mut reader = decoder.read_info()?;
    let mut data = vec![0; reader.output_buffer_size()];
    let info = reader.next_frame(&mut data)?;
    Ok(
        Frame {
            width: info.width,
            height: info.height,
            color_type: info.color_type as u8,
            bit_depth: info.bit_depth as u8,
            data,
        },
    )
}

/// The sample of a pixel: 0 is red, 1 is green, anything else is blue.
pub open spec fn channel(pixel: Rgb, c: int) -> u8 {
    if c == 0 {
        pixel.r
    } else if c == 1 {
        pixel.g
    } else {
        pixel.b
    }
}

/// The samples of the pixels, three for each pixel.
pub open spec fn spec_samples(pixels: Seq<Rgb>) -> Seq<u8> {
    Seq::new(3 * pixels.len(), |i: int| channel(pixels[i / 3], i % 3))
}

/// The pixels that the samples make up, three samples for each pixel.
pub open spec fn spec_pixels(data: Seq<u8>) -> Seq<Rgb> {
    Seq::new(
        data.len() / 3,
        |i: int| Rgb { r: data[3 * i], g: data[3 * i + 1], b: data[3 * i + 2] },
    )
}

/// Pixels come back unchanged from their samples.
pub proof fn lemma_samples_round_trip(pixels: Seq<Rgb>)
    ensures
        spec_pixels(spec_samples(pixels)) == pixels,
{
    let data = spec_samples(pixels);
    assert(data.len() / 3 == pixels.len());
    assert forall|i: int| 0 <= i < pixels.len() implies spec_pixels(data)[i] == pixels[i] by {
        assert((3 * i) / 3 == i && (3 * i) % 3 == 0);
        assert((3 * i + 1) / 3 == i && (3 * i + 1) % 3 == 1);
        assert((3 * i + 2) / 3 == i && (3 * i + 2) % 3 == 2);
    }
    assert(spec_pixels(data) =~= pixels);
}

/// The image that a decoded picture holds, or why it holds none for this
/// library: it must have 8-bit RGB samples, three for each of its pixels.
/// Samples beyond those of its pixels are cut off.
pub open spec fn spec_frame_image(
    width: u32,
    height: u32,
    color_type: u8,
    bit_depth: u8,
    data: Seq<u8>,
) -> Result<Seq<Rgb>, ImageError> {
    if color_type != COLOR_RGB || bit_depth != 8 {
        Err(ImageError::Unsupported)
    } else if data.len() < 3 * width * height {
        Err(ImageError::Truncated)
    } else {
        Ok(spec_pixels(data.subrange(0, 3 * width * height)))
    }
}

/// The image that a PNG file holds, or why it holds none.
pub open spec fn spec_png_image(file: Seq<u8>) -> Result<Seq<Rgb>, ImageError> {
    match png_frame(file) {
        None => Err(ImageError::Decoding),
        Some(f) => spec_frame_image(f.0, f.1, f.2, f.3, f.4),
    }
}

/// The samples of an image, in storage order.
pub fn samples(image: &Buffer<Rgb>) -> (data: Vec<u8>)
    ensures
        data@ == spec_samples(image.pixels()),
{
    let n = image.len();
    let mut data: Vec<u8> = Vec::new();
    let mut i: usize = 0;
    while i < n
        invariant
            n == image.pixels().len(),
            i <= n,
            data@ == spec_samples(image.pixels().subrange(0, i as int)),
        decreases n - i,
    {
        let pixel = image.at_index(i);
        let ghost before = data@;
        data.push(pixel.r);
        data.push(pixel.g);
        data.push(pixel.b);
        i = i + 1;
        proof {
            let done = image.pixels().subrange(0, i as int);
            let prev = image.pixels().subrange(0, i - 1);
            assert(data@.len() == 3 * done.len());
            assert forall|k: int| 0 <= k < data@.len() implies data@[k] == spec_samples(done)[k] by {
                if k < 3 * (i - 1) {
                    assert(data@[k] == before[k]);
                    assert(k / 3 < i - 1);
                    assert(done[k / 3] == prev[k / 3]);
                } else {
                    assert(k / 3 == i - 1);
                    assert(done[k / 3] == pixel);
                }
            }
            assert(data@ =~= spec_samples(done));
        }
    }
    assert(image.pixels().subrange(0, n as int) =~= image.pixels());
    data
}

/// The image that a decoded picture holds.
pub fn frame_image(frame: &Frame) -> (r: Result<Buffer<Rgb>, ImageError>)
    ensures
        match r {
            Ok(image) => {
                &&& image.well_formed()
                &&& image.spec_width() == frame.width
                &&& image.spec_height() == frame.height
                &&& Ok::<Seq<Rgb>, ImageError>(image.pixels()) == spec_frame_image(
                    frame.width,
                    frame.height,
                    frame.color_type,
                    frame.bit_depth,
                    frame.data@,
                )
            },
            Err(e) => Err::<Seq<Rgb>, ImageError>(e) == spec_frame_image(
                frame.width,
                frame.height,
                frame.color_type,
                frame.bit_depth,
                frame.data@,
            ),
        },
{
    if frame.color_type != COLOR_RGB || frame.bit_depth != 8 {
        return Err(ImageError::Unsupported);
    }
    assert(frame.width * frame.height <= 0xFFFF_FFFF * 0xFFFF_FFFF) by (nonlinear_arith)
        requires
            0 <= frame.width <= 0xFFFF_FFFF,
            0 <= frame.height <= 0xFFFF_FFFF,
    ;
    assert(3 * (frame.width * frame.height) == 3 * frame.width * frame.height)
        by (nonlinear_arith);
    let count: u128 = frame.width as u128 * frame.height as u128;
    if (frame.data.len() as u128) < 3 * count {
        return Err(ImageError::Truncated);
    }
    let n: usize = count as usize;
    let ghost cut = frame.data@.subrange(0, 3 * n);
    let mut pixels: Vec<Rgb> = Vec::new();
    let mut i: usize = 0;
    while i < n
        invariant
            3 * n <= frame.data.len(),
            cut == frame.data@.subrange(0, 3 * n),
            i <= n,
            pixels@ == spec_pixels(cut).subrange(0, i as int),
        decreases n - i,
    {
        pixels.push(
            Rgb { r: frame.data[3 * i], g: frame.data[3 * i + 1], b: frame.data[3 * i + 2] },
        );
        i = i + 1;
        assert(pixels@ =~= spec_pixels(cut).subrange(0, i as int));
    }
    assert(pixels@ =~= spec_pixels(cut));
    match Buffer::from_pixels(frame.width, frame.height, pixels) {
        Some(image) => Ok(image),
        None => Err(ImageError::Truncated),
    }
}

impl Buffer<Rgb> {
    /// Reads an image from the bytes of a PNG file.
    pub fn new_from_png(file: &Vec<u8>) -> (r: Result<Buffer<Rgb>, ImageError>)
        ensures
            match r {
                Ok(image) => {
                    &&& image.well_formed()
                    &&& Ok::<Seq<Rgb>, ImageError>(image.pixels()) == spec_png_image(file@)
                    &&& png_frame(file@) matches Some(f) && image.spec_width() == f.0
                        && image.spec_height() == f.1
                },
                Err(e) => Err::<Seq<Rgb>, ImageError>(e) == spec_png_image(file@),
            },
    {
        match decode_frame(file) {
            Ok(frame) => frame_image(&frame),
            Err(_) => Err(ImageError::Decoding),
        }
    }

    /// The bytes of the PNG file for an image.
    ///
    /// An image without pixels has no file, and neither has one whose
    /// samples the encoder cannot count on this machine. For any other
    /// image the encoder decides: the file is the one that it writes for
    /// the size and samples of the image and `SOURCE_GAMMA`, and where it
    /// writes none, that is the error.
    pub fn buffer_to_png(&self) -> (r: Result<Vec<u8>, ImageError>)
        requires
            self.well_formed(),
        ensures
            self.spec_width() == 0 || self.spec_height() == 0 ==> r == Err::<Vec<u8>, ImageError>(
                ImageError::Empty,
            ),
            self.spec_width() > 0 && self.spec_height() > 0 && 3 * self.pixels().len()
                + self.spec_height() > usize::MAX ==> r == Err::<Vec<u8>, ImageError>(
                ImageError::TooLarge,
            ),
            self.spec_width() > 0 && self.spec_height() > 0 && 3 * self.pixels().len()
                + self.spec_height() <= usize::MAX ==> match r {
                Ok(file) => png_file(
                    self.spec_width() as u32,
                    self.spec_height() as u32,
                    SOURCE_GAMMA,
                    spec_samples(self.pixels()),
                ) == Some(file@),
                Err(e) => e == ImageError::Encoding && png_file(
                    self.spec_width() as u32,
                    self.spec_height() as u32,
                    SOURCE_GAMMA,
                    spec_samples(self.pixels()),
                ) is None,
            },
    {
        let width = self.width();
        let height = self.height();
        if width == 0 || height == 0 {
            return Err(ImageError::Empty);
        }
        let n = self.len();
        proof {
            self.lemma_len();
        }
        if n > (usize::MAX - height as usize) / 3 {
            return Err(ImageError::TooLarge);
        }
        let data = samples(self);
        assert(3 * (width * height) == 3 * width * height) by (nonlinear_arith);
        match encode_rgb8(width, height, SOURCE_GAMMA, &data) {
            Ok(file) => Ok(file),
            Err(_) => Err(ImageError::Encoding),
        }
    }
}

} // verus!
