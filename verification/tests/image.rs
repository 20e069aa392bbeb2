use pathtracer::buffer::Buffer;
use pathtracer::image::{frame_image, samples, Frame, ImageError, Rgb, COLOR_RGB, SOURCE_GAMMA};
use pathtracer::texture::ImageTexture;

fn px(r: u8, g: u8, b: u8) -> Rgb {
    Rgb { r, g, b }
}

fn picture() -> Buffer<Rgb> {
    // 3 wide, 2 high; storage order is top row first
    Buffer::from_pixels(
        3,
        2,
        vec![px(1, 2, 3), px(4, 5, 6), px(7, 8, 9), px(10, 11, 12), px(13, 14, 15), px(16, 17, 18)],
    )
    .unwrap()
}

fn contains(haystack: &[u8], needle: &[u8]) -> bool {
    haystack.windows(needle.len()).any(|w| w == needle)
}

#[test]
fn samples_are_three_for_each_pixel() {
    assert_eq!(samples(&picture()), (1..=18).collect::<Vec<u8>>());
    let none: Buffer<Rgb> = Buffer::new(0, 0, px(0, 0, 0));
    assert_eq!(samples(&none), Vec::<u8>::new());
}

#[test]
fn frame_with_rgb8_samples_is_an_image() {
    let frame =
        Frame { width: 3, height: 2, color_type: COLOR_RGB, bit_depth: 8, data: (1..=18).collect() };
    let image = frame_image(&frame).unwrap();
    assert_eq!(image.width(), 3);
    assert_eq!(image.height(), 2);
    assert_eq!(image.at(0, 1), px(1, 2, 3));
    assert_eq!(image.at(2, 1), px(7, 8, 9));
    assert_eq!(image.at(0, 0), px(10, 11, 12));
    assert_eq!(image.at(2, 0), px(16, 17, 18));
}

#[test]
fn frame_of_another_kind_is_unsupported() {
    let gray = Frame { width: 3, height: 2, color_type: 0, bit_depth: 8, data: vec![0; 6] };
    assert_eq!(frame_image(&gray).err(), Some(ImageError::Unsupported));
    let deep = Frame { width: 1, height: 1, color_type: COLOR_RGB, bit_depth: 16, data: vec![0; 6] };
    assert_eq!(frame_image(&deep).err(), Some(ImageError::Unsupported));
    let alpha = Frame { width: 1, height: 1, color_type: 6, bit_depth: 8, data: vec![0; 4] };
    assert_eq!(frame_image(&alpha).err(), Some(ImageError::Unsupported));
}

#[test]
fn frame_with_too_few_samples_is_truncated() {
    let short = Frame { width: 3, height: 2, color_type: COLOR_RGB, bit_depth: 8, data: vec![0; 17] };
    assert_eq!(frame_image(&short).err(), Some(ImageError::Truncated));
    let none = Frame { width: 1, height: 1, color_type: COLOR_RGB, bit_depth: 8, data: Vec::new() };
    assert_eq!(frame_image(&none).err(), Some(ImageError::Truncated));
}

#[test]
fn samples_beyond_the_picture_are_cut_off() {
    let long =
        Frame { width: 1, height: 2, color_type: COLOR_RGB, bit_depth: 8, data: (1..=8).collect() };
    let image = frame_image(&long).unwrap();
    assert_eq!(image.len(), 2);
    assert_eq!(image.at(0, 1), px(1, 2, 3));
    assert_eq!(image.at(0, 0), px(4, 5, 6));
}

#[test]
fn png_file_has_signature_size_and_gamma() {
    let file = picture().buffer_to_png().unwrap();
    assert_eq!(&file[..8], &[137, 80, 78, 71, 13, 10, 26, 10]);
    // IHDR: width 3, height 2, depth 8, colour type 2
    assert_eq!(&file[12..16], b"IHDR");
    assert_eq!(&file[16..26], &[0, 0, 0, 3, 0, 0, 0, 2, 8, 2]);
    assert_eq!(SOURCE_GAMMA, 45454);
    assert!(contains(&file, &[b'g', b'A', b'M', b'A', 0, 0, 0xB1, 0x8E]));
    assert!(contains(&file, b"IEND"));
}

#[test]
fn png_round_trip() {
    let image = picture();
    let file = image.buffer_to_png().unwrap();
    assert_ne!(file, samples(&image));
    let back = Buffer::new_from_png(&file).unwrap();
    assert_eq!(back.width(), 3);
    assert_eq!(back.height(), 2);
    for y in 0..2 {
        for x in 0..3 {
            assert_eq!(back.at(x, y), image.at(x, y));
        }
    }
}

#[test]
fn png_of_empty_image_is_refused() {
    let none: Buffer<Rgb> = Buffer::new(0, 4, px(0, 0, 0));
    assert_eq!(none.buffer_to_png().err(), Some(ImageError::Empty));
    let flat: Buffer<Rgb> = Buffer::new(4, 0, px(0, 0, 0));
    assert_eq!(flat.buffer_to_png().err(), Some(ImageError::Empty));
}

#[test]
fn bytes_that_are_no_png_are_refused() {
    assert_eq!(Buffer::new_from_png(&Vec::new()).err(), Some(ImageError::Decoding));
    assert_eq!(Buffer::new_from_png(&vec![1, 2, 3, 4, 5, 6, 7, 8, 9]).err(), Some(ImageError::Decoding));
    let mut cut = picture().buffer_to_png().unwrap();
    cut.truncate(40);
    assert_eq!(Buffer::new_from_png(&cut).err(), Some(ImageError::Decoding));
}

#[test]
fn png_of_another_kind_is_unsupported() {
    let mut file = Vec::new();
    {
        let mut encoder = png::Encoder::new(&mut file, 2, 2);
        encoder.set_color(png::ColorType::Grayscale);
        encoder.set_depth(png::BitDepth::Eight);
        let mut writer = encoder.write_header().unwrap();
        writer.write_image_data(&[1, 2, 3, 4]).unwrap();
        writer.finish().unwrap();
    }
    assert_eq!(Buffer::new_from_png(&file).err(), Some(ImageError::Unsupported));
}

#[test]
fn png_written_elsewhere_is_read() {
    let mut file = Vec::new();
    {
        let mut encoder = png::Encoder::new(&mut file, 1, 2);
        encoder.set_color(png::ColorType::Rgb);
        encoder.set_depth(png::BitDepth::Eight);
        let mut writer = encoder.write_header().unwrap();
        writer.write_image_data(&[9, 8, 7, 6, 5, 4]).unwrap();
        writer.finish().unwrap();
    }
    let image = Buffer::new_from_png(&file).unwrap();
    assert_eq!((image.width(), image.height()), (1, 2));
    assert_eq!(image.at(0, 1), px(9, 8, 7));
    assert_eq!(image.at(0, 0), px(6, 5, 4));
}

#[test]
fn texture_takes_the_pixel_asked_for() {
    let texture = ImageTexture::from_buffer(picture()).unwrap();
    assert_eq!(texture.width(), 3);
    assert_eq!(texture.height(), 2);
    assert_eq!(texture.value(0, 0), px(10, 11, 12));
    assert_eq!(texture.value(1, 1), px(4, 5, 6));
}

#[test]
fn texture_takes_the_border_pixel_beyond_the_image() {
    let texture = ImageTexture::from_buffer(picture()).unwrap();
    assert_eq!(texture.value(3, 0), px(16, 17, 18));
    assert_eq!(texture.value(0, 2), px(1, 2, 3));
    assert_eq!(texture.value(u32::MAX, u32::MAX), px(7, 8, 9));
}

#[test]
fn texture_needs_a_pixel() {
    let none: Buffer<Rgb> = Buffer::new(0, 0, px(0, 0, 0));
    assert_eq!(ImageTexture::from_buffer(none).err(), Some(ImageError::Empty));
}

#[test]
fn texture_from_png_keeps_the_size() {
    let file = picture().buffer_to_png().unwrap();
    let texture = ImageTexture::new(&file).unwrap();
    assert_eq!((texture.width(), texture.height()), (3, 2));
}

#[test]
fn texture_from_unsupported_png_is_refused() {
    let mut file = Vec::new();
    {
        let mut encoder = png::Encoder::new(&mut file, 1, 1);
        encoder.set_color(png::ColorType::Rgba);
        encoder.set_depth(png::BitDepth::Eight);
        let mut writer = encoder.write_header().unwrap();
        writer.write_image_data(&[1, 2, 3, 4]).unwrap();
        writer.finish().unwrap();
    }
    assert_eq!(ImageTexture::new(&file).err(), Some(ImageError::Unsupported));
}

#[test]
fn texture_from_png_bytes() {
    let file = picture().buffer_to_png().unwrap();
    let texture = ImageTexture::new(&file).unwrap();
    assert_eq!(texture.value(2, 1), px(7, 8, 9));
    assert_eq!(ImageTexture::new(&vec![0; 10]).err(), Some(ImageError::Decoding));
}
