//! Decoded images, as far as height maps need them.
//!
//! No function in this file is proved. Each hands its arguments to the
//! `image` crate, and its contract records what that crate does; the rest of
//! the library is verified against these contracts.

use image::{ColorType, DynamicImage};
use vstd::prelude::*;

verus! {

#[verifier::external_type_specification]
#[verifier::external_body]
pub struct ExDynamicImage(image::DynamicImage);

/// How an image stores the samples of a pixel: which channels, and each as an
/// integer of 8 or 16 bits or as a floating-point number of 32 bits.
#[derive(Clone, Copy, Debug, PartialEq, Eq, Structural)]
pub enum SampleFormat {
    L8,
    La8,
    Rgb8,
    Rgba8,
    L16,
    La16,
    Rgb16,
    Rgba16,
    RgbFloat,
    RgbaFloat,
    /// A format that this library does not know.
    Other,
}

/// The bit pattern of positive infinity.
pub const PLUS_INFINITY: u32 = 0x7f80_0000;

/// The bit pattern of negative infinity.
pub const MINUS_INFINITY: u32 = 0xff80_0000;

/// The largest bit pattern of a positive floating-point value; those above
/// positive infinity are no numbers.
pub const LAST_POSITIVE: u32 = 0x7fff_ffff;

/// The samples are known to be integers.
pub open spec fn is_integer_format(format: SampleFormat) -> bool {
    format != SampleFormat::RgbFloat && format != SampleFormat::RgbaFloat && format
        != SampleFormat::Other
}

/// The floating-point value with the bit pattern `bits` is no number.
pub open spec fn is_nan(bits: u32) -> bool {
    PLUS_INFINITY < bits <= LAST_POSITIVE || bits > MINUS_INFINITY
}

/// The grey value of a pixel with the red, green and blue samples of the
/// given bit patterns is a number. The grey value is a sum of positive
/// multiples of the three: it is no number where one of them is none, or
/// where infinities of both signs meet.
pub open spec fn luma_is_number(red: u32, green: u32, blue: u32) -> bool {
    &&& !is_nan(red)
    &&& !is_nan(green)
    &&& !is_nan(blue)
    &&& !((red == PLUS_INFINITY || green == PLUS_INFINITY || blue == PLUS_INFINITY) && (red
        == MINUS_INFINITY || green == MINUS_INFINITY || blue == MINUS_INFINITY))
}

/// The grey value of pixel `k` is a number, where `bits` holds the samples
/// pixel after pixel, `channels` to each and red, green and blue first.
pub open spec fn pixel_luma_is_number(bits: Seq<u32>, channels: int, k: int) -> bool {
    luma_is_number(bits[k * channels], bits[k * channels + 1], bits[k * channels + 2])
}

/// The grey value of each of the first `pixels` pixels is a number.
pub open spec fn lumas_are_numbers(bits: Seq<u32>, channels: int, pixels: int) -> bool {
    forall|k: int| 0 <= k < pixels ==> #[trigger] pixel_luma_is_number(bits, channels, k)
}

/// The sample format of `img`, as `DynamicImage::color` reports it.
pub uninterp spec fn image_color(img: DynamicImage) -> SampleFormat;

/// The number of columns of `img`, as `DynamicImage::width` reports it.
pub uninterp spec fn image_width(img: DynamicImage) -> nat;

/// The number of rows of `img`, as `DynamicImage::height` reports it.
pub uninterp spec fn image_height(img: DynamicImage) -> nat;

/// The 16-bit grey value of each pixel of `img`, row by row from the top and
/// from left to right within a row, as `DynamicImage::into_luma16` converts
/// the image.
pub uninterp spec fn image_luma16(img: DynamicImage) -> Seq<u16>;

/// The bit patterns of the samples in the buffer of `img`, pixel after pixel
/// in the order of `image_luma16` and channel after channel within a pixel,
/// where the samples are floating-point numbers.
pub uninterp spec fn image_float_bits(img: DynamicImage) -> Seq<u32>;

/// The grey values of `img` can be had: its samples are integers, or they are
/// floating-point numbers and the grey value of every pixel is a number.
pub open spec fn converts_to_luma16(img: DynamicImage) -> bool {
    let pixels = (image_width(img) * image_height(img)) as int;
    if image_color(img) == SampleFormat::RgbFloat {
        lumas_are_numbers(image_float_bits(img), 3, pixels)
    } else if image_color(img) == SampleFormat::RgbaFloat {
        lumas_are_numbers(image_float_bits(img), 4, pixels)
    } else {
        is_integer_format(image_color(img))
    }
}

/// Calls `DynamicImage::color` and tells its answers apart.
#[verifier::external_body]
pub(crate) fn color_of(img: &DynamicImage) -> (format: SampleFormat)
    ensures
        format == image_color(*img),
{
    match img.color() {
        ColorType::L8 => SampleFormat::L8,
        ColorType::La8 => SampleFormat::La8,
        ColorType::Rgb8 => SampleFormat::Rgb8,
        ColorType::Rgba8 => SampleFormat::Rgba8,
        ColorType::L16 => SampleFormat::L16,
        ColorType::La16 => SampleFormat::La16,
        ColorType::Rgb16 => SampleFormat::Rgb16,
        ColorType::Rgba16 => SampleFormat::Rgba16,
        ColorType::Rgb32F => SampleFormat::RgbFloat,
        ColorType::Rgba32F => SampleFormat::RgbaFloat,
        _ => SampleFormat::Other,
    }
}

/// Calls `DynamicImage::width`.
#[verifier::external_body]
pub(crate) fn width_of(img: &DynamicImage) -> (width: u32)
    ensures
        width == image_width(*img),
{
    img.width()
}

/// Calls `DynamicImage::height`.
#[verifier::external_body]
pub(crate) fn height_of(img: &DynamicImage) -> (height: u32)
    ensures
        height == image_height(*img),
{
    img.height()
}

/// Calls `DynamicImage::as_rgb32f`, which hands out the buffer of an image
/// with three floating-point samples to the pixel and of no other, and copies
/// the bit pattern of each sample of `ImageBuffer::as_raw`. A buffer holds at
/// least as many samples as its pixels need.
#[verifier::external_body]
pub(crate) fn rgb_float_bits(img: &DynamicImage) -> (bits: Option<Vec<u32>>)
    ensures
        bits is Some <==> image_color(*img) == SampleFormat::RgbFloat,
        bits matches Some(found) ==> found@ == image_float_bits(*img) && found@.len() >= 3 * (
        image_width(*img) * image_height(*img)),
{
    img.as_rgb32f().map(|buffer| buffer.as_raw().iter().map(|sample| sample.to_bits()).collect())
}

/// Calls `DynamicImage::as_rgba32f`, which hands out the buffer of an image
/// with four floating-point samples to the pixel and of no other, and copies
/// the bit pattern of each sample of `ImageBuffer::as_raw`. A buffer holds at
/// least as many samples as its pixels need.
#[verifier::external_body]
pub(crate) fn rgba_float_bits(img: &DynamicImage) -> (bits: Option<Vec<u32>>)
    ensures
        bits is Some <==> image_color(*img) == SampleFormat::RgbaFloat,
        bits matches Some(found) ==> found@ == image_float_bits(*img) && found@.len() >= 4 * (
        image_width(*img) * image_height(*img)),
{
    img.as_rgba32f().map(|buffer| buffer.as_raw().iter().map(|sample| sample.to_bits()).collect())
}

/// Calls `DynamicImage::into_luma16` and collects the grey value of each pixel
/// that `ImageBuffer::pixels` walks over. The conversion keeps the image's
/// width and height, and `pixels` yields one item for each pixel, row by row:
/// so there are width times height values.
///
/// The conversion of a floating-point grey value to an integer clamps and
/// rounds it, and panics where it is no number: images with such a pixel are
/// left out, and so are images of a format that this library does not know.
#[verifier::external_body]
pub(crate) fn into_luma16(img: DynamicImage) -> (pixels: Vec<u16>)
    requires
        converts_to_luma16(img),
    ensures
        pixels@ == image_luma16(img),
        pixels@.len() == image_width(img) * image_height(img),
{
    img.into_luma16().pixels().map(|pixel| pixel.0[0]).collect()
}

} // verus!
