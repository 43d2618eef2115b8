//! Trusted boundary to the `image` crate: resizing, pixel-format
//! conversion and PNG encoding are delegated there, and only the
//! contracts stated here are assumed of them.

use crate::image_encoder::FilterKind;
use image::ImageEncoder;
use vstd::prelude::*;

verus! {

#[verifier::external_type_specification]
#[verifier::external_body]
pub struct ExDynamicImage(image::DynamicImage);

#[verifier::external_type_specification]
#[verifier::external_body]
pub struct ExFilterType(image::imageops::FilterType);

/// Relies on image::imageops::FilterType: maps the library's filter
/// names onto the crate's, one for one.
#[verifier::external_body]
pub(crate) fn filter_type_of(f: FilterKind) -> image::imageops::FilterType {
    match f {
        FilterKind::Nearest => image::imageops::FilterType::Nearest,
        FilterKind::Triangle => image::imageops::FilterType::Triangle,
        FilterKind::CatmullRom => image::imageops::FilterType::CatmullRom,
        FilterKind::Gaussian => image::imageops::FilterType::Gaussian,
        FilterKind::Lanczos3 => image::imageops::FilterType::Lanczos3,
    }
}

/// Relies on image::DynamicImage::new_rgb8: a one-by-one black RGB
/// surface, the builders' default source.
#[verifier::external_body]
pub(crate) fn default_image() -> image::DynamicImage {
    image::DynamicImage::new_rgb8(1, 1)
}

/// Relies on the derived image::DynamicImage::clone: an independent
/// copy of the surface.
#[verifier::external_body]
pub(crate) fn clone_image(img: &image::DynamicImage) -> image::DynamicImage {
    img.clone()
}

/// Relies on image::DynamicImage::resize_exact, which returns an image
/// of exactly the requested dimensions, and on image::DynamicImage::
/// to_rgb8, whose raw buffer holds three bytes per pixel in row-major
/// order.  The size bound keeps the crate's internal buffer length,
/// at most four subpixels per pixel, from overflowing `usize`, on which
/// it would panic.
#[verifier::external_body]
pub(crate) fn resized_rgb_bytes(
    img: &image::DynamicImage,
    side: u32,
    filter: image::imageops::FilterType,
) -> (r: Vec<u8>)
    requires
        1 <= side,
        4 * (side as int) * (side as int) <= usize::MAX,
    ensures
        r@.len() == 3 * (side as int) * (side as int),
{
    let resized = img.resize_exact(side, side, filter);
    resized.to_rgb8().into_raw()
}

/// Relies on image::DynamicImage::resize_exact and to_rgba8: four bytes
/// per pixel in row-major order, red, green, blue, alpha.  The size
/// bound is as for the RGB conversion.
#[verifier::external_body]
pub(crate) fn resized_rgba_bytes(
    img: &image::DynamicImage,
    side: u32,
    filter: image::imageops::FilterType,
) -> (r: Vec<u8>)
    requires
        1 <= side,
        4 * (side as int) * (side as int) <= usize::MAX,
    ensures
        r@.len() == 4 * (side as int) * (side as int),
{
    let resized = img.resize_exact(side, side, filter);
    resized.to_rgba8().into_raw()
}

/// Relies on image::DynamicImage::resize_exact and to_luma_alpha8: two
/// bytes per pixel in row-major order, luminance then alpha.  The size
/// bound is as for the RGB conversion.
#[verifier::external_body]
pub(crate) fn resized_la_bytes(
    img: &image::DynamicImage,
    side: u32,
    filter: image::imageops::FilterType,
) -> (r: Vec<u8>)
    requires
        1 <= side,
        4 * (side as int) * (side as int) <= usize::MAX,
    ensures
        r@.len() == 2 * (side as int) * (side as int),
{
    let resized = img.resize_exact(side, side, filter);
    resized.to_luma_alpha8().into_raw()
}

/// Relies on image::DynamicImage::resize_exact and on
/// image::codecs::png::PngEncoder::write_image: the resized surface
/// encoded as an in-memory PNG stream, or the encoder's error message.
/// The buffer handed to the encoder comes from the resized image
/// itself, so the encoder's internal length check cannot fail.
#[verifier::external_body]
pub(crate) fn resized_png_bytes(
    img: &image::DynamicImage,
    side: u32,
    filter: image::imageops::FilterType,
) -> Result<Vec<u8>, String>
    requires
        1 <= side,
        4 * (side as int) * (side as int) <= usize::MAX,
{
    let resized = img.resize_exact(side, side, filter);
    let mut buffer: Vec<u8> = Vec::new();
    let encoder = image::codecs::png::PngEncoder::new(&mut buffer);
    let color = resized.color();
    match encoder.write_image(resized.into_bytes().as_slice(), side, side, color) {
        Ok(()) => Ok(buffer),
        Err(e) => Err(format!("{}", e)),
    }
}

} // verus!
