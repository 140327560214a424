//! Cover normalisation: images taller than the target height are scaled
//! down, aspect ratio kept, and re-encoded as JPEG; smaller ones are kept as
//! they are.

use vstd::prelude::*;

verus! {

/// The height, in pixels, that stored covers are brought down to.
pub const TARGET_HEIGHT: u32 = 300;

/// What the image crate decodes from `data`: width, height and RGBA pixels.
pub uninterp spec fn decoded(data: Seq<u8>) -> Option<(u32, u32, Seq<u8>)>;

/// What the resizer makes of a `w`×`h` RGBA image scaled to `tw`×`th`.
pub uninterp spec fn resized(w: u32, h: u32, pixels: Seq<u8>, tw: u32, th: u32) -> Option<Seq<u8>>;

/// The JPEG encoding of a `w`×`h` RGBA image.
pub uninterp spec fn jpeg_encoded(w: u32, h: u32, pixels: Seq<u8>) -> Option<Seq<u8>>;

/// Relies on `image::ImageReader::decode` (after `with_guessed_format`): the
/// format is sniffed from the bytes and the decoded image, converted to
/// RGBA, depends on them alone.
#[verifier::external_body]
fn decode_rgba(data: &Vec<u8>) -> (r: Option<(u32, u32, Vec<u8>)>)
    ensures
        match r {
            Some((w, h, px)) => decoded(data@) == Some((w, h, px@)),
            None => decoded(data@) is None,
        },
{
    let reader = image::ImageReader::new(std::io::Cursor::new(data)).with_guessed_format().ok()?;
    let img = reader.decode().ok()?.to_rgba8();
    Some((img.width(), img.height(), img.into_raw()))
}

/// Relies on `fast_image_resize::Resizer::resize` with its default
/// algorithm (Lanczos3 convolution) on RGBA pixels.
#[verifier::external_body]
fn resize_rgba(w: u32, h: u32, pixels: Vec<u8>, tw: u32, th: u32) -> (r: Option<Vec<u8>>)
    ensures
        match r {
            Some(out) => resized(w, h, pixels@, tw, th) == Some(out@),
            None => resized(w, h, pixels@, tw, th) is None,
        },
{
    let src = fast_image_resize::images::Image::from_vec_u8(w, h, pixels, fast_image_resize::PixelType::U8x4).ok()?;
    let mut dst = fast_image_resize::images::Image::new(tw, th, fast_image_resize::PixelType::U8x4);
    fast_image_resize::Resizer::new().resize(&src, &mut dst, None).ok()?;
    Some(dst.into_vec())
}

/// Relies on `image::DynamicImage::write_to` with `ImageFormat::Jpeg`, which
/// drops the alpha channel before encoding.
#[verifier::external_body]
fn encode_jpeg(w: u32, h: u32, pixels: Vec<u8>) -> (r: Option<Vec<u8>>)
    ensures
        match r {
            Some(out) => jpeg_encoded(w, h, pixels@) == Some(out@),
            None => jpeg_encoded(w, h, pixels@) is None,
        },
{
    let img = image::RgbaImage::from_raw(w, h, pixels)?;
    let mut out: Vec<u8> = Vec::new();
    image::DynamicImage::ImageRgba8(img)
        .write_to(&mut std::io::Cursor::new(&mut out), image::ImageFormat::Jpeg)
        .ok()?;
    Some(out)
}

/// The size a `w`×`h` image is scaled to: `None` when it is no taller than
/// the target height, else the target height and the width that keeps the
/// aspect ratio, rounded to the nearest pixel (halves up).
pub open spec fn scaled_size(w: u32, h: u32) -> Option<(u32, u32)> {
    if h <= TARGET_HEIGHT {
        None
    } else {
        Some((((2 * TARGET_HEIGHT * w + h) / (2 * h)) as u32, TARGET_HEIGHT))
    }
}

/// The size a `width`×`height` image is scaled to, if it is scaled at all.
pub fn target_size(width: u32, height: u32) -> (r: Option<(u32, u32)>)
    ensures
        r == scaled_size(width, height),
{
    if height <= TARGET_HEIGHT {
        return None;
    }
    let w = width as u64;
    let h = height as u64;
    let num: u64 = 600 * w + h;
    let den: u64 = 2 * h;
    let q: u64 = num / den;
    proof {
        assert(q * den <= num) by (nonlinear_arith)
            requires q == num / den, den > 0;
        assert(num < den * (w + 1)) by (nonlinear_arith)
            requires num == 600 * w + h, den == 2 * h, h > 300;
        assert(q <= w) by (nonlinear_arith)
            requires q * den <= num, num < den * (w + 1), den > 0;
    }
    Some((q as u32, TARGET_HEIGHT))
}

/// The bytes stored for a cover read as `data`: `None` when it does not
/// decode; `data` itself when the image needs no scaling or scaling or
/// encoding fails; otherwise the scaled image as JPEG.
pub open spec fn normalized(data: Seq<u8>) -> Option<Seq<u8>> {
    match decoded(data) {
        None => None,
        Some((w, h, px)) => match scaled_size(w, h) {
            None => Some(data),
            Some((tw, th)) => match resized(w, h, px, tw, th) {
                None => Some(data),
                Some(out) => match jpeg_encoded(tw, th, out) {
                    None => Some(data),
                    Some(jpeg) => Some(jpeg),
                },
            },
        },
    }
}

/// The bytes to store for the cover read as `data`.
pub fn normalize_cover(data: &Vec<u8>) -> (r: Option<Vec<u8>>)
    ensures
        match r {
            Some(out) => normalized(data@) == Some(out@),
            None => normalized(data@) is None,
        },
{
    match decode_rgba(data) {
        None => None,
        Some((w, h, px)) => match target_size(w, h) {
            None => Some(data.clone()),
            Some((tw, th)) => match resize_rgba(w, h, px, tw, th) {
                None => Some(data.clone()),
                Some(out) => match encode_jpeg(tw, th, out) {
                    None => Some(data.clone()),
                    Some(jpeg) => Some(jpeg),
                },
            },
        },
    }
}

} // verus!
