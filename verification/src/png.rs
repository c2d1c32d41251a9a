//! The image codec adapter: PNG encoding and decoding of chunk payloads, and
//! the UTF-8 check on recovered names, each relied upon rather than verified.
//!
//! Every result here is a function of the byte arguments alone, so each PNG
//! call is named by an uninterpreted spec function that the callers' contracts
//! use; the UTF-8 check is tied to vstd's open UTF-8 validity spec.

use vstd::prelude::*;
use image::codecs::png::{CompressionType, FilterType, PngDecoder, PngEncoder};
use image::{DynamicImage, ExtendedColorType, ImageEncoder};

verus! {

/// The PNG file bytes that encode an RGB image of the given dimensions and
/// pixel bytes, at the chosen compression effort.
pub uninterp spec fn png_of(width: nat, height: nat, pixels: Seq<u8>, best: bool) -> Seq<u8>;

/// The raw pixel bytes recovered from a PNG file's bytes, or `None` when they
/// are not a decodable PNG image.
pub uninterp spec fn decoded_image(png: Seq<u8>) -> Option<Seq<u8>>;

/// Relies on `image::codecs::png::PngEncoder::new_with_quality` and
/// `ImageEncoder::write_image`: with a buffer of exactly `width * height * 3`
/// bytes they write one PNG encoding of these pixels as 8-bit RGB, a
/// deterministic function of the arguments for fixed filter settings; the
/// length premise keeps the call off its buffer-size panic. Writing into a
/// `Vec`, the encoder fails only on a zero width or height. PNG is lossless,
/// so decoding the written bytes yields exactly these pixels again.
#[verifier::external_body]
pub(crate) fn png_encode_rgb8(width: u32, height: u32, pixels: &Vec<u8>, best: bool) -> (r: Result<
    Vec<u8>,
    (),
>)
    requires
        pixels@.len() == width * height * 3,
    ensures
        r matches Ok(b) ==> b@ == png_of(width as nat, height as nat, pixels@, best),
        r matches Ok(b) ==> decoded_image(b@) == Some(pixels@),
        width >= 1 && height >= 1 ==> r is Ok,
{
    let mut out: Vec<u8> = Vec::new();
    let compression = if best { CompressionType::Best } else { CompressionType::Fast };
    let encoder = PngEncoder::new_with_quality(&mut out, compression, FilterType::NoFilter);
    match encoder.write_image(pixels.as_slice(), width, height, ExtendedColorType::Rgb8) {
        Ok(()) => Ok(out),
        Err(_) => Err(()),
    }
}

/// Relies on `image::codecs::png::PngDecoder`, `DynamicImage::from_decoder`
/// and `DynamicImage::as_bytes`: decoding a PNG byte buffer yields the
/// image's raw pixel bytes, and fails exactly when the buffer is not a
/// decodable PNG. This decoder reads the given bytes alone — unlike the
/// crate's format-guessing entry points, it consults no process-global hook
/// registry — so the result is a function of the buffer.
#[verifier::external_body]
pub(crate) fn png_decode_bytes(png: &Vec<u8>) -> (r: Result<Vec<u8>, ()>)
    ensures
        r matches Ok(b) ==> decoded_image(png@) == Some(b@),
        r is Err ==> decoded_image(png@) is None,
{
    let cursor = std::io::Cursor::new(png.as_slice());
    match PngDecoder::new(cursor).and_then(DynamicImage::from_decoder) {
        Ok(img) => Ok(img.as_bytes().to_vec()),
        Err(_) => Err(()),
    }
}

/// Relies on `core::str::from_utf8`: it returns `Ok` exactly on byte
/// sequences that are valid UTF-8, which is what vstd's open UTF-8 validity
/// spec describes.
#[verifier::external_body]
pub(crate) fn utf8_check(bytes: &Vec<u8>) -> (r: bool)
    ensures
        r == vstd::utf8::valid_utf8(bytes@),
{
    core::str::from_utf8(bytes.as_slice()).is_ok()
}

} // verus!
