//! The image codec: decoding, resampling and PNG compression.
//!
//! Nothing in this module is proved. Each function calls the `image` crate and
//! carries a contract that is taken on trust.

use image::codecs::ico::IcoFrame;
use image::codecs::png::PngEncoder;
use image::error::{ParameterError, ParameterErrorKind};
use image::{ExtendedColorType, ImageBuffer, ImageEncoder, ImageError, ImageFormat, Rgba};
use vstd::prelude::*;

verus! {

/// The filter with which a source is scaled down.
#[derive(Clone, Copy, Debug, PartialEq, Eq, Structural)]
pub enum FilterType {
    /// Nearest neighbor.
    Nearest,
    /// Linear filter.
    Triangle,
    /// Cubic filter.
    CatmullRom,
    /// Gaussian filter.
    Gaussian,
    /// Lanczos with window 3.
    Lanczos3,
}

/// What the PNG encoder writes for an 8-bit RGBA buffer of the given width
/// and height, or `None` where it refuses the image. The encoder reads nothing
/// but its arguments.
pub uninterp spec fn png_encoding(pixels: Seq<u8>, width: u32, height: u32) -> Option<Seq<u8>>;

/// What the decoder makes of the bytes of a file under this path, as 8-bit
/// RGBA: the width, the height and the samples, row by row; `None` where it
/// fails. The format is that of the path's extension, and the decoder of a
/// format reads nothing but the bytes.
pub uninterp spec fn decoding(path: Seq<char>, bytes: Seq<u8>) -> Option<(u32, u32, Seq<u8>)>;

/// Decodes an encoded image with `image::load_from_memory_with_format`, in
/// the format that `ImageFormat::from_path` finds for the path, and converts
/// it to 8-bit RGBA.
///
/// Claimed: the result is [`decoding`] of the arguments, the call fails
/// exactly where that is `None`, and the buffer holds at least four samples
/// for each pixel, which is what `ImageBuffer` guarantees of every image it
/// holds.
#[verifier::external_body]
pub(crate) fn decode_rgba8(path: &str, bytes: &[u8]) -> (r: Result<
    (u32, u32, Vec<u8>),
    ImageError,
>)
    ensures
        match r {
            Ok(d) => decoding(path@, bytes@) == Some((d.0, d.1, d.2@)) && d.2@.len() >= 4 * d.0
                * d.1,
            Err(_) => decoding(path@, bytes@) is None,
        },
{
    let format = ImageFormat::from_path(path)?;
    let rgba = image::load_from_memory_with_format(bytes, format)?.into_rgba8();
    Ok((rgba.width(), rgba.height(), rgba.into_raw()))
}

/// Scales an 8-bit RGBA image down with `image::imageops::resize`.
///
/// Claimed: the result holds four samples for each pixel of the new size, and
/// where the size does not change it is a copy of the source. What the filters
/// compute otherwise is left open.
#[verifier::external_body]
pub(crate) fn resample(
    pixels: &[u8],
    src_width: u32,
    src_height: u32,
    dst_width: u32,
    dst_height: u32,
    filter: FilterType,
) -> (out: Vec<u8>)
    requires
        pixels@.len() == 4 * src_width * src_height,
        dst_width <= src_width,
        dst_height <= src_height,
    ensures
        out@.len() == 4 * dst_width * dst_height,
        dst_width == src_width && dst_height == src_height ==> out@ == pixels@,
{
    let source = ImageBuffer::<Rgba<u8>, &[u8]>::from_raw(src_width, src_height, pixels)
        .expect("the buffer holds every pixel");
    let kind = match filter {
        FilterType::Nearest => image::imageops::FilterType::Nearest,
        FilterType::Triangle => image::imageops::FilterType::Triangle,
        FilterType::CatmullRom => image::imageops::FilterType::CatmullRom,
        FilterType::Gaussian => image::imageops::FilterType::Gaussian,
        FilterType::Lanczos3 => image::imageops::FilterType::Lanczos3,
    };
    image::imageops::resize(&source, dst_width, dst_height, kind).into_raw()
}

/// Compresses an 8-bit RGBA buffer as a PNG image with
/// `PngEncoder::write_image`.
///
/// Claimed: the bytes written are [`png_encoding`] of the arguments, and the
/// call fails exactly where that is `None`.
#[verifier::external_body]
pub(crate) fn encode_png(pixels: &[u8], width: u32, height: u32) -> (r: Result<
    Vec<u8>,
    ImageError,
>)
    requires
        pixels@.len() == 4 * width * height,
    ensures
        match r {
            Ok(encoded) => png_encoding(pixels@, width, height) == Some(encoded@),
            Err(_) => png_encoding(pixels@, width, height) is None,
        },
{
    let mut encoded = Vec::new();
    match PngEncoder::new(&mut encoded).write_image(pixels, width, height, ExtendedColorType::Rgba8) {
        Ok(()) => Ok(encoded),
        Err(e) => Err(e),
    }
}

/// Has `image`'s `IcoFrame::with_encoded` judge the measures of a frame of
/// 8-bit RGBA around a compressed image.
///
/// Claimed: it accepts exactly the widths and heights from 1 to 256, and its
/// error is returned otherwise.
#[verifier::external_body]
pub(crate) fn check_frame_size(encoded: &[u8], width: u32, height: u32) -> (r: Result<
    (),
    ImageError,
>)
    ensures
        match r {
            Ok(_) => 1 <= width <= 256 && 1 <= height <= 256,
            Err(_) => !(1 <= width <= 256 && 1 <= height <= 256),
        },
{
    match IcoFrame::with_encoded(encoded, width, height, ExtendedColorType::Rgba8) {
        Ok(_) => Ok(()),
        Err(e) => Err(e),
    }
}

/// The codec's error for a buffer that does not match its dimensions, made
/// with `ParameterError::from_kind`. Nothing is claimed of it.
#[verifier::external_body]
pub(crate) fn dimension_mismatch() -> ImageError {
    ImageError::Parameter(ParameterError::from_kind(ParameterErrorKind::DimensionMismatch))
}

} // verus!
