use vstd::prelude::*;

verus! {

/// JPEG quality used for recorded frames.
pub const JPEG_QUALITY: u8 = 80;

#[verifier::external_type_specification]
#[verifier::external_body]
pub struct ExImageError(image::ImageError);

/// The JPEG bytes that the `image` crate's encoder makes of an RGB8 buffer
/// with the given dimensions and quality.
pub uninterp spec fn jpeg_rgb8(raw: Seq<u8>, width: u32, height: u32, quality: u8) -> Seq<u8>;

/// Relies on `image::codecs::jpeg::JpegEncoder::encode` with an RGB8 colour
/// type into an in-memory buffer: it panics unless the buffer holds three bytes
/// per pixel, fails exactly when a dimension is zero or above 65535 (writing to
/// memory cannot fail), and otherwise writes bytes that depend on the pixels,
/// the dimensions and the quality alone.
#[verifier::external_body]
fn encode_jpeg_rgb8(raw: &[u8], width: u32, height: u32, quality: u8) -> (r: Result<Vec<u8>, image::ImageError>)
    requires
        raw@.len() == 3 * width * height,
    ensures
        (width == 0 || height == 0 || width > 65535 || height > 65535) <==> r is Err,
        r matches Ok(b) ==> b@ == jpeg_rgb8(raw@, width, height, quality),
{
    let mut buffer = std::io::Cursor::new(Vec::new());
    let mut encoder = image::codecs::jpeg::JpegEncoder::new_with_quality(&mut buffer, quality);
    match encoder.encode(raw, width, height, image::ExtendedColorType::Rgb8) {
        Ok(()) => Ok(buffer.into_inner()),
        Err(e) => Err(e),
    }
}

/// Why a frame could not be compressed or decompressed.
#[derive(Debug, Clone, Copy, PartialEq, Eq, Structural)]
pub enum CompressError {
    /// A dimension is zero or above 65535.
    InvalidSize,
    /// The codec failed.
    Encoding,
}

/// Largest width or height that a JPEG image can have.
pub const JPEG_MAX_SIDE: u32 = 65535;

/// Compresses a raw RGB8 frame (three bytes per pixel, row by row) to JPEG.
pub fn compress_raw_rgb(raw_data: &Vec<u8>, width: u32, height: u32) -> (r: Result<Vec<u8>, CompressError>)
    requires
        raw_data@.len() == 3 * width * height,
    ensures
        r == Err::<Vec<u8>, CompressError>(CompressError::InvalidSize) <==> (width == 0 || height == 0
            || width > JPEG_MAX_SIDE || height > JPEG_MAX_SIDE),
        r is Err ==> r == Err::<Vec<u8>, CompressError>(CompressError::InvalidSize),
        r matches Ok(b) ==> b@ == jpeg_rgb8(raw_data@, width, height, JPEG_QUALITY),
{
    if width == 0 || height == 0 || width > JPEG_MAX_SIDE || height > JPEG_MAX_SIDE {
        return Err(CompressError::InvalidSize);
    }
    match encode_jpeg_rgb8(raw_data.as_slice(), width, height, JPEG_QUALITY) {
        Ok(b) => Ok(b),
        Err(_) => Err(CompressError::Encoding),
    }
}

/// Relies on `image::ImageReader` with a guessed format, `decode` and
/// `DynamicImage::to_rgb8`: on success the pixels come as an RGB8 buffer of
/// three bytes per pixel, row by row, with its width and height.
#[verifier::external_body]
fn decode_to_rgb8(bytes: &[u8]) -> (r: Result<(Vec<u8>, u32, u32), image::ImageError>)
    ensures
        r matches Ok(t) ==> t.0@.len() == 3 * t.1 * t.2,
{
    let reader = image::ImageReader::new(std::io::Cursor::new(bytes)).with_guessed_format()?;
    let rgb = reader.decode()?.to_rgb8();
    let (width, height) = rgb.dimensions();
    Ok((rgb.into_raw(), width, height))
}

/// Decodes a compressed frame back to raw RGB8 pixels and its dimensions.
pub fn decompress_jpeg_to_rgb(jpeg_bytes: &Vec<u8>) -> (r: Result<(Vec<u8>, u32, u32), CompressError>)
    ensures
        r matches Ok(t) ==> t.0@.len() == 3 * t.1 * t.2,
        r matches Err(e) ==> e == CompressError::Encoding,
{
    match decode_to_rgb8(jpeg_bytes.as_slice()) {
        Ok(t) => Ok(t),
        Err(_) => Err(CompressError::Encoding),
    }
}

} // verus!
