//! Encoding the flattened canvas as a PNG file through the `png` crate.

use vstd::prelude::*;

verus! {

#[verifier::external_type_specification]
#[verifier::external_body]
pub struct ExEncodingError(png::EncodingError);

/// The bytes of the PNG file that the `png` crate writes for an 8-bit
/// RGBA image of `width` by `height` pixels whose rows, top to bottom, are
/// laid out one after another in `pixels`, four bytes per pixel.
pub uninterp spec fn png_rgba8_file(width: u32, height: u32, pixels: Seq<u8>) -> Seq<u8>;

/// The eight bytes with which every PNG file starts.
pub open spec fn png_signature() -> Seq<u8> {
    seq![137u8, 80u8, 78u8, 71u8, 13u8, 10u8, 26u8, 10u8]
}

/// The encoder accepts the image: no side is zero and the buffer holds
/// exactly four bytes for each pixel.
pub open spec fn png_accepts(width: u32, height: u32, len: nat) -> bool {
    width > 0 && height > 0 && len == width * height * 4
}

/// Why an export failed.
#[derive(Clone, Copy, PartialEq, Eq, Structural, Debug)]
pub enum ExportError {
    /// The image width written to the file is zero.
    ZeroWidth,
    /// The image height written to the file is zero.
    ZeroHeight,
    /// The pixel buffer does not hold four bytes for each pixel.
    BufferSize,
}

/// The error that the encoder reports for an image that it refuses.
pub open spec fn refusal(width: u32, height: u32) -> ExportError {
    if width == 0 {
        ExportError::ZeroWidth
    } else if height == 0 {
        ExportError::ZeroHeight
    } else {
        ExportError::BufferSize
    }
}

impl ExportError {
    /// A short description of the error.
    pub fn message(&self) -> (s: &'static str)
        ensures
            *self == ExportError::ZeroWidth ==> s@ == "Zero width not allowed"@,
            *self == ExportError::ZeroHeight ==> s@ == "Zero height not allowed"@,
            *self == ExportError::BufferSize ==> s@ == "wrong image buffer size"@,
    {
        match self {
            ExportError::ZeroWidth => "Zero width not allowed",
            ExportError::ZeroHeight => "Zero height not allowed",
            ExportError::BufferSize => "wrong image buffer size",
        }
    }
}

/// Encodes an 8-bit RGBA image with `png::Encoder` into memory:
/// `Encoder::new`, `set_color(Rgba)`, `set_depth(Eight)`, `write_header`,
/// `Writer::write_image_data`, `Writer::finish`.
///
/// Claimed of the `png` crate: `write_header` fails exactly when a side is
/// zero, `write_image_data` fails exactly when the buffer is not four bytes
/// per pixel, and writing into a `Vec` fails in no other way; the bytes
/// written are a function of the arguments and start with the PNG
/// signature.  The bytes themselves are not stated: they are named.
#[verifier::external_body]
fn encode_png_rgba8(width: u32, height: u32, data: &[u8]) -> (r: Result<Vec<u8>, png::EncodingError>)
    requires
        width * height * 4 <= usize::MAX,
    ensures
        r is Ok <==> png_accepts(width, height, data@.len()),
        r matches Ok(bytes) ==> bytes@ == png_rgba8_file(width, height, data@),
        r matches Ok(bytes) ==> bytes@.len() >= 8 && bytes@.subrange(0, 8) == png_signature(),
{
    let mut out: Vec<u8> = Vec::new();
    let mut encoder = png::Encoder::new(&mut out, width, height);
    encoder.set_color(png::ColorType::Rgba);
    encoder.set_depth(png::BitDepth::Eight);
    let mut writer = encoder.write_header()?;
    writer.write_image_data(data)?;
    writer.finish()?;
    Ok(out)
}

/// Encodes an 8-bit RGBA image as PNG bytes.  It succeeds exactly when
/// neither side is zero and `data` holds four bytes per pixel; otherwise
/// the error says which of these failed.
pub fn encode_rgba_png(width: u32, height: u32, data: &[u8]) -> (r: Result<Vec<u8>, ExportError>)
    requires
        width * height * 4 <= usize::MAX,
    ensures
        match r {
            Ok(bytes) => png_accepts(width, height, data@.len()) && bytes@ == png_rgba8_file(
                width,
                height,
                data@,
            ) && bytes@.len() >= 8 && bytes@.subrange(0, 8) == png_signature(),
            Err(e) => !png_accepts(width, height, data@.len()) && e == refusal(width, height),
        },
{
    match encode_png_rgba8(width, height, data) {
        Ok(bytes) => Ok(bytes),
        Err(_) => {
            if width == 0 {
                Err(ExportError::ZeroWidth)
            } else if height == 0 {
                Err(ExportError::ZeroHeight)
            } else {
                Err(ExportError::BufferSize)
            }
        },
    }
}

} // verus!
