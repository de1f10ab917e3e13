//! Image decoding and PNG encoding, which the `image` crate does.

use vstd::prelude::*;
use image::{ImageBuffer, ImageError, ImageFormat, Rgba};

verus! {

#[verifier::external_type_specification]
#[verifier::external_body]
pub struct ExImageError(image::ImageError);

/// An image of 8-bit RGBA pixels, row by row from the top left, four bytes
/// per pixel.
#[derive(Debug)]
pub struct RgbaImage {
    pub width: u32,
    pub height: u32,
    pub pixels: Vec<u8>,
}

/// What went wrong in the image codec, by the kind of `image::ImageError`.
#[derive(Debug, Clone, Copy, PartialEq, Eq, Structural)]
pub enum ImageErrorKind {
    Decoding,
    Encoding,
    Parameter,
    Limits,
    Unsupported,
    IoError,
}

/// A decoding that gives `img`.
pub open spec fn decoded_as(img: RgbaImage) -> Result<(u32, u32, Seq<u8>), ImageErrorKind> {
    Ok((img.width, img.height, img.pixels@))
}

/// A decoding that fails with an error of kind `kind`.
pub open spec fn failed_with(kind: ImageErrorKind) -> Result<(u32, u32, Seq<u8>), ImageErrorKind> {
    Err(kind)
}

/// The width, height and RGBA8 pixels of the image that
/// `image::load_from_memory` decodes from `data` and `to_rgba8` converts,
/// or, where decoding fails, the kind of the error it fails with.
pub uninterp spec fn decoded_rgba8(data: Seq<u8>) -> Result<(u32, u32, Seq<u8>), ImageErrorKind>;

/// The PNG file that `ImageBuffer::write_to` with `ImageFormat::Png` writes
/// for the RGBA8 image of the given size and pixels, or `None` where
/// encoding fails.
pub uninterp spec fn png_encoding(width: u32, height: u32, rgba: Seq<u8>) -> Option<Seq<u8>>;

/// `image::load_from_memory`, with the decoded image converted to RGBA8 by
/// `DynamicImage::to_rgba8`, and an error converted to its kind by its
/// variant. The result is named by `decoded_rgba8`; the buffer holds exactly
/// four bytes per pixel.
#[verifier::external_body]
pub(crate) fn load_rgba8(data: &[u8]) -> (r: Result<RgbaImage, ImageErrorKind>)
    ensures
        r is Ok <==> decoded_rgba8(data@) is Ok,
        r matches Ok(img) ==> decoded_rgba8(data@) == decoded_as(img),
        r matches Ok(img) ==> img.pixels@.len() == img.width * img.height * 4,
        r matches Err(kind) ==> decoded_rgba8(data@) == failed_with(kind),
{
    match image::load_from_memory(data) {
        Ok(img) => {
            let rgba = img.to_rgba8();
            Ok(RgbaImage { width: rgba.width(), height: rgba.height(), pixels: rgba.into_raw() })
        },
        Err(ImageError::Decoding(_)) => Err(ImageErrorKind::Decoding),
        Err(ImageError::Encoding(_)) => Err(ImageErrorKind::Encoding),
        Err(ImageError::Parameter(_)) => Err(ImageErrorKind::Parameter),
        Err(ImageError::Limits(_)) => Err(ImageErrorKind::Limits),
        Err(ImageError::Unsupported(_)) => Err(ImageErrorKind::Unsupported),
        Err(ImageError::IoError(_)) => Err(ImageErrorKind::IoError),
    }
}

/// `ImageBuffer::write_to` into an in-memory buffer with `ImageFormat::Png`,
/// for the RGBA8 image of the given size and pixels (the buffer is made by
/// `ImageBuffer::from_raw`, which accepts exactly this size). The result is
/// named by `png_encoding`; which error comes back on failure is not stated.
#[verifier::external_body]
pub(crate) fn encode_png(width: u32, height: u32, rgba: Vec<u8>) -> (r: Result<Vec<u8>, ImageError>)
    requires
        rgba@.len() == width * height * 4,
        width * height * 4 <= usize::MAX,
    ensures
        r is Ok <==> png_encoding(width, height, rgba@) is Some,
        r matches Ok(bytes) ==> png_encoding(width, height, rgba@) == Some(bytes@),
{
    let img = ImageBuffer::<Rgba<u8>, Vec<u8>>::from_raw(width, height, rgba).unwrap();
    let mut buf: Vec<u8> = Vec::new();
    img.write_to(&mut std::io::Cursor::new(&mut buf), ImageFormat::Png)?;
    Ok(buf)
}

} // verus!
