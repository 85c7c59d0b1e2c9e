//! Turning a tile's buffer into the bytes of a grey-level PNG file.
use vstd::prelude::*;
use image::codecs::png::PngEncoder;
use image::{ExtendedColorType, ImageEncoder};
use crate::pixels::Image;

verus! {

#[verifier::external_type_specification]
#[verifier::external_body]
pub struct ExImageError(image::ImageError);

/// The PNG file that encodes `pixels` as 8-bit grey samples of a
/// `width x height` image.
pub uninterp spec fn png_encoding(pixels: Seq<u8>, width: u32, height: u32) -> Seq<u8>;

/// Relies on image's `PngEncoder::write_image`, on an encoder made by
/// `PngEncoder::new` over a byte vector, with `ExtendedColorType::L8`: the
/// bytes written depend on the samples and the size alone. It panics unless
/// there is exactly one sample per pixel. Writing into a vector cannot fail,
/// and the png writer refuses a grey 8-bit image only when its width or
/// height is zero.
#[verifier::external_body]
fn grey_png(pixels: &Vec<u8>, width: u32, height: u32) -> (r: Result<Vec<u8>, image::ImageError>)
    requires
        pixels.len() == width as nat * height as nat,
    ensures
        r matches Ok(bytes) ==> bytes@ == png_encoding(pixels@, width, height),
        width > 0 && height > 0 ==> r is Ok,
{
    let mut out: Vec<u8> = Vec::new();
    let written = PngEncoder::new(&mut out).write_image(pixels, width, height, ExtendedColorType::L8);
    written.map(|()| out)
}

/// Why the image sink could not store a tile.
#[derive(Clone, Copy, Debug, PartialEq, Eq, Structural)]
pub enum SinkError {
    /// The buffer could not be encoded.
    Encode,
    /// The encoded file could not be written.
    Write,
}

impl Image {
    /// The buffer as a grey-level PNG file, one sample per pixel, byte for
    /// byte. A well-formed buffer always encodes.
    pub fn encode_png(&self) -> (r: Result<Vec<u8>, SinkError>)
        requires
            self.wf(),
        ensures
            r matches Ok(bytes) ==> bytes@ == png_encoding(
                self.data@,
                self.resolution.width,
                self.resolution.height,
            ),
            r is Ok,
    {
        match grey_png(&self.data, self.resolution.width, self.resolution.height) {
            Ok(bytes) => Ok(bytes),
            Err(_) => Err(SinkError::Encode),
        }
    }
}

} // verus!
