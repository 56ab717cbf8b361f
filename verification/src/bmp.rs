use vstd::prelude::*;

verus! {

/// The bytes of the standard Windows BMP container holding the 24-bit
/// RGB raster `rgb` of the given dimensions, as the encoder of the
/// `image` crate lays them out: the 54-byte file and info headers
/// followed by the pixel rows bottom-up, each row's pixels as
/// blue-green-red triples padded to a multiple of four bytes.
pub uninterp spec fn bmp_encoding(rgb: Seq<u8>, width: u32, height: u32) -> Seq<u8>;

/// The padding that brings a row of `width` 24-bit pixels to a multiple
/// of four bytes.
pub open spec fn bmp_row_pad(width: u32) -> int {
    (4 - ((3 * width) % 4)) % 4
}

/// Whether a raster of the given dimensions fits the BMP container: the
/// row size arithmetic and the 32-bit file size field must not overflow.
pub open spec fn bmp_fits(width: u32, height: u32) -> bool {
    &&& 3 * (width as int) <= u32::MAX
    &&& 54 + (3 * (width as int) + 3) * (height as int) <= u32::MAX
}

/// Relies on `image::codecs::bmp::BmpEncoder::encode` with the 24-bit
/// RGB color type: given a buffer of exactly `3 * width * height` bytes
/// and dimensions whose encoded size fits the container, it writes the
/// standard BMP layout — 54 header bytes, then the rows bottom-up as
/// padded blue-green-red triples — and the output depends on the pixel
/// bytes and dimensions alone.
#[verifier::external_body]
pub(crate) fn encode_bmp(rgb: &Vec<u8>, width: u32, height: u32) -> (r: Vec<u8>)
    requires
        rgb@.len() == 3 * (width as int) * (height as int),
        bmp_fits(width, height),
    ensures
        r@ == bmp_encoding(rgb@, width, height),
        r@.len() == 54 + (3 * (width as int) + bmp_row_pad(width)) * (height as int),
{
    let mut buffer = Vec::new();
    let mut encoder = image::codecs::bmp::BmpEncoder::new(&mut buffer);
    encoder.encode(rgb.as_slice(), width, height, image::ColorType::Rgb8).unwrap();
    buffer
}

} // verus!
