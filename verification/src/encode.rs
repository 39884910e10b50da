use vstd::prelude::*;

verus! {

/// The PNG encoding of a single-channel 8-bit image: a pure function of
/// the pixel bytes and the dimensions.
pub uninterp spec fn png_bytes(pixels: Seq<u8>, width: int, height: int) -> Seq<u8>;

/// The buffer and dimensions fit the encoder: positive 32-bit
/// dimensions and one byte per pixel.
pub open spec fn png_input_ok(len: int, width: int, height: int) -> bool {
    &&& 1 <= width <= 0xffff_ffff
    &&& 1 <= height <= 0xffff_ffff
    &&& len == width * height
}

/// Relies on image::codecs::png::PngEncoder (constructed over a byte
/// vector) and image::ImageEncoder::write_image with color type L8: the
/// vector then holds the PNG encoding of the raster, a function of the
/// pixel bytes and the dimensions alone.  write_image panics when the
/// buffer length does not equal width * height, so that input is kept
/// out; with it, nonzero dimensions, the always-supported 8-bit
/// grayscale color type, and an in-memory writer that cannot fail, no
/// error path of the encoder is reachable, so the call succeeds.
#[verifier::external_body]
fn png_encode_raw(pixels: &Vec<u8>, width: u32, height: u32) -> (r: Option<Vec<u8>>)
    requires
        width >= 1,
        height >= 1,
        pixels@.len() == width as int * height as int,
    ensures
        r is Some,
        r matches Some(b) ==> b@ == png_bytes(pixels@, width as int, height as int),
{
    let mut out: Vec<u8> = Vec::new();
    let encoder = image::codecs::png::PngEncoder::new(&mut out);
    match image::ImageEncoder::write_image(
        encoder,
        pixels.as_slice(),
        width,
        height,
        image::ExtendedColorType::L8,
    ) {
        Ok(()) => Some(out),
        Err(_) => None,
    }
}

/// Encodes the pixel buffer as a single-channel 8-bit grayscale PNG
/// image, one byte per pixel, rows in buffer order.
///
/// Returns `None` exactly when the dimensions and the buffer do not fit
/// the encoder (a zero or oversized dimension, or a buffer whose length
/// is not `width * height`), and otherwise exactly the encoded bytes.
pub fn encode_png(pixels: &Vec<u8>, bounds: (usize, usize)) -> (r: Option<Vec<u8>>)
    ensures
        r is Some <==> png_input_ok(pixels@.len() as int, bounds.0 as int, bounds.1 as int),
        r matches Some(b) ==> b@ == png_bytes(pixels@, bounds.0 as int, bounds.1 as int),
{
    let len: usize = pixels.len();
    if bounds.0 == 0 || bounds.1 == 0 {
        return None;
    }
    if bounds.0 > 0xffff_ffff || bounds.1 > 0xffff_ffff {
        return None;
    }
    match bounds.0.checked_mul(bounds.1) {
        None => None,
        Some(count) => {
            if len != count {
                None
            } else {
                png_encode_raw(pixels, bounds.0 as u32, bounds.1 as u32)
            }
        },
    }
}

} // verus!
