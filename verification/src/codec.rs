use vstd::prelude::*;
use crate::color::{chunk_at, chunk_colors};
use crate::remap::{RemapTable, apply_remap};

verus! {

/// The error type of the `image` crate, opaque to the library.
#[verifier::external_type_specification]
#[verifier::external_body]
pub struct ExImageError(image::ImageError);

/// Relies on image::load_from_memory to decode the bytes as an image, and
/// on DynamicImage::to_rgba8 to convert the decoded image to four bytes
/// per pixel. Which formats decode, and to what, can change at run time —
/// the reader consults process-global decoding and format-detection hooks
/// before its built-in formats — so only what holds of every outcome is
/// stated: a decoded RGBA buffer holds width * height * 4 bytes.
#[verifier::external_body]
fn decode_rgba_raw(bytes: &Vec<u8>) -> (r: Result<(u32, u32, Vec<u8>), image::ImageError>)
    ensures
        r matches Ok(t) ==> t.2@.len() == 4 * t.0 * t.1,
{
    let img = match image::load_from_memory(bytes.as_slice()) {
        Ok(img) => img,
        Err(e) => {
            return Err(e);
        },
    };
    let buf = img.to_rgba8();
    Ok((buf.width(), buf.height(), buf.into_raw()))
}

/// The bytes could not be decoded as an image.
#[derive(Clone, Copy, PartialEq, Eq, Structural, Debug)]
pub struct DecodeError;

/// A decoded image: its dimensions and its flat RGBA samples, four bytes
/// per pixel.
pub struct Bitmap {
    pub width: u32,
    pub height: u32,
    pub pixels: Vec<u8>,
}

impl Bitmap {
    /// A bitmap is well formed when its buffer holds exactly one four-byte
    /// sample for each of its width * height pixels.
    pub open spec fn wf(self) -> bool {
        self.pixels@.len() == 4 * self.width * self.height
    }
}

/// Decodes a byte stream as an RGBA image. Whether it succeeds, and what
/// the pixels are, rests with the image reader; whatever comes back, a
/// returned bitmap is well formed, so every verified pass over it applies.
pub fn decode_rgba(bytes: &Vec<u8>) -> (r: Result<Bitmap, DecodeError>)
    ensures
        r matches Ok(bm) ==> bm.wf(),
{
    match decode_rgba_raw(bytes) {
        Ok((w, h, pix)) => Ok(Bitmap { width: w, height: h, pixels: pix }),
        Err(_) => Err(DecodeError),
    }
}

/// Rewrites every pixel of a bitmap through a remap table: the result has
/// the same dimensions, and each of its samples is the table's replacement
/// for the sample at that position.
pub fn recolor_bitmap(bm: &Bitmap, table: &RemapTable) -> (out: Bitmap)
    requires
        bm.wf(),
    ensures
        out.wf(),
        out.width == bm.width,
        out.height == bm.height,
        forall|i: int|
            0 <= i < chunk_colors(bm.pixels@).len() ==> chunk_at(out.pixels@, i)
                == table.lookup(chunk_at(bm.pixels@, i)),
{
    proof {
        let w = bm.width as int;
        let h = bm.height as int;
        let p = w * h;
        assert(4 * w * h == 4 * (w * h)) by (nonlinear_arith);
        vstd::arithmetic::div_mod::lemma_mod_multiples_basic(p, 4);
        assert(bm.pixels@.len() % 4 == 0);
    }
    let pix = apply_remap(&bm.pixels, table);
    Bitmap { width: bm.width, height: bm.height, pixels: pix }
}

/// Decodes a byte stream and rewrites every pixel of it through the table.
/// What the decoded pixels are rests with the image reader; the rewriting
/// itself is stated exactly by `recolor_bitmap`, which takes the decoded
/// bitmap as an argument.
pub fn recolor_image(bytes: &Vec<u8>, table: &RemapTable) -> (r: Result<Bitmap, DecodeError>)
    ensures
        r matches Ok(out) ==> out.wf(),
{
    match decode_rgba(bytes) {
        Ok(bm) => Ok(recolor_bitmap(&bm, table)),
        Err(e) => Err(e),
    }
}

} // verus!
