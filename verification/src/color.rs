use vstd::prelude::*;

verus! {

/// One RGBA pixel sample: red, green, blue and alpha channel values.
#[derive(Clone, Copy, PartialEq, Eq, Structural, Debug, Hash)]
pub struct Rgba {
    pub r: u8,
    pub g: u8,
    pub b: u8,
    pub a: u8,
}

/// Perceived brightness of a color, scaled by 10 000 so that it stays an
/// integer: 10 000 * (0.2126 R + 0.7152 G + 0.0722 B).
pub open spec fn lum(c: Rgba) -> int {
    2126 * c.r + 7152 * c.g + 722 * c.b
}

/// Computes the scaled perceived brightness of a color.
pub fn luminance(c: Rgba) -> (l: u32)
    ensures
        l == lum(c),
{
    2126 * (c.r as u32) + 7152 * (c.g as u32) + 722 * (c.b as u32)
}

/// The i-th four-byte sample of a flat RGBA buffer, read as a color.
pub open spec fn chunk_at(s: Seq<u8>, i: int) -> Rgba {
    Rgba { r: s[4 * i], g: s[4 * i + 1], b: s[4 * i + 2], a: s[4 * i + 3] }
}

/// The colors held by a flat RGBA buffer, four bytes per pixel; trailing
/// bytes past the last whole sample are ignored.
pub open spec fn chunk_colors(s: Seq<u8>) -> Seq<Rgba> {
    Seq::new(s.len() / 4, |i: int| chunk_at(s, i))
}

} // verus!
