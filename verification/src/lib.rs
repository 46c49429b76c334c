//! Recoloring of small-palette RGBA images.
//!
//! The library extracts the distinct colors of a flat RGBA pixel buffer,
//! orders them from brightest to darkest, pairs them with a fixed label
//! vocabulary, parses operator-supplied replacement colors, and rewrites
//! every pixel through a remap table.

pub mod codec;
pub mod color;
pub mod labels;
pub mod palette;
pub mod parse;
pub mod protocol;
pub mod remap;
