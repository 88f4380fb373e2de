//! Resolution of raster-image pixels to human-readable color names.
//!
//! The crate converts between hexadecimal color text and four-channel
//! RGBA samples, builds an exact-match lookup table from an ordered list
//! of named colors, and answers per-pixel queries (name resolution and a
//! deterministic content hash) against an in-memory image.

use vstd::prelude::*;

pub mod band;
pub mod color;
pub mod io;
pub mod manager;

verus! {

/// The error taxonomy of the crate.
///
/// A resolution miss is not an error: looking up a sample that the table
/// does not hold yields the `UNKNOWN` sentinel name instead.
#[derive(Clone, Copy, Debug, PartialEq, Eq, Structural)]
pub enum Error {
    /// The color-definition or image source could not be opened or read.
    SourceUnreadable,
    /// The color-definition content does not deserialize into the
    /// expected shape.
    MalformedSource,
    /// A color entry's text is not valid hexadecimal.
    InvalidEncoding,
    /// Pixel coordinates outside the image bounds.
    IndexOutOfRange,
}

} // verus!
