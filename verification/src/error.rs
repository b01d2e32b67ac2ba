use vstd::prelude::*;

verus! {

/// Why a range or an atlas could not be built.
#[derive(Debug, Clone, Copy, PartialEq, Eq, Structural)]
pub enum BuildError {
    /// The end of a character range lies before its start.
    InvalidRange,
    /// An atlas was asked for with no character at all.
    EmptyCharacterSet,
    /// The glyph source failed for a character, or handed back a glyph
    /// that has no place in the atlas.
    GlyphSourceFailure,
}

} // verus!
