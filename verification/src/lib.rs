//! Bitmap atlases of fixed-size glyph cells for small displays: the ranges of
//! characters that an atlas covers, the atlas built from rendered glyphs, its
//! packed form of one bit per pixel, and the mapping from a character to the
//! index of its cell.

pub mod atlas;
pub mod builder;
pub mod canvas;
pub mod error;
pub mod glyph;
pub mod mapping;
pub mod packer;
pub mod pairing;
pub mod unicode;

pub use crate::atlas::{build_atlas, FontMetadata, MonoFontData};
pub use crate::builder::{FontOutputSettings, MonoFontBuilder, ROW_SIZE};
pub use crate::error::BuildError;
pub use crate::glyph::{is_lit, GlyphMetrics, RasterGlyph};
pub use crate::mapping::RangeGlyphMapping;
pub use crate::packer::{pack_bits, unpack_bits};
pub use crate::unicode::{cjk_radicals_supplement, cjk_unified_ideographs, UnicodeCodeBlock};
