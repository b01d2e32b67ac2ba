use crate::atlas::{atlas_outcome, build_atlas, MonoFontData};
use crate::error::BuildError;
use crate::glyph::RasterGlyph;
use crate::unicode::{all_chars, total_block_size, UnicodeCodeBlock};
use vstd::prelude::*;

verus! {

/// `freetype::Face`, an open font. Nothing is known of what it holds.
#[verifier::external_type_specification]
#[verifier::external_body]
#[verifier::reject_recursive_types(BYTES)]
pub struct ExFace<BYTES>(freetype::Face<BYTES>);

/// `freetype::Error`, the reason that a call into the font failed.
#[verifier::external_type_specification]
#[verifier::external_body]
pub struct ExFaceError(freetype::Error);

/// The number of glyphs on one row of an atlas.
pub const ROW_SIZE: usize = 32;

/// How the glyphs of a font are rendered for an atlas.
#[derive(Debug, Clone, Copy)]
pub struct FontOutputSettings {
    /// The target font size, in pixels.
    pub font_size: u32,
    /// A pixel is on where its intensity is above this threshold. With 128,
    /// anything above half intensity shows in the bitmap.
    pub intensity_threshold: u8,
}

/// Renders the characters of some blocks with one font into an atlas.
pub struct MonoFontBuilder<'a> {
    font: freetype::Face,
    unicode_blocks: &'a [UnicodeCodeBlock],
}

/// Calls `freetype::Face::set_pixel_sizes`, which asks the font for glyphs
/// of the given size. Nothing is known of the answer.
#[verifier::external_body]
fn set_pixel_sizes(font: &freetype::Face, width: u32, height: u32) -> (done: Result<
    (),
    freetype::Error,
>) {
    font.set_pixel_sizes(width, height)
}

/// Calls `freetype::Face::load_char`, which renders the glyph of a character
/// into the glyph slot of the font. Nothing is known of the answer.
#[verifier::external_body]
fn load_rendered(font: &freetype::Face, chr: char) -> (done: Result<(), freetype::Error>) {
    font.load_char(chr as usize, freetype::face::LoadFlag::RENDER)
}

/// Copies what `freetype::Face::glyph` holds of the glyph loaded last: the
/// size, bearings and buffer of its bitmap and its two advances. Nothing is
/// known of these values.
#[verifier::external_body]
fn loaded_glyph(font: &freetype::Face) -> (glyph: RasterGlyph) {
    let slot = font.glyph();
    let bitmap = slot.bitmap();
    let metrics = slot.metrics();
    RasterGlyph {
        width: bitmap.width(),
        rows: bitmap.rows(),
        left: slot.bitmap_left(),
        top: slot.bitmap_top(),
        hori_advance: metrics.horiAdvance as i64,
        vert_advance: metrics.vertAdvance as i64,
        buffer: bitmap.buffer().to_vec(),
    }
}

impl<'a> MonoFontBuilder<'a> {
    /// The blocks whose characters go into the atlas, in order.
    pub closed spec fn blocks(self) -> Seq<UnicodeCodeBlock> {
        self.unicode_blocks@
    }

    #[verifier::type_invariant]
    spec fn sound(self) -> bool {
        forall|i: int|
            0 <= i < self.unicode_blocks@.len() ==> (#[trigger] self.unicode_blocks@[i]).well_formed()
    }

    /// A builder for the characters of `unicode_blocks`, drawn with `font`.
    pub fn new(font: freetype::Face, unicode_blocks: &'a [UnicodeCodeBlock]) -> (builder: Self)
        requires
            forall|i: int|
                0 <= i < unicode_blocks@.len() ==> (#[trigger] unicode_blocks@[i]).well_formed(),
        ensures
            builder.blocks() == unicode_blocks@,
    {
        MonoFontBuilder { font, unicode_blocks }
    }

    /// The characters of the blocks, block after block.
    pub fn chars(&self) -> (v: Vec<char>)
        ensures
            v@ == all_chars(self.blocks()),
    {
        let mut v: Vec<char> = Vec::new();
        let mut i: usize = 0;
        while i < self.unicode_blocks.len()
            invariant
                i <= self.unicode_blocks@.len(),
                v@ == all_chars(self.unicode_blocks@.take(i as int)),
            decreases self.unicode_blocks@.len() - i,
        {
            proof {
                assert(self.unicode_blocks@.take(i + 1).drop_last() == self.unicode_blocks@.take(
                    i as int,
                ));
                assert(self.unicode_blocks@.take(i + 1).last() == self.unicode_blocks@[i as int]);
            }
            self.unicode_blocks[i].append_chars(&mut v);
            i = i + 1;
        }
        assert(self.unicode_blocks@.take(i as int) == self.unicode_blocks@);
        v
    }

    /// Number of code points covered by all the blocks.
    pub fn num_chars(&self) -> (n: usize)
        requires
            total_block_size(self.blocks()) <= usize::MAX,
        ensures
            n == total_block_size(self.blocks()),
    {
        proof {
            use_type_invariant(self);
        }
        let mut n: usize = 0;
        let mut i: usize = 0;
        while i < self.unicode_blocks.len()
            invariant
                i <= self.unicode_blocks@.len(),
                forall|i: int|
                    0 <= i < self.unicode_blocks@.len() ==> (
                    #[trigger] self.unicode_blocks@[i]).well_formed(),
                n == total_block_size(self.unicode_blocks@.take(i as int)),
                total_block_size(self.unicode_blocks@) <= usize::MAX,
            decreases self.unicode_blocks@.len() - i,
        {
            proof {
                lemma_block_size_prefix(self.unicode_blocks@, i as int);
            }
            n = n + self.unicode_blocks[i].block_size();
            i = i + 1;
        }
        assert(self.unicode_blocks@.take(i as int) == self.unicode_blocks@);
        n
    }

    /// Renders the glyph of each character at the size asked for and lays
    /// them out in an atlas, `ROW_SIZE` to a row. Fails without a character,
    /// and where the font fails for a character or hands back glyphs that
    /// cannot be laid out.
    pub fn build(&self, settings: FontOutputSettings) -> (result: Result<MonoFontData, BuildError>)
        ensures
            match result {
                Ok(atlas) => exists|glyphs: Seq<RasterGlyph>|
                    glyphs.len() == all_chars(self.blocks()).len() && #[trigger] atlas_outcome(
                        glyphs,
                        settings.intensity_threshold,
                        ROW_SIZE as int,
                        Ok(atlas),
                    ),
                Err(e) => e == (if all_chars(self.blocks()).len() == 0 {
                    BuildError::EmptyCharacterSet
                } else {
                    BuildError::GlyphSourceFailure
                }),
            },
    {
        let chars = self.chars();
        let count = chars.len();
        if count == 0 {
            return Err(BuildError::EmptyCharacterSet);
        }
        match set_pixel_sizes(&self.font, 0, settings.font_size) {
            Err(_) => {
                return Err(BuildError::GlyphSourceFailure);
            },
            Ok(_) => {},
        }
        let mut glyphs: Vec<RasterGlyph> = Vec::new();
        let mut i: usize = 0;
        while i < count
            invariant
                i <= count,
                0 < count,
                count == chars@.len(),
                chars@ == all_chars(self.blocks()),
                glyphs@.len() == i,
            decreases count - i,
        {
            match load_rendered(&self.font, chars[i]) {
                Err(_) => {
                    return Err(BuildError::GlyphSourceFailure);
                },
                Ok(_) => {},
            }
            glyphs.push(loaded_glyph(&self.font));
            i = i + 1;
        }
        build_atlas(glyphs.as_slice(), settings.intensity_threshold, ROW_SIZE)
    }
}

proof fn lemma_block_size_prefix(blocks: Seq<UnicodeCodeBlock>, n: int)
    requires
        0 <= n < blocks.len(),
        forall|i: int| 0 <= i < blocks.len() ==> (#[trigger] blocks[i]).well_formed(),
    ensures
        total_block_size(blocks.take(n + 1)) == total_block_size(blocks.take(n)) + blocks[n].size(),
        total_block_size(blocks.take(n + 1)) <= total_block_size(blocks),
    decreases blocks.len() - n,
{
    assert(blocks.take(n + 1).drop_last() == blocks.take(n));
    assert(blocks.take(n + 1).last() == blocks[n]);
    if n + 1 == blocks.len() {
        assert(blocks.take(n + 1) == blocks);
    } else {
        lemma_block_size_prefix(blocks, n + 1);
    }
}

} // verus!
