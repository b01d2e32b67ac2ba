use cjk_font_atlas::{BuildError, FontOutputSettings, MonoFontBuilder, UnicodeCodeBlock};

const FONT: &str = "/usr/share/fonts/truetype/dejavu/DejaVuSansMono.ttf";

/// A font of the machine, where it has one.
fn open_font() -> Option<freetype::Face> {
    let library = freetype::Library::init().ok()?;
    library.new_face(FONT, 0).ok()
}

#[test]
fn builder_lists_the_characters_block_after_block() {
    let Some(font) = open_font() else { return };
    let blocks = [
        UnicodeCodeBlock::new('?', '?').unwrap(),
        UnicodeCodeBlock::new('a', 'c').unwrap(),
        UnicodeCodeBlock::new('A', 'B').unwrap(),
    ];
    let builder = MonoFontBuilder::new(font, &blocks);
    assert_eq!(builder.chars(), vec!['?', 'a', 'b', 'c', 'A', 'B']);
    assert_eq!(builder.num_chars(), 6);
}

#[test]
fn builder_without_characters_fails() {
    let Some(font) = open_font() else { return };
    let builder = MonoFontBuilder::new(font, &[]);
    assert_eq!(builder.num_chars(), 0);
    let result = builder.build(FontOutputSettings { font_size: 16, intensity_threshold: 128 });
    assert_eq!(result.err(), Some(BuildError::EmptyCharacterSet));
}

#[test]
fn builder_renders_an_atlas_of_the_font() {
    let Some(font) = open_font() else { return };
    let blocks = [UnicodeCodeBlock::new('a', 'z').unwrap(), UnicodeCodeBlock::new('0', '9').unwrap()];
    let builder = MonoFontBuilder::new(font, &blocks);
    let atlas = builder.build(FontOutputSettings { font_size: 16, intensity_threshold: 128 }).unwrap();
    assert_eq!(atlas.columns(), 32);
    assert_eq!(atlas.rows(), 2);
    assert!(atlas.glyph_width() > 0);
    assert!(atlas.glyph_height() > 0);
    assert_eq!(atlas.image_width() as usize, 32 * atlas.glyph_width());
    assert_eq!(atlas.image_height() as usize, 2 * atlas.glyph_height());
    assert_eq!(atlas.pixels().len(), atlas.image_width() as usize * atlas.image_height() as usize);
    assert!(atlas.pixels().iter().any(|sample| *sample == 255));
    assert!(atlas.pixels().iter().all(|sample| *sample == 0 || *sample == 255));
}

#[test]
fn builder_gives_the_same_bytes_each_time() {
    let Some(font) = open_font() else { return };
    let blocks = [UnicodeCodeBlock::new('a', 'z').unwrap()];
    let builder = MonoFontBuilder::new(font, &blocks);
    let first = builder.build(FontOutputSettings { font_size: 24, intensity_threshold: 120 }).unwrap();
    let second = builder.build(FontOutputSettings { font_size: 24, intensity_threshold: 120 }).unwrap();
    assert_eq!(first.raw_bytes(), second.raw_bytes());
    assert_eq!(first.metadata(), second.metadata());
}
