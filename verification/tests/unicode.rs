use cjk_font_atlas::{cjk_radicals_supplement, cjk_unified_ideographs, BuildError, UnicodeCodeBlock};

#[test]
fn block_of_one_character() {
    let block = UnicodeCodeBlock::new('?', '?').unwrap();
    assert_eq!(block.block_size(), 1);
    assert_eq!(block.to_chars(), vec!['?']);
    assert_eq!(block.range(), '?'..='?');
}

#[test]
fn block_with_end_before_start_is_refused() {
    assert_eq!(UnicodeCodeBlock::new('b', 'a').err(), Some(BuildError::InvalidRange));
    assert_eq!(UnicodeCodeBlock::new('\u{10FFFF}', '\0').err(), Some(BuildError::InvalidRange));
    assert!(UnicodeCodeBlock::new('a', 'b').is_ok());
    assert!(UnicodeCodeBlock::new('a', 'a').is_ok());
}

#[test]
fn block_size_is_end_minus_start_plus_one() {
    assert_eq!(UnicodeCodeBlock::new('a', 'z').unwrap().block_size(), 26);
    assert_eq!(cjk_radicals_supplement().block_size(), 0x2EF3 - 0x2E80 + 1);
    assert_eq!(cjk_radicals_supplement().block_size(), 116);
    assert_eq!(cjk_unified_ideographs().block_size(), 20992);
    assert_eq!(UnicodeCodeBlock::new('\0', '\u{10FFFF}').unwrap().block_size(), 0x110000);
}

#[test]
fn named_blocks_have_their_bounds() {
    assert_eq!(cjk_unified_ideographs().range(), '\u{4E00}'..='\u{9FFF}');
    assert_eq!(cjk_radicals_supplement().range(), '\u{2E80}'..='\u{2EF3}');
}

#[test]
fn characters_come_in_ascending_order_and_as_many_as_the_size() {
    let block = cjk_radicals_supplement();
    let chars = block.to_chars();
    assert_eq!(chars.len(), block.block_size());
    assert_eq!(chars[0], '\u{2E80}');
    assert_eq!(chars[9], '\u{2E89}');
    assert_eq!(chars[115], '\u{2EF3}');
    for pair in chars.windows(2) {
        assert!(pair[0] < pair[1]);
        assert_eq!(pair[0] as u32 + 1, pair[1] as u32);
    }
}

#[test]
fn characters_match_the_iteration_of_the_range() {
    let block = UnicodeCodeBlock::new('\u{4E00}', '\u{4EFF}').unwrap();
    let expected: Vec<char> = block.range().collect();
    assert_eq!(block.to_chars(), expected);
}

#[test]
fn block_across_the_surrogates_skips_them() {
    let block = UnicodeCodeBlock::new('\u{D7FE}', '\u{E001}').unwrap();
    assert_eq!(block.block_size(), 0x804);
    assert_eq!(block.to_chars(), vec!['\u{D7FE}', '\u{D7FF}', '\u{E000}', '\u{E001}']);
    let expected: Vec<char> = ('\u{D7FE}'..='\u{E001}').collect();
    assert_eq!(block.to_chars(), expected);
}

#[test]
fn block_next_to_the_surrogates() {
    let below = UnicodeCodeBlock::new('\u{D7FD}', '\u{D7FF}').unwrap();
    assert_eq!(below.to_chars(), vec!['\u{D7FD}', '\u{D7FE}', '\u{D7FF}']);
    let above = UnicodeCodeBlock::new('\u{E000}', '\u{E002}').unwrap();
    assert_eq!(above.to_chars(), vec!['\u{E000}', '\u{E001}', '\u{E002}']);
    let top = UnicodeCodeBlock::new('\u{10FFFE}', '\u{10FFFF}').unwrap();
    assert_eq!(top.to_chars(), vec!['\u{10FFFE}', '\u{10FFFF}']);
}

#[test]
fn append_keeps_what_was_there() {
    let mut chars = vec!['x', 'y'];
    UnicodeCodeBlock::new('a', 'c').unwrap().append_chars(&mut chars);
    UnicodeCodeBlock::new('0', '1').unwrap().append_chars(&mut chars);
    assert_eq!(chars, vec!['x', 'y', 'a', 'b', 'c', '0', '1']);
}
