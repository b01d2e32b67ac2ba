use cjk_font_atlas::{cjk_radicals_supplement, cjk_unified_ideographs, RangeGlyphMapping, UnicodeCodeBlock};

#[test]
fn test_range_one_element() {
    let map = RangeGlyphMapping::new(['?'..='?'], 0);

    assert_eq!(map.chars_in_range(), 1);
    assert_eq!(map.index('?'), 0);
}

#[test]
fn test_range_cjk_unified_ideographs() {
    let map = RangeGlyphMapping::new(['?'..='?', '\u{4E00}'..='\u{9FFF}'], 0);

    //     1: Question Mark
    // 20992: Code points in CJK Unified Ideographs
    assert_eq!(map.chars_in_range(), 1 + 20992);
    assert_eq!(map.index('A'), 0);
    assert_eq!(map.index('\u{4E41}'), 1 + 65);
}

#[test]
fn test_range_cjk_radicals_supplement() {
    let map = RangeGlyphMapping::new(['?'..='?', '\u{2E80}'..='\u{2EF3}'], 0);

    //   1: Question Mark
    // 116: Code points in CJK Radicals Supplement (incl. U+2E9A, which is
    //      unassigned)
    assert_eq!(map.chars_in_range(), 1 + 116);
    assert_eq!(map.index('A'), 0);
    assert_eq!(map.index('\u{2E89}'), 1 + 9);
    assert_eq!(map.index('\u{2EBA}'), 1 + 58);
}

#[test]
fn mapping_without_ranges_gives_the_default() {
    let map = RangeGlyphMapping::new([], 0);
    assert_eq!(map.chars_in_range(), 0);
    assert_eq!(map.index('?'), 0);
    assert_eq!(map.index('\u{4E00}'), 0);
}

#[test]
fn unmatched_character_gets_the_default_index() {
    let map = RangeGlyphMapping::new(['a'..='c', 'x'..='z'], 4);
    assert_eq!(map.chars_in_range(), 6);
    assert_eq!(map.index('d'), 4);
    assert_eq!(map.index('w'), 4);
    assert_eq!(map.index('\u{10FFFF}'), 4);
    assert_eq!(map.index('\0'), 4);
}

#[test]
fn index_counts_on_from_the_ranges_before() {
    let map = RangeGlyphMapping::new(['a'..='c', 'x'..='z', '0'..='9'], 0);
    assert_eq!(map.index('a'), 0);
    assert_eq!(map.index('c'), 2);
    assert_eq!(map.index('x'), 3);
    assert_eq!(map.index('z'), 5);
    assert_eq!(map.index('0'), 6);
    assert_eq!(map.index('9'), 15);
    assert_eq!(map.chars_in_range(), 16);
}

#[test]
fn first_range_that_holds_the_character_wins() {
    let map = RangeGlyphMapping::new(['a'..='f', 'd'..='k'], 0);
    assert_eq!(map.index('d'), 3);
    assert_eq!(map.index('f'), 5);
    assert_eq!(map.index('g'), 6 + 3);
    assert_eq!(map.chars_in_range(), 6 + 8);
}

#[test]
fn unchecked_mapping_keeps_a_default_past_the_end() {
    let map = RangeGlyphMapping::new_unchecked(['a'..='c'], 99);
    assert_eq!(map.chars_in_range(), 3);
    assert_eq!(map.index('b'), 1);
    assert_eq!(map.index('z'), 99);
}

#[test]
fn default_index_may_equal_the_count() {
    let map = RangeGlyphMapping::new(['a'..='c'], 3);
    assert_eq!(map.index('!'), 3);
}

#[test]
fn index_is_the_position_among_the_characters_of_the_blocks() {
    let blocks = [
        UnicodeCodeBlock::new('?', '?').unwrap(),
        cjk_radicals_supplement(),
        cjk_unified_ideographs(),
    ];
    let map = RangeGlyphMapping::new([blocks[0].range(), blocks[1].range(), blocks[2].range()], 0);
    let mut chars: Vec<char> = Vec::new();
    for block in blocks.iter() {
        block.append_chars(&mut chars);
    }
    assert_eq!(chars.len(), 1 + 116 + 20992);
    assert_eq!(map.chars_in_range(), chars.len());
    for (position, chr) in chars.iter().enumerate() {
        assert_eq!(map.index(*chr), position);
    }
}
