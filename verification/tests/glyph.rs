use cjk_font_atlas::{is_lit, GlyphMetrics, RasterGlyph};

fn glyph(width: i32, rows: i32, top: i32, hori: i64, vert: i64, buffer: Vec<u8>) -> RasterGlyph {
    RasterGlyph { width, rows, left: 0, top, hori_advance: hori, vert_advance: vert, buffer }
}

#[test]
fn sample_at_the_threshold_is_off_and_one_above_is_on() {
    assert!(!is_lit(128, 128));
    assert!(is_lit(129, 128));
    assert!(!is_lit(127, 128));
    assert!(!is_lit(0, 0));
    assert!(is_lit(1, 0));
    assert!(!is_lit(255, 255));
    assert!(is_lit(255, 254));
    for threshold in 0..255u8 {
        assert!(!is_lit(threshold, threshold));
        assert!(is_lit(threshold + 1, threshold));
    }
}

#[test]
fn metrics_take_the_advance_in_whole_pixels() {
    let g = glyph(3, 2, 2, 12 * 64 + 63, 10 * 64, vec![0; 6]);
    assert_eq!(g.metrics(), Some(GlyphMetrics { height: 10 + 2 - 2, width: 12 }));
}

#[test]
fn metrics_take_the_bitmap_height_where_it_is_larger_than_the_advance() {
    let g = glyph(1, 20, 15, 64, 10 * 64, vec![0; 20]);
    assert_eq!(g.metrics(), Some(GlyphMetrics { height: 20 + 20 - 15, width: 1 }));
}

#[test]
fn metrics_add_what_hangs_below_a_negative_top() {
    let g = glyph(1, 2, -3, 0, 5 * 64, vec![0; 2]);
    assert_eq!(g.metrics(), Some(GlyphMetrics { height: 5 + 2 + 3, width: 0 }));
}

#[test]
fn metrics_of_an_empty_glyph() {
    let g = glyph(0, 0, 0, 0, 0, vec![]);
    assert_eq!(g.metrics(), Some(GlyphMetrics { height: 0, width: 0 }));
}

#[test]
fn glyph_with_a_negative_size_or_advance_has_no_metrics() {
    assert_eq!(glyph(-1, 1, 0, 64, 64, vec![0; 4]).metrics(), None);
    assert_eq!(glyph(1, -1, 0, 64, 64, vec![0; 4]).metrics(), None);
    assert_eq!(glyph(1, 1, 0, -1, 64, vec![0; 4]).metrics(), None);
    assert_eq!(glyph(1, 1, 0, 64, -64, vec![0; 4]).metrics(), None);
}

#[test]
fn glyph_with_a_short_buffer_has_no_metrics() {
    assert_eq!(glyph(3, 2, 0, 64, 64, vec![0; 5]).metrics(), None);
    assert!(glyph(3, 2, 0, 64, 64, vec![0; 6]).metrics().is_some());
    assert!(glyph(3, 2, 0, 64, 64, vec![0; 8]).metrics().is_some());
}

#[test]
fn glyph_with_a_top_above_its_height_has_no_metrics() {
    assert_eq!(glyph(1, 1, 7, 64, 5 * 64, vec![0]).metrics(), None);
    assert_eq!(
        glyph(1, 1, 6, 64, 5 * 64, vec![0]).metrics(),
        Some(GlyphMetrics { height: 0, width: 1 })
    );
}
