use textflow::display::Font;
use textflow::span::{LineBreaking, Span};
use textflow::theme;

fn fixed_font(id: u32, line_height: i32, width: i32) -> Font {
    Font::new(id, line_height, vec![width; 256])
}

#[test]
fn whole_text_fits_without_whitespace() {
    // Text with no whitespace and sufficient width: the whole text comes
    // back with zero vertical advance.
    let font = fixed_font(1, 16, 8);
    let hyphen = fixed_font(2, 16, 8);
    let span = Span::fit_horizontally(b"abc", 100, &font, &hyphen, LineBreaking::BreakAtWhitespace);
    assert_eq!(span.length, 3);
    assert_eq!(span.skip_next_chars, 0);
    assert_eq!(span.advance.x, 24);
    assert_eq!(span.advance.y, 0);
    assert!(!span.insert_hyphen_before_line_break);
}

#[test]
fn bare_lf_forces_break_at_its_offset() {
    let font = fixed_font(1, 16, 8);
    let hyphen = fixed_font(2, 16, 8);
    let span = Span::fit_horizontally(
        b"ab\ncd",
        1000,
        &font,
        &hyphen,
        LineBreaking::BreakAtWhitespace,
    );
    assert_eq!(span.length, 2);
    assert_eq!(span.skip_next_chars, 1);
    assert_eq!(span.advance.x, 16);
    assert_eq!(span.advance.y, 16);
    assert!(!span.insert_hyphen_before_line_break);
}

#[test]
fn bare_cr_halves_the_vertical_advance() {
    let font = fixed_font(1, 16, 8);
    let hyphen = fixed_font(2, 16, 8);
    let span = Span::fit_horizontally(
        b"ab\rcd",
        1000,
        &font,
        &hyphen,
        LineBreaking::BreakAtWhitespace,
    );
    assert_eq!(span.length, 2);
    assert_eq!(span.skip_next_chars, 1);
    assert_eq!(span.advance.x, 16);
    assert_eq!(span.advance.y, 8);
    assert!(!span.insert_hyphen_before_line_break);
}

#[test]
fn later_whitespace_overwrites_earlier_hyphen_candidate() {
    // Both a hyphen break and a later space fit: the most recently recorded
    // candidate wins, so the break lands on the space, without a hyphen.
    let font = fixed_font(1, 16, 8);
    let hyphen = fixed_font(2, 16, 8);
    // "ab cdefgh": budget fits "ab cde" (48px) but not "ab cdef" + more.
    let span = Span::fit_horizontally(
        b"ab cdefgh",
        48,
        &font,
        &hyphen,
        LineBreaking::BreakWordsAndInsertHyphen,
    );
    // Candidates: hyphen breaks after each byte while the hyphen fits, the
    // space records "break before it, skip it". After the space, hyphen
    // candidates keep overwriting while 8 more pixels fit; the last one that
    // fits with a hyphen is after "ab cde" (48 + 8 > 48 fails), so the
    // final recorded candidate is the hyphen after "ab cd" (40 + 8 <= 48).
    assert_eq!(span.length, 5);
    assert_eq!(span.skip_next_chars, 0);
    assert!(span.insert_hyphen_before_line_break);
    assert_eq!(span.advance.x, 40);
    assert_eq!(span.advance.y, 16);
}

#[test]
fn whitespace_break_wins_under_whitespace_policy() {
    let font = fixed_font(1, 16, 8);
    let hyphen = fixed_font(2, 16, 8);
    // Under break-at-whitespace, once a space was seen no hyphen candidate
    // is recorded any more; overflow returns the space break.
    let span = Span::fit_horizontally(
        b"ab cdefgh",
        48,
        &font,
        &hyphen,
        LineBreaking::BreakAtWhitespace,
    );
    assert_eq!(span.length, 2);
    assert_eq!(span.skip_next_chars, 1);
    assert!(!span.insert_hyphen_before_line_break);
    assert_eq!(span.advance.x, 16);
    assert_eq!(span.advance.y, 16);
}

#[test]
fn too_narrow_for_any_glyph_returns_zero_length_break() {
    let font = fixed_font(1, 16, 8);
    let hyphen = fixed_font(2, 16, 8);
    let span = Span::fit_horizontally(b"abc", 4, &font, &hyphen, LineBreaking::BreakAtWhitespace);
    assert_eq!(span.length, 0);
    assert_eq!(span.skip_next_chars, 0);
    assert_eq!(span.advance.x, 0);
    assert_eq!(span.advance.y, 16);
    assert!(!span.insert_hyphen_before_line_break);
}

#[test]
fn single_run_may_hyphenate_even_under_whitespace_policy() {
    // No whitespace seen yet: a word may break with a hyphen even under the
    // break-at-whitespace policy.
    let font = fixed_font(1, 16, 8);
    let hyphen = fixed_font(2, 16, 8);
    let span = Span::fit_horizontally(
        b"abcdefgh",
        40,
        &font,
        &hyphen,
        LineBreaking::BreakAtWhitespace,
    );
    // 4 glyphs are 32px; a fifth would hit 40 and the hyphen would not fit.
    assert_eq!(span.length, 4);
    assert_eq!(span.skip_next_chars, 0);
    assert!(span.insert_hyphen_before_line_break);
    assert_eq!(span.advance.x, 32);
    assert_eq!(span.advance.y, 16);
}

#[test]
fn text_width_sums_glyph_widths() {
    let mut widths = vec![8; 256];
    widths[b'i' as usize] = 4;
    widths[b'w' as usize] = 12;
    let font = textflow::display::Font::new(7, 16, widths);
    assert_eq!(font.text_width(b""), 0);
    assert_eq!(font.text_width(b"iw"), 16);
    assert_eq!(font.text_width(b"wide"), 32);
    assert_eq!(font.byte_width(b'i'), 4);
}

#[test]
fn theme_fonts_have_distinct_identifiers() {
    let normal = theme::font_normal();
    let bold = theme::font_bold();
    let mono = theme::font_mono();
    assert_eq!(normal.id, theme::FONT_NORMAL_ID);
    assert_eq!(bold.id, theme::FONT_BOLD_ID);
    assert_eq!(mono.id, theme::FONT_MONO_ID);
    assert_eq!(normal.text_width(b"ab"), 16);
    assert_eq!(bold.text_width(b"ab"), 18);
}
