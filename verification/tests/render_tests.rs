use code_editor::draw2d::{decimal_chars, mix_color};
use code_editor::editor::{CodeEditor, CodeEditorMode};
use code_editor::glyphs::GlyphMetrics;
use code_editor::settings::Settings;
use code_editor::theme::Theme;
use code_editor::tokens::{classify, Token, TokenKind};

fn eof_stream() -> Vec<Token> {
    vec![Token { kind: TokenKind::Eof, lexeme: Vec::new() }]
}

fn block_glyph() -> (GlyphMetrics, Vec<u8>) {
    let m = GlyphMetrics { width: 2, height: 2, xmin: 0, ymin: 0, advance_width: 10 };
    (m, vec![255, 255, 255, 255])
}

#[test]
fn theme_default_colors() {
    let t = Theme::new();
    assert_eq!(t.background, [34, 34, 36, 255]);
    assert_eq!(t.text, [255, 255, 255, 255]);
    assert_eq!(t.keywords, [45, 133, 200, 255]);
    assert_eq!(t.error, [237, 55, 54, 255]);
}

#[test]
fn settings_default_gutter_width() {
    let s = Settings::new();
    assert_eq!(s.line_number_width, 95);
}

#[test]
fn classify_colors_by_kind_and_mode() {
    let t = Theme::new();
    assert_eq!(classify(&t, TokenKind::Identifier, CodeEditorMode::Rhai), (t.identifier, true));
    // The plain-text mode paints everything in the text color.
    assert_eq!(classify(&t, TokenKind::Identifier, CodeEditorMode::Text), (t.text, true));
    assert_eq!(classify(&t, TokenKind::KeywordWhile, CodeEditorMode::Rhai), (t.keywords, true));
    assert_eq!(classify(&t, TokenKind::KeywordWhile, CodeEditorMode::Settings), (t.text, true));
    assert_eq!(classify(&t, TokenKind::HexColor, CodeEditorMode::Settings), (t.string, true));
    // Brackets are colored in every mode.
    assert_eq!(classify(&t, TokenKind::LeftParen, CodeEditorMode::Text), (t.brackets, true));
    // Layout tokens draw no glyphs.
    assert_eq!(classify(&t, TokenKind::Space, CodeEditorMode::Rhai), (t.text, false));
    assert_eq!(classify(&t, TokenKind::Eof, CodeEditorMode::Rhai), (t.text, false));
}

#[test]
fn mix_color_interpolates_linearly() {
    let bg = [0, 0, 0, 0];
    let fg = [255, 255, 255, 255];
    assert_eq!(mix_color(&bg, &fg, 255), [255, 255, 255, 255]);
    assert_eq!(mix_color(&bg, &fg, 0), [0, 0, 0, 0]);
    assert_eq!(mix_color(&bg, &fg, 128), [128, 128, 128, 128]);
    // (100 * 155 + 200 * 100) / 255 = 139 on every channel.
    assert_eq!(mix_color(&[100; 4], &[200; 4], 100), [139; 4]);
}

#[test]
fn decimal_digits_of_numbers() {
    assert_eq!(decimal_chars(0), vec!['0']);
    assert_eq!(decimal_chars(7), vec!['7']);
    assert_eq!(decimal_chars(42), vec!['4', '2']);
    assert_eq!(decimal_chars(1005), vec!['1', '0', '0', '5']);
}

#[test]
fn glyph_cache_stores_and_finds() {
    let mut ed = CodeEditor::new();
    assert!(!ed.has_glyph('a'));
    let (m, bm) = block_glyph();
    ed.insert_glyph('a', m, bm);
    assert!(ed.has_glyph('a'));
    assert!(!ed.has_glyph('b'));
}

#[test]
fn render_requires_font_metrics() {
    let mut ed = CodeEditor::new();
    ed.set_text("ab".to_string());
    let toks = eof_stream();
    ed.process_text(&toks);
    // Without font metrics nothing is laid out and the state stays dirty.
    assert!(ed.needs_update);
    assert!(ed.text_buffer.is_empty());
}

#[test]
fn render_allocates_surfaces_to_fit() {
    let mut ed = CodeEditor::new();
    ed.set_font_metrics(10, 22, 17);
    let (m, bm) = block_glyph();
    ed.insert_glyph('a', m, bm.clone());
    ed.insert_glyph('b', m, bm);
    ed.set_text("ab\ncd".to_string());
    let toks = eof_stream();
    ed.process_text(&toks);
    assert!(!ed.needs_update);
    // Two lines of height 22; the widest line measures two 10 px advances.
    assert_eq!(ed.text_buffer_size, (20, 44));
    assert_eq!(ed.text_buffer.len(), 20 * 44 * 4);
    assert_eq!(ed.line_numbers_size, (95, 44));
    assert_eq!(ed.max_offset, (2, 2));
}

// Rendering twice without an intervening mutation produces identical
// bitmaps; the token stream is consumed only while the state is dirty.
#[test]
fn render_is_idempotent_when_clean() {
    let mut ed = CodeEditor::new();
    ed.set_font_metrics(10, 22, 17);
    let (m, bm) = block_glyph();
    ed.insert_glyph('a', m, bm);
    ed.set_text("a".to_string());
    let toks = vec![
        Token { kind: TokenKind::Identifier, lexeme: vec!['a'] },
        Token { kind: TokenKind::Eof, lexeme: Vec::new() },
    ];
    ed.process_text(&toks);
    assert!(!ed.needs_update);
    let code = ed.text_buffer.clone();
    let gutter = ed.line_numbers_buffer.clone();

    // A second pass, even over a different token stream, changes nothing.
    let other = eof_stream();
    ed.process_text(&other);
    assert_eq!(ed.text_buffer, code);
    assert_eq!(ed.line_numbers_buffer, gutter);
}

#[test]
fn render_composites_glyph_over_background() {
    let mut ed = CodeEditor::new();
    ed.set_font_metrics(10, 22, 17);
    let (m, bm) = block_glyph();
    ed.insert_glyph('a', m, bm);
    ed.set_text("a".to_string());
    let toks = vec![
        Token { kind: TokenKind::Identifier, lexeme: vec!['a'] },
        Token { kind: TokenKind::Eof, lexeme: Vec::new() },
    ];
    ed.process_text(&toks);
    // The glyph's full-coverage pixels carry the identifier color; if the
    // compositor handed the background through unchanged this would be 0.
    let theme = Theme::new();
    // Baseline offset: font_size - height - ymin = 17 - 2 - 0 = 15 rows down.
    let stride = ed.text_buffer_size.0;
    let idx = (15 * stride + 0) * 4;
    assert_eq!(ed.text_buffer[idx], theme.identifier[0]);
    assert_eq!(ed.text_buffer[idx + 1], theme.identifier[1]);
}

// The host paint contract: drawing never writes outside the given rect.
#[test]
fn draw_stays_inside_rect() {
    let mut ed = CodeEditor::new();
    ed.set_font_metrics(10, 22, 17);
    ed.set_text("ab".to_string());
    let stride = 250;
    let mut frame = vec![7u8; stride * 60 * 4];
    let toks = eof_stream();
    ed.draw(&mut frame, (10, 5, 200, 50), stride, &toks);

    // Pixels left of, above, right of and below the rect are untouched.
    for p in [(0usize, 0usize), (9, 5), (10, 4), (220, 20), (5, 56)] {
        let idx = (p.1 * stride + p.0) * 4;
        assert_eq!(&frame[idx..idx + 4], &[7, 7, 7, 7], "pixel {:?} changed", p);
    }

    let theme = Theme::new();
    // Inside the rect the 95 px gutter background was painted.
    let idx = (20 * stride + 40) * 4;
    assert_eq!(&frame[idx..idx + 4], &theme.line_numbers_bg[..]);
    // Right of the gutter lies the general background.
    let idx = (20 * stride + 150) * 4;
    assert_eq!(&frame[idx..idx + 4], &theme.background[..]);
    // The cursor is drawn just right of the gutter at the first cell.
    let idx = (5 * stride + 105) * 4;
    assert_eq!(&frame[idx..idx + 4], &theme.cursor[..]);
}

#[test]
fn error_line_recolors_gutter_number() {
    let mut ed = CodeEditor::new();
    ed.set_font_metrics(10, 22, 17);
    // A digit glyph so that the gutter actually draws something.
    let (m, bm) = block_glyph();
    ed.insert_glyph('1', m, bm);
    ed.set_text("a\n".to_string());
    ed.set_error(Some(("boom".to_string(), Some(1))));
    let toks = vec![
        Token { kind: TokenKind::LineFeed, lexeme: vec!['\n'] },
        Token { kind: TokenKind::Eof, lexeme: Vec::new() },
    ];
    ed.process_text(&toks);
    let theme = Theme::new();
    // The digit 1 is right-aligned in the 75 px band: x = 75 - 10 = 65,
    // baseline row 15.
    let stride = ed.line_numbers_size.0;
    let idx = (15 * stride + 65) * 4;
    assert_eq!(&ed.line_numbers_buffer[idx..idx + 4], &theme.error[..]);
}

#[test]
fn set_mode_resets_scroll() {
    let mut ed = CodeEditor::new();
    ed.max_offset = (50, 50);
    ed.offset = (3, 4);
    ed.set_mode(CodeEditorMode::Text);
    assert_eq!(ed.offset, (0, 0));
    assert_eq!(ed.mode, CodeEditorMode::Text);
}

#[test]
fn measure_uses_cached_glyph_advances() {
    let mut ed = CodeEditor::new();
    ed.set_font_metrics(10, 22, 17);
    // A glyph wider than the fallback advance widens the measured line.
    let m = GlyphMetrics { width: 2, height: 2, xmin: 0, ymin: 0, advance_width: 12 };
    ed.insert_glyph('a', m, vec![255; 4]);
    ed.insert_glyph('b', m, vec![255; 4]);
    ed.set_text("ab".to_string());
    let toks = eof_stream();
    ed.process_text(&toks);
    assert_eq!(ed.text_buffer_size, (24, 22));
    // Horizontal scroll maximum is the measured width over the advance.
    assert_eq!(ed.max_offset.0, 2);
}

#[test]
fn empty_token_stream_paints_nothing() {
    let mut ed = CodeEditor::new();
    ed.set_font_metrics(10, 22, 17);
    ed.set_text("ab".to_string());
    let toks: Vec<Token> = Vec::new();
    ed.process_text(&toks);
    // Surfaces are regenerated and left blank: no token, no paint.
    assert!(ed.text_buffer.iter().all(|&b| b == 0));
    assert!(ed.line_numbers_buffer.iter().all(|&b| b == 0));
    assert_eq!(ed.text_buffer.len(), 20 * 22 * 4);
}
