use code_editor::editor::CodeEditor;

fn editor_with(text: &str) -> CodeEditor {
    let mut ed = CodeEditor::new();
    ed.set_text(text.to_string());
    ed
}

// Range extraction is a lossless partition of the text at any coordinate.
#[test]
fn extract_partition_simple() {
    let ed = editor_with("ab\ncd");
    for col in 0..6 {
        for line in 0..3 {
            let before = ed.copy_range(None, Some((col, line)));
            let after = ed.copy_range(Some((col, line)), None);
            assert_eq!(format!("{}{}", before, after), "ab\ncd");
        }
    }
}

#[test]
fn extract_partition_multiline() {
    let text = "fn main() {\n    let x = 1;\n}\n";
    let ed = editor_with(text);
    let c = (4, 1);
    let before = ed.copy_range(None, Some(c));
    let after = ed.copy_range(Some(c), None);
    assert_eq!(before, "fn main() {\n    ");
    assert_eq!(format!("{}{}", before, after), text);
}

#[test]
fn extract_empty_text() {
    let ed = editor_with("");
    assert_eq!(ed.copy_range(None, None), "");
    assert_eq!(ed.copy_range(Some((3, 1)), Some((5, 2))), "");
    assert_eq!(ed.copy_range_incl(None, None), "");
}

#[test]
fn extract_exclusive_vs_inclusive() {
    let ed = editor_with("hello world");
    // Exclusive end stops before column 5, inclusive end takes it too.
    assert_eq!(ed.copy_range(None, Some((5, 0))), "hello");
    assert_eq!(ed.copy_range_incl(None, Some((5, 0))), "hello ");
    assert_eq!(ed.copy_range_incl(Some((6, 0)), Some((10, 0))), "world");
}

#[test]
fn extract_whole_text_without_bounds() {
    let ed = editor_with("one\ntwo");
    assert_eq!(ed.copy_range(None, None), "one\ntwo");
}

#[test]
fn extract_across_lines() {
    let ed = editor_with("ab\ncd\nef");
    assert_eq!(ed.copy_range(Some((1, 0)), Some((1, 2))), "b\ncd\ne");
}

#[test]
fn set_cursor_clamps_column_and_line() {
    let mut ed = editor_with("ab\ncd");
    ed.set_cursor((100, 0));
    assert_eq!(ed.cursor_pos, (2, 0));
    assert_eq!(ed.cursor_offset, 2);
    ed.set_cursor((1, 99));
    // Clamps to the last line.
    assert_eq!(ed.cursor_pos, (1, 1));
    assert_eq!(ed.cursor_offset, 4);
}

#[test]
fn set_cursor_trailing_newline_has_virtual_line() {
    let mut ed = editor_with("ab\n");
    ed.set_cursor((5, 9));
    assert_eq!(ed.cursor_pos, (0, 1));
    assert_eq!(ed.cursor_offset, 3);
}

#[test]
fn empty_text_cursor_is_origin() {
    let mut ed = editor_with("");
    ed.set_cursor((7, 3));
    assert_eq!(ed.cursor_pos, (0, 0));
    assert_eq!(ed.cursor_offset, 0);
}

// Pixel mapping: row divided by line height, column rounded to the nearest
// character boundary, both clamped into the text.
#[test]
fn pixel_position_maps_to_coordinate() {
    let mut ed = editor_with("abc\nde");
    // Default metrics: advance width 10, line height 22.
    ed.set_cursor_offset_from_pos((25, 30));
    // Row 30 is line 1; 25 px rounds to column 3, clamped to the 2-char line.
    assert_eq!(ed.cursor_pos, (2, 1));
    assert_eq!(ed.cursor_offset, 6);
}

#[test]
fn pixel_column_rounds_at_half_cell() {
    let mut ed = editor_with("abcdef");
    ed.set_cursor_offset_from_pos((14, 0));
    assert_eq!(ed.cursor_pos.0, 1);
    ed.set_cursor_offset_from_pos((15, 0));
    assert_eq!(ed.cursor_pos.0, 2);
}

#[test]
fn get_text_round_trips() {
    let mut ed = editor_with("some\ntext\n");
    assert_eq!(ed.get_text(), "some\ntext\n");
}
