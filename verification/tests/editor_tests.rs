use code_editor::editor::CodeEditor;
use code_editor::WidgetKey;

fn editor_with(text: &str) -> CodeEditor {
    let mut ed = CodeEditor::new();
    ed.set_text(text.to_string());
    ed
}

// Inserting a character at the cursor and then pressing backspace restores
// the original text and the original cursor coordinate.
#[test]
fn insert_then_backspace_round_trips() {
    let mut ed = editor_with("hello");
    ed.set_cursor((2, 0));
    assert!(ed.insert_char('x'));
    assert_eq!(ed.get_text(), "hexllo");
    assert_eq!(ed.cursor_pos, (3, 0));
    assert!(ed.delete_key());
    assert_eq!(ed.get_text(), "hello");
    assert_eq!(ed.cursor_pos, (2, 0));
    assert_eq!(ed.cursor_offset, 2);
}

#[test]
fn insert_round_trips_in_multiline_text() {
    let mut ed = editor_with("ab\ncd\nef");
    ed.set_cursor((1, 1));
    ed.insert_char('Q');
    assert_eq!(ed.get_text(), "ab\ncQd\nef");
    assert_eq!(ed.cursor_pos, (2, 1));
    ed.delete_key();
    assert_eq!(ed.get_text(), "ab\ncd\nef");
    assert_eq!(ed.cursor_pos, (1, 1));
}

// Pressing return in "ab\ncd" with the cursor at the end of "ab" inserts a
// line feed at offset 2: the text becomes "ab\n\ncd" and the cursor moves
// to the start of the new line.
#[test]
fn return_splits_line_at_cursor() {
    let mut ed = editor_with("ab\ncd");
    ed.set_cursor((2, 0));
    assert_eq!(ed.cursor_offset, 2);
    assert!(ed.return_key());
    assert_eq!(ed.get_text(), "ab\n\ncd");
    assert_eq!(ed.cursor_pos, (0, 1));
    assert_eq!(ed.cursor_offset, 3);
}

#[test]
fn backspace_joins_lines() {
    let mut ed = editor_with("ab\ncd");
    ed.set_cursor((0, 1));
    assert_eq!(ed.cursor_offset, 3);
    ed.delete_key();
    assert_eq!(ed.get_text(), "abcd");
    // The cursor lands at the end of the joined previous line.
    assert_eq!(ed.cursor_pos, (2, 0));
}

#[test]
fn backspace_at_origin_is_a_no_op() {
    let mut ed = editor_with("ab");
    ed.set_cursor((0, 0));
    ed.delete_key();
    assert_eq!(ed.get_text(), "ab");
    assert_eq!(ed.cursor_pos, (0, 0));
}

#[test]
fn tab_inserts_two_spaces() {
    let mut ed = editor_with("ab");
    ed.set_cursor((1, 0));
    assert!(ed.tab_key());
    assert_eq!(ed.get_text(), "a  b");
    assert_eq!(ed.cursor_pos, (3, 0));
}

#[test]
fn insert_replaces_selection() {
    let mut ed = editor_with("hello world");
    ed.range_start = Some((6, 0));
    ed.range_end = Some((10, 0));
    ed.insert_char('x');
    assert_eq!(ed.get_text(), "hello x");
    assert!(ed.range_start.is_none());
    assert!(ed.range_end.is_none());
}

#[test]
fn backspace_deletes_selection() {
    let mut ed = editor_with("hello world");
    ed.range_start = Some((6, 0));
    ed.range_end = Some((10, 0));
    ed.delete_key();
    assert_eq!(ed.get_text(), "hello ");
    assert_eq!(ed.cursor_pos, (6, 0));
    assert!(ed.range_start.is_none());
}

#[test]
fn arrows_move_and_wrap() {
    let mut ed = editor_with("ab\ncd");
    ed.set_cursor((0, 1));
    ed.key_down(None, Some(WidgetKey::Left));
    // Wraps to the end of the previous line.
    assert_eq!(ed.cursor_pos, (2, 0));
    ed.key_down(None, Some(WidgetKey::Right));
    // Walks over the line feed back down.
    assert_eq!(ed.cursor_pos, (0, 1));
    ed.key_down(None, Some(WidgetKey::Up));
    assert_eq!(ed.cursor_pos, (0, 0));
    ed.key_down(None, Some(WidgetKey::Down));
    assert_eq!(ed.cursor_pos, (0, 1));
}

#[test]
fn modifier_jumps_to_line_edges() {
    let mut ed = editor_with("hello\nworld");
    ed.set_cursor((2, 0));
    ed.modifier_changed(false, true, false, false);
    ed.key_down(None, Some(WidgetKey::Right));
    assert_eq!(ed.cursor_pos, (5, 0));
    ed.key_down(None, Some(WidgetKey::Left));
    assert_eq!(ed.cursor_pos, (0, 0));
}

#[test]
fn down_on_last_line_stays_put() {
    let mut ed = editor_with("ab");
    ed.set_cursor((1, 0));
    ed.key_down(None, Some(WidgetKey::Down));
    assert_eq!(ed.cursor_pos, (1, 0));
}

#[test]
fn printable_key_inserts() {
    let mut ed = editor_with("");
    assert!(ed.key_down(Some('h'), None));
    assert!(ed.key_down(Some('i'), None));
    assert_eq!(ed.get_text(), "hi");
    assert_eq!(ed.cursor_pos, (2, 0));
}

#[test]
fn control_characters_are_ignored() {
    let mut ed = editor_with("ab");
    assert!(!ed.key_down(Some('\u{7}'), None));
    assert_eq!(ed.get_text(), "ab");
}

#[test]
fn clipboard_shortcut_is_swallowed_not_typed() {
    let mut ed = editor_with("ab");
    ed.modifier_changed(false, true, false, false);
    assert!(ed.key_down(Some('c'), None));
    assert_eq!(ed.get_text(), "ab");
}

#[test]
fn copy_cut_paste() {
    let mut ed = editor_with("hello world");
    ed.range_start = Some((6, 0));
    ed.range_end = Some((10, 0));
    assert_eq!(ed.clipboard_copy(), "world");
    assert_eq!(ed.get_text(), "hello world");

    let cut = ed.clipboard_cut();
    assert_eq!(cut, "world");
    assert_eq!(ed.get_text(), "hello ");
    assert_eq!(ed.cursor_pos, (6, 0));

    assert!(ed.clipboard_paste("there".to_string()));
    assert_eq!(ed.get_text(), "hello there");
    assert_eq!(ed.cursor_pos, (11, 0));
}

#[test]
fn paste_multiline_puts_cursor_at_end_of_paste() {
    let mut ed = editor_with("ab");
    ed.set_cursor((1, 0));
    ed.clipboard_paste("x\ny".to_string());
    assert_eq!(ed.get_text(), "ax\nyb");
    assert_eq!(ed.cursor_pos, (1, 1));
}

#[test]
fn edits_are_recorded_for_undo() {
    let mut ed = editor_with("hello");
    ed.set_cursor((5, 0));
    ed.insert_char('!');
    assert_eq!(ed.get_text(), "hello!");
    assert!(ed.undo_stack.has_undo());
    // The caller applies the snapshot, as the stack contract says.
    let previous = ed.undo_stack.undo();
    ed.set_text(previous);
    assert_eq!(ed.get_text(), "hello");
}

#[test]
fn set_text_marks_dirty_and_clamps_cursor() {
    let mut ed = editor_with("hello world");
    ed.set_cursor((11, 0));
    ed.set_text("ab".to_string());
    assert!(ed.needs_update);
    assert_eq!(ed.cursor_pos, (2, 0));
    assert_eq!(ed.cursor_offset, 2);
}

#[test]
fn left_at_origin_is_a_no_op() {
    let mut ed = editor_with("ab");
    ed.set_cursor((0, 0));
    ed.key_down(None, Some(WidgetKey::Left));
    assert_eq!(ed.cursor_pos, (0, 0));
}

#[test]
fn right_past_end_is_a_no_op() {
    let mut ed = editor_with("ab");
    ed.set_cursor((2, 0));
    ed.key_down(None, Some(WidgetKey::Right));
    assert_eq!(ed.cursor_pos, (2, 0));
}

#[test]
fn paste_empty_string_changes_nothing_but_records() {
    let mut ed = editor_with("ab");
    ed.set_cursor((1, 0));
    assert!(ed.clipboard_paste(String::new()));
    assert_eq!(ed.get_text(), "ab");
    assert_eq!(ed.cursor_pos, (1, 0));
}
