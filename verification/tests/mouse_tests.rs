use code_editor::editor::{CodeEditor, LINE_END_COL};

fn editor_with(text: &str) -> CodeEditor {
    let mut ed = CodeEditor::new();
    ed.set_text(text.to_string());
    ed
}

// The gutter is 95 px wide and the default advance width is 10 px, so the
// pixel abscissa for column `c` is 95 + 10 * c.
fn px_of_col(c: usize) -> usize {
    95 + 10 * c
}

// Double-click on "world" selects the word, triple-click within the gesture
// window expands to the whole line up to the unbounded end-of-line column.
#[test]
fn double_and_triple_click() {
    let mut ed = editor_with("hello world");

    // First click: repositions the cursor inside "world".
    assert!(ed.mouse_down_at((px_of_col(8), 5), 1000));
    assert_eq!(ed.cursor_pos, (8, 0));
    assert_eq!(ed.range_start, Some((8, 0)));
    assert_eq!(ed.range_end, None);

    // Second click inside the window: the word's columns 6 to 10.
    assert!(ed.mouse_down_at((px_of_col(8), 5), 1200));
    assert_eq!(ed.range_start, Some((6, 0)));
    assert_eq!(ed.range_end, Some((10, 0)));

    // Third click: the whole line.
    assert!(ed.mouse_down_at((px_of_col(8), 5), 1400));
    assert_eq!(ed.range_start, Some((0, 0)));
    assert_eq!(ed.range_end, Some((LINE_END_COL, 0)));
}

#[test]
fn double_click_on_space_selects_nothing() {
    let mut ed = editor_with("hello world");
    ed.mouse_down_at((px_of_col(5), 5), 1000);
    assert_eq!(ed.cursor_pos, (5, 0));
    assert!(!ed.mouse_down_at((px_of_col(5), 5), 1200));
    assert_eq!(ed.range_end, None);
}

#[test]
fn slow_second_click_repositions_instead() {
    let mut ed = editor_with("hello world");
    ed.mouse_down_at((px_of_col(8), 5), 1000);
    ed.mouse_down_at((px_of_col(2), 5), 5000);
    assert_eq!(ed.cursor_pos, (2, 0));
    assert_eq!(ed.range_start, Some((2, 0)));
    assert_eq!(ed.range_end, None);
}

// On an empty document, any click sets the cursor to (0, 0) and produces no
// selection.
#[test]
fn click_on_empty_document() {
    let mut ed = editor_with("");
    assert!(ed.mouse_down_at((500, 300), 1000));
    assert_eq!(ed.cursor_pos, (0, 0));
    assert_eq!(ed.cursor_offset, 0);
    assert_eq!(ed.range_start, Some((0, 0)));
    assert_eq!(ed.range_end, None);
}

#[test]
fn drag_extends_selection_forward() {
    let mut ed = editor_with("hello");
    ed.mouse_down_at((px_of_col(2), 5), 1000);
    assert_eq!(ed.range_start, Some((2, 0)));
    assert!(ed.mouse_dragged((px_of_col(5), 5)));
    // Anchor stays the start; the live position, one column back, ends it.
    assert_eq!(ed.range_start, Some((2, 0)));
    assert_eq!(ed.range_end, Some((4, 0)));
    assert_eq!(ed.drag_pos, Some((px_of_col(5), 5)));
}

#[test]
fn drag_backwards_swaps_anchor_and_cursor() {
    let mut ed = editor_with("hello");
    ed.mouse_down_at((px_of_col(4), 5), 1000);
    ed.mouse_dragged((px_of_col(1), 5));
    assert_eq!(ed.range_start, Some((1, 0)));
    assert_eq!(ed.range_end, Some((3, 0)));
}

#[test]
fn mouse_up_discards_unfinished_selection() {
    let mut ed = editor_with("hello");
    ed.mouse_down_at((px_of_col(2), 5), 1000);
    assert_eq!(ed.range_end, None);
    assert!(!ed.mouse_up((0, 0)));
    assert_eq!(ed.range_start, None);
    assert_eq!(ed.range_end, None);
    assert_eq!(ed.drag_pos, None);
}

#[test]
fn mouse_up_keeps_complete_selection() {
    let mut ed = editor_with("hello");
    ed.mouse_down_at((px_of_col(1), 5), 1000);
    ed.mouse_dragged((px_of_col(4), 5));
    ed.mouse_up((0, 0));
    assert_eq!(ed.range_start, Some((1, 0)));
    assert_eq!(ed.range_end, Some((3, 0)));
}

// Wheel deltas below one step leave the offset unchanged; crossing the step
// moves it and carries over exactly the remainder.
#[test]
fn wheel_accumulates_below_threshold() {
    let mut ed = editor_with("a\nb\nc\nd\ne");
    ed.max_offset = (50, 50);
    // Line height is 22: three scrolls of -8 add up to -24.
    ed.mouse_wheel((0, -8));
    assert_eq!(ed.offset.1, 0);
    assert_eq!(ed.mouse_wheel_delta.1, -8);
    ed.mouse_wheel((0, -8));
    assert_eq!(ed.offset.1, 0);
    assert_eq!(ed.mouse_wheel_delta.1, -16);
    ed.mouse_wheel((0, -8));
    // -24 crosses one line height; the remainder -2 is carried, not lost.
    assert_eq!(ed.offset.1, 1);
    assert_eq!(ed.mouse_wheel_delta.1, -2);
}

#[test]
fn wheel_horizontal_threshold_is_six_advances() {
    let mut ed = editor_with("abcdefghij");
    ed.max_offset = (50, 50);
    // Horizontal step is 6 * 10 = 60 px.
    ed.mouse_wheel((59, 0));
    assert_eq!(ed.offset.0, 0);
    assert_eq!(ed.mouse_wheel_delta.0, 59);
    ed.mouse_wheel((1, 0));
    assert_eq!(ed.offset.0, 1);
    assert_eq!(ed.mouse_wheel_delta.0, 0);
}

#[test]
fn wheel_offset_clamps_at_zero() {
    let mut ed = editor_with("a");
    ed.max_offset = (50, 50);
    // Scrolling up past the top stays at the top.
    ed.mouse_wheel((0, 220));
    assert_eq!(ed.offset.1, 0);
}

#[test]
fn mouse_hover_changes_nothing() {
    let mut ed = editor_with("ab");
    assert!(!ed.mouse_hover((3, 3)));
    assert_eq!(ed.get_text(), "ab");
}

#[test]
fn drag_back_to_anchor_keeps_ordered_selection() {
    let mut ed = editor_with("hello");
    ed.mouse_down_at((px_of_col(2), 5), 1000);
    // Dragging back onto the anchor cell never puts the end before the start.
    ed.mouse_dragged((px_of_col(2), 5));
    assert_eq!(ed.range_start, Some((2, 0)));
    assert_eq!(ed.range_end, Some((2, 0)));
}

#[test]
fn double_click_selects_unicode_word() {
    let mut ed = editor_with("héllo mundo");
    ed.mouse_down_at((px_of_col(2), 5), 1000);
    assert!(ed.mouse_down_at((px_of_col(2), 5), 1200));
    // The accented letter belongs to the word.
    assert_eq!(ed.range_start, Some((0, 0)));
    assert_eq!(ed.range_end, Some((4, 0)));
}
