use code_editor::undo::UndoStack;

#[test]
fn new_stack_is_empty() {
    let s = UndoStack::new();
    assert_eq!(s.index, -1);
    assert!(s.stack.is_empty());
}

#[test]
fn has_undo_and_redo() {
    let mut s = UndoStack::new();
    assert!(!s.has_undo());
    assert!(!s.has_redo());
    s.add_at("".to_string(), "a".to_string(), (1, 0), 1000);
    assert!(s.has_undo());
    assert!(!s.has_redo());
    s.undo();
    assert!(!s.has_undo());
    assert!(s.has_redo());
}

// Two edits less than 2000 ms apart produce exactly one entry; two edits
// 2000 ms or more apart produce two.
#[test]
fn coalescing_window() {
    let mut s = UndoStack::new();
    s.add_at("".to_string(), "a".to_string(), (1, 0), 1000);
    assert_eq!(s.stack.len(), 1);
    s.add_at("a".to_string(), "ab".to_string(), (2, 0), 2500);
    // 2500 < 1000 + 2000: coalesced in place.
    assert_eq!(s.stack.len(), 1);
    assert_eq!(s.index, 0);
    assert_eq!(s.stack[0].undo_data, "");
    assert_eq!(s.stack[0].redo_data, "ab");
    s.add_at("ab".to_string(), "abc".to_string(), (3, 0), 5000);
    // 5000 >= 2500 + 2000: a second entry.
    assert_eq!(s.stack.len(), 2);
    assert_eq!(s.index, 1);
}

// Undo repeated back to index -1 restores the original text; redo replayed
// forward restores the final text.
#[test]
fn undo_redo_round_trip() {
    let mut s = UndoStack::new();
    s.add_at("".to_string(), "a".to_string(), (1, 0), 1000);
    s.add_at("a".to_string(), "ab".to_string(), (2, 0), 5000);
    s.add_at("ab".to_string(), "abc".to_string(), (3, 0), 9000);
    assert_eq!(s.stack.len(), 3);

    assert_eq!(s.undo(), "ab");
    assert_eq!(s.undo(), "a");
    assert_eq!(s.undo(), "");
    assert_eq!(s.index, -1);

    assert_eq!(s.redo(), ("a".to_string(), (1, 0)));
    assert_eq!(s.redo(), ("ab".to_string(), (2, 0)));
    assert_eq!(s.redo(), ("abc".to_string(), (3, 0)));
    assert_eq!(s.index, 2);
}

#[test]
fn new_edit_discards_redo_branch() {
    let mut s = UndoStack::new();
    s.add_at("".to_string(), "a".to_string(), (1, 0), 1000);
    s.add_at("a".to_string(), "ab".to_string(), (2, 0), 5000);
    s.undo();
    assert_eq!(s.index, 0);
    s.add_at("a".to_string(), "ax".to_string(), (2, 0), 9000);
    // The stale "ab" entry above the index is gone.
    assert_eq!(s.stack.len(), 2);
    assert_eq!(s.stack[1].redo_data, "ax");
    assert!(!s.has_redo());
}

#[test]
fn wall_clock_add_records_entry() {
    let mut s = UndoStack::new();
    s.add("".to_string(), "x".to_string(), (1, 0));
    assert_eq!(s.stack.len(), 1);
    assert_eq!(s.stack[0].undo_data, "");
    assert_eq!(s.stack[0].redo_data, "x");
}

#[test]
fn redo_cursor_is_restored() {
    let mut s = UndoStack::new();
    s.add_at("".to_string(), "ab\n".to_string(), (0, 1), 1000);
    s.undo();
    let (text, pos) = s.redo();
    assert_eq!(text, "ab\n");
    assert_eq!(pos, (0, 1));
}
