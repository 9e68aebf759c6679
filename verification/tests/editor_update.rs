use iced_code_editor::editor::ArrowDirection;
use iced_code_editor::editor::CodeEditor;
use iced_code_editor::editor::Message;

#[test]
fn test_new_canvas_editor() {
    let editor = CodeEditor::new("line1\nline2", "py");
    assert_eq!(editor.cursor_position(), (0, 0));
}

#[test]
fn test_home_key() {
    let mut editor = CodeEditor::new("hello world", "py");
    assert!(editor.set_cursor(0, 5));
    let _ = editor.update(&Message::Home(false));
    assert_eq!(editor.cursor_position(), (0, 0));
}

#[test]
fn test_end_key() {
    let mut editor = CodeEditor::new("hello world", "py");
    assert!(editor.set_cursor(0, 0));
    let _ = editor.update(&Message::End(false));
    assert_eq!(editor.cursor_position(), (0, 11));
}

#[test]
fn test_arrow_key_with_shift_creates_selection() {
    let mut editor = CodeEditor::new("hello world", "py");
    assert!(editor.set_cursor(0, 0));
    let _ = editor.update(&Message::ArrowKey(ArrowDirection::Right, true));
    assert!(editor.selection_start().is_some());
    assert!(editor.selection_end().is_some());
}

#[test]
fn test_arrow_key_without_shift_clears_selection() {
    let mut editor = CodeEditor::new("hello world", "py");
    editor.set_selection(Some((0, 0)), Some((0, 5)));
    let _ = editor.update(&Message::ArrowKey(ArrowDirection::Right, false));
    assert_eq!(editor.selection_start(), None);
    assert_eq!(editor.selection_end(), None);
}

#[test]
fn test_typing_with_selection() {
    let mut editor = CodeEditor::new("hello world", "py");
    editor.set_selection(Some((0, 0)), Some((0, 5)));
    let _ = editor.update(&Message::CharacterInput('X'));
    assert_eq!(editor.line(0), "Xhello world");
}

#[test]
fn test_ctrl_home() {
    let mut editor = CodeEditor::new("line1\nline2\nline3", "py");
    assert!(editor.set_cursor(2, 5));
    let _ = editor.update(&Message::CtrlHome);
    assert_eq!(editor.cursor_position(), (0, 0));
}

#[test]
fn test_ctrl_end() {
    let mut editor = CodeEditor::new("line1\nline2\nline3", "py");
    assert!(editor.set_cursor(0, 0));
    let _ = editor.update(&Message::CtrlEnd);
    assert_eq!(editor.cursor_position(), (2, 5));
}

#[test]
fn test_ctrl_home_clears_selection() {
    let mut editor = CodeEditor::new("line1\nline2\nline3", "py");
    assert!(editor.set_cursor(2, 5));
    editor.set_selection(Some((0, 0)), Some((2, 5)));
    let _ = editor.update(&Message::CtrlHome);
    assert_eq!(editor.cursor_position(), (0, 0));
    assert_eq!(editor.selection_start(), None);
    assert_eq!(editor.selection_end(), None);
}

#[test]
fn test_ctrl_end_clears_selection() {
    let mut editor = CodeEditor::new("line1\nline2\nline3", "py");
    assert!(editor.set_cursor(0, 0));
    editor.set_selection(Some((0, 0)), Some((1, 3)));
    let _ = editor.update(&Message::CtrlEnd);
    assert_eq!(editor.cursor_position(), (2, 5));
    assert_eq!(editor.selection_start(), None);
    assert_eq!(editor.selection_end(), None);
}

#[test]
fn test_delete_selection_message() {
    let mut editor = CodeEditor::new("hello world", "py");
    assert!(editor.set_cursor(0, 0));
    editor.set_selection(Some((0, 0)), Some((0, 5)));
    let _ = editor.update(&Message::DeleteSelection);
    assert_eq!(editor.line(0), " world");
    assert_eq!(editor.cursor_position(), (0, 0));
    assert_eq!(editor.selection_start(), None);
    assert_eq!(editor.selection_end(), None);
}

#[test]
fn test_delete_selection_multiline() {
    let mut editor = CodeEditor::new("line1\nline2\nline3", "py");
    assert!(editor.set_cursor(0, 2));
    editor.set_selection(Some((0, 2)), Some((2, 2)));
    let _ = editor.update(&Message::DeleteSelection);
    assert_eq!(editor.line(0), "line3");
    assert_eq!(editor.cursor_position(), (0, 2));
    assert_eq!(editor.selection_start(), None);
}

#[test]
fn test_delete_selection_no_selection() {
    let mut editor = CodeEditor::new("hello world", "py");
    assert!(editor.set_cursor(0, 5));
    let _ = editor.update(&Message::DeleteSelection);
    assert_eq!(editor.line(0), "hello world");
    assert_eq!(editor.cursor_position(), (0, 5));
}

#[test]
fn test_ime_preedit_and_commit_chinese() {
    let mut editor = CodeEditor::new("", "py");
    let _ = editor.update(&Message::ImeOpened);
    assert!(editor.ime_preedit().is_none());

    let content = "安全与合规".to_string();
    let selection = Some((2, 6));
    let _ = editor.update(&Message::ImePreedit(content.clone(), selection));

    assert!(editor.ime_preedit().is_some());
    assert_eq!(editor.ime_preedit().as_ref().unwrap().content, content);
    assert_eq!(editor.ime_preedit().as_ref().unwrap().selection, selection);

    let _ = editor.update(&Message::ImeCommit("安全与合规".to_string()));
    assert!(editor.ime_preedit().is_none());
    assert_eq!(editor.line(0), "安全与合规");
    assert_eq!(editor.cursor_position(), (0, "安全与合规".chars().count()));
}

#[test]
fn test_undo_char_insert() {
    let mut editor = CodeEditor::new("hello", "py");
    assert!(editor.set_cursor(0, 5));
    let _ = editor.update(&Message::CharacterInput('!'));
    assert_eq!(editor.line(0), "hello!");
    assert_eq!(editor.cursor_position(), (0, 6));

    editor.end_history_group();
    let _ = editor.update(&Message::Undo);
    assert_eq!(editor.line(0), "hello");
    assert_eq!(editor.cursor_position(), (0, 5));
}

#[test]
fn test_undo_redo_char_insert() {
    let mut editor = CodeEditor::new("hello", "py");
    assert!(editor.set_cursor(0, 5));
    let _ = editor.update(&Message::CharacterInput('!'));
    editor.end_history_group();

    let _ = editor.update(&Message::Undo);
    assert_eq!(editor.line(0), "hello");

    let _ = editor.update(&Message::Redo);
    assert_eq!(editor.line(0), "hello!");
    assert_eq!(editor.cursor_position(), (0, 6));
}

#[test]
fn test_undo_backspace() {
    let mut editor = CodeEditor::new("hello", "py");
    assert!(editor.set_cursor(0, 5));
    let _ = editor.update(&Message::Backspace);
    assert_eq!(editor.line(0), "hell");
    assert_eq!(editor.cursor_position(), (0, 4));

    let _ = editor.update(&Message::Undo);
    assert_eq!(editor.line(0), "hello");
    assert_eq!(editor.cursor_position(), (0, 5));
}

#[test]
fn test_undo_newline() {
    let mut editor = CodeEditor::new("hello world", "py");
    assert!(editor.set_cursor(0, 5));
    let _ = editor.update(&Message::Enter);
    assert_eq!(editor.line(0), "hello");
    assert_eq!(editor.line(1), " world");
    assert_eq!(editor.cursor_position(), (1, 0));

    let _ = editor.update(&Message::Undo);
    assert_eq!(editor.line(0), "hello world");
    assert_eq!(editor.cursor_position(), (0, 5));
}

#[test]
fn test_undo_grouped_typing() {
    let mut editor = CodeEditor::new("hello", "py");
    assert!(editor.set_cursor(0, 5));
    let _ = editor.update(&Message::CharacterInput(' '));
    let _ = editor.update(&Message::CharacterInput('w'));
    let _ = editor.update(&Message::CharacterInput('o'));
    let _ = editor.update(&Message::CharacterInput('r'));
    let _ = editor.update(&Message::CharacterInput('l'));
    let _ = editor.update(&Message::CharacterInput('d'));
    assert_eq!(editor.line(0), "hello world");

    editor.end_history_group();
    let _ = editor.update(&Message::Undo);
    assert_eq!(editor.line(0), "hello");
    assert_eq!(editor.cursor_position(), (0, 5));
}

#[test]
fn test_navigation_ends_grouping() {
    let mut editor = CodeEditor::new("hello", "py");
    assert!(editor.set_cursor(0, 5));
    let _ = editor.update(&Message::CharacterInput('!'));
    assert!(editor.is_grouping());

    let _ = editor.update(&Message::ArrowKey(ArrowDirection::Left, false));
    assert!(!editor.is_grouping());

    let _ = editor.update(&Message::CharacterInput('?'));
    assert!(editor.is_grouping());

    editor.end_history_group();

    let _ = editor.update(&Message::Undo);
    assert_eq!(editor.line(0), "hello!");

    let _ = editor.update(&Message::Undo);
    assert_eq!(editor.line(0), "hello");
}

#[test]
fn test_multiple_undo_redo() {
    let mut editor = CodeEditor::new("a", "py");
    assert!(editor.set_cursor(0, 1));

    let _ = editor.update(&Message::CharacterInput('b'));
    editor.end_history_group();
    let _ = editor.update(&Message::CharacterInput('c'));
    editor.end_history_group();
    let _ = editor.update(&Message::CharacterInput('d'));
    editor.end_history_group();
    assert_eq!(editor.line(0), "abcd");

    let _ = editor.update(&Message::Undo);
    assert_eq!(editor.line(0), "abc");
    let _ = editor.update(&Message::Undo);
    assert_eq!(editor.line(0), "ab");
    let _ = editor.update(&Message::Undo);
    assert_eq!(editor.line(0), "a");

    let _ = editor.update(&Message::Redo);
    assert_eq!(editor.line(0), "ab");
    let _ = editor.update(&Message::Redo);
    assert_eq!(editor.line(0), "abc");
    let _ = editor.update(&Message::Redo);
    assert_eq!(editor.line(0), "abcd");
}

#[test]
fn test_delete_key_with_selection() {
    let mut editor = CodeEditor::new("hello world", "py");
    editor.set_selection(Some((0, 0)), Some((0, 5)));
    assert!(editor.set_cursor(0, 5));
    let _ = editor.update(&Message::Delete);
    assert_eq!(editor.line(0), " world");
    assert_eq!(editor.cursor_position(), (0, 0));
    assert_eq!(editor.selection_start(), None);
    assert_eq!(editor.selection_end(), None);
}

#[test]
fn test_delete_key_without_selection() {
    let mut editor = CodeEditor::new("hello", "py");
    assert!(editor.set_cursor(0, 0));
    let _ = editor.update(&Message::Delete);
    assert_eq!(editor.line(0), "ello");
    assert_eq!(editor.cursor_position(), (0, 0));
}

#[test]
fn test_backspace_with_selection() {
    let mut editor = CodeEditor::new("hello world", "py");
    editor.set_selection(Some((0, 6)), Some((0, 11)));
    assert!(editor.set_cursor(0, 11));
    let _ = editor.update(&Message::Backspace);
    assert_eq!(editor.line(0), "hello ");
    assert_eq!(editor.cursor_position(), (0, 6));
    assert_eq!(editor.selection_start(), None);
    assert_eq!(editor.selection_end(), None);
}

#[test]
fn test_backspace_without_selection() {
    let mut editor = CodeEditor::new("hello", "py");
    assert!(editor.set_cursor(0, 5));
    let _ = editor.update(&Message::Backspace);
    assert_eq!(editor.line(0), "hell");
    assert_eq!(editor.cursor_position(), (0, 4));
}

#[test]
fn test_delete_multiline_selection() {
    let mut editor = CodeEditor::new("line1\nline2\nline3", "py");
    editor.set_selection(Some((0, 2)), Some((2, 2)));
    assert!(editor.set_cursor(2, 2));
    let _ = editor.update(&Message::Delete);
    assert_eq!(editor.line(0), "line3");
    assert_eq!(editor.cursor_position(), (0, 2));
    assert_eq!(editor.selection_start(), None);
}

#[test]
fn test_canvas_focus_gained() {
    let mut editor = CodeEditor::new("hello world", "py");
    assert!(!editor.has_canvas_focus());
    assert!(!editor.show_cursor());
    let _ = editor.update(&Message::CanvasFocusGained);
    assert!(editor.has_canvas_focus());
    assert!(editor.show_cursor());
}

#[test]
fn test_canvas_focus_lost() {
    let mut editor = CodeEditor::new("hello world", "py");
    editor.set_has_canvas_focus(true);
    editor.set_show_cursor(true);
    let _ = editor.update(&Message::CanvasFocusLost);
    assert!(!editor.has_canvas_focus());
    assert!(!editor.show_cursor());
}

#[test]
fn test_mouse_click_gains_focus() {
    let mut editor = CodeEditor::new("hello world", "py");
    editor.set_has_canvas_focus(false);
    editor.set_show_cursor(false);
    // The point (100, 10) lies on the first row, five columns right of the
    // text's left edge.
    let _ = editor.update(&Message::MouseClick(Some((0, 5))));
    assert!(editor.has_canvas_focus());
    assert!(editor.show_cursor());
}

#[test]
fn test_cursor_movement() {
    let mut editor = CodeEditor::new("line1\nline2", "py");
    editor.move_cursor(ArrowDirection::Down);
    assert_eq!(editor.cursor_position().0, 1);
    editor.move_cursor(ArrowDirection::Right);
    assert_eq!(editor.cursor_position().1, 1);
}

fn hundred_lines(n: usize) -> String {
    (0..n).map(|i| format!("line {i}")).collect::<Vec<_>>().join("\n")
}

#[test]
fn test_page_down() {
    let content = hundred_lines(100);
    let mut editor = CodeEditor::new(&content, "py");
    editor.page_down();
    assert!(editor.cursor_position().0 >= 25);
    assert!(editor.cursor_position().0 <= 35);
}

#[test]
fn test_page_up() {
    let content = hundred_lines(100);
    let mut editor = CodeEditor::new(&content, "py");
    assert!(editor.set_cursor(50, 0));
    editor.page_up();
    assert!(editor.cursor_position().0 >= 15);
    assert!(editor.cursor_position().0 <= 25);
}

#[test]
fn test_page_down_at_end() {
    let content = hundred_lines(10);
    let mut editor = CodeEditor::new(&content, "py");
    editor.page_down();
    assert_eq!(editor.cursor_position().0, 9);
}

#[test]
fn test_page_up_at_start() {
    let content = hundred_lines(100);
    let mut editor = CodeEditor::new(&content, "py");
    assert!(editor.set_cursor(0, 0));
    editor.page_up();
    assert_eq!(editor.cursor_position().0, 0);
}

#[test]
fn test_delete_selection_single_line() {
    let mut editor = CodeEditor::new("hello world", "py");
    editor.set_selection(Some((0, 0)), Some((0, 5)));
    editor.delete_selection();
    assert_eq!(editor.line(0), " world");
}
