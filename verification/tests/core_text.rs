use iced_code_editor::buffer::TextBuffer;
use iced_code_editor::decimal::decimal_chars;
use iced_code_editor::decimal::parse_usize_chars;
use iced_code_editor::decimal::signed_decimal_chars;
use iced_code_editor::editor::ArrowDirection;
use iced_code_editor::editor::CodeEditor;
use iced_code_editor::editor::Message;
use iced_code_editor::textutil::chars_eq_ignore_ascii_case;
use iced_code_editor::textutil::is_blank;
use iced_code_editor::textutil::str_eq;
use iced_code_editor::workspace::is_word_char;
use iced_code_editor::workspace::filter_completions;
use iced_code_editor::textutil::trim;
use iced_code_editor::width::glyph_width;
use iced_code_editor::width::GlyphWidth;
use iced_code_editor::wrapping::calculate_visual_lines;
use iced_code_editor::wrapping::logical_to_visual;
use iced_code_editor::wrapping::VisualLine;

fn chars(s: &str) -> Vec<char> {
    s.chars().collect()
}

#[test]
fn buffer_lines_and_text() {
    let b = TextBuffer::new("ab\ncd\n");
    assert_eq!(b.line_count(), 3);
    assert_eq!(b.line(0), "ab");
    assert_eq!(b.line(2), "");
    assert_eq!(b.line_len(1), 2);
    assert_eq!(b.char_at(1, 1), 'd');
    assert_eq!(b.to_string(), "ab\ncd\n");
    assert_eq!(TextBuffer::new("").line_count(), 1);
}

#[test]
fn buffer_extract_and_replace() {
    let mut b = TextBuffer::new("hello\nworld");
    assert_eq!(b.extract(0, 3, 1, 2), chars("lo\nwo"));
    b.replace(0, 3, 1, 2, &chars("p, w"));
    assert_eq!(b.to_string(), "help, wrld");
    b.replace(0, 4, 0, 4, &chars("\n"));
    assert_eq!(b.line_count(), 2);
    assert_eq!(b.line(1), ", wrld");
}

#[test]
fn wrapping_rows() {
    let b = TextBuffer::new("abcdefg\n\nxy");
    let rows = calculate_visual_lines(&b, Some(3));
    assert_eq!(
        rows,
        vec![
            VisualLine { logical_line: 0, start_col: 0, end_col: 3 },
            VisualLine { logical_line: 0, start_col: 3, end_col: 6 },
            VisualLine { logical_line: 0, start_col: 6, end_col: 7 },
            VisualLine { logical_line: 1, start_col: 0, end_col: 0 },
            VisualLine { logical_line: 2, start_col: 0, end_col: 2 },
        ]
    );
    assert!(rows[0].is_first_segment());
    assert!(!rows[1].is_first_segment());
    assert_eq!(rows[2].len(), 1);
    assert_eq!(logical_to_visual(&rows, 0, 4), Some(1));
    assert_eq!(logical_to_visual(&rows, 1, 0), Some(3));
    assert_eq!(logical_to_visual(&rows, 5, 0), None);
    let flat = calculate_visual_lines(&b, None);
    assert_eq!(flat.len(), 3);
    assert_eq!(flat[0].end_col, 7);
}

#[test]
fn decimals() {
    assert_eq!(decimal_chars(0), chars("0"));
    assert_eq!(decimal_chars(1204), chars("1204"));
    assert_eq!(signed_decimal_chars(-37), chars("-37"));
    assert_eq!(signed_decimal_chars(i64::MIN), chars("-9223372036854775808"));
    assert_eq!(parse_usize_chars(&chars("0042")), Some(42));
    assert_eq!(parse_usize_chars(&chars("")), None);
    assert_eq!(parse_usize_chars(&chars("4a")), None);
    assert_eq!(parse_usize_chars(&chars("99999999999999999999999")), None);
}

#[test]
fn text_helpers() {
    assert_eq!(trim("\t\u{3000}x y\u{a0}"), "x y");
    assert!(!is_blank("x"));
    assert!(is_word_char('é'));
    assert!(is_word_char('7'));
    assert!(is_word_char('_'));
    assert!(!is_word_char('-'));
    let items = vec!["Rust".to_string(), "ruby".to_string()];
    assert_eq!(filter_completions(&items, "RU"), items);
    assert_eq!(filter_completions(&vec!["ÉTÉ".to_string()], "é"), vec!["ÉTÉ".to_string()]);
    assert_eq!(trim("  a b \n"), "a b");
    assert!(is_blank(" \t\n"));
    assert!(!is_blank(" x "));
    assert!(str_eq("abc", "abc"));
    assert!(!str_eq("abc", "abd"));
    assert!(chars_eq_ignore_ascii_case(&chars("Go"), &chars("gO")));
    assert!(!chars_eq_ignore_ascii_case(&chars("go"), &chars("got")));
}

#[test]
fn glyph_widths() {
    assert_eq!(glyph_width('a'), GlyphWidth::Narrow);
    assert_eq!(glyph_width('中'), GlyphWidth::Wide);
    assert_eq!(glyph_width('\u{1}'), GlyphWidth::Zero);
}

#[test]
fn copy_and_paste() {
    let mut e = CodeEditor::new("hello world", "txt");
    e.set_selection(Some((0, 6)), Some((0, 11)));
    assert_eq!(e.get_selected_text(), Some("world".to_string()));
    let eff = e.update(&Message::Copy);
    assert_eq!(eff.copy, Some("world".to_string()));
    let eff = e.update(&Message::Paste(String::new()));
    assert!(eff.read_clipboard);
    assert_eq!(e.content(), "hello world");
    let _ = e.update(&Message::Paste("there".to_string()));
    assert_eq!(e.content(), "hello there");
    e.paste_text("\nnext");
    assert_eq!(e.line(1), "next");
}

#[test]
fn selection_ranges_are_ordered() {
    let mut e = CodeEditor::new("abc\ndef", "txt");
    e.set_selection(Some((1, 2)), Some((0, 1)));
    assert_eq!(e.get_selection_range(), Some(((0, 1), (1, 2))));
    assert_eq!(e.get_selected_text(), Some("bc\nde".to_string()));
    e.set_selection(Some((0, 1)), Some((0, 1)));
    assert_eq!(e.get_selection_range(), Some(((0, 1), (0, 1))));
}

#[test]
fn tab_inserts_spaces() {
    let mut e = CodeEditor::new("x", "txt");
    let _ = e.update(&Message::Tab);
    assert_eq!(e.content(), "    x");
    assert_eq!(e.cursor_position(), (0, 4));
}

#[test]
fn backspace_joins_lines_and_delete_at_end() {
    let mut e = CodeEditor::new("ab\ncd", "txt");
    assert!(e.set_cursor(1, 0));
    let _ = e.update(&Message::Backspace);
    assert_eq!(e.content(), "abcd");
    assert_eq!(e.cursor_position(), (0, 2));
    assert!(e.set_cursor(0, 4));
    let _ = e.update(&Message::Delete);
    assert_eq!(e.content(), "abcd");
    assert!(e.set_cursor(0, 0));
    let _ = e.update(&Message::Backspace);
    assert_eq!(e.content(), "abcd");
}

#[test]
fn arrows_cross_lines_and_shift_home_end_select() {
    let mut e = CodeEditor::new("ab\ncd", "txt");
    assert!(e.set_cursor(0, 2));
    e.move_cursor(ArrowDirection::Right);
    assert_eq!(e.cursor_position(), (1, 0));
    e.move_cursor(ArrowDirection::Left);
    assert_eq!(e.cursor_position(), (0, 2));
    let _ = e.update(&Message::Home(true));
    assert_eq!(e.get_selection_range(), Some(((0, 0), (0, 2))));
    let _ = e.update(&Message::End(true));
    assert_eq!(e.cursor_position(), (0, 2));
}

#[test]
fn saved_state_and_modification() {
    let mut e = CodeEditor::new("a", "txt");
    assert!(!e.is_modified());
    assert!(!e.can_undo());
    let _ = e.update(&Message::Enter);
    assert!(e.is_modified());
    assert!(e.can_undo());
    e.mark_saved();
    assert!(!e.is_modified());
    let _ = e.update(&Message::Undo);
    assert!(e.is_modified());
    assert!(e.can_redo());
    let _ = e.update(&Message::Redo);
    assert!(!e.is_modified());
}

#[test]
fn reset_clears_history_and_keeps_settings() {
    let mut e = CodeEditor::new("a", "txt").with_wrap_enabled(false);
    let _ = e.update(&Message::Enter);
    e.reset("new\ntext");
    assert_eq!(e.content(), "new\ntext");
    assert_eq!(e.cursor_position(), (0, 0));
    assert!(!e.can_undo());
    assert!(!e.wrap_enabled());
}

#[test]
fn mouse_click_and_drag_select() {
    let mut e = CodeEditor::new("hello world\nsecond", "txt");
    let _ = e.update(&Message::MouseClick(Some((0, 2))));
    assert_eq!(e.cursor_position(), (0, 2));
    assert!(e.is_dragging());
    let _ = e.update(&Message::MouseDrag(Some((1, 3))));
    assert_eq!(e.cursor_position(), (1, 3));
    let _ = e.update(&Message::MouseRelease);
    assert!(!e.is_dragging());
    assert_eq!(e.get_selected_text(), Some("llo world\nsec".to_string()));
    let _ = e.update(&Message::MouseClick(Some((9, 0))));
    assert_eq!(e.cursor_position(), (1, 6));
    let _ = e.update(&Message::MouseClick(None));
    assert_eq!(e.cursor_position(), (1, 6));
}

#[test]
fn wrapped_rows_follow_view_width() {
    let mut e = CodeEditor::new("abcdefghij", "txt");
    e.set_viewport(30, 4, 4);
    let rows = e.visual_lines();
    assert_eq!(rows.len(), 3);
    assert!(e.set_cursor(0, 5));
    assert_eq!(e.cursor_visual_row(), Some(1));
    e.move_cursor(ArrowDirection::Down);
    assert_eq!(e.cursor_position(), (0, 9));
    let e2 = CodeEditor::new("abcdefghij", "txt").with_wrap_column(Some(5));
    assert_eq!(e2.visual_lines().len(), 2);
    let e3 = CodeEditor::new("abcdefghij", "txt").with_wrap_enabled(false);
    assert_eq!(e3.visual_lines().len(), 1);
}

#[test]
fn viewport_columns_at_least_one() {
    let mut e = CodeEditor::new("abc", "txt");
    e.set_viewport(5, 0, 0);
    assert_eq!(e.page_lines(), 5);
    assert_eq!(e.view_columns(), 1);
    assert_eq!(e.drag_columns(), 1);
}

#[test]
fn blink_ticks_toggle_cursor() {
    let mut e = CodeEditor::new("abc", "txt");
    assert!(e.cursor_visible());
    let _ = e.update(&Message::Tick(true, true));
    assert!(e.cursor_visible());
    let _ = e.update(&Message::CanvasFocusGained);
    let _ = e.update(&Message::Tick(true, true));
    assert!(!e.cursor_visible());
    let _ = e.update(&Message::Tick(true, false));
    assert!(!e.cursor_visible());
    let _ = e.update(&Message::Tick(true, true));
    assert!(e.cursor_visible());
}
