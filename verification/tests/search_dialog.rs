use iced_code_editor::editor::{CodeEditor, Message};
use iced_code_editor::search::{SearchField, SearchMessage, SearchState};
use iced_code_editor::workspace::lsp_root_uri_for_path;

fn query(s: &mut SearchState, e: &mut CodeEditor, q: &str) -> bool {
    s.update(e, &SearchMessage::Open);
    s.update(e, &SearchMessage::QueryChanged(q.to_string())).scroll_to_cursor
}

#[test]
fn search_finds_every_place() {
    let mut e = CodeEditor::new("foo bar foo\nfoo", "txt");
    let mut s = SearchState::new();
    assert!(query(&mut s, &mut e, "foo"));
    assert_eq!(s.matches(&e), vec![(0, 0), (0, 8), (1, 0)]);
    assert_eq!(s.current, Some(0));
    assert_eq!(e.cursor_position(), (0, 0));
}

#[test]
fn search_matches_do_not_overlap() {
    let mut e = CodeEditor::new("aaaa", "txt");
    let mut s = SearchState::new();
    query(&mut s, &mut e, "aa");
    assert_eq!(s.matches(&e), vec![(0, 0), (0, 2)]);
}

#[test]
fn find_next_and_previous_go_round() {
    let mut e = CodeEditor::new("x y x\nx", "txt");
    let mut s = SearchState::new();
    query(&mut s, &mut e, "x");
    s.update(&mut e, &SearchMessage::FindNext);
    assert_eq!(e.cursor_position(), (0, 4));
    s.update(&mut e, &SearchMessage::FindNext);
    assert_eq!(e.cursor_position(), (1, 0));
    s.update(&mut e, &SearchMessage::FindNext);
    assert_eq!(e.cursor_position(), (0, 0));
    s.update(&mut e, &SearchMessage::FindPrevious);
    assert_eq!(e.cursor_position(), (1, 0));
}

#[test]
fn search_ignores_case_until_toggled() {
    let mut e = CodeEditor::new("Foo foo", "txt");
    let mut s = SearchState::new();
    query(&mut s, &mut e, "FOO");
    assert_eq!(s.matches(&e), vec![(0, 0), (0, 4)]);
    let eff = s.update(&mut e, &SearchMessage::ToggleCaseSensitive);
    assert!(!eff.scroll_to_cursor);
    assert!(s.matches(&e).is_empty());
    assert_eq!(s.current, None);
}

#[test]
fn empty_query_finds_nothing() {
    let mut e = CodeEditor::new("abc", "txt");
    let mut s = SearchState::new();
    assert!(!query(&mut s, &mut e, ""));
    assert!(s.matches(&e).is_empty());
}

#[test]
fn replace_next_moves_to_the_next_place() {
    let mut e = CodeEditor::new("a b a", "txt");
    let mut s = SearchState::new();
    s.update(&mut e, &SearchMessage::OpenReplace);
    s.update(&mut e, &SearchMessage::QueryChanged("a".to_string()));
    s.update(&mut e, &SearchMessage::ReplaceChanged("xy".to_string()));
    let eff = s.update(&mut e, &SearchMessage::ReplaceNext);
    assert!(eff.scroll_to_cursor);
    assert_eq!(e.content(), "xy b a");
    assert_eq!(e.cursor_position(), (0, 5));
    assert!(e.is_modified());
}

#[test]
fn replace_all_is_one_undo_step() {
    let mut e = CodeEditor::new("a b a\na", "txt");
    let mut s = SearchState::new();
    s.update(&mut e, &SearchMessage::OpenReplace);
    s.update(&mut e, &SearchMessage::QueryChanged("a".to_string()));
    s.update(&mut e, &SearchMessage::ReplaceChanged("zz".to_string()));
    s.update(&mut e, &SearchMessage::ReplaceAll);
    assert_eq!(e.content(), "zz b zz\nzz");
    assert!(s.matches(&e).is_empty());
    assert_eq!(s.current, None);
    e.update(&Message::Undo);
    assert_eq!(e.content(), "a b a\na");
    e.update(&Message::Redo);
    assert_eq!(e.content(), "zz b zz\nzz");
}

#[test]
fn dialog_tab_switches_fields_only_with_replace() {
    let mut e = CodeEditor::new("", "txt");
    let mut s = SearchState::new();
    let eff = s.update(&mut e, &SearchMessage::Open);
    assert_eq!(eff.focus_field, Some(SearchField::Search));
    assert_eq!(s.update(&mut e, &SearchMessage::Tab).focus_field, Some(SearchField::Search));
    s.update(&mut e, &SearchMessage::OpenReplace);
    assert_eq!(s.update(&mut e, &SearchMessage::Tab).focus_field, Some(SearchField::Replace));
    assert_eq!(s.update(&mut e, &SearchMessage::ShiftTab).focus_field, Some(SearchField::Search));
    s.update(&mut e, &SearchMessage::Close);
    assert!(!s.open);
}

#[test]
fn typing_finds_the_place_near_the_cursor_again() {
    let mut e = CodeEditor::new("ab ab ab", "txt");
    let mut s = SearchState::new();
    query(&mut s, &mut e, "ab");
    e.set_cursor(0, 4);
    let eff = e.update(&Message::CharacterInput('x'));
    s.after_editor_message(&e, &Message::CharacterInput('x'), &eff);
    assert_eq!(e.content(), "ab axb ab");
    assert_eq!(s.matches(&e), vec![(0, 0), (0, 7)]);
    assert_eq!(s.current, Some(1));
}

#[test]
fn root_uri_uses_the_file_directory_or_the_working_directory() {
    assert_eq!(
        lsp_root_uri_for_path(Some("/home/u/p/src/main.rs"), false, Some("/home/u/p")),
        Some("file:///home/u/p".to_string())
    );
    assert_eq!(
        lsp_root_uri_for_path(Some("/home/u/p/src/main.rs"), false, Some("/other")),
        Some("file:///home/u/p/src".to_string())
    );
    assert_eq!(
        lsp_root_uri_for_path(Some("/home/u/pp/main.rs"), false, Some("/home/u/p")),
        Some("file:///home/u/pp".to_string())
    );
    assert_eq!(lsp_root_uri_for_path(Some("/"), false, None), None);
}
