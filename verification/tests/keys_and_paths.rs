use iced_code_editor::editor::CodeEditor;
use iced_code_editor::workspace::filter_completions;
use iced_code_editor::lsp_config::gopath_dirs;
use iced_code_editor::editor::ArrowDirection;
use iced_code_editor::editor::Message;
use iced_code_editor::keys::is_control;
use iced_code_editor::keys::key_command;
use iced_code_editor::keys::KeyCommand;
use iced_code_editor::keys::KeyContext;
use iced_code_editor::keys::KeyName;
use iced_code_editor::keys::KeyPress;
use iced_code_editor::keys::Modifiers;
use iced_code_editor::types::EditorId;
use iced_code_editor::workspace::lsp_root_uri_for_path;
use iced_code_editor::workspace::virtual_uri_for_syntax;

fn ready() -> KeyContext {
    KeyContext {
        focused: true,
        pointer_inside: true,
        canvas_focus: true,
        composing: false,
        search_enabled: true,
        search_open: false,
    }
}

fn none() -> Modifiers {
    Modifiers { control: false, shift: false, alt: false, command: false }
}

fn ctrl() -> Modifiers {
    Modifiers { control: true, ..none() }
}

fn shift() -> Modifiers {
    Modifiers { shift: true, ..none() }
}

fn ch(s: &str) -> KeyPress {
    KeyPress::Character(s.to_string())
}

#[test]
fn shortcuts() {
    assert_eq!(key_command(&ch("c"), ctrl(), None, ready()), Some((KeyCommand::Copy, true)));
    assert_eq!(key_command(&KeyPress::Named(KeyName::Insert), ctrl(), None, ready()), Some((KeyCommand::Copy, true)));
    assert_eq!(key_command(&ch("z"), ctrl(), None, ready()), Some((KeyCommand::Undo, true)));
    assert_eq!(key_command(&ch("y"), ctrl(), None, ready()), Some((KeyCommand::Redo, true)));
    assert_eq!(key_command(&ch("v"), ctrl(), None, ready()), Some((KeyCommand::Paste, false)));
    assert_eq!(key_command(&KeyPress::Named(KeyName::Insert), shift(), None, ready()), Some((KeyCommand::Paste, false)));
    assert_eq!(key_command(&KeyPress::Named(KeyName::Home), ctrl(), None, ready()), Some((KeyCommand::CtrlHome, true)));
    assert_eq!(key_command(&KeyPress::Named(KeyName::End), ctrl(), None, ready()), Some((KeyCommand::CtrlEnd, true)));
    assert_eq!(
        key_command(&KeyPress::Named(KeyName::Delete), shift(), None, ready()),
        Some((KeyCommand::DeleteSelection, true))
    );
    assert_eq!(key_command(&ch("q"), ctrl(), Some("q"), ready()), None);
}

#[test]
fn search_keys() {
    assert_eq!(key_command(&ch("f"), ctrl(), None, ready()), Some((KeyCommand::OpenSearch, true)));
    assert_eq!(key_command(&ch("h"), ctrl(), None, ready()), Some((KeyCommand::OpenSearchReplace, true)));
    let off = KeyContext { search_enabled: false, ..ready() };
    assert_eq!(key_command(&ch("f"), ctrl(), None, off), None);
    assert_eq!(key_command(&KeyPress::Named(KeyName::Escape), none(), None, ready()), Some((KeyCommand::CloseSearch, true)));
    let open = KeyContext { search_open: true, ..ready() };
    assert_eq!(key_command(&KeyPress::Named(KeyName::Tab), shift(), None, open), Some((KeyCommand::SearchDialogShiftTab, true)));
    assert_eq!(key_command(&KeyPress::Named(KeyName::Tab), none(), None, ready()), Some((KeyCommand::Tab, true)));
    assert_eq!(key_command(&KeyPress::Named(KeyName::F3), shift(), None, ready()), Some((KeyCommand::FindPrevious, true)));
    assert_eq!(key_command(&KeyPress::Named(KeyName::F3), none(), None, ready()), Some((KeyCommand::FindNext, true)));
}

#[test]
fn typing_and_named_keys() {
    assert_eq!(key_command(&ch("a"), shift(), Some("A"), ready()), Some((KeyCommand::Char('A'), true)));
    assert_eq!(
        key_command(&KeyPress::Named(KeyName::ArrowDown), none(), Some("2"), ready()),
        Some((KeyCommand::Char('2'), true))
    );
    assert_eq!(key_command(&KeyPress::Named(KeyName::Enter), none(), Some("\r"), ready()), Some((KeyCommand::Enter, true)));
    assert_eq!(
        key_command(&KeyPress::Named(KeyName::ArrowLeft), shift(), None, ready()),
        Some((KeyCommand::Arrow(ArrowDirection::Left, true), true))
    );
    assert_eq!(key_command(&KeyPress::Named(KeyName::Home), shift(), None, ready()), Some((KeyCommand::Home(true), true)));
    assert_eq!(key_command(&ch("é"), none(), None, ready()), Some((KeyCommand::Char('é'), true)));
    assert_eq!(key_command(&KeyPress::Named(KeyName::Other), none(), None, ready()), None);
    assert_eq!(key_command(&KeyPress::Unidentified, none(), None, ready()), None);
}

#[test]
fn gates() {
    let unfocused = KeyContext { focused: false, ..ready() };
    assert_eq!(key_command(&ch("a"), none(), Some("a"), unfocused), None);
    let outside = KeyContext { pointer_inside: false, ..ready() };
    assert_eq!(key_command(&ch("a"), none(), Some("a"), outside), None);
    let no_canvas = KeyContext { canvas_focus: false, ..ready() };
    assert_eq!(key_command(&ch("a"), none(), Some("a"), no_canvas), None);
    let composing = KeyContext { composing: true, ..ready() };
    assert_eq!(key_command(&ch("a"), none(), Some("a"), composing), None);
    assert_eq!(key_command(&ch("z"), ctrl(), None, composing), Some((KeyCommand::Undo, true)));
}

#[test]
fn control_characters() {
    assert!(is_control('\n'));
    assert!(is_control('\u{7f}'));
    assert!(is_control('\u{9f}'));
    assert!(!is_control('\u{a0}'));
    assert!(!is_control(' '));
}

#[test]
fn command_messages() {
    assert!(matches!(KeyCommand::Paste.editor_message(), Some(Message::Paste(t)) if t.is_empty()));
    assert!(matches!(KeyCommand::Char('x').editor_message(), Some(Message::CharacterInput('x'))));
    assert!(matches!(
        KeyCommand::Arrow(ArrowDirection::Up, false).editor_message(),
        Some(Message::ArrowKey(ArrowDirection::Up, false))
    ));
    assert!(KeyCommand::OpenSearch.editor_message().is_none());
}

#[test]
fn syntax_uris() {
    assert_eq!(virtual_uri_for_syntax(EditorId(4), "py"), "untitled://editor_4/untitled.py");
}

#[test]
fn root_uris() {
    assert_eq!(lsp_root_uri_for_path(None, false, Some("/work")), Some("file:///work".to_string()));
    assert_eq!(lsp_root_uri_for_path(None, false, None), None);
    assert_eq!(
        lsp_root_uri_for_path(Some("/work/src/main.rs"), false, Some("/work")),
        Some("file:///work".to_string())
    );
    assert_eq!(
        lsp_root_uri_for_path(Some("/other/lib.rs"), false, Some("/work")),
        Some("file:///other".to_string())
    );
    assert_eq!(lsp_root_uri_for_path(Some("/other"), true, None), Some("file:///other".to_string()));
}

#[test]
fn gopath_directories() {
    assert_eq!(gopath_dirs(" /a: :/b/c \n"), vec!["/a".to_string(), "/b/c".to_string()]);
    assert!(gopath_dirs("").is_empty());
    assert_eq!(gopath_dirs("/go"), vec!["/go".to_string()]);
}

#[test]
fn completion_filtering() {
    let items = vec!["print".to_string(), "Pairs".to_string(), "ipairs".to_string(), "pcall".to_string()];
    assert_eq!(filter_completions(&items, "p"), vec!["print".to_string(), "Pairs".to_string(), "pcall".to_string()]);
    assert_eq!(filter_completions(&items, "PA"), vec!["Pairs".to_string()]);
    assert_eq!(filter_completions(&items, ""), items);
    assert!(filter_completions(&items, "zz").is_empty());
}

#[test]
fn position_under_pointer() {
    let mut e = CodeEditor::new("abcdef\nxy", "txt");
    e.set_viewport(10, 4, 4);
    assert_eq!(e.position_at(Some((0, 2))), Some((0, 2)));
    assert_eq!(e.position_at(Some((1, 1))), Some((0, 5)));
    assert_eq!(e.position_at(Some((2, 9))), Some((1, 2)));
    assert_eq!(e.position_at(Some((7, 0))), Some((1, 2)));
    assert_eq!(e.position_at(None), None);
}
