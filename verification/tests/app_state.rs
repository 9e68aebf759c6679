use iced_code_editor::workspace::ServerStatus;
use iced_code_editor::editor::CodeEditor;
use iced_code_editor::editor::Message;
use iced_code_editor::focus::FocusRegistry;
use iced_code_editor::tabs::tab_label;
use iced_code_editor::tabs::TabSet;
use iced_code_editor::types::load_all;
use iced_code_editor::types::EditorId;
use iced_code_editor::types::Language;
use iced_code_editor::types::LanguageOption;
use iced_code_editor::types::LspProgress;
use iced_code_editor::types::Template;
use iced_code_editor::types::HELLO_WORLD;
use iced_code_editor::workspace::apply_completion;
use iced_code_editor::workspace::completion_down;
use iced_code_editor::workspace::completion_up;
use iced_code_editor::workspace::editor_id_label;
use iced_code_editor::workspace::file_path_of_uri;
use iced_code_editor::workspace::find_word_start;
use iced_code_editor::workspace::format_log_line;
use iced_code_editor::workspace::path_to_file_uri;
use iced_code_editor::workspace::virtual_uri_for_template;
use iced_code_editor::workspace::ProgressTable;
use iced_code_editor::workspace::apply_events;
use iced_code_editor::workspace::is_word_char;
use iced_code_editor::protocol::LspEvent;
use iced_code_editor::text_model::{LspPosition, LspRange};

fn progress(title: &str, pct: Option<u32>) -> LspProgress {
    LspProgress { title: title.to_string(), message: None, percentage: pct }
}

#[test]
fn editor_ids_and_labels() {
    assert_eq!(EditorId(3).to_string(), "Editor 3");
    assert_eq!(editor_id_label(EditorId(12)), "editor_12");
    assert_eq!(EditorId(0).to_string(), "Editor 0");
}

#[test]
fn language_options() {
    let all = LanguageOption::all();
    assert_eq!(all.len(), 8);
    assert_eq!(all[0], LanguageOption(Language::German));
    assert_eq!(all[1].inner(), Language::English);
    assert_eq!(LanguageOption::from_language(Language::French).to_string(), "Français");
    assert_eq!(LanguageOption(Language::ChineseSimplified).to_string(), "简体中文");
}

#[test]
fn templates() {
    let all = Template::all();
    assert_eq!(all.len(), 4);
    assert_eq!(Template::HelloWorld.name(), "Hello World");
    assert_eq!(Template::HelloWorld.content(), HELLO_WORLD);
    assert_eq!(Template::Empty.content(), "");
    assert_eq!(Template::Fibonacci.to_string(), "Fibonacci");
    assert!(Template::Factorial.content().contains("factorial"));
}

#[test]
fn fonts_loaded() {
    let bytes = [1u8, 2, 3];
    let fonts = load_all(&bytes);
    assert_eq!(fonts.len(), 1);
    assert_eq!(fonts[0], &bytes[..]);
}

#[test]
fn uris() {
    assert_eq!(path_to_file_uri("/home/me/my file.rs"), "file:///home/me/my%20file.rs");
    assert_eq!(file_path_of_uri("file:///tmp/a.go"), Some("/tmp/a.go".to_string()));
    assert_eq!(file_path_of_uri("untitled://x"), None);
    assert_eq!(
        virtual_uri_for_template(EditorId(2), Template::HelloWorld),
        "untitled://editor_2/hello_world.lua"
    );
    assert_eq!(virtual_uri_for_template(EditorId(0), Template::Empty), "untitled://editor_0/empty.lua");
}

#[test]
fn word_starts() {
    assert_eq!(find_word_start("local foo_bar", 13), 6);
    assert_eq!(find_word_start("x.y", 3), 2);
    assert_eq!(find_word_start("abc", 0), 0);
    assert_eq!(find_word_start("abc ", 4), 4);
    assert_eq!(find_word_start("ab", 5), 5);
}

#[test]
fn completion_replaces_word() {
    let mut editor = CodeEditor::new("print(pri", "lua");
    assert!(editor.set_cursor(0, 9));
    apply_completion(&mut editor, "print");
    assert_eq!(editor.content(), "print(print");
    assert_eq!(editor.cursor_position(), (0, 11));
}

#[test]
fn completion_menu_navigation() {
    assert_eq!(completion_down(0, 3), 1);
    assert_eq!(completion_down(2, 3), 0);
    assert_eq!(completion_down(4, 0), 4);
    assert_eq!(completion_up(1, 3), 0);
    assert_eq!(completion_up(0, 3), 2);
    assert_eq!(completion_up(0, 0), 0);
}

#[test]
fn progress_table() {
    let mut t = ProgressTable::new();
    t.update("ra", "1", progress("Indexing", Some(10)), false);
    t.update("ra", "2", progress("Building", None), false);
    t.update("ra", "1", progress("Indexing", Some(50)), false);
    assert_eq!(t.entries().len(), 2);
    let first = t.entries().iter().find(|e| e.0 == "ra" && e.1 == "1").unwrap();
    assert_eq!(first.2.percentage, Some(50));
    t.update("ra", "1", progress("Indexing", Some(100)), true);
    assert_eq!(t.entries().len(), 1);
    assert_eq!(t.entries()[0].1, "2");
    t.update("gopls", "9", progress("x", None), true);
    assert_eq!(t.entries().len(), 1);
}

#[test]
fn log_lines() {
    assert_eq!(format_log_line("gopls", "started"), "[gopls] started");
}

#[test]
fn focus_registry() {
    let mut f = FocusRegistry::new();
    let a = f.register();
    let b = f.register();
    assert_eq!((a, b), (1, 2));
    assert!(f.is_focused(a));
    assert!(!f.is_focused(b));
    f.request_focus(b);
    assert!(f.is_focused(b));
    assert!(!f.is_focused(a));
}

fn first_tabs() -> TabSet {
    TabSet::new(CodeEditor::new("", "lua"))
}

#[test]
fn tab_labels() {
    assert_eq!(tab_label(None, false), "Untitled");
    assert_eq!(tab_label(Some("main.rs"), true), "main.rs*");
    let tabs = first_tabs();
    assert_eq!(tabs.tabs()[0].label(), "Untitled");
}

#[test]
fn open_file_reuses_blank_tab() {
    let mut tabs = first_tabs();
    tabs.open_file("/p/a.lua", "print(1)", Language::English);
    assert_eq!(tabs.tabs().len(), 1);
    assert_eq!(tabs.active(), EditorId(0));
    let t = &tabs.tabs()[0];
    assert_eq!(t.file_path.as_deref(), Some("/p/a.lua"));
    assert_eq!(t.editor.content(), "print(1)");
    assert!(!t.is_dirty);
    assert!(!t.editor.is_modified());
}

#[test]
fn open_file_twice_switches_tab() {
    let mut tabs = first_tabs();
    tabs.open_file("/p/a.lua", "a", Language::English);
    tabs.open_file("/p/b.lua", "b", Language::French);
    assert_eq!(tabs.tabs().len(), 2);
    assert_eq!(tabs.active(), EditorId(1));
    assert_eq!(tabs.tabs()[1].editor.language(), Language::French);
    tabs.open_file("/p/a.lua", "changed on disk", Language::English);
    assert_eq!(tabs.tabs().len(), 2);
    assert_eq!(tabs.active(), EditorId(0));
    assert_eq!(tabs.tabs()[0].editor.content(), "a");
}

#[test]
fn editing_marks_tab_dirty_and_saving_cleans() {
    let mut tabs = first_tabs();
    tabs.open_file("/p/a.lua", "x", Language::English);
    let eff = tabs.editor_event(EditorId(0), &Message::CharacterInput('y'));
    assert!(eff.is_some());
    assert!(tabs.tabs()[0].is_dirty);
    assert_eq!(tabs.tabs()[0].label(), "a.lua*");
    assert!(tabs.file_saved("/p/c.lua"));
    assert!(!tabs.tabs()[0].is_dirty);
    assert_eq!(tabs.tabs()[0].file_path.as_deref(), Some("/p/c.lua"));
    assert!(tabs.editor_event(EditorId(7), &Message::Enter).is_none());
}

#[test]
fn undo_back_to_saved_is_clean() {
    let mut tabs = first_tabs();
    tabs.open_file("/p/a.lua", "x", Language::English);
    let _ = tabs.editor_event(EditorId(0), &Message::Enter);
    assert!(tabs.tabs()[0].is_dirty);
    let _ = tabs.editor_event(EditorId(0), &Message::Undo);
    assert!(!tabs.tabs()[0].is_dirty);
}

#[test]
fn close_tabs() {
    let mut tabs = first_tabs();
    assert!(tabs.can_add_tab());
    let id1 = tabs.new_tab(CodeEditor::new("one", "lua"));
    let id2 = tabs.new_tab(CodeEditor::new("two", "lua"));
    assert_eq!((id1, id2), (EditorId(1), EditorId(2)));
    tabs.select_tab(id1);
    tabs.close_tab(id1);
    assert_eq!(tabs.tabs().len(), 2);
    assert_eq!(tabs.active(), id2);
    tabs.close_tab(id2);
    assert_eq!(tabs.active(), EditorId(0));
    tabs.close_tab(EditorId(42));
    assert_eq!(tabs.tabs().len(), 1);
    let _ = tabs.editor_event(EditorId(0), &Message::CharacterInput('z'));
    tabs.close_tab(EditorId(0));
    assert_eq!(tabs.tabs().len(), 1);
    assert_eq!(tabs.tabs()[0].editor.content(), "");
    assert!(tabs.tabs()[0].file_path.is_none());
    assert!(!tabs.tabs()[0].is_dirty);
}

#[test]
fn jump_and_open_at() {
    let mut tabs = first_tabs();
    assert!(!tabs.jump_to("/p/a.lua", 1, 2));
    tabs.open_file_at("/p/a.lua", "l0\nline1", 1, 2, Language::English);
    assert_eq!(tabs.tabs()[0].editor.cursor_position(), (1, 2));
    let other = tabs.new_tab(CodeEditor::new("", "lua"));
    assert_eq!(tabs.active(), other);
    assert!(tabs.jump_to("/p/a.lua", 0, 1));
    assert_eq!(tabs.active(), EditorId(0));
    assert_eq!(tabs.tabs()[0].editor.cursor_position(), (0, 1));
    assert!(tabs.jump_to("/p/a.lua", 9, 9));
    assert_eq!(tabs.tabs()[0].editor.cursor_position(), (0, 1));
}

#[test]
fn templates_and_settings_per_tab() {
    let mut tabs = first_tabs();
    assert!(tabs.template_selected(EditorId(0), Template::HelloWorld));
    assert_eq!(tabs.tabs()[0].editor.content(), HELLO_WORLD);
    assert!(!tabs.template_selected(EditorId(5), Template::HelloWorld));
    tabs.set_wrap_enabled(EditorId(0), false);
    assert!(!tabs.tabs()[0].editor.wrap_enabled());
    tabs.set_line_numbers_enabled(EditorId(0), false);
    assert!(!tabs.tabs()[0].editor.line_numbers_enabled());
    tabs.set_search_replace_enabled(EditorId(0), false);
    assert!(!tabs.tabs()[0].editor.search_replace_enabled());
    tabs.set_language_all(Language::German);
    assert_eq!(tabs.tabs()[0].editor.language(), Language::German);
    let _ = tabs.editor_event(EditorId(0), &Message::CanvasFocusGained);
    assert!(tabs.tabs()[0].editor.has_canvas_focus());
    tabs.lose_focus_all();
    assert!(!tabs.tabs()[0].editor.has_canvas_focus());
    assert!(tabs.tab(EditorId(0)).is_some());
    assert!(tabs.tab(EditorId(9)).is_none());
}

#[test]
fn server_status_lines() {
    let mut t = ProgressTable::new();
    assert_eq!(t.status("gopls"), ("LSP: gopls".to_string(), ServerStatus::Idle));
    t.update(
        "gopls",
        "1",
        LspProgress { title: "Loading".to_string(), message: Some("pkg".to_string()), percentage: Some(40) },
        false,
    );
    assert_eq!(t.status("gopls"), ("LSP: gopls (Loading: pkg 40%)".to_string(), ServerStatus::Working));
    t.update("gopls", "1", LspProgress { title: "Loading".to_string(), message: None, percentage: None }, false);
    assert_eq!(t.status("gopls"), ("LSP: gopls (Loading)".to_string(), ServerStatus::Working));
    t.update("gopls", "1", progress("Loading", Some(100)), false);
    assert_eq!(t.status("gopls"), ("LSP: gopls (Finishing...)".to_string(), ServerStatus::Finishing));
    assert_eq!(t.status("pyright").1, ServerStatus::Idle);
}

#[test]
fn completion_in_tab_marks_dirty() {
    let mut tabs = first_tabs();
    tabs.open_file("/p/a.lua", "pri", Language::English);
    assert!(tabs.jump_to("/p/a.lua", 0, 3));
    assert!(tabs.complete_word(EditorId(0), "print"));
    assert_eq!(tabs.tabs()[0].editor.content(), "print");
    assert!(tabs.tabs()[0].is_dirty);
    assert!(!tabs.complete_word(EditorId(3), "x"));
    tabs.set_viewport(EditorId(0), 12, 0, 7);
    assert_eq!(tabs.tabs()[0].editor.page_lines(), 12);
    assert_eq!(tabs.tabs()[0].editor.view_columns(), 1);
    assert_eq!(tabs.tabs()[0].editor.drag_columns(), 7);
}

#[test]
fn a_run_of_reports_keeps_the_last_of_each_token() {
    let mut t = ProgressTable::new();
    let rs = vec![
        ("ra".to_string(), "t1".to_string(), progress("Indexing", Some(10)), false),
        ("ra".to_string(), "t2".to_string(), progress("Loading", None), false),
        ("ra".to_string(), "t1".to_string(), progress("Indexing", Some(50)), false),
        ("ra".to_string(), "t2".to_string(), progress("Loading", None), true),
    ];
    t.apply_reports(&rs);
    let e = t.entries();
    assert_eq!(e.len(), 1);
    assert_eq!(e[0].0, "ra");
    assert_eq!(e[0].1, "t1");
    assert_eq!(e[0].2.percentage, Some(50));
}

#[test]
fn word_start_before_the_cursor() {
    assert_eq!(find_word_start("let foo_bar", 11), 4);
    assert_eq!(find_word_start("abc", 5), 5);
    assert_eq!(find_word_start("中a", 2), 0);
    assert!(!is_word_char(' '));
    assert!(is_word_char('_'));
    assert!(is_word_char('Z'));
}

#[test]
fn a_run_of_events_updates_progress_and_gives_jumps() {
    let mut t = ProgressTable::new();
    let pos = |l: u32, c: u32| LspPosition { line: l, character: c };
    let events = vec![
        LspEvent::Progress {
            token: "t1".to_string(),
            server_key: "ra".to_string(),
            title: "Indexing".to_string(),
            message: None,
            percentage: Some(5),
            done: false,
        },
        LspEvent::Definition { uri: "file:///src/lib.rs".to_string(), range: LspRange { start: pos(3, 7), end: pos(3, 9) } },
        LspEvent::Definition { uri: "untitled:x".to_string(), range: LspRange { start: pos(0, 0), end: pos(0, 0) } },
        LspEvent::Log { server_key: "ra".to_string(), message: "hi".to_string() },
        LspEvent::Progress {
            token: "t1".to_string(),
            server_key: "ra".to_string(),
            title: "Indexing".to_string(),
            message: None,
            percentage: None,
            done: true,
        },
    ];
    let jumps = apply_events(&mut t, &events);
    assert_eq!(jumps, vec![("/src/lib.rs".to_string(), 3, 7)]);
    assert!(t.entries().is_empty());
}
