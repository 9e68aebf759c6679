use iced_code_editor::lsp_config::lsp_language_for_extension;
use iced_code_editor::lsp_config::lsp_language_for_path;
use iced_code_editor::lsp_config::lsp_language_for_template;
use iced_code_editor::lsp_config::lsp_server_config;
use iced_code_editor::lsp_config::program_from_envs;
use iced_code_editor::lsp_config::program_lookup;
use iced_code_editor::lsp_config::program_or_default;
use iced_code_editor::lsp_config::resolve_lsp_command;
use iced_code_editor::lsp_config::ProgramLookup;
use iced_code_editor::text_model::char_to_byte_index;
use iced_code_editor::text_model::LspPosition;
use iced_code_editor::text_model::LspRange;
use iced_code_editor::text_model::LspTextChange;
use iced_code_editor::text_model::TextModel;
use iced_code_editor::types::Template;

fn p(line: u32, character: u32) -> LspPosition {
    LspPosition { line, character }
}

fn change(a: (u32, u32), b: (u32, u32), text: &str) -> LspTextChange {
    LspTextChange { range: LspRange { start: p(a.0, a.1), end: p(b.0, b.1) }, text: text.to_string() }
}

#[test]
fn languages_by_extension() {
    let rs = lsp_language_for_extension("rs").unwrap();
    assert_eq!(rs.language_id, "rust");
    assert_eq!(rs.server_key, "rust-analyzer");
    assert_eq!(lsp_language_for_extension("PY").unwrap().language_id, "python");
    assert_eq!(lsp_language_for_extension("jsx").unwrap().server_key, "typescript-language-server");
    assert_eq!(lsp_language_for_extension("tsx").unwrap().language_id, "typescript");
    assert_eq!(lsp_language_for_extension("lua").unwrap().server_key, "lua-language-server");
    assert_eq!(lsp_language_for_extension("go").unwrap().server_key, "gopls");
    assert!(lsp_language_for_extension("txt").is_none());
    assert!(lsp_language_for_extension("").is_none());
}

#[test]
fn languages_by_path_and_template() {
    assert_eq!(lsp_language_for_path("src/main.rs").unwrap().language_id, "rust");
    assert_eq!(lsp_language_for_path("/tmp/x.GO").unwrap().language_id, "go");
    assert!(lsp_language_for_path("Makefile").is_none());
    assert!(lsp_language_for_path("notes.md").is_none());
    assert_eq!(lsp_language_for_path("main.rs").unwrap().language_id, "rust");
    assert_eq!(lsp_language_for_path("bundle.min.js").unwrap().language_id, "javascript");
    assert!(lsp_language_for_path(".lua").is_none());
    assert!(lsp_language_for_path("main.").is_none());
    let t = lsp_language_for_template(Template::Fibonacci).unwrap();
    assert_eq!(t.language_id, "lua");
    assert_eq!(t.server_key, "lua-language-server");
}

#[test]
fn server_configs() {
    let ra = lsp_server_config("rust-analyzer").unwrap();
    assert_eq!(ra.key, "rust-analyzer");
    assert_eq!(ra.env_vars, &["RUST_ANALYZER", "RUST_ANALYZER_PATH"]);
    assert_eq!(ra.default_command, &["rust-analyzer"]);
    let py = lsp_server_config("pyright").unwrap();
    assert_eq!(py.default_command, &["pyright-langserver", "--stdio"]);
    assert!(lsp_server_config("clangd").is_none());
    assert_eq!(program_lookup(&ra), ProgramLookup::RustAnalyzer);
    assert_eq!(program_lookup(&lsp_server_config("gopls").unwrap()), ProgramLookup::Gopls);
    assert_eq!(program_lookup(&py), ProgramLookup::Environment);
}

#[test]
fn program_from_environment() {
    let vals = vec![None, Some("   ".to_string()), Some("/opt/ra".to_string()), Some("/x".to_string())];
    assert_eq!(program_from_envs(&vals), Some("/opt/ra".to_string()));
    assert_eq!(program_from_envs(&vec![None, Some("".to_string())]), None);
    let py = lsp_server_config("pyright").unwrap();
    assert_eq!(program_or_default(&py, None), "pyright-langserver");
    assert_eq!(program_or_default(&py, Some("/bin/pr".to_string())), "/bin/pr");
}

#[test]
fn commands() {
    let py = lsp_server_config("pyright").unwrap();
    let c = resolve_lsp_command(&py, Ok("/bin/pyright-langserver".to_string())).unwrap();
    assert_eq!(c.program, "/bin/pyright-langserver");
    assert_eq!(c.args, vec!["--stdio".to_string()]);
    let ra = lsp_server_config("rust-analyzer").unwrap();
    let c = resolve_lsp_command(&ra, Ok("rust-analyzer".to_string())).unwrap();
    assert!(c.args.is_empty());
    let e = resolve_lsp_command(&ra, Err("not found".to_string()));
    assert_eq!(e.unwrap_err(), "not found");
}

#[test]
fn byte_index_of_chars() {
    assert_eq!(char_to_byte_index("héllo", 0), 0);
    assert_eq!(char_to_byte_index("héllo", 2), 3);
    assert_eq!(char_to_byte_index("héllo", 99), 6);
    assert_eq!(char_to_byte_index("中文", 1), 3);
    assert_eq!(char_to_byte_index("a😀b", 2), 5);
}

#[test]
fn text_model_lines() {
    let m = TextModel::from_text("a\r\nb\n");
    assert_eq!(m.lines(), vec!["a".to_string(), "b".to_string()]);
    let e = TextModel::from_text("");
    assert_eq!(e.line_count(), 1);
    assert_eq!(e.lines(), vec!["".to_string()]);
    let t = TextModel::from_text("x\n\ny");
    assert_eq!(t.lines(), vec!["x".to_string(), "".to_string(), "y".to_string()]);
}

#[test]
fn text_model_changes() {
    let mut m = TextModel::from_text("hello world");
    m.apply_change(&change((0, 5), (0, 11), "\nthere"));
    assert_eq!(m.lines(), vec!["hello".to_string(), "there".to_string()]);
    m.apply_change(&change((0, 0), (1, 99), "x"));
    assert_eq!(m.lines(), vec!["x".to_string()]);
    m.apply_change(&change((5, 0), (5, 0), "ignored"));
    assert_eq!(m.lines(), vec!["x".to_string()]);
}

#[test]
fn utf16_positions_and_batches() {
    let mut m = TextModel::from_text("a😀b\nc");
    assert!(m.position_fits(p(0, 2)));
    assert!(m.position_fits(p(9, 9)));
    assert_eq!(m.to_utf16_position(p(0, 2)), p(0, 3));
    assert_eq!(m.to_utf16_position(p(0, 9)), p(0, 4));
    assert_eq!(m.to_utf16_position(p(7, 3)), p(7, 0));
    let ranges = m.apply_changes(&vec![change((0, 2), (0, 3), "Z"), change((1, 0), (1, 1), "dd")]);
    assert_eq!(m.lines(), vec!["a😀Z".to_string(), "dd".to_string()]);
    assert_eq!(ranges[0], LspRange { start: p(0, 3), end: p(0, 4) });
    assert_eq!(ranges[1], LspRange { start: p(1, 0), end: p(1, 1) });
}

#[test]
fn joining_the_lines_gives_the_text_back() {
    let m = TextModel::from_text("one\ntwo\n\nthree");
    assert_eq!(m.lines().join("\n"), "one\ntwo\n\nthree");
    let m = TextModel::from_text("a\r\nb\n");
    assert_eq!(m.lines(), vec!["a".to_string(), "b".to_string()]);
}
