use iced_code_editor::protocol::handle_server_message;
use iced_code_editor::protocol::frame_message;
use iced_code_editor::protocol::hover_text_from_contents;
use iced_code_editor::protocol::json_get;
use iced_code_editor::protocol::json_str;
use iced_code_editor::protocol::json_u64;
use iced_code_editor::protocol::parse_completion_items;
use iced_code_editor::protocol::parse_definition_location;
use iced_code_editor::protocol::parse_hover_text;
use iced_code_editor::protocol::read_header_line;
use iced_code_editor::protocol::stderr_line_event;
use iced_code_editor::protocol::HeaderLine;
use iced_code_editor::protocol::JsonValue;
use iced_code_editor::protocol::LspEvent;
use iced_code_editor::protocol::LspRequestKind;
use iced_code_editor::protocol::RequestTracker;
use iced_code_editor::protocol::ServerAction;
use iced_code_editor::text_model::LspPosition;
use iced_code_editor::text_model::LspRange;

fn s(t: &str) -> JsonValue {
    JsonValue::String(t.to_string())
}

fn n(v: u64) -> JsonValue {
    JsonValue::Number(Some(v), i64::try_from(v).ok())
}

fn obj(pairs: Vec<(&str, JsonValue)>) -> JsonValue {
    JsonValue::Object(pairs.into_iter().map(|(k, v)| (k.to_string(), v)).collect())
}

fn pos(line: u64, ch: u64) -> JsonValue {
    obj(vec![("line", n(line)), ("character", n(ch))])
}

fn range(a: (u64, u64), b: (u64, u64)) -> JsonValue {
    obj(vec![("start", pos(a.0, a.1)), ("end", pos(b.0, b.1))])
}

fn lsp_range(a: (u32, u32), b: (u32, u32)) -> LspRange {
    LspRange {
        start: LspPosition { line: a.0, character: a.1 },
        end: LspPosition { line: b.0, character: b.1 },
    }
}

#[test]
fn json_get_takes_first_member() {
    let v = obj(vec![("a", n(1)), ("b", s("x")), ("a", n(2))]);
    assert_eq!(json_u64(json_get(&v, "a")), Some(1));
    assert_eq!(json_str(json_get(&v, "b")).map(|t| t.as_str()), Some("x"));
    assert!(json_get(&v, "c").is_none());
    assert!(json_get(&s("a"), "a").is_none());
}

#[test]
fn hover_text_of_string_array_and_object() {
    assert_eq!(hover_text_from_contents(&s("plain")), Some("plain".to_string()));
    let arr = JsonValue::Array(vec![
        s("first"),
        n(3),
        obj(vec![("language", s("rust")), ("value", s("fn main()"))]),
    ]);
    assert_eq!(hover_text_from_contents(&arr), Some("first\nfn main()".to_string()));
    assert_eq!(hover_text_from_contents(&JsonValue::Array(vec![n(1)])), None);
    assert_eq!(
        hover_text_from_contents(&obj(vec![("kind", s("markdown")), ("value", s("**b**"))])),
        Some("**b**".to_string())
    );
    assert_eq!(hover_text_from_contents(&JsonValue::Null), None);
}

#[test]
fn hover_reply_reads_contents() {
    let reply = obj(vec![("contents", s("doc"))]);
    assert_eq!(parse_hover_text(&reply), Some("doc".to_string()));
    assert_eq!(parse_hover_text(&obj(vec![])), None);
    assert_eq!(parse_hover_text(&JsonValue::Null), None);
}

#[test]
fn completion_items_from_array_or_list() {
    let items = vec![obj(vec![("label", s("print"))]), obj(vec![("kind", n(3))]), obj(vec![("label", s("pairs"))])];
    assert_eq!(parse_completion_items(&JsonValue::Array(items)), vec!["print".to_string(), "pairs".to_string()]);
    let list = obj(vec![
        ("isIncomplete", JsonValue::Bool(false)),
        ("items", JsonValue::Array(vec![obj(vec![("label", s("ipairs"))])])),
    ]);
    assert_eq!(parse_completion_items(&list), vec!["ipairs".to_string()]);
    assert!(parse_completion_items(&JsonValue::Null).is_empty());
}

#[test]
fn definition_from_location_link_and_array() {
    let loc = obj(vec![("uri", s("file:///a.rs")), ("range", range((1, 2), (1, 5)))]);
    assert_eq!(
        parse_definition_location(&loc),
        Some(("file:///a.rs".to_string(), lsp_range((1, 2), (1, 5))))
    );
    let link = obj(vec![
        ("targetUri", s("file:///b.rs")),
        ("targetRange", range((0, 0), (9, 0))),
        ("targetSelectionRange", range((3, 4), (3, 8))),
    ]);
    assert_eq!(
        parse_definition_location(&JsonValue::Array(vec![link])),
        Some(("file:///b.rs".to_string(), lsp_range((3, 4), (3, 8))))
    );
    let link_no_sel = obj(vec![("targetUri", s("file:///c.rs")), ("targetRange", range((2, 0), (2, 1)))]);
    assert_eq!(
        parse_definition_location(&JsonValue::Array(vec![link_no_sel])),
        Some(("file:///c.rs".to_string(), lsp_range((2, 0), (2, 1))))
    );
    assert_eq!(parse_definition_location(&JsonValue::Array(vec![])), None);
    assert_eq!(parse_definition_location(&JsonValue::Null), None);
    let broken = obj(vec![("uri", s("file:///a.rs"))]);
    assert_eq!(parse_definition_location(&broken), None);
}

#[test]
fn header_lines() {
    assert_eq!(read_header_line("Content-Length: 42\r\n", None), HeaderLine::Header(Some(42)));
    assert_eq!(read_header_line("Content-Type: x", Some(7)), HeaderLine::Header(Some(7)));
    assert_eq!(read_header_line("Content-Length: abc", Some(3)), HeaderLine::Header(Some(3)));
    assert_eq!(read_header_line("\r\n", Some(3)), HeaderLine::End);
    assert_eq!(read_header_line("", None), HeaderLine::End);
}

#[test]
fn framing_prefixes_content_length() {
    let body = b"{\"a\":1}".to_vec();
    let framed = frame_message(&body);
    assert_eq!(framed, b"Content-Length: 7\r\n\r\n{\"a\":1}".to_vec());
    assert_eq!(frame_message(&Vec::new()), b"Content-Length: 0\r\n\r\n".to_vec());
}

#[test]
fn framed_header_reads_back() {
    let body = b"{\"id\":12,\"result\":null}".to_vec();
    let framed = frame_message(&body);
    let text = String::from_utf8(framed.clone()).unwrap();
    let first_end = text.find("\r\n").unwrap() + 2;
    let first = &text[..first_end];
    let second = &text[first_end..first_end + 2];
    let len = read_header_line(first, None);
    assert_eq!(len, HeaderLine::Header(Some(body.len())));
    assert_eq!(read_header_line(second, Some(body.len())), HeaderLine::End);
    assert_eq!(&framed[first_end + 2..], &body[..]);
}

#[test]
fn tracker_counts_and_forgets() {
    let mut t = RequestTracker::new();
    assert_eq!(t.next_id(), 1);
    let h = t.begin(LspRequestKind::Hover);
    assert_eq!(h, 2);
    let c = t.begin(LspRequestKind::Completion);
    assert_eq!(c, 3);
    assert_eq!(t.finish(h), Some(LspRequestKind::Hover));
    assert_eq!(t.finish(h), None);
    assert_eq!(t.finish(c), Some(LspRequestKind::Completion));
}

#[test]
fn server_reply_to_pending_hover() {
    let mut t = RequestTracker::new();
    let id = t.begin(LspRequestKind::Hover);
    let msg = obj(vec![("id", n(id)), ("result", obj(vec![("contents", s("doc"))]))]);
    match handle_server_message(&msg, &mut t, "lua-language-server") {
        ServerAction::Emit(LspEvent::Hover { text }) => assert_eq!(text, "doc"),
        other => panic!("unexpected {:?}", other),
    }
    // The request is no longer waiting: a second reply is ignored.
    assert!(matches!(handle_server_message(&msg, &mut t, "x"), ServerAction::Ignore));
}

#[test]
fn server_hover_without_contents_is_empty_text() {
    let mut t = RequestTracker::new();
    let id = t.begin(LspRequestKind::Hover);
    let msg = obj(vec![("id", n(id)), ("result", JsonValue::Null)]);
    match handle_server_message(&msg, &mut t, "k") {
        ServerAction::Emit(LspEvent::Hover { text }) => assert_eq!(text, ""),
        other => panic!("unexpected {:?}", other),
    }
}

#[test]
fn server_completion_and_definition_replies() {
    let mut t = RequestTracker::new();
    let c = t.begin(LspRequestKind::Completion);
    let d = t.begin(LspRequestKind::Definition);
    let empty = obj(vec![("id", n(c)), ("result", JsonValue::Array(vec![]))]);
    assert!(matches!(handle_server_message(&empty, &mut t, "k"), ServerAction::Ignore));
    let c2 = t.begin(LspRequestKind::Completion);
    let reply = obj(vec![("id", n(c2)), ("result", JsonValue::Array(vec![obj(vec![("label", s("x"))])]))]);
    match handle_server_message(&reply, &mut t, "k") {
        ServerAction::Emit(LspEvent::Completion { items }) => assert_eq!(items, vec!["x".to_string()]),
        other => panic!("unexpected {:?}", other),
    }
    let def = obj(vec![
        ("id", n(d)),
        ("result", obj(vec![("uri", s("file:///m.go")), ("range", range((4, 1), (4, 3)))])),
    ]);
    match handle_server_message(&def, &mut t, "k") {
        ServerAction::Emit(LspEvent::Definition { uri, range }) => {
            assert_eq!(uri, "file:///m.go");
            assert_eq!(range, lsp_range((4, 1), (4, 3)));
        }
        other => panic!("unexpected {:?}", other),
    }
}

#[test]
fn server_progress_create_is_acknowledged() {
    let mut t = RequestTracker::new();
    let msg = obj(vec![("id", n(9)), ("method", s("window/workDoneProgress/create"))]);
    assert!(matches!(handle_server_message(&msg, &mut t, "k"), ServerAction::Acknowledge(9)));
    let other = obj(vec![("id", n(9)), ("method", s("workspace/configuration"))]);
    assert!(matches!(handle_server_message(&other, &mut t, "k"), ServerAction::Ignore));
}

#[test]
fn server_progress_notification() {
    let mut t = RequestTracker::new();
    let msg = obj(vec![
        ("method", s("$/progress")),
        (
            "params",
            obj(vec![
                ("token", JsonValue::Number(Some(5), Some(5))),
                (
                    "value",
                    obj(vec![
                        ("kind", s("report")),
                        ("title", s("Indexing")),
                        ("message", s("3/10")),
                        ("percentage", n(30)),
                    ]),
                ),
            ]),
        ),
    ]);
    match handle_server_message(&msg, &mut t, "rust-analyzer") {
        ServerAction::Emit(LspEvent::Progress { token, server_key, title, message, percentage, done }) => {
            assert_eq!(token, "5");
            assert_eq!(server_key, "rust-analyzer");
            assert_eq!(title, "Indexing");
            assert_eq!(message, Some("3/10".to_string()));
            assert_eq!(percentage, Some(30));
            assert!(!done);
        }
        other => panic!("unexpected {:?}", other),
    }
    let end = obj(vec![
        ("method", s("$/progress")),
        ("params", obj(vec![("token", s("tok")), ("value", obj(vec![("kind", s("end"))]))])),
    ]);
    match handle_server_message(&end, &mut t, "k") {
        ServerAction::Emit(LspEvent::Progress { token, title, message, percentage, done, .. }) => {
            assert_eq!(token, "tok");
            assert_eq!(title, "");
            assert_eq!(message, None);
            assert_eq!(percentage, None);
            assert!(done);
        }
        other => panic!("unexpected {:?}", other),
    }
    let neg = obj(vec![
        ("method", s("$/progress")),
        ("params", obj(vec![("token", JsonValue::Number(None, Some(-2))), ("value", obj(vec![]))])),
    ]);
    match handle_server_message(&neg, &mut t, "k") {
        ServerAction::Emit(LspEvent::Progress { token, .. }) => assert_eq!(token, "-2"),
        other => panic!("unexpected {:?}", other),
    }
}

#[test]
fn server_other_notifications_ignored() {
    let mut t = RequestTracker::new();
    let msg = obj(vec![("method", s("textDocument/publishDiagnostics"))]);
    assert!(matches!(handle_server_message(&msg, &mut t, "k"), ServerAction::Ignore));
    assert!(matches!(handle_server_message(&JsonValue::Null, &mut t, "k"), ServerAction::Ignore));
}

#[test]
fn stderr_lines() {
    match stderr_line_event("gopls", "  warning: x \n") {
        Some(LspEvent::Log { server_key, message }) => {
            assert_eq!(server_key, "gopls");
            assert_eq!(message, "warning: x");
        }
        other => panic!("unexpected {:?}", other),
    }
    assert!(stderr_line_event("gopls", "   \n").is_none());
}
