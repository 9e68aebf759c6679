use iced_code_editor::hover::HoverState;
use iced_code_editor::text_model::LspPosition;
use iced_code_editor::types::EditorId;

fn at(line: u32, character: u32) -> Option<LspPosition> {
    Some(LspPosition { line, character })
}

#[test]
fn request_waits_for_rest() {
    let mut h = HoverState::new();
    h.pointer_moved(EditorId(0), at(1, 2), 1000);
    assert_eq!(h.due_request(1399, false), None);
    assert_eq!(h.due_request(1400, false), Some((EditorId(0), LspPosition { line: 1, character: 2 })));
    assert_eq!(h.due_request(2000, false), None);
    h.request_done(EditorId(0), true);
    assert_eq!(h.overlay, Some(EditorId(0)));
}

#[test]
fn same_place_does_not_restart() {
    let mut h = HoverState::new();
    h.pointer_moved(EditorId(0), at(0, 0), 0);
    h.pointer_moved(EditorId(0), at(0, 0), 300);
    assert_eq!(h.due_request(400, false), Some((EditorId(0), LspPosition { line: 0, character: 0 })));
    h.pointer_moved(EditorId(0), at(0, 1), 500);
    assert_eq!(h.due_request(800, false), None);
    h.request_done(EditorId(0), false);
    assert_eq!(h.anchor, None);
}

#[test]
fn answers_show_and_blank_hides() {
    let mut h = HoverState::new();
    h.answered("fn main()".to_string(), EditorId(2), false);
    assert_eq!(h.text.as_deref(), Some("fn main()"));
    assert_eq!(h.overlay, Some(EditorId(2)));
    h.answered("  \n".to_string(), EditorId(2), false);
    assert!(h.text.is_none());
    assert_eq!(h.overlay, None);
}

#[test]
fn tooltip_hides_after_leaving() {
    let mut h = HoverState::new();
    h.answered("doc".to_string(), EditorId(0), true);
    h.editor_exited(EditorId(0), 100);
    assert_eq!(h.hide_at, Some(600));
    h.editor_entered(EditorId(0));
    assert_eq!(h.hide_at, None);
    h.tooltip_entered();
    assert!(h.interactive);
    h.expire(10_000, false);
    assert!(h.text.is_some());
    h.tooltip_exited(1000);
    assert_eq!(h.hide_at, Some(1300));
    h.expire(1299, true);
    assert!(h.text.is_some());
    h.expire(1300, true);
    assert!(h.text.is_none());
    assert_eq!(h.overlay, Some(EditorId(0)));
    h.clear(false);
    assert_eq!(h.overlay, None);
}

#[test]
fn leaving_text_hides_other_editors_tooltip() {
    let mut h = HoverState::new();
    h.answered("doc".to_string(), EditorId(1), false);
    h.pointer_moved(EditorId(0), None, 50);
    assert_eq!(h.hide_at, Some(450));
    h.pointer_left_window(u64::MAX - 1);
    assert_eq!(h.hide_at, Some(u64::MAX));
}
