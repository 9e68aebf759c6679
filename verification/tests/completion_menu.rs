use iced_code_editor::completion::CompletionMenu;
use iced_code_editor::completion::KeyRoute;
use iced_code_editor::editor::ArrowDirection;
use iced_code_editor::editor::Message;

fn labels(v: &[&str]) -> Vec<String> {
    v.iter().map(|s| s.to_string()).collect()
}

#[test]
fn items_filtered_by_word() {
    let mut m = CompletionMenu::new();
    assert!(!m.is_active());
    m.after_char('p', "p");
    assert!(m.all.is_empty());
    m.set_items(labels(&["print", "pairs", "load"]));
    assert!(m.visible);
    assert_eq!(m.shown, labels(&["print", "pairs", "load"]));
    m.after_char('r', "pr");
    assert_eq!(m.filter, "pr");
    assert_eq!(m.shown, labels(&["print"]));
    m.after_char('x', "prx");
    assert!(m.shown.is_empty());
    assert!(!m.visible);
}

#[test]
fn non_word_character_closes() {
    let mut m = CompletionMenu::new();
    m.set_items(labels(&["a"]));
    m.after_char('(', "");
    assert!(m.all.is_empty());
    assert!(!m.visible);
    assert!(!m.suppressed);
}

#[test]
fn routing_and_navigation() {
    let mut m = CompletionMenu::new();
    assert_eq!(m.route(&Message::Enter), KeyRoute::Editor);
    m.set_items(labels(&["a", "b", "c"]));
    assert_eq!(m.route(&Message::ArrowKey(ArrowDirection::Up, false)), KeyRoute::NavigateUp);
    assert_eq!(m.route(&Message::ArrowKey(ArrowDirection::Down, false)), KeyRoute::NavigateDown);
    assert_eq!(m.route(&Message::ArrowKey(ArrowDirection::Left, false)), KeyRoute::CloseThenEditor);
    assert_eq!(m.route(&Message::ArrowKey(ArrowDirection::Down, true)), KeyRoute::Editor);
    assert_eq!(m.route(&Message::Enter), KeyRoute::Confirm);
    assert_eq!(m.route(&Message::Backspace), KeyRoute::Editor);
    assert!(m.navigate(false));
    assert_eq!(m.selected, 2);
    assert!(m.navigate(true));
    assert_eq!(m.selected, 0);
    assert!(m.navigate(true));
    assert_eq!(m.selected, 1);
}

#[test]
fn confirm_shuts_until_typing() {
    let mut m = CompletionMenu::new();
    m.set_items(labels(&["alpha", "beta"]));
    assert!(m.navigate(true));
    assert_eq!(m.confirm(m.selected), Some("beta".to_string()));
    assert!(m.suppressed);
    assert_eq!(m.route(&Message::Enter), KeyRoute::Editor);
    assert_eq!(m.confirm(9), None);
    m.after_char('b', "b");
    assert!(!m.suppressed);
    assert!(m.is_active());
    m.dismiss();
    assert!(!m.visible);
    assert!(!m.navigate(true));
    m.close();
    assert!(m.all.is_empty());
}
