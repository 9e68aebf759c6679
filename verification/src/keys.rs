//! Which editor command a key press stands for: shortcuts first, then the
//! typed text, then the named editing and navigation keys.

use vstd::prelude::*;

use crate::search::SearchMessage;

use crate::chars::chars_of;
use crate::editor::{extend_or_clear, model_wf, next_state, paged_cursor, ArrowDirection, EditorModel, Message};
use crate::textutil::str_eq;

verus! {

/// The named keys the editor knows.
#[derive(Clone, Copy, PartialEq, Eq, Structural, Debug)]
pub enum KeyName {
    Backspace,
    Delete,
    Enter,
    Tab,
    ArrowUp,
    ArrowDown,
    ArrowLeft,
    ArrowRight,
    PageUp,
    PageDown,
    Home,
    End,
    Insert,
    Escape,
    F3,
    /// Any other named key.
    Other,
}

/// A key as the keyboard reports it.
#[derive(Clone, Debug)]
pub enum KeyPress {
    Named(KeyName),
    /// A key that stands for characters (as typed without modifiers
    /// changing them, such as `"c"` for Ctrl+C).
    Character(String),
    Unidentified,
}

/// A key, with its characters as a sequence.
pub enum KeyView {
    Named(KeyName),
    Character(Seq<char>),
    Unidentified,
}

/// A key as its view.
pub open spec fn key_view(k: KeyPress) -> KeyView {
    match k {
        KeyPress::Named(n) => KeyView::Named(n),
        KeyPress::Character(s) => KeyView::Character(s@),
        KeyPress::Unidentified => KeyView::Unidentified,
    }
}

/// The modifier keys held.
#[derive(Clone, Copy, PartialEq, Eq, Debug)]
pub struct Modifiers {
    pub control: bool,
    pub shift: bool,
    pub alt: bool,
    pub command: bool,
}

/// Whether the editor takes key presses at all: it holds the application's
/// focus, the pointer is over it, its canvas has the focus; and whether
/// text is being composed, search is enabled and the search dialog is open.
#[derive(Clone, Copy, PartialEq, Eq, Debug)]
pub struct KeyContext {
    pub focused: bool,
    pub pointer_inside: bool,
    pub canvas_focus: bool,
    pub composing: bool,
    pub search_enabled: bool,
    pub search_open: bool,
}

/// What a key press asks for.
#[derive(Clone, Copy, PartialEq, Eq, Debug)]
pub enum KeyCommand {
    /// Type a character.
    Char(char),
    Backspace,
    Delete,
    Enter,
    Tab,
    /// An arrow key, and whether Shift is held.
    Arrow(ArrowDirection, bool),
    PageUp,
    PageDown,
    /// Home, and whether Shift is held.
    Home(bool),
    /// End, and whether Shift is held.
    End(bool),
    CtrlHome,
    CtrlEnd,
    Copy,
    /// Paste what the clipboard holds.
    Paste,
    DeleteSelection,
    Undo,
    Redo,
    OpenSearch,
    OpenSearchReplace,
    CloseSearch,
    SearchDialogTab,
    SearchDialogShiftTab,
    FindNext,
    FindPrevious,
}

/// `char::is_control`: the general category Cc, the code points
/// `U+0000..=U+001F` and `U+007F..=U+009F`.
pub open spec fn control_char(c: char) -> bool {
    (c as u32) <= 0x1F || (0x7F <= (c as u32) && (c as u32) <= 0x9F)
}

/// Whether `c` is a control character.
pub fn is_control(c: char) -> (res: bool)
    ensures
        res == control_char(c),
{
    let v = c as u32;
    v <= 0x1F || (0x7F <= v && v <= 0x9F)
}

/// The key is the character key `s`.
pub open spec fn is_char_key(k: KeyView, s: Seq<char>) -> bool {
    k matches KeyView::Character(c) && c == s
}

/// The key is the named key `n`.
pub open spec fn is_named(k: KeyView, n: KeyName) -> bool {
    k matches KeyView::Named(m) && m == n
}

/// The command of a named editing or navigation key.
pub open spec fn named_command(n: KeyName, shift: bool) -> Option<KeyCommand> {
    match n {
        KeyName::Backspace => Some(KeyCommand::Backspace),
        KeyName::Delete => Some(KeyCommand::Delete),
        KeyName::Enter => Some(KeyCommand::Enter),
        KeyName::Tab => Some(KeyCommand::Tab),
        KeyName::ArrowUp => Some(KeyCommand::Arrow(ArrowDirection::Up, shift)),
        KeyName::ArrowDown => Some(KeyCommand::Arrow(ArrowDirection::Down, shift)),
        KeyName::ArrowLeft => Some(KeyCommand::Arrow(ArrowDirection::Left, shift)),
        KeyName::ArrowRight => Some(KeyCommand::Arrow(ArrowDirection::Right, shift)),
        KeyName::PageUp => Some(KeyCommand::PageUp),
        KeyName::PageDown => Some(KeyCommand::PageDown),
        KeyName::Home => Some(KeyCommand::Home(shift)),
        KeyName::End => Some(KeyCommand::End(shift)),
        _ => None,
    }
}

/// What a key press stands for, and whether the editor keeps the event
/// from other widgets (a paste lets it through).  The checks go in order:
/// the editor must take keys, and while text is composed only shortcuts
/// with Ctrl or Command pass; then the shortcuts; then the typed text when
/// neither Ctrl nor Alt is held and it starts with a printable character;
/// then the named keys; then the first character of a character key when
/// neither Ctrl nor Alt is held.
pub open spec fn key_outcome(k: KeyView, m: Modifiers, text: Option<Seq<char>>, cx: KeyContext) -> Option<(KeyCommand, bool)> {
    if !cx.focused || !cx.pointer_inside || !cx.canvas_focus {
        None
    } else if cx.composing && !(m.control || m.command) {
        None
    } else if m.control && (is_char_key(k, "c"@) || is_named(k, KeyName::Insert)) {
        Some((KeyCommand::Copy, true))
    } else if m.control && is_char_key(k, "z"@) {
        Some((KeyCommand::Undo, true))
    } else if m.control && is_char_key(k, "y"@) {
        Some((KeyCommand::Redo, true))
    } else if m.control && is_char_key(k, "f"@) && cx.search_enabled {
        Some((KeyCommand::OpenSearch, true))
    } else if m.control && is_char_key(k, "h"@) && cx.search_enabled {
        Some((KeyCommand::OpenSearchReplace, true))
    } else if is_named(k, KeyName::Escape) {
        Some((KeyCommand::CloseSearch, true))
    } else if is_named(k, KeyName::Tab) && cx.search_open {
        Some((if m.shift { KeyCommand::SearchDialogShiftTab } else { KeyCommand::SearchDialogTab }, true))
    } else if is_named(k, KeyName::F3) && cx.search_enabled {
        Some((if m.shift { KeyCommand::FindPrevious } else { KeyCommand::FindNext }, true))
    } else if (m.control && is_char_key(k, "v"@)) || (m.shift && is_named(k, KeyName::Insert)) {
        Some((KeyCommand::Paste, false))
    } else if m.control && is_named(k, KeyName::Home) {
        Some((KeyCommand::CtrlHome, true))
    } else if m.control && is_named(k, KeyName::End) {
        Some((KeyCommand::CtrlEnd, true))
    } else if m.shift && is_named(k, KeyName::Delete) {
        Some((KeyCommand::DeleteSelection, true))
    } else if text matches Some(t) && t.len() > 0 && !m.control && !m.alt && !control_char(t[0]) {
        Some((KeyCommand::Char(text->0[0]), true))
    } else {
        match k {
            KeyView::Named(n) => match named_command(n, m.shift) {
                Some(c) => Some((c, true)),
                None => None,
            },
            KeyView::Character(c) => if !m.control && !m.alt && c.len() > 0 {
                Some((KeyCommand::Char(c[0]), true))
            } else {
                None
            },
            KeyView::Unidentified => None,
        }
    }
}

fn char_key_is(key: &KeyPress, s: &str) -> (res: bool)
    ensures
        res == is_char_key(key_view(*key), s@),
{
    match key {
        KeyPress::Character(c) => str_eq(c.as_str(), s),
        _ => false,
    }
}

fn named_is(key: &KeyPress, n: KeyName) -> (res: bool)
    ensures
        res == is_named(key_view(*key), n),
{
    match key {
        KeyPress::Named(m) => *m == n,
        _ => false,
    }
}

fn named_key_command(n: KeyName, shift: bool) -> (res: Option<KeyCommand>)
    ensures
        res == named_command(n, shift),
{
    match n {
        KeyName::Backspace => Some(KeyCommand::Backspace),
        KeyName::Delete => Some(KeyCommand::Delete),
        KeyName::Enter => Some(KeyCommand::Enter),
        KeyName::Tab => Some(KeyCommand::Tab),
        KeyName::ArrowUp => Some(KeyCommand::Arrow(ArrowDirection::Up, shift)),
        KeyName::ArrowDown => Some(KeyCommand::Arrow(ArrowDirection::Down, shift)),
        KeyName::ArrowLeft => Some(KeyCommand::Arrow(ArrowDirection::Left, shift)),
        KeyName::ArrowRight => Some(KeyCommand::Arrow(ArrowDirection::Right, shift)),
        KeyName::PageUp => Some(KeyCommand::PageUp),
        KeyName::PageDown => Some(KeyCommand::PageDown),
        KeyName::Home => Some(KeyCommand::Home(shift)),
        KeyName::End => Some(KeyCommand::End(shift)),
        _ => None,
    }
}

/// What a key press stands for, and whether the editor keeps the event.
pub fn key_command(key: &KeyPress, m: Modifiers, text: Option<&str>, cx: KeyContext) -> (res: Option<(KeyCommand, bool)>)
    ensures
        res == key_outcome(
            key_view(*key),
            m,
            match text {
                Some(t) => Some(t@),
                None => None,
            },
            cx,
        ),
{
    if !cx.focused || !cx.pointer_inside || !cx.canvas_focus {
        return None;
    }
    if cx.composing && !(m.control || m.command) {
        return None;
    }
    if m.control && (char_key_is(key, "c") || named_is(key, KeyName::Insert)) {
        return Some((KeyCommand::Copy, true));
    }
    if m.control && char_key_is(key, "z") {
        return Some((KeyCommand::Undo, true));
    }
    if m.control && char_key_is(key, "y") {
        return Some((KeyCommand::Redo, true));
    }
    if m.control && char_key_is(key, "f") && cx.search_enabled {
        return Some((KeyCommand::OpenSearch, true));
    }
    if m.control && char_key_is(key, "h") && cx.search_enabled {
        return Some((KeyCommand::OpenSearchReplace, true));
    }
    if named_is(key, KeyName::Escape) {
        return Some((KeyCommand::CloseSearch, true));
    }
    if named_is(key, KeyName::Tab) && cx.search_open {
        return Some((if m.shift { KeyCommand::SearchDialogShiftTab } else { KeyCommand::SearchDialogTab }, true));
    }
    if named_is(key, KeyName::F3) && cx.search_enabled {
        return Some((if m.shift { KeyCommand::FindPrevious } else { KeyCommand::FindNext }, true));
    }
    if (m.control && char_key_is(key, "v")) || (m.shift && named_is(key, KeyName::Insert)) {
        return Some((KeyCommand::Paste, false));
    }
    if m.control && named_is(key, KeyName::Home) {
        return Some((KeyCommand::CtrlHome, true));
    }
    if m.control && named_is(key, KeyName::End) {
        return Some((KeyCommand::CtrlEnd, true));
    }
    if m.shift && named_is(key, KeyName::Delete) {
        return Some((KeyCommand::DeleteSelection, true));
    }
    if let Some(t) = text {
        let tc = chars_of(t);
        if tc.len() > 0 && !m.control && !m.alt && !is_control(tc[0]) {
            return Some((KeyCommand::Char(tc[0]), true));
        }
    }
    match key {
        KeyPress::Named(n) => match named_key_command(*n, m.shift) {
            Some(c) => Some((c, true)),
            None => None,
        },
        KeyPress::Character(c) => {
            let cc = chars_of(c.as_str());
            if !m.control && !m.alt && cc.len() > 0 {
                Some((KeyCommand::Char(cc[0]), true))
            } else {
                None
            }
        },
        KeyPress::Unidentified => None,
    }
}

/// The editor message of a command, for the commands the editor handles
/// itself (the search commands are the search dialog's).
pub open spec fn command_message_is(c: KeyCommand, msg: Option<Message>) -> bool {
    match c {
        KeyCommand::Char(ch) => msg matches Some(Message::CharacterInput(x)) && x == ch,
        KeyCommand::Backspace => msg matches Some(Message::Backspace),
        KeyCommand::Delete => msg matches Some(Message::Delete),
        KeyCommand::Enter => msg matches Some(Message::Enter),
        KeyCommand::Tab => msg matches Some(Message::Tab),
        KeyCommand::Arrow(d, s) => msg matches Some(Message::ArrowKey(d2, s2)) && d2 == d && s2 == s,
        KeyCommand::PageUp => msg matches Some(Message::PageUp),
        KeyCommand::PageDown => msg matches Some(Message::PageDown),
        KeyCommand::Home(s) => msg matches Some(Message::Home(s2)) && s2 == s,
        KeyCommand::End(s) => msg matches Some(Message::End(s2)) && s2 == s,
        KeyCommand::CtrlHome => msg matches Some(Message::CtrlHome),
        KeyCommand::CtrlEnd => msg matches Some(Message::CtrlEnd),
        KeyCommand::Copy => msg matches Some(Message::Copy),
        KeyCommand::Paste => msg matches Some(Message::Paste(t)) && t@.len() == 0,
        KeyCommand::DeleteSelection => msg matches Some(Message::DeleteSelection),
        KeyCommand::Undo => msg matches Some(Message::Undo),
        KeyCommand::Redo => msg matches Some(Message::Redo),
        _ => msg is None,
    }
}

impl KeyCommand {
    /// The message the editor gets for this command; `None` for the search
    /// dialog's commands.
    pub fn editor_message(&self) -> (res: Option<Message>)
        ensures
            command_message_is(*self, res),
    {
        match self {
            KeyCommand::Char(c) => Some(Message::CharacterInput(*c)),
            KeyCommand::Backspace => Some(Message::Backspace),
            KeyCommand::Delete => Some(Message::Delete),
            KeyCommand::Enter => Some(Message::Enter),
            KeyCommand::Tab => Some(Message::Tab),
            KeyCommand::Arrow(d, s) => Some(Message::ArrowKey(*d, *s)),
            KeyCommand::PageUp => Some(Message::PageUp),
            KeyCommand::PageDown => Some(Message::PageDown),
            KeyCommand::Home(s) => Some(Message::Home(*s)),
            KeyCommand::End(s) => Some(Message::End(*s)),
            KeyCommand::CtrlHome => Some(Message::CtrlHome),
            KeyCommand::CtrlEnd => Some(Message::CtrlEnd),
            KeyCommand::Copy => Some(Message::Copy),
            KeyCommand::Paste => Some(Message::Paste(String::new())),
            KeyCommand::DeleteSelection => Some(Message::DeleteSelection),
            KeyCommand::Undo => Some(Message::Undo),
            KeyCommand::Redo => Some(Message::Redo),
            _ => None,
        }
    }
}

/// The search dialog's message of a command, for the dialog's commands.
pub open spec fn command_search_is(c: KeyCommand, msg: Option<SearchMessage>) -> bool {
    match c {
        KeyCommand::OpenSearch => msg matches Some(SearchMessage::Open),
        KeyCommand::OpenSearchReplace => msg matches Some(SearchMessage::OpenReplace),
        KeyCommand::CloseSearch => msg matches Some(SearchMessage::Close),
        KeyCommand::SearchDialogTab => msg matches Some(SearchMessage::Tab),
        KeyCommand::SearchDialogShiftTab => msg matches Some(SearchMessage::ShiftTab),
        KeyCommand::FindNext => msg matches Some(SearchMessage::FindNext),
        KeyCommand::FindPrevious => msg matches Some(SearchMessage::FindPrevious),
        _ => msg is None,
    }
}

impl KeyCommand {
    /// The message the search dialog gets for this command; `None` for the
    /// commands the editor handles itself.
    pub fn search_message(&self) -> (res: Option<SearchMessage>)
        ensures
            command_search_is(*self, res),
    {
        match self {
            KeyCommand::OpenSearch => Some(SearchMessage::Open),
            KeyCommand::OpenSearchReplace => Some(SearchMessage::OpenReplace),
            KeyCommand::CloseSearch => Some(SearchMessage::Close),
            KeyCommand::SearchDialogTab => Some(SearchMessage::Tab),
            KeyCommand::SearchDialogShiftTab => Some(SearchMessage::ShiftTab),
            KeyCommand::FindNext => Some(SearchMessage::FindNext),
            KeyCommand::FindPrevious => Some(SearchMessage::FindPrevious),
            _ => None,
        }
    }
}

/// The editor takes key presses and no text is being composed.
pub open spec fn takes_keys(cx: KeyContext) -> bool {
    cx.focused && cx.pointer_inside && cx.canvas_focus && !cx.composing
}

/// Where a navigation key takes the cursor: Page Down (Up) a page of lines
/// down (up), held to the document, keeping the column where that line is
/// long enough and going to its end otherwise; Home to the start and End
/// to the end of the line.
pub open spec fn navigation_target(k: KeyName, m: EditorModel) -> (int, int) {
    let (l, c) = m.cursor;
    let last = m.lines.len() - 1;
    let t = match k {
        KeyName::PageDown => if l + m.page_lines <= last {
            l + m.page_lines
        } else {
            last
        },
        KeyName::PageUp => if l >= m.page_lines {
            l - m.page_lines
        } else {
            0
        },
        _ => l,
    };
    match k {
        KeyName::Home => (l, 0),
        KeyName::End => (l, m.lines[l].len() as int),
        _ => (t, if c <= m.lines[t].len() {
            c
        } else {
            m.lines[t].len() as int
        }),
    }
}

/// Page Down, Page Up, Home and End, pressed without Ctrl or Alt, give a
/// command whose editor message moves the cursor where the key's name says.
pub proof fn lemma_navigation_keys(k: KeyName, mods: Modifiers, cx: KeyContext, m: EditorModel)
    requires
        takes_keys(cx),
        !mods.control,
        !mods.alt,
        model_wf(m),
        k is PageDown || k is PageUp || k is Home || k is End,
    ensures
        match key_outcome(KeyView::Named(k), mods, None, cx) {
            Some((c, _)) => (exists|msg: Message| #[trigger] command_message_is(c, Some(msg))) && forall|msg: Message|
                #[trigger] command_message_is(c, Some(msg)) ==> next_state(m, msg).cursor == navigation_target(k, m),
            None => false,
        },
{
    reveal(next_state);
    reveal(paged_cursor);
    reveal(extend_or_clear);
    let c = named_command(k, mods.shift)->0;
    let msg = match k {
        KeyName::PageDown => Message::PageDown,
        KeyName::PageUp => Message::PageUp,
        KeyName::Home => Message::Home(mods.shift),
        _ => Message::End(mods.shift),
    };
    assert(command_message_is(c, Some(msg)));
}

} // verus!
