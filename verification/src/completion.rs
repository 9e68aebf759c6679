//! The completion menu: the labels a server offered, those that match the
//! word being typed, which one is selected, and how editor keys move
//! through the menu while it is open.

use vstd::prelude::*;

use crate::editor::{ArrowDirection, Message};
use crate::workspace::{is_word_char, word_char, completion_down, completion_up, filter_completions, matching_labels};

verus! {

/// The completion menu.
pub struct CompletionMenu {
    /// Every label the server offered.
    pub all: Vec<String>,
    /// The labels that match the word being typed.
    pub shown: Vec<String>,
    /// The word being typed.
    pub filter: String,
    pub visible: bool,
    pub selected: usize,
    /// The menu was just used and stays shut until typing goes on.
    pub suppressed: bool,
}

/// The menu, abstractly.
#[verifier::ext_equal]
pub struct MenuModel {
    pub all: Seq<Seq<char>>,
    pub shown: Seq<Seq<char>>,
    pub filter: Seq<char>,
    pub visible: bool,
    pub selected: int,
    pub suppressed: bool,
}

/// Strings as character sequences.
pub open spec fn strs(v: Seq<String>) -> Seq<Seq<char>> {
    v.map_values(|s: String| s@)
}

impl View for CompletionMenu {
    type V = MenuModel;

    open spec fn view(&self) -> MenuModel {
        MenuModel {
            all: strs(self.all@),
            shown: strs(self.shown@),
            filter: self.filter@,
            visible: self.visible,
            selected: self.selected as int,
            suppressed: self.suppressed,
        }
    }
}

/// The closed, empty menu.
pub open spec fn closed_menu() -> MenuModel {
    MenuModel {
        all: Seq::empty(),
        shown: Seq::empty(),
        filter: Seq::empty(),
        visible: false,
        selected: 0,
        suppressed: false,
    }
}

/// Where an editor message goes while a menu may be open.
#[derive(Clone, Copy, PartialEq, Eq, Debug)]
pub enum KeyRoute {
    /// To the editor; the menu is unchanged.
    Editor,
    /// To the editor, after the menu is closed.
    CloseThenEditor,
    /// Select the entry above.
    NavigateUp,
    /// Select the entry below.
    NavigateDown,
    /// Take the selected entry.
    Confirm,
}

/// The menu is open and offers something.
pub open spec fn menu_active(m: MenuModel) -> bool {
    m.visible && !m.suppressed && m.shown.len() > 0
}

/// Where `msg` goes: while the menu is open and offers something, Up and
/// Down without Shift move through it, Left and Right without Shift close
/// it on their way to the editor, and Enter takes the selected entry.
pub open spec fn key_route(m: MenuModel, msg: Message) -> KeyRoute {
    if !menu_active(m) {
        KeyRoute::Editor
    } else {
        match msg {
            Message::ArrowKey(ArrowDirection::Up, false) => KeyRoute::NavigateUp,
            Message::ArrowKey(ArrowDirection::Down, false) => KeyRoute::NavigateDown,
            Message::ArrowKey(_, false) => KeyRoute::CloseThenEditor,
            Message::Enter => KeyRoute::Confirm,
            _ => KeyRoute::Editor,
        }
    }
}

/// The menu after a character was typed into the editor: a character that
/// cannot continue a word closes it; one that can lets it open again and,
/// when the server offered labels, filters them by the word now typed.
pub open spec fn menu_after_char(m: MenuModel, c: char, word: Seq<char>) -> MenuModel {
    if !word_char(c) {
        closed_menu()
    } else if m.all.len() == 0 {
        MenuModel { suppressed: false, ..m }
    } else {
        let shown = matching_labels(m.all, word);
        MenuModel { suppressed: false, filter: word, shown, visible: shown.len() > 0, selected: 0, ..m }
    }
}

/// The menu with new labels from the server, filtered by the word typed
/// so far; it shows when some match.
pub open spec fn menu_with_items(m: MenuModel, items: Seq<Seq<char>>) -> MenuModel {
    let shown = matching_labels(items, m.filter);
    MenuModel { all: items, shown, visible: shown.len() > 0, selected: 0, ..m }
}

impl CompletionMenu {
    /// A closed, empty menu.
    pub fn new() -> (res: Self)
        ensures
            res@ == closed_menu(),
    {
        CompletionMenu {
            all: Vec::new(),
            shown: Vec::new(),
            filter: String::new(),
            visible: false,
            selected: 0,
            suppressed: false,
        }
    }

    /// Closes the menu and forgets its labels.
    pub fn close(&mut self)
        ensures
            final(self)@ == closed_menu(),
    {
        self.all = Vec::new();
        self.shown = Vec::new();
        self.filter = String::new();
        self.visible = false;
        self.suppressed = false;
        self.selected = 0;
        proof {
            assert(strs(self.all@) =~= Seq::<Seq<char>>::empty());
            assert(strs(self.shown@) =~= Seq::<Seq<char>>::empty());
        }
    }

    /// Whether the menu is open and offers something.
    pub fn is_active(&self) -> (res: bool)
        ensures
            res == menu_active(self@),
    {
        self.visible && !self.suppressed && self.shown.len() > 0
    }

    /// Where the editor message `msg` goes.
    pub fn route(&self, msg: &Message) -> (res: KeyRoute)
        ensures
            res == key_route(self@, *msg),
    {
        if !self.is_active() {
            return KeyRoute::Editor;
        }
        match msg {
            Message::ArrowKey(ArrowDirection::Up, false) => KeyRoute::NavigateUp,
            Message::ArrowKey(ArrowDirection::Down, false) => KeyRoute::NavigateDown,
            Message::ArrowKey(_, false) => KeyRoute::CloseThenEditor,
            Message::Enter => KeyRoute::Confirm,
            _ => KeyRoute::Editor,
        }
    }

    /// Takes note of the character `c` typed into the editor, `word` being
    /// the word before the cursor after it.
    pub fn after_char(&mut self, c: char, word: &str)
        ensures
            final(self)@ == menu_after_char(old(self)@, c, word@),
    {
        if !is_word_char(c) {
            self.close();
        } else if self.all.len() == 0 {
            self.suppressed = false;
        } else {
            self.suppressed = false;
            self.filter = word.to_owned();
            self.shown = filter_completions(&self.all, word);
            self.visible = self.shown.len() > 0;
            self.selected = 0;
        }
    }

    /// Takes in the labels the server offered.
    pub fn set_items(&mut self, items: Vec<String>)
        ensures
            final(self)@ == menu_with_items(old(self)@, strs(items@)),
    {
        self.shown = filter_completions(&items, self.filter.as_str());
        self.all = items;
        self.visible = self.shown.len() > 0;
        self.selected = 0;
    }

    /// Moves the selection down (or up), wrapping round; returns whether
    /// the menu is open and offers something to move through.
    pub fn navigate(&mut self, down: bool) -> (res: bool)
        ensures
            res == (old(self)@.visible && old(self)@.shown.len() > 0),
            res ==> final(self)@ == (MenuModel {
                selected: if down {
                    (old(self)@.selected + 1) % (old(self)@.shown.len() as int)
                } else if old(self)@.selected > 0 {
                    old(self)@.selected - 1
                } else {
                    old(self)@.shown.len() - 1
                },
                ..old(self)@
            }),
            !res ==> final(self)@ == old(self)@,
    {
        if self.visible && self.shown.len() > 0 {
            self.selected = if down {
                completion_down(self.selected, self.shown.len())
            } else {
                completion_up(self.selected, self.shown.len())
            };
            true
        } else {
            false
        }
    }

    /// Takes entry `index` (when there is one) and shuts the menu until
    /// typing goes on.
    pub fn confirm(&mut self, index: usize) -> (res: Option<String>)
        ensures
            match res {
                Some(s) => index < old(self)@.shown.len() && s@ == old(self)@.shown[index as int],
                None => index >= old(self)@.shown.len(),
            },
            final(self)@ == (MenuModel { visible: false, suppressed: true, ..old(self)@ }),
    {
        let r = if index < self.shown.len() {
            Some(self.shown[index].clone())
        } else {
            None
        };
        self.visible = false;
        self.suppressed = true;
        r
    }

    /// The menu was dismissed: it shuts, and opens again with new typing.
    pub fn dismiss(&mut self)
        ensures
            final(self)@ == (MenuModel { visible: false, suppressed: false, ..old(self)@ }),
    {
        self.visible = false;
        self.suppressed = false;
    }
}

/// While the menu offers nothing, every editor message goes to the editor.
pub proof fn lemma_inactive_routes_to_editor(m: MenuModel, msg: Message)
    requires
        !menu_active(m),
    ensures
        key_route(m, msg) == KeyRoute::Editor,
{
}

/// Taking an entry shuts the menu: afterwards every message goes to the
/// editor until typing opens it again.
pub proof fn lemma_confirm_then_editor(m: MenuModel, msg: Message)
    ensures
        key_route(MenuModel { visible: false, suppressed: true, ..m }, msg) == KeyRoute::Editor,
{
}

} // verus!
