//! The demo application's tabs: one editor per tab, at most one tab per
//! file, and the tab that has the keyboard.

use vstd::prelude::*;

use crate::chars::{chars_of, string_from_chars};
use crate::editor::{
    effects_match, fresh_editor, max, next_state, reset_state, CodeEditor, EditorModel, Effects,
    Message,
};
use crate::history::{modified, position, HistoryModel};
use crate::lines::{text_of, valid_pos};
use crate::textutil::{is_blank, str_eq, trimmed};
use crate::workspace::{apply_completion, completion_applied};
use crate::types::{template_content, EditorId, Language, Template};

use crate::paths::{last_part, path_file_name, slash_path};
use crate::search::{search_step, SearchEffects, SearchMessage, SearchState};

verus! {

/// A tab: its id, its editor, the file it shows (if any) and whether its
/// text differs from the file.
pub struct Tab {
    pub id: EditorId,
    pub editor: CodeEditor,
    pub file_path: Option<String>,
    pub is_dirty: bool,
}

/// A tab, abstractly.
#[verifier::ext_equal]
pub struct TabModel {
    pub id: EditorId,
    pub file_path: Option<Seq<char>>,
    pub is_dirty: bool,
    pub editor: EditorModel,
}

/// A tab as its model.
pub open spec fn tab_model(t: Tab) -> TabModel {
    TabModel {
        id: t.id,
        file_path: match t.file_path {
            Some(p) => Some(p@),
            None => None,
        },
        is_dirty: t.is_dirty,
        editor: t.editor@,
    }
}

/// The tabs, abstractly: the tabs in order, the active tab's id, and the
/// id the next new tab gets.
#[verifier::ext_equal]
pub struct TabsModel {
    pub tabs: Seq<TabModel>,
    pub active: EditorId,
    pub next_id: usize,
}

/// Where the first tab with id `id` is.
pub open spec fn find_tab(tabs: Seq<TabModel>, id: EditorId) -> Option<int>
    decreases tabs.len(),
{
    if tabs.len() == 0 {
        None
    } else if tabs[0].id == id {
        Some(0)
    } else {
        match find_tab(tabs.drop_first(), id) {
            Some(i) => Some(i + 1),
            None => None,
        }
    }
}

/// Where the first tab showing the file `path` is.
pub open spec fn find_path(tabs: Seq<TabModel>, path: Seq<char>) -> Option<int>
    decreases tabs.len(),
{
    if tabs.len() == 0 {
        None
    } else if tabs[0].file_path == Some(path) {
        Some(0)
    } else {
        match find_path(tabs.drop_first(), path) {
            Some(i) => Some(i + 1),
            None => None,
        }
    }
}

proof fn lemma_find_tab(tabs: Seq<TabModel>, id: EditorId, i: int)
    requires
        0 <= i <= tabs.len(),
        forall|j: int| 0 <= j < i ==> (#[trigger] tabs[j]).id != id,
    ensures
        i < tabs.len() && tabs[i].id == id ==> find_tab(tabs, id) == Some(i),
        i == tabs.len() ==> find_tab(tabs, id) is None,
    decreases i,
{
    if i > 0 {
        let t = tabs.drop_first();
        assert forall|j: int| 0 <= j < i - 1 implies (#[trigger] t[j]).id != id by {
            assert(t[j] == tabs[j + 1]);
        }
        assert(tabs[0].id != id);
        lemma_find_tab(t, id, i - 1);
        if i < tabs.len() {
            assert(t[i - 1] == tabs[i]);
        }
    }
}

proof fn lemma_find_path(tabs: Seq<TabModel>, path: Seq<char>, i: int)
    requires
        0 <= i <= tabs.len(),
        forall|j: int| 0 <= j < i ==> (#[trigger] tabs[j]).file_path != Some(path),
    ensures
        i < tabs.len() && tabs[i].file_path == Some(path) ==> find_path(tabs, path) == Some(i),
        i == tabs.len() ==> find_path(tabs, path) is None,
    decreases i,
{
    if i > 0 {
        let t = tabs.drop_first();
        assert forall|j: int| 0 <= j < i - 1 implies (#[trigger] t[j]).file_path != Some(path) by {
            assert(t[j] == tabs[j + 1]);
        }
        assert(tabs[0].file_path != Some(path));
        lemma_find_path(t, path, i - 1);
        if i < tabs.len() {
            assert(t[i - 1] == tabs[i]);
        }
    }
}

/// The tabs after tab `id` is closed.  The last tab is never closed: it is
/// emptied and shows no file.  When the active tab closes, the tab that took
/// its place (or the new last tab) becomes active.
pub open spec fn tabs_after_close(m: TabsModel, id: EditorId) -> TabsModel {
    if m.tabs.len() > 1 {
        match find_tab(m.tabs, id) {
            Some(i) => {
                let t = m.tabs.remove(i);
                let ni = if i >= t.len() {
                    t.len() - 1
                } else {
                    i
                };
                TabsModel {
                    tabs: t,
                    active: if m.active == id {
                        t[ni].id
                    } else {
                        m.active
                    },
                    ..m
                }
            },
            None => m,
        }
    } else {
        let t0 = m.tabs[0];
        TabsModel {
            tabs: m.tabs.update(
                0,
                TabModel { editor: reset_state(t0.editor, Seq::empty()), file_path: None, is_dirty: false, ..t0 },
            ),
            ..m
        }
    }
}

/// The editor marked saved at its current position.
pub open spec fn saved_editor(e: EditorModel) -> EditorModel {
    EditorModel { history: HistoryModel { saved: Some(position(e.history)), ..e.history }, ..e }
}

/// The active tab may take a file in: it shows no file, its text is blank
/// and it holds no unsaved change.
pub open spec fn reusable(m: TabsModel) -> bool {
    match find_tab(m.tabs, m.active) {
        Some(a) => m.tabs[a].file_path is None && trimmed(text_of(m.tabs[a].editor.lines)).len() == 0
            && !m.tabs[a].is_dirty,
        None => false,
    }
}

/// A new tab for a file's `content`, with id `id`.
pub open spec fn new_file_tab(id: usize, content: Seq<char>, language: Language) -> TabModel {
    TabModel {
        id: EditorId(id),
        file_path: None,
        is_dirty: false,
        editor: EditorModel { language, ..fresh_editor(content, "lua"@) },
    }
}

/// The tabs with a tab ready to take a file in: the active tab when it is
/// reusable, else a new tab, which becomes active; and where that tab is.
pub open spec fn target_for_file(m: TabsModel, content: Seq<char>, language: Language) -> (TabsModel, int) {
    if reusable(m) {
        (m, find_tab(m.tabs, m.active)->0)
    } else {
        (
            TabsModel {
                tabs: m.tabs.push(new_file_tab(m.next_id, content, language)),
                active: EditorId(m.next_id),
                next_id: (m.next_id + 1) as usize,
            },
            m.tabs.len() as int,
        )
    }
}

/// The tabs after the file `path` was read with `content`: a tab showing
/// the file already becomes active; else the file goes into the active tab
/// if it is reusable or into a new tab, which shows it saved and clean.
pub open spec fn tabs_after_open(m: TabsModel, path: Seq<char>, content: Seq<char>, language: Language) -> TabsModel {
    match find_path(m.tabs, path) {
        Some(i) => TabsModel { active: m.tabs[i].id, ..m },
        None => {
            let (m1, k) = target_for_file(m, content, language);
            let t = m1.tabs[k];
            TabsModel {
                tabs: m1.tabs.update(
                    k,
                    TabModel {
                        editor: saved_editor(reset_state(t.editor, content)),
                        file_path: Some(path),
                        is_dirty: false,
                        ..t
                    },
                ),
                active: t.id,
                ..m1
            }
        },
    }
}

/// The cursor put at `(line, col)` when that is a place of the document.
pub open spec fn cursor_put(e: EditorModel, line: int, col: int) -> EditorModel {
    if valid_pos(e.lines, line, col) {
        EditorModel { cursor: (line, col), ..e }
    } else {
        e
    }
}

/// The tabs after a jump to `(line, col)` in tab `i`, which becomes active.
pub open spec fn tabs_after_jump(m: TabsModel, i: int, line: int, col: int) -> TabsModel {
    let t = m.tabs[i];
    TabsModel {
        tabs: m.tabs.update(i, TabModel { editor: cursor_put(t.editor, line, col), ..t }),
        active: t.id,
        ..m
    }
}

/// The tabs with the editor of tab `id` changed by `f`.
pub open spec fn tab_edited(m: TabsModel, id: EditorId, f: spec_fn(EditorModel) -> EditorModel) -> TabsModel {
    match find_tab(m.tabs, id) {
        Some(i) => TabsModel { tabs: m.tabs.update(i, TabModel { editor: f(m.tabs[i].editor), ..m.tabs[i] }), ..m },
        None => m,
    }
}

/// The editor without keyboard focus: cursor hidden, composed text dropped.
pub open spec fn unfocused(e: EditorModel) -> EditorModel {
    EditorModel { has_canvas_focus: false, show_cursor: false, preedit: None, ..e }
}

/// The tabs with no editor holding keyboard focus.
pub open spec fn all_unfocused(m: TabsModel) -> TabsModel {
    TabsModel { tabs: m.tabs.map_values(|t: TabModel| TabModel { editor: unfocused(t.editor), ..t }), ..m }
}

/// The tabs with every editor's interface texts in `language`.
pub open spec fn all_in_language(m: TabsModel, language: Language) -> TabsModel {
    TabsModel {
        tabs: m.tabs.map_values(|t: TabModel| TabModel { editor: EditorModel { language, ..t.editor }, ..t }),
        ..m
    }
}

/// The tabs after a template with text `content` was loaded into tab `id`:
/// its editor starts afresh with it, and the tab shows no file and is clean.
pub open spec fn tabs_after_template(m: TabsModel, id: EditorId, content: Seq<char>) -> TabsModel {
    match find_tab(m.tabs, id) {
        Some(i) => {
            let t = m.tabs[i];
            TabsModel {
                tabs: m.tabs.update(
                    i,
                    TabModel { editor: reset_state(t.editor, content), file_path: None, is_dirty: false, ..t },
                ),
                ..m
            }
        },
        None => m,
    }
}

/// The tabs after the active tab's text was saved as `path`: the tab shows
/// that file, its editor is marked saved, and it is clean.
pub open spec fn tabs_after_save(m: TabsModel, path: Seq<char>) -> TabsModel {
    match find_tab(m.tabs, m.active) {
        Some(i) => {
            let t = m.tabs[i];
            TabsModel {
                tabs: m.tabs.update(
                    i,
                    TabModel { editor: saved_editor(t.editor), file_path: Some(path), is_dirty: false, ..t },
                ),
                ..m
            }
        },
        None => m,
    }
}

/// The tabs after the file `path` was read with `content` to show
/// `(line, col)`: a tab showing the file already becomes active with its
/// cursor there; else the file goes into the active tab if it is reusable
/// or into a new tab, with the cursor there, saved.
pub open spec fn tabs_after_open_at(
    m: TabsModel,
    path: Seq<char>,
    content: Seq<char>,
    line: int,
    col: int,
    language: Language,
) -> TabsModel {
    match find_path(m.tabs, path) {
        Some(i) => tabs_after_jump(m, i, line, col),
        None => {
            let (m1, k) = target_for_file(m, content, language);
            let t = m1.tabs[k];
            TabsModel {
                tabs: m1.tabs.update(
                    k,
                    TabModel {
                        editor: saved_editor(cursor_put(reset_state(t.editor, content), line, col)),
                        file_path: Some(path),
                        ..t
                    },
                ),
                active: t.id,
                ..m1
            }
        },
    }
}

/// The tabs after a message to the editor of tab `id`: the editor reacts,
/// and the tab is dirty when the editor's text differs from the saved one.
pub open spec fn tabs_after_event(m: TabsModel, id: EditorId, msg: Message) -> TabsModel {
    match find_tab(m.tabs, id) {
        Some(i) => {
            let t = m.tabs[i];
            let e = next_state(t.editor, msg);
            TabsModel { tabs: m.tabs.update(i, TabModel { editor: e, is_dirty: modified(e.history), ..t }), ..m }
        },
        None => m,
    }
}

/// Every editor consistent, ids unique and below `next_id`.
pub open spec fn tabs_ok(ts: Seq<Tab>, next_id: usize) -> bool {
    &&& forall|i: int| 0 <= i < ts.len() ==> (#[trigger] ts[i]).editor.wf()
    &&& forall|i: int| 0 <= i < ts.len() ==> (#[trigger] ts[i]).id.0 < next_id
    &&& forall|i: int, j: int| 0 <= i < j < ts.len() ==> (#[trigger] ts[i]).id != (#[trigger] ts[j]).id
}

proof fn lemma_tabs_update(ts: Seq<Tab>, next_id: usize, i: int, t: Tab)
    requires
        tabs_ok(ts, next_id),
        0 <= i < ts.len(),
        t.id == ts[i].id,
        t.editor.wf(),
    ensures
        tabs_ok(ts.update(i, t), next_id),
        ts.update(i, t).map_values(|x: Tab| tab_model(x)) == ts.map_values(|x: Tab| tab_model(x)).update(i, tab_model(t)),
{
    let u = ts.update(i, t);
    assert forall|a: int, b: int| 0 <= a < b < u.len() implies (#[trigger] u[a]).id != (#[trigger] u[b]).id by {
        assert(u[a].id == ts[a].id);
        assert(u[b].id == ts[b].id);
    }
    assert forall|a: int| 0 <= a < u.len() implies (#[trigger] u[a]).editor.wf() by {
        if a != i {
            assert(u[a] == ts[a]);
        }
    }
    assert forall|a: int| 0 <= a < u.len() implies (#[trigger] u[a]).id.0 < next_id by {
        assert(u[a].id == ts[a].id);
    }
    assert(u.map_values(|x: Tab| tab_model(x)) =~= ts.map_values(|x: Tab| tab_model(x)).update(i, tab_model(t)));
}

proof fn lemma_tabs_remove(ts: Seq<Tab>, next_id: usize, i: int)
    requires
        tabs_ok(ts, next_id),
        0 <= i < ts.len(),
    ensures
        tabs_ok(ts.remove(i), next_id),
        ts.remove(i).map_values(|x: Tab| tab_model(x)) == ts.map_values(|x: Tab| tab_model(x)).remove(i),
{
    let u = ts.remove(i);
    assert forall|a: int| 0 <= a < u.len() implies u[a] == ts[if a < i { a } else { a + 1 }] by {}
    assert forall|a: int, b: int| 0 <= a < b < u.len() implies (#[trigger] u[a]).id != (#[trigger] u[b]).id by {
        assert(u[a] == ts[if a < i { a } else { a + 1 }]);
        assert(u[b] == ts[if b < i { b } else { b + 1 }]);
    }
    assert forall|a: int| 0 <= a < u.len() implies (#[trigger] u[a]).editor.wf() by {
        assert(u[a] == ts[if a < i { a } else { a + 1 }]);
    }
    assert forall|a: int| 0 <= a < u.len() implies (#[trigger] u[a]).id.0 < next_id by {
        assert(u[a] == ts[if a < i { a } else { a + 1 }]);
    }
    assert(u.map_values(|x: Tab| tab_model(x)) =~= ts.map_values(|x: Tab| tab_model(x)).remove(i));
}

/// The tab set.
pub struct TabSet {
    tabs: Vec<Tab>,
    active: EditorId,
    next_id: usize,
}

impl View for TabSet {
    type V = TabsModel;

    closed spec fn view(&self) -> TabsModel {
        TabsModel {
            tabs: self.tabs@.map_values(|t: Tab| tab_model(t)),
            active: self.active,
            next_id: self.next_id,
        }
    }
}

impl TabSet {
    /// At least one tab, every editor consistent, ids unique and below the
    /// next id.
    pub closed spec fn wf(&self) -> bool {
        &&& self.tabs@.len() >= 1
        &&& tabs_ok(self.tabs@, self.next_id)
    }

    /// One tab, with id 0, holding `editor`; it is active.
    pub fn new(editor: CodeEditor) -> (res: Self)
        requires
            editor.wf(),
        ensures
            res.wf(),
            res@ == (TabsModel {
                tabs: seq![TabModel { id: EditorId(0), file_path: None, is_dirty: false, editor: editor@ }],
                active: EditorId(0),
                next_id: 1,
            }),
    {
        let mut tabs: Vec<Tab> = Vec::new();
        tabs.push(Tab { id: EditorId(0), editor, file_path: None, is_dirty: false });
        let res = TabSet { tabs, active: EditorId(0), next_id: 1 };
        proof {
            assert(res@.tabs =~= seq![TabModel { id: EditorId(0), file_path: None, is_dirty: false, editor: editor@ }]);
        }
        res
    }

    /// The tabs.
    pub fn tabs(&self) -> (res: &Vec<Tab>)
        ensures
            res@.map_values(|t: Tab| tab_model(t)) == self@.tabs,
    {
        &self.tabs
    }

    /// Whether another tab can still get an id of its own.
    pub fn can_add_tab(&self) -> (res: bool)
        ensures
            res == (self@.next_id < usize::MAX),
    {
        self.next_id < usize::MAX
    }

    /// The active tab's id.
    pub fn active(&self) -> (res: EditorId)
        ensures
            res == self@.active,
    {
        self.active
    }

    /// Where tab `id` is.
    fn index_of(&self, id: EditorId) -> (res: Option<usize>)
        ensures
            match res {
                Some(i) => find_tab(self@.tabs, id) == Some(i as int) && i < self.tabs@.len(),
                None => find_tab(self@.tabs, id) is None,
            },
    {
        let ghost tm = self@.tabs;
        let mut i: usize = 0;
        while i < self.tabs.len()
            invariant
                i <= self.tabs@.len(),
                tm == self@.tabs,
                tm.len() == self.tabs@.len(),
                forall|j: int| 0 <= j < i ==> (#[trigger] tm[j]).id != id,
            decreases self.tabs@.len() - i,
        {
            proof {
                assert(tm[i as int] == tab_model(self.tabs@[i as int]));
            }
            if self.tabs[i].id.0 == id.0 {
                proof {
                    lemma_find_tab(tm, id, i as int);
                }
                return Some(i);
            }
            i = i + 1;
        }
        proof {
            lemma_find_tab(tm, id, i as int);
        }
        None
    }

    /// Where the tab showing the file `path` is.
    fn index_of_path(&self, path: &str) -> (res: Option<usize>)
        ensures
            match res {
                Some(i) => find_path(self@.tabs, path@) == Some(i as int) && i < self.tabs@.len(),
                None => find_path(self@.tabs, path@) is None,
            },
    {
        let ghost tm = self@.tabs;
        let mut i: usize = 0;
        while i < self.tabs.len()
            invariant
                i <= self.tabs@.len(),
                tm == self@.tabs,
                tm.len() == self.tabs@.len(),
                forall|j: int| 0 <= j < i ==> (#[trigger] tm[j]).file_path != Some(path@),
            decreases self.tabs@.len() - i,
        {
            proof {
                assert(tm[i as int] == tab_model(self.tabs@[i as int]));
            }
            let hit = match &self.tabs[i].file_path {
                Some(p) => str_eq(p.as_str(), path),
                None => false,
            };
            if hit {
                proof {
                    lemma_find_path(tm, path@, i as int);
                }
                return Some(i);
            }
            i = i + 1;
        }
        proof {
            lemma_find_path(tm, path@, i as int);
        }
        None
    }

    /// The tab `id`, if there is one.
    pub fn tab(&self, id: EditorId) -> (res: Option<&Tab>)
        ensures
            match res {
                Some(t) => find_tab(self@.tabs, id) matches Some(i) && tab_model(*t) == self@.tabs[i],
                None => find_tab(self@.tabs, id) is None,
            },
    {
        match self.index_of(id) {
            Some(i) => Some(&self.tabs[i]),
            None => None,
        }
    }

    /// Makes tab `id` the active one.
    pub fn select_tab(&mut self, id: EditorId)
        requires
            old(self).wf(),
        ensures
            final(self).wf(),
            final(self)@ == (TabsModel { active: id, ..old(self)@ }),
    {
        self.active = id;
    }

    /// Adds a tab holding `editor`, showing no file, and makes it active;
    /// returns its id.
    pub fn new_tab(&mut self, editor: CodeEditor) -> (id: EditorId)
        requires
            old(self).wf(),
            editor.wf(),
            old(self)@.next_id < usize::MAX,
        ensures
            final(self).wf(),
            id == EditorId(old(self)@.next_id),
            final(self)@ == (TabsModel {
                tabs: old(self)@.tabs.push(TabModel { id, file_path: None, is_dirty: false, editor: editor@ }),
                active: id,
                next_id: (old(self)@.next_id + 1) as usize,
            }),
    {
        let id = EditorId(self.next_id);
        let ghost before = self.tabs@;
        self.tabs.push(Tab { id, editor, file_path: None, is_dirty: false });
        self.next_id = self.next_id + 1;
        self.active = id;
        proof {
            assert(self@.tabs =~= before.map_values(|t: Tab| tab_model(t)).push(TabModel { id, file_path: None, is_dirty: false, editor: editor@ }));
            assert forall|i: int, j: int| 0 <= i < j < self.tabs@.len() implies (#[trigger] self.tabs@[i]).id != (#[trigger] self.tabs@[j]).id by {
                assert(self.tabs@[i] == before[i]);
                if j < before.len() {
                    assert(self.tabs@[j] == before[j]);
                }
            }
            assert forall|i: int| 0 <= i < self.tabs@.len() implies (#[trigger] self.tabs@[i]).editor.wf() by {
                if i < before.len() {
                    assert(self.tabs@[i] == before[i]);
                }
            }
            assert forall|i: int| 0 <= i < self.tabs@.len() implies (#[trigger] self.tabs@[i]).id.0 < self.next_id by {
                if i < before.len() {
                    assert(self.tabs@[i] == before[i]);
                }
            }
        }
        id
    }
}


impl TabSet {
    /// Takes tab `i` out; the others keep their order.
    fn take_tab(&mut self, i: usize) -> (t: Tab)
        requires
            old(self).wf(),
            i < old(self).tabs@.len(),
        ensures
            t == old(self).tabs@[i as int],
            t.editor.wf(),
            final(self).tabs@ == old(self).tabs@.remove(i as int),
            final(self).active == old(self).active,
            final(self).next_id == old(self).next_id,
    {
        self.tabs.remove(i)
    }

    /// Puts `t` back where tab `i` of `before` was taken out.
    fn put_tab(&mut self, i: usize, t: Tab, Ghost(before): Ghost<Seq<Tab>>)
        requires
            old(self).tabs@ == before.remove(i as int),
            i < before.len(),
            tabs_ok(before, old(self).next_id),
            t.id == before[i as int].id,
            t.editor.wf(),
        ensures
            final(self).wf(),
            final(self).tabs@ == before.update(i as int, t),
            final(self)@ == (TabsModel {
                tabs: before.map_values(|x: Tab| tab_model(x)).update(i as int, tab_model(t)),
                ..old(self)@
            }),
    {
        self.tabs.insert(i, t);
        proof {
            assert(self.tabs@ =~= before.update(i as int, t));
            lemma_tabs_update(before, self.next_id, i as int, t);
        }
    }

    /// Closes tab `id`.  The last tab is never closed: it is emptied and
    /// shows no file.  When the active tab closes, the tab that took its
    /// place, or else the new last tab, becomes active.
    pub fn close_tab(&mut self, id: EditorId)
        requires
            old(self).wf(),
        ensures
            final(self).wf(),
            final(self)@ == tabs_after_close(old(self)@, id),
    {
        let ghost m = self@;
        if self.tabs.len() > 1 {
            match self.index_of(id) {
                Some(i) => {
                    let ghost before = self.tabs@;
                    self.tabs.remove(i);
                    proof {
                        lemma_tabs_remove(before, self.next_id, i as int);
                    }
                    if self.active.0 == id.0 {
                        let ni = if i >= self.tabs.len() {
                            self.tabs.len() - 1
                        } else {
                            i
                        };
                        proof {
                            assert(m.tabs.remove(i as int)[ni as int] == tab_model(self.tabs@[ni as int]));
                        }
                        self.active = self.tabs[ni].id;
                    }
                    proof {
                        assert(self@.tabs == m.tabs.remove(i as int));
                    }
                },
                None => {},
            }
        } else {
            let ghost before = self.tabs@;
            let mut t = self.take_tab(0);
            t.editor.reset("");
            t.file_path = None;
            t.is_dirty = false;
            self.put_tab(0, t, Ghost(before));
            proof {
                reveal_strlit("");
                assert(""@ =~= Seq::<char>::empty());
            }
        }
    }

    /// Whether the active tab may take a file in.
    fn active_reusable(&self) -> (res: Option<usize>)
        requires
            self.wf(),
        ensures
            reusable(self@) <==> res is Some,
            res matches Some(a) ==> find_tab(self@.tabs, self@.active) == Some(a as int) && a < self.tabs@.len(),
    {
        match self.index_of(self.active) {
            Some(a) => {
                let t = &self.tabs[a];
                proof {
                    assert(self@.tabs[a as int] == tab_model(self.tabs@[a as int]));
                }
                let text = t.editor.content();
                if t.file_path.is_none() && is_blank(text.as_str()) && !t.is_dirty {
                    Some(a)
                } else {
                    None
                }
            },
            None => None,
        }
    }

    /// A tab ready to take a file in: the active tab when it is reusable,
    /// else a new tab for `content`, which becomes active.
    fn file_target(&mut self, content: &str, language: Language) -> (k: usize)
        requires
            old(self).wf(),
            old(self)@.next_id < usize::MAX,
        ensures
            final(self).wf(),
            (final(self)@, k as int) == target_for_file(old(self)@, content@, language),
            k < final(self).tabs@.len(),
    {
        match self.active_reusable() {
            Some(a) => a,
            None => {
                let mut editor = CodeEditor::new(content, "lua");
                editor.set_language(language);
                let ghost n = self.tabs@.len();
                let ghost m = self@;
                self.new_tab(editor);
                proof {
                    let nt = new_file_tab(m.next_id, content@, language);
                    assert(editor@ =~= nt.editor);
                    assert(self@.tabs =~= m.tabs.push(nt));
                    assert(self.tabs@.len() == self@.tabs.len());
                }
                self.tabs.len() - 1
            },
        }
    }
}


impl TabSet {
    /// Takes in the file `path`, read with `content`: a tab already showing
    /// it becomes active; else the file goes, saved and clean, into the
    /// active tab when that shows no file, holds only blanks and no unsaved
    /// change, or into a new tab for it, which becomes active.
    pub fn open_file(&mut self, path: &str, content: &str, language: Language)
        requires
            old(self).wf(),
            old(self)@.next_id < usize::MAX,
        ensures
            final(self).wf(),
            final(self)@ == tabs_after_open(old(self)@, path@, content@, language),
    {
        match self.index_of_path(path) {
            Some(i) => {
                proof {
                    assert(self@.tabs[i as int] == tab_model(self.tabs@[i as int]));
                }
                self.active = self.tabs[i].id;
            },
            None => {
                let k = self.file_target(content, language);
                let ghost m1 = self@;
                let ghost before = self.tabs@;
                proof {
                    assert(m1.tabs[k as int] == tab_model(before[k as int]));
                }
                let mut t = self.take_tab(k);
                t.editor.reset(content);
                t.editor.mark_saved();
                t.file_path = Some(path.to_owned());
                t.is_dirty = false;
                self.active = t.id;
                self.put_tab(k, t, Ghost(before));
            },
        }
    }

    /// Moves to `(line, col)` in the tab showing the file `path`, which
    /// becomes active; returns whether such a tab exists (nothing changes
    /// when none does).
    pub fn jump_to(&mut self, path: &str, line: usize, col: usize) -> (res: bool)
        requires
            old(self).wf(),
        ensures
            final(self).wf(),
            res == find_path(old(self)@.tabs, path@) is Some,
            match find_path(old(self)@.tabs, path@) {
                Some(i) => final(self)@ == tabs_after_jump(old(self)@, i, line as int, col as int),
                None => final(self)@ == old(self)@,
            },
    {
        match self.index_of_path(path) {
            Some(i) => {
                let ghost m = self@;
                let ghost before = self.tabs@;
                proof {
                    assert(m.tabs[i as int] == tab_model(before[i as int]));
                }
                let mut t = self.take_tab(i);
                t.editor.set_cursor(line, col);
                self.active = t.id;
                self.put_tab(i, t, Ghost(before));
                true
            },
            None => false,
        }
    }

    /// Takes in the file `path`, read with `content`, to show `(line, col)`:
    /// as [`TabSet::open_file`], with the cursor moved there when that is a
    /// place of the document.
    pub fn open_file_at(&mut self, path: &str, content: &str, line: usize, col: usize, language: Language)
        requires
            old(self).wf(),
            old(self)@.next_id < usize::MAX,
        ensures
            final(self).wf(),
            final(self)@ == tabs_after_open_at(old(self)@, path@, content@, line as int, col as int, language),
    {
        if !self.jump_to(path, line, col) {
            let k = self.file_target(content, language);
            let ghost m1 = self@;
            let ghost before = self.tabs@;
            proof {
                assert(m1.tabs[k as int] == tab_model(before[k as int]));
            }
            let mut t = self.take_tab(k);
            t.file_path = Some(path.to_owned());
            t.editor.reset(content);
            t.editor.set_cursor(line, col);
            t.editor.mark_saved();
            self.active = t.id;
            self.put_tab(k, t, Ghost(before));
        }
    }

    /// Loads `template` into tab `id`; returns whether the tab exists.
    pub fn template_selected(&mut self, id: EditorId, template: Template) -> (res: bool)
        requires
            old(self).wf(),
        ensures
            final(self).wf(),
            res == find_tab(old(self)@.tabs, id) is Some,
            final(self)@ == tabs_after_template(old(self)@, id, template_content(template)),
    {
        match self.index_of(id) {
            Some(i) => {
                let ghost m = self@;
                let ghost before = self.tabs@;
                proof {
                    assert(m.tabs[i as int] == tab_model(before[i as int]));
                }
                let mut t = self.take_tab(i);
                t.editor.reset(template.content());
                t.file_path = None;
                t.is_dirty = false;
                self.put_tab(i, t, Ghost(before));
                true
            },
            None => false,
        }
    }

    /// Records that the active tab's text was saved as `path`; returns
    /// whether there is an active tab.
    pub fn file_saved(&mut self, path: &str) -> (res: bool)
        requires
            old(self).wf(),
        ensures
            final(self).wf(),
            res == find_tab(old(self)@.tabs, old(self)@.active) is Some,
            final(self)@ == tabs_after_save(old(self)@, path@),
    {
        match self.index_of(self.active) {
            Some(i) => {
                let ghost m = self@;
                let ghost before = self.tabs@;
                proof {
                    assert(m.tabs[i as int] == tab_model(before[i as int]));
                }
                let mut t = self.take_tab(i);
                t.file_path = Some(path.to_owned());
                t.editor.mark_saved();
                t.is_dirty = false;
                self.put_tab(i, t, Ghost(before));
                true
            },
            None => false,
        }
    }

    /// Hands `msg` to the editor of tab `id`, which then is dirty when its
    /// text differs from the saved one; returns what the editor asks of its
    /// surroundings, or `None` when there is no such tab.
    pub fn editor_event(&mut self, id: EditorId, msg: &Message) -> (res: Option<Effects>)
        requires
            old(self).wf(),
        ensures
            final(self).wf(),
            final(self)@ == tabs_after_event(old(self)@, id, *msg),
            res is Some == find_tab(old(self)@.tabs, id) is Some,
            match (res, find_tab(old(self)@.tabs, id)) {
                (Some(e), Some(i)) => effects_match(old(self)@.tabs[i].editor, *msg, e),
                _ => true,
            },
    {
        match self.index_of(id) {
            Some(i) => {
                let ghost m = self@;
                let ghost before = self.tabs@;
                proof {
                    assert(m.tabs[i as int] == tab_model(before[i as int]));
                }
                let mut t = self.take_tab(i);
                let eff = t.editor.update(msg);
                t.is_dirty = t.editor.is_modified();
                self.put_tab(i, t, Ghost(before));
                Some(eff)
            },
            None => None,
        }
    }
}


impl TabSet {
    /// Turns line wrapping on or off in tab `id`.
    pub fn set_wrap_enabled(&mut self, id: EditorId, enabled: bool)
        requires
            old(self).wf(),
        ensures
            final(self).wf(),
            final(self)@ == tab_edited(old(self)@, id, (|e: EditorModel| EditorModel { wrap_enabled: enabled, ..e })),
    {
        if let Some(i) = self.index_of(id) {
            let ghost m = self@;
            let ghost before = self.tabs@;
            proof {
                assert(m.tabs[i as int] == tab_model(before[i as int]));
            }
            let mut t = self.take_tab(i);
            t.editor.set_wrap_enabled(enabled);
            self.put_tab(i, t, Ghost(before));
        }
    }

    /// Turns search and replace on or off in tab `id`.
    pub fn set_search_replace_enabled(&mut self, id: EditorId, enabled: bool)
        requires
            old(self).wf(),
        ensures
            final(self).wf(),
            final(self)@ == tab_edited(
                old(self)@,
                id,
                (|e: EditorModel| EditorModel { search_replace_enabled: enabled, ..e }),
            ),
    {
        if let Some(i) = self.index_of(id) {
            let ghost m = self@;
            let ghost before = self.tabs@;
            proof {
                assert(m.tabs[i as int] == tab_model(before[i as int]));
            }
            let mut t = self.take_tab(i);
            t.editor.set_search_replace_enabled(enabled);
            self.put_tab(i, t, Ghost(before));
        }
    }

    /// Shows or hides line numbers in tab `id`.
    pub fn set_line_numbers_enabled(&mut self, id: EditorId, enabled: bool)
        requires
            old(self).wf(),
        ensures
            final(self).wf(),
            final(self)@ == tab_edited(
                old(self)@,
                id,
                (|e: EditorModel| EditorModel { line_numbers_enabled: enabled, ..e }),
            ),
    {
        if let Some(i) = self.index_of(id) {
            let ghost m = self@;
            let ghost before = self.tabs@;
            proof {
                assert(m.tabs[i as int] == tab_model(before[i as int]));
            }
            let mut t = self.take_tab(i);
            t.editor.set_line_numbers_enabled(enabled);
            self.put_tab(i, t, Ghost(before));
        }
    }

    /// Takes keyboard focus from every editor.
    pub fn lose_focus_all(&mut self)
        requires
            old(self).wf(),
        ensures
            final(self).wf(),
            final(self)@ == all_unfocused(old(self)@),
    {
        let ghost m = self@;
        let n = self.tabs.len();
        let mut i: usize = 0;
        while i < n
            invariant
                self.wf(),
                n == self.tabs@.len(),
                i <= n,
                self@.active == m.active,
                self@.next_id == m.next_id,
                self@.tabs.len() == m.tabs.len(),
                forall|j: int| 0 <= j < i ==> self@.tabs[j] == (TabModel { editor: unfocused(m.tabs[j].editor), ..m.tabs[j] }),
                forall|j: int| i <= j < n ==> self@.tabs[j] == m.tabs[j],
            decreases n - i,
        {
            let ghost before = self.tabs@;
            let ghost mb = self@;
            proof {
                assert(mb.tabs[i as int] == tab_model(before[i as int]));
            }
            let mut t = self.take_tab(i);
            t.editor.lose_focus();
            self.put_tab(i, t, Ghost(before));
            i = i + 1;
        }
        proof {
            assert(self@.tabs =~= all_unfocused(m).tabs);
        }
    }

    /// Sets the language of every editor's interface texts.
    pub fn set_language_all(&mut self, language: Language)
        requires
            old(self).wf(),
        ensures
            final(self).wf(),
            final(self)@ == all_in_language(old(self)@, language),
    {
        let ghost m = self@;
        let n = self.tabs.len();
        let mut i: usize = 0;
        while i < n
            invariant
                self.wf(),
                n == self.tabs@.len(),
                i <= n,
                self@.active == m.active,
                self@.next_id == m.next_id,
                self@.tabs.len() == m.tabs.len(),
                forall|j: int|
                    0 <= j < i ==> self@.tabs[j] == (TabModel {
                        editor: EditorModel { language, ..m.tabs[j].editor },
                        ..m.tabs[j]
                    }),
                forall|j: int| i <= j < n ==> self@.tabs[j] == m.tabs[j],
            decreases n - i,
        {
            let ghost before = self.tabs@;
            let ghost mb = self@;
            proof {
                assert(mb.tabs[i as int] == tab_model(before[i as int]));
            }
            let mut t = self.take_tab(i);
            t.editor.set_language(language);
            self.put_tab(i, t, Ghost(before));
            i = i + 1;
        }
        proof {
            assert(self@.tabs =~= all_in_language(m, language).tabs);
        }
    }
}


/// The title of a tab: the name of the file it shows, or `Untitled`, then
/// `*` when it holds unsaved changes.
pub open spec fn label_of(name: Option<Seq<char>>, dirty: bool) -> Seq<char> {
    (match name {
        Some(n) => n,
        None => "Untitled"@,
    }) + if dirty {
        seq!['*']
    } else {
        Seq::<char>::empty()
    }
}

/// The title of a tab showing the file named `name` (`None`: no file).
pub fn tab_label(name: Option<&str>, dirty: bool) -> (res: String)
    ensures
        res@ == label_of(
            match name {
                Some(n) => Some(n@),
                None => None,
            },
            dirty,
        ),
{
    let mut v = match name {
        Some(n) => chars_of(n),
        None => chars_of("Untitled"),
    };
    if dirty {
        v.push('*');
    }
    proof {
        let base = match name {
            Some(n) => n@,
            None => "Untitled"@,
        };
        if dirty {
            assert(v@ =~= base + seq!['*']);
        } else {
            assert(v@ =~= base + Seq::<char>::empty());
        }
    }
    string_from_chars(v.as_slice())
}

impl Tab {
    /// The tab's title: the name of its file (or `Untitled`), then `*`
    /// when it holds unsaved changes.
    pub fn label(&self) -> (res: String)
        ensures
            self.file_path is None ==> res@ == label_of(None, self.is_dirty),
            match self.file_path {
                Some(p) => slash_path(p@) ==> res@ == label_of(Some(last_part(p@)), self.is_dirty),
                None => true,
            },
            exists|name: Option<Seq<char>>| res@ == label_of(name, self.is_dirty),
    {
        let name = match &self.file_path {
            Some(p) => path_file_name(p.as_str()),
            None => None,
        };
        let r = match &name {
            Some(n) => tab_label(Some(n.as_str()), self.is_dirty),
            None => tab_label(None, self.is_dirty),
        };
        proof {
            let w = match name {
                Some(n) => Some(n@),
                None => None,
            };
            assert(r@ == label_of(w, self.is_dirty));
        }
        r
    }
}


/// The tabs' ids are unique and below the next id.
pub open spec fn ids_ok(m: TabsModel) -> bool {
    &&& forall|i: int, j: int| 0 <= i < j < m.tabs.len() ==> (#[trigger] m.tabs[i]).id != (#[trigger] m.tabs[j]).id
    &&& forall|i: int| 0 <= i < m.tabs.len() ==> (#[trigger] m.tabs[i]).id.0 < m.next_id
}

proof fn lemma_find_unique(tabs: Seq<TabModel>, i: int)
    requires
        0 <= i < tabs.len(),
        forall|a: int, b: int| 0 <= a < b < tabs.len() ==> (#[trigger] tabs[a]).id != (#[trigger] tabs[b]).id,
    ensures
        find_tab(tabs, tabs[i].id) == Some(i),
{
    assert forall|j: int| 0 <= j < i implies (#[trigger] tabs[j]).id != tabs[i].id by {}
    lemma_find_tab(tabs, tabs[i].id, i);
}

proof fn lemma_find_some(tabs: Seq<TabModel>, id: EditorId)
    requires
        find_tab(tabs, id) is Some,
    ensures
        0 <= find_tab(tabs, id)->0 < tabs.len(),
        tabs[find_tab(tabs, id)->0].id == id,
    decreases tabs.len(),
{
    if tabs.len() > 0 && tabs[0].id != id {
        lemma_find_some(tabs.drop_first(), id);
    }
}

proof fn lemma_find_path_some(tabs: Seq<TabModel>, path: Seq<char>)
    requires
        find_path(tabs, path) is Some,
    ensures
        0 <= find_path(tabs, path)->0 < tabs.len(),
        tabs[find_path(tabs, path)->0].file_path == Some(path),
    decreases tabs.len(),
{
    if tabs.len() > 0 && tabs[0].file_path != Some(path) {
        lemma_find_path_some(tabs.drop_first(), path);
    }
}

/// A file that was taken in is shown by the active tab, and taking in a
/// file that a tab already shows adds no tab.
pub proof fn lemma_open_shows_file(m: TabsModel, path: Seq<char>, content: Seq<char>, language: Language)
    requires
        ids_ok(m),
        m.next_id < usize::MAX,
    ensures
        ({
            let r = tabs_after_open(m, path, content, language);
            &&& find_tab(r.tabs, r.active) matches Some(i) && r.tabs[i].file_path == Some(path)
            &&& (find_path(m.tabs, path) is Some ==> r.tabs.len() == m.tabs.len())
            &&& ids_ok(r)
        }),
{
    let r = tabs_after_open(m, path, content, language);
    match find_path(m.tabs, path) {
        Some(i) => {
            lemma_find_path_some(m.tabs, path);
            lemma_find_unique(m.tabs, i);
        },
        None => {
            let (m1, k) = target_for_file(m, content, language);
            if reusable(m) {
                lemma_find_some(m.tabs, m.active);
            } else {
                assert forall|a: int, b: int| 0 <= a < b < m1.tabs.len() implies (#[trigger] m1.tabs[a]).id
                    != (#[trigger] m1.tabs[b]).id by {
                    if b == m.tabs.len() {
                        assert(m.tabs[a].id.0 < m.next_id);
                    } else {
                        assert(m1.tabs[a] == m.tabs[a] && m1.tabs[b] == m.tabs[b]);
                    }
                }
            }
            assert forall|a: int, b: int| 0 <= a < b < r.tabs.len() implies (#[trigger] r.tabs[a]).id
                != (#[trigger] r.tabs[b]).id by {
                assert(r.tabs[a].id == m1.tabs[a].id && r.tabs[b].id == m1.tabs[b].id);
            }
            lemma_find_unique(r.tabs, k);
            assert forall|a: int| 0 <= a < r.tabs.len() implies (#[trigger] r.tabs[a]).id.0 < r.next_id by {
                assert(r.tabs[a].id == m1.tabs[a].id);
                if a < m.tabs.len() {
                    assert(m1.tabs[a].id == m.tabs[a].id);
                }
            }
        },
    }
}

/// Closing a tab keeps an active tab among the tabs, and closing one of
/// several tabs removes exactly one.
pub proof fn lemma_close_keeps_active(m: TabsModel, id: EditorId)
    requires
        ids_ok(m),
        m.tabs.len() >= 1,
        find_tab(m.tabs, m.active) is Some,
    ensures
        ({
            let r = tabs_after_close(m, id);
            &&& find_tab(r.tabs, r.active) is Some
            &&& r.tabs.len() >= 1
            &&& (m.tabs.len() > 1 && find_tab(m.tabs, id) is Some ==> r.tabs.len() == m.tabs.len() - 1)
            &&& ids_ok(r)
        }),
{
    let r = tabs_after_close(m, id);
    lemma_find_some(m.tabs, m.active);
    let a = find_tab(m.tabs, m.active)->0;
    if m.tabs.len() > 1 {
        match find_tab(m.tabs, id) {
            Some(i) => {
                lemma_find_some(m.tabs, id);
                let t = m.tabs.remove(i);
                assert forall|x: int| 0 <= x < t.len() implies t[x] == m.tabs[if x < i { x } else { x + 1 }] by {}
                assert forall|x: int, y: int| 0 <= x < y < t.len() implies (#[trigger] t[x]).id != (#[trigger] t[y]).id by {
                    assert(t[x] == m.tabs[if x < i { x } else { x + 1 }]);
                    assert(t[y] == m.tabs[if y < i { y } else { y + 1 }]);
                }
                assert forall|x: int| 0 <= x < t.len() implies (#[trigger] t[x]).id.0 < m.next_id by {
                    assert(t[x] == m.tabs[if x < i { x } else { x + 1 }]);
                }
                if m.active == id {
                    let ni = if i >= t.len() { t.len() - 1 } else { i };
                    lemma_find_unique(t, ni);
                } else {
                    let j = if a < i { a } else { a - 1 };
                    assert(t[j] == m.tabs[a]);
                    lemma_find_unique(t, j);
                }
            },
            None => {
                lemma_find_unique(m.tabs, a);
            },
        }
    } else {
        lemma_find_unique(m.tabs, a);
        assert(r.tabs[0].id == m.tabs[0].id);
        lemma_find_unique(r.tabs, a);
    }
}

impl TabSet {
    /// The ids of a consistent tab set are unique and below its next id.
    pub proof fn lemma_ids_ok(&self)
        requires
            self.wf(),
        ensures
            ids_ok(self@),
            self@.tabs.len() >= 1,
    {
        assert forall|i: int, j: int| 0 <= i < j < self@.tabs.len() implies (#[trigger] self@.tabs[i]).id
            != (#[trigger] self@.tabs[j]).id by {
            assert(self@.tabs[i] == tab_model(self.tabs@[i]));
            assert(self@.tabs[j] == tab_model(self.tabs@[j]));
        }
        assert forall|i: int| 0 <= i < self@.tabs.len() implies (#[trigger] self@.tabs[i]).id.0 < self@.next_id by {
            assert(self@.tabs[i] == tab_model(self.tabs@[i]));
        }
    }
}


impl TabSet {
    /// Sets the view size of tab `id`'s editor (see
    /// [`CodeEditor::set_viewport`]).
    pub fn set_viewport(&mut self, id: EditorId, page_lines: usize, view_columns: usize, drag_columns: usize)
        requires
            old(self).wf(),
        ensures
            final(self).wf(),
            final(self)@ == tab_edited(
                old(self)@,
                id,
                (|e: EditorModel|
                    EditorModel {
                        page_lines: page_lines as int,
                        view_columns: max(view_columns as int, 1),
                        drag_columns: max(drag_columns as int, 1),
                        ..e
                    }),
            ),
    {
        if let Some(i) = self.index_of(id) {
            let ghost m = self@;
            let ghost before = self.tabs@;
            proof {
                assert(m.tabs[i as int] == tab_model(before[i as int]));
            }
            let mut t = self.take_tab(i);
            t.editor.set_viewport(page_lines, view_columns, drag_columns);
            self.put_tab(i, t, Ghost(before));
        }
    }

    /// Replaces the word before the cursor of tab `id`'s editor by
    /// `completion`, as typed in; the tab is then dirty when its text
    /// differs from the saved one.  Returns whether the tab exists.
    pub fn complete_word(&mut self, id: EditorId, completion: &str) -> (res: bool)
        requires
            old(self).wf(),
        ensures
            final(self).wf(),
            res == find_tab(old(self)@.tabs, id) is Some,
            match find_tab(old(self)@.tabs, id) {
                Some(i) => final(self)@ == (TabsModel {
                    tabs: old(self)@.tabs.update(
                        i,
                        TabModel {
                            editor: completion_applied(old(self)@.tabs[i].editor, completion@),
                            is_dirty: modified(completion_applied(old(self)@.tabs[i].editor, completion@).history),
                            ..old(self)@.tabs[i]
                        },
                    ),
                    ..old(self)@
                }),
                None => final(self)@ == old(self)@,
            },
    {
        match self.index_of(id) {
            Some(i) => {
                let ghost m = self@;
                let ghost before = self.tabs@;
                proof {
                    assert(m.tabs[i as int] == tab_model(before[i as int]));
                }
                let mut t = self.take_tab(i);
                apply_completion(&mut t.editor, completion);
                t.is_dirty = t.editor.is_modified();
                self.put_tab(i, t, Ghost(before));
                true
            },
            None => false,
        }
    }
}

/// The tabs with the editor of tab `i` become `e`, the tab dirty when its
/// text differs from the saved one.
pub open spec fn tabs_with_editor(m: TabsModel, i: int, e: EditorModel) -> TabsModel {
    TabsModel { tabs: m.tabs.update(i, TabModel { editor: e, is_dirty: modified(e.history), ..m.tabs[i] }), ..m }
}

impl TabSet {
    /// A message of the search dialog `search` for the editor of tab `id`;
    /// nothing happens when no tab has that id.
    pub fn search_event(&mut self, id: EditorId, search: &mut SearchState, msg: &SearchMessage) -> (res: Option<
        SearchEffects,
    >)
        requires
            old(self).wf(),
        ensures
            final(self).wf(),
            res is Some == find_tab(old(self)@.tabs, id) is Some,
            match find_tab(old(self)@.tabs, id) {
                Some(i) => {
                    let r = search_step(old(self)@.tabs[i].editor, old(search)@, *msg);
                    &&& final(self)@ == tabs_with_editor(old(self)@, i, r.0)
                    &&& final(search)@ == r.1
                },
                None => final(self)@ == old(self)@ && final(search)@ == old(search)@,
            },
    {
        match self.index_of(id) {
            Some(i) => {
                let ghost m = self@;
                let ghost before = self.tabs@;
                proof {
                    assert(m.tabs[i as int] == tab_model(before[i as int]));
                }
                let mut t = self.take_tab(i);
                let eff = search.update(&mut t.editor, msg);
                t.is_dirty = t.editor.is_modified();
                self.put_tab(i, t, Ghost(before));
                proof {
                    assert(self@.tabs =~= tabs_with_editor(m, i as int, t.editor@).tabs);
                }
                Some(eff)
            },
            None => None,
        }
    }
}

} // verus!
