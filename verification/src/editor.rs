//! The editor core: the document, the cursor and the selection, and the
//! state changes that key presses, mouse actions and input-method events
//! bring about.

use vstd::prelude::*;

use crate::buffer::TextBuffer;
use crate::chars::{chars_of, string_from_chars};
use crate::edit::{
    doc_state, edit_wf, forward, insertion_end, lemma_undo_edit, state_wf, DocState, Edit,
};
use crate::history::{
    can_undo_model, committed, links_ok, modified, position, recorded, redone, undone, CommandHistory,
    HistoryModel,
};
use crate::lines::{
    advance, extract_text, lemma_lines_of_valid, lemma_replace, lines_of, pos_le, replace_lines,
    text_of, valid_lines, valid_pos,
};
use crate::types::Language;
use crate::wrapping::{
    calculate_visual_lines, lemma_rows_in, logical_to_visual, opt_int, row_of_pos, rows_view,
    visual_rows, VisualLine,
};

verus! {

/// Lines scrolled by Page Up / Page Down at the default viewport height.
pub const DEFAULT_PAGE_LINES: usize = 30;

/// Columns that fit in a row at the default viewport width.
pub const DEFAULT_VIEW_COLUMNS: usize = 89;

/// Undo steps kept by a new editor.
pub const HISTORY_CAPACITY: usize = 100;

/// Arrow key directions.
#[derive(Clone, Copy, PartialEq, Eq, Debug)]
pub enum ArrowDirection {
    Up,
    Down,
    Left,
    Right,
}

/// Text being composed in an input method, not yet committed.
#[derive(Clone, Debug)]
pub struct ImePreedit {
    pub content: String,
    /// Byte range selected inside `content`, if any.
    pub selection: Option<(usize, usize)>,
}

/// What the editor state is, abstractly.
#[verifier::ext_equal]
pub struct EditorModel {
    pub lines: Seq<Seq<char>>,
    pub cursor: (int, int),
    pub selection_start: Option<(int, int)>,
    pub selection_end: Option<(int, int)>,
    pub is_dragging: bool,
    pub is_grouping: bool,
    pub cursor_visible: bool,
    pub has_canvas_focus: bool,
    pub show_cursor: bool,
    pub wrap_enabled: bool,
    pub wrap_column: Option<int>,
    pub search_replace_enabled: bool,
    pub line_numbers_enabled: bool,
    pub preedit: Option<(Seq<char>, Option<(int, int)>)>,
    pub page_lines: int,
    pub view_columns: int,
    pub drag_columns: int,
    pub syntax: Seq<char>,
    pub language: Language,
    pub history: HistoryModel,
}

/// A machine place as a mathematical one.
pub open spec fn pos_int(p: (usize, usize)) -> (int, int) {
    (p.0 as int, p.1 as int)
}

/// An optional machine place as an optional mathematical one.
pub open spec fn opt_pos(p: Option<(usize, usize)>) -> Option<(int, int)> {
    match p {
        Some(q) => Some(pos_int(q)),
        None => None,
    }
}

/// The smaller of two integers.
pub open spec fn min(a: int, b: int) -> int {
    if a <= b {
        a
    } else {
        b
    }
}

/// The larger of two integers.
pub open spec fn max(a: int, b: int) -> int {
    if a >= b {
        a
    } else {
        b
    }
}

/// `a - b`, or 0 when `b` is larger.
pub open spec fn sat_sub(a: int, b: int) -> int {
    if a >= b {
        a - b
    } else {
        0
    }
}

/// The document part of the editor state.
pub open spec fn doc(m: EditorModel) -> DocState {
    DocState { lines: m.lines, cursor: m.cursor }
}

/// The length of line `l`.
pub open spec fn len_of(m: EditorModel, l: int) -> int {
    m.lines[l].len() as int
}

/// The last place of the document.
pub open spec fn doc_end(m: EditorModel) -> (int, int) {
    (m.lines.len() - 1, m.lines[m.lines.len() - 1].len() as int)
}

/// A place held to the document: the line to the last line, the column to
/// the end of that line.
pub open spec fn clamp_pos(m: EditorModel, p: (int, int)) -> (int, int) {
    let l = min(p.0, m.lines.len() - 1);
    (l, min(p.1, len_of(m, l)))
}

/// Both ends of the selection are set.
pub open spec fn has_selection(m: EditorModel) -> bool {
    m.selection_start is Some && m.selection_end is Some
}

/// The selection with its ends held to the document and put in document
/// order, when both ends are set.
#[verifier::opaque]
pub open spec fn selection_range(m: EditorModel) -> Option<((int, int), (int, int))> {
    match (m.selection_start, m.selection_end) {
        (Some(s0), Some(e0)) => {
            let s = clamp_pos(m, s0);
            let e = clamp_pos(m, e0);
            if pos_le(s.0, s.1, e.0, e.1) {
                Some((s, e))
            } else {
                Some((e, s))
            }
        },
        _ => None,
    }
}

/// The editor with no selection.
pub open spec fn cleared(m: EditorModel) -> EditorModel {
    EditorModel { selection_start: None, selection_end: None, ..m }
}

/// The editor with the cursor shown (blink restarted).
pub open spec fn blinked(m: EditorModel) -> EditorModel {
    EditorModel { cursor_visible: true, ..m }
}

/// The editor after the text between two places is replaced by `t`, the
/// change recorded in the history; the cursor ends at the end of the
/// insertion or at the start of the range.
#[verifier::opaque]
pub open spec fn edited(
    m: EditorModel,
    s: (int, int),
    e: (int, int),
    t: Seq<char>,
    cursor_at_end: bool,
) -> EditorModel {
    let lines = replace_lines(m.lines, s.0, s.1, e.0, e.1, t);
    let cursor = if cursor_at_end {
        advance(s.0, s.1, t)
    } else {
        s
    };
    EditorModel {
        lines,
        cursor,
        history: recorded(m.history, doc(m), DocState { lines, cursor }),
        ..m
    }
}

/// The editor after `t` is inserted at the cursor.
pub open spec fn inserted(m: EditorModel, t: Seq<char>) -> EditorModel {
    edited(m, m.cursor, m.cursor, t, true)
}

/// Four spaces typed one by one.
#[verifier::opaque]
pub open spec fn tabbed(m: EditorModel) -> EditorModel {
    let sp = seq![' '];
    inserted(inserted(inserted(inserted(m, sp), sp), sp), sp)
}

/// Backspace without a selection: the character before the cursor goes,
/// or the line break before the line at its start.  At the very start of
/// the document an empty change is recorded.
#[verifier::opaque]
pub open spec fn backspaced(m: EditorModel) -> EditorModel {
    let (l, c) = m.cursor;
    if c > 0 {
        edited(m, (l, c - 1), (l, c), Seq::empty(), false)
    } else if l > 0 {
        edited(m, (l - 1, len_of(m, l - 1)), (l, c), Seq::empty(), false)
    } else {
        edited(m, (l, c), (l, c), Seq::empty(), false)
    }
}

/// Delete without a selection: the character after the cursor goes, or the
/// line break after the line at its end.  At the very end of the document
/// an empty change is recorded.
#[verifier::opaque]
pub open spec fn forward_deleted(m: EditorModel) -> EditorModel {
    let (l, c) = m.cursor;
    if c < len_of(m, l) {
        edited(m, (l, c), (l, c + 1), Seq::empty(), false)
    } else if l + 1 < m.lines.len() {
        edited(m, (l, c), (l + 1, 0), Seq::empty(), false)
    } else {
        edited(m, (l, c), (l, c), Seq::empty(), false)
    }
}

/// The selected text is removed and the cursor put where it started; an
/// empty selection is only cleared, and without a selection nothing happens.
#[verifier::opaque]
pub open spec fn selection_deleted(m: EditorModel) -> EditorModel {
    match selection_range(m) {
        None => m,
        Some(r) => if r.0 == r.1 {
            cleared(m)
        } else {
            cleared(edited(m, r.0, r.1, Seq::empty(), false))
        },
    }
}

/// `t` is pasted at the cursor, replacing the selection if there is one.
#[verifier::opaque]
pub open spec fn pasted(m: EditorModel, t: Seq<char>) -> EditorModel {
    let m1 = if has_selection(m) {
        selection_deleted(m)
    } else {
        m
    };
    inserted(m1, t)
}

/// The selected text, if both ends of the selection are set.
#[verifier::opaque]
pub open spec fn selected_text(m: EditorModel) -> Option<Seq<char>> {
    match selection_range(m) {
        None => None,
        Some(r) => Some(extract_text(m.lines, r.0.0, r.0.1, r.1.0, r.1.1)),
    }
}

/// A run of grouped edits ends.
#[verifier::opaque]
pub open spec fn group_ended(m: EditorModel) -> EditorModel {
    if m.is_grouping {
        EditorModel { is_grouping: false, history: committed(m.history), ..m }
    } else {
        m
    }
}

/// A run of grouped edits starts, unless one is going on.
#[verifier::opaque]
pub open spec fn group_started(m: EditorModel) -> EditorModel {
    if !m.is_grouping {
        EditorModel {
            is_grouping: true,
            history: HistoryModel { group: Some((doc(m), 0nat, doc(m))), ..committed(m.history) },
            ..m
        }
    } else {
        m
    }
}

/// The columns rows are wrapped at, for a view `columns` wide: none when
/// wrapping is off, the configured column when there is one, else the
/// view's width.  A configured column of zero wraps nothing.
pub open spec fn wrap_width(m: EditorModel, columns: int) -> Option<int> {
    if !m.wrap_enabled {
        None
    } else {
        match m.wrap_column {
            Some(w) => if w >= 1 {
                Some(w)
            } else {
                None
            },
            None => Some(columns),
        }
    }
}

/// The screen rows of the document, for a view `columns` wide.
pub open spec fn screen_rows(m: EditorModel, columns: int) -> Seq<(int, int, int)> {
    visual_rows(m.lines, wrap_width(m, columns))
}

/// Where Up (or Down) takes the cursor among the rows `rs`: to the row
/// above (or below), at the same offset within the row when both rows
/// belong to one line, else at the same column held to the row and the line.
#[verifier::opaque]
pub open spec fn vertical_in(rs: Seq<(int, int, int)>, m: EditorModel, up: bool) -> (int, int) {
    let line = m.cursor.0;
    let col = m.cursor.1;
    match row_of_pos(rs, line, col) {
        None => m.cursor,
        Some(cur) => if (up && cur == 0) || (!up && cur + 1 >= rs.len()) {
            m.cursor
        } else {
            let t = if up {
                cur - 1
            } else {
                cur + 1
            };
            let tv = rs[t];
            let cv = rs[cur];
            let new_col = if tv.0 == line {
                let tc = tv.1 + sat_sub(col, cv.1);
                if tc >= tv.2 {
                    max(sat_sub(tv.2, 1), tv.1)
                } else {
                    tc
                }
            } else {
                min(tv.1 + min(col, tv.2 - tv.1), len_of(m, tv.0))
            };
            (tv.0, new_col)
        },
    }
}

/// Where Up (or Down) takes the cursor on the screen rows of the view.
#[verifier::opaque]
pub open spec fn vertical_target(m: EditorModel, up: bool) -> (int, int) {
    vertical_in(screen_rows(m, m.view_columns), m, up)
}

/// Where an arrow key takes the cursor.
#[verifier::opaque]
pub open spec fn moved_cursor(m: EditorModel, d: ArrowDirection) -> (int, int) {
    let l = m.cursor.0;
    let c = m.cursor.1;
    match d {
        ArrowDirection::Up => vertical_target(m, true),
        ArrowDirection::Down => vertical_target(m, false),
        ArrowDirection::Left => if c > 0 {
            (l, c - 1)
        } else if l > 0 {
            (l - 1, len_of(m, l - 1))
        } else {
            (l, c)
        },
        ArrowDirection::Right => if c < len_of(m, l) {
            (l, c + 1)
        } else if l + 1 < m.lines.len() {
            (l + 1, 0)
        } else {
            (l, c)
        },
    }
}

/// The cursor moved to `c`; with `shift` the selection runs from where it
/// started (or from the old cursor) to `c`, without it the selection is
/// cleared.
#[verifier::opaque]
pub open spec fn extend_or_clear(m: EditorModel, c: (int, int), shift: bool) -> EditorModel {
    if shift {
        let start = if m.selection_start is None {
            Some(m.cursor)
        } else {
            m.selection_start
        };
        EditorModel { selection_start: start, cursor: c, selection_end: Some(c), ..m }
    } else {
        EditorModel { selection_start: None, selection_end: None, cursor: c, ..m }
    }
}

/// Where a pointer at `(row, column offset)` of a view `columns` wide puts
/// the cursor; past the last row it goes to the end of the document, and a
/// pointer in the gutter (`None`) puts it nowhere.
#[verifier::opaque]
pub open spec fn pointed(m: EditorModel, columns: int, p: Option<(int, int)>) -> Option<(int, int)> {
    match p {
        None => None,
        Some(q) => {
            let rs = screen_rows(m, columns);
            if q.0 >= rs.len() {
                Some(doc_end(m))
            } else {
                let r = rs[q.0];
                Some((r.0, min(r.1 + q.1, r.2)))
            }
        },
    }
}

/// A click: grouping ends, the cursor goes where the pointer is, a drag
/// selection starts there, and the canvas takes focus.
#[verifier::opaque]
pub open spec fn clicked(m: EditorModel, p: Option<(int, int)>) -> EditorModel {
    let m1 = group_ended(m);
    let c = match pointed(m1, m1.view_columns, p) {
        Some(c) => c,
        None => m1.cursor,
    };
    EditorModel {
        cursor: c,
        cursor_visible: true,
        selection_start: Some(c),
        selection_end: None,
        is_dragging: true,
        has_canvas_focus: true,
        show_cursor: true,
        ..m1
    }
}

/// A drag: while dragging, the cursor and the selection end follow the
/// pointer (rows laid out for the drag width).
#[verifier::opaque]
pub open spec fn dragged(m: EditorModel, p: Option<(int, int)>) -> EditorModel {
    if !m.is_dragging {
        m
    } else {
        match pointed(m, m.drag_columns, p) {
            Some(c) => EditorModel { cursor: c, selection_end: Some(c), ..m },
            None => m,
        }
    }
}

/// Where Page Up (or Page Down) takes the cursor: `page_lines` lines up
/// (or down), held to the document, the column held to the line.
#[verifier::opaque]
pub open spec fn paged_cursor(m: EditorModel, up: bool) -> (int, int) {
    let l = m.cursor.0;
    let nl = if up {
        sat_sub(l, m.page_lines)
    } else {
        min(l + m.page_lines, m.lines.len() - 1)
    };
    (nl, min(m.cursor.1, len_of(m, nl)))
}

/// Undo: grouping ends; if a step is left, the document goes back to the
/// state before it and the selection is cleared.
#[verifier::opaque]
pub open spec fn undo_applied(m: EditorModel) -> EditorModel {
    let m1 = group_ended(m);
    let h = committed(m1.history);
    if h.undo.len() == 0 {
        EditorModel { history: undone(m1.history), ..m1 }
    } else {
        EditorModel {
            lines: h.undo.last().0.lines,
            cursor: h.undo.last().0.cursor,
            history: undone(m1.history),
            selection_start: None,
            selection_end: None,
            cursor_visible: true,
            ..m1
        }
    }
}

/// Redo: if a step was undone, the document goes forward to the state
/// after it and the selection is cleared.
#[verifier::opaque]
pub open spec fn redo_applied(m: EditorModel) -> EditorModel {
    if m.history.redo.len() == 0 {
        m
    } else {
        EditorModel {
            lines: m.history.redo.last().1.lines,
            cursor: m.history.redo.last().1.cursor,
            history: redone(m.history),
            selection_start: None,
            selection_end: None,
            cursor_visible: true,
            ..m
        }
    }
}

/// A blink tick: the cursor blinks when this editor holds the focus, the
/// canvas has it and the blink interval has passed; without canvas focus
/// the cursor is hidden.
#[verifier::opaque]
pub open spec fn ticked(m: EditorModel, focused: bool, blink_due: bool) -> EditorModel {
    let m1 = if focused && m.has_canvas_focus && blink_due {
        EditorModel { cursor_visible: !m.cursor_visible, ..m }
    } else {
        m
    };
    if !m.has_canvas_focus {
        EditorModel { show_cursor: false, ..m1 }
    } else {
        m1
    }
}

/// A pair of machine integers as mathematical ones.
pub open spec fn opt_pair(p: Option<(usize, usize)>) -> Option<(int, int)> {
    opt_pos(p)
}

/// Messages the editor reacts to.  Pointer positions are given as a screen
/// row and a column offset within it, or `None` in the line-number gutter.
#[derive(Clone, Debug)]
pub enum Message {
    /// A character typed.
    CharacterInput(char),
    Backspace,
    Delete,
    Enter,
    /// Tab pressed (inserts four spaces).
    Tab,
    /// An arrow key, and whether Shift is held.
    ArrowKey(ArrowDirection, bool),
    MouseClick(Option<(usize, usize)>),
    MouseDrag(Option<(usize, usize)>),
    MouseRelease,
    /// Copy the selected text.
    Copy,
    /// Paste text; empty text asks for the clipboard's content.
    Paste(String),
    /// Delete the selected text.
    DeleteSelection,
    /// A blink tick: whether this editor holds the focus, and whether the
    /// blink interval has passed.
    Tick(bool, bool),
    PageUp,
    PageDown,
    /// Home, and whether Shift is held.
    Home(bool),
    /// End, and whether Shift is held.
    End(bool),
    CtrlHome,
    CtrlEnd,
    Undo,
    Redo,
    CanvasFocusGained,
    CanvasFocusLost,
    ImeOpened,
    /// Text being composed, and the byte range selected in it.
    ImePreedit(String, Option<(usize, usize)>),
    ImeCommit(String),
    ImeClosed,
}

/// The editor state after `msg`.
#[verifier::opaque]
pub open spec fn next_state(m: EditorModel, msg: Message) -> EditorModel {
    match msg {
        Message::CharacterInput(c) => blinked(inserted(group_started(m), seq![c])),
        Message::Backspace => {
            let m1 = group_ended(m);
            blinked(
                if has_selection(m1) {
                    selection_deleted(m1)
                } else {
                    backspaced(m1)
                },
            )
        },
        Message::Delete => {
            let m1 = group_ended(m);
            blinked(
                if has_selection(m1) {
                    selection_deleted(m1)
                } else {
                    forward_deleted(m1)
                },
            )
        },
        Message::Enter => blinked(inserted(group_ended(m), seq!['\n'])),
        Message::Tab => blinked(tabbed(group_started(m))),
        Message::ArrowKey(d, shift) => {
            let m1 = group_ended(m);
            blinked(extend_or_clear(m1, moved_cursor(m1, d), shift))
        },
        Message::MouseClick(p) => clicked(m, opt_pair(p)),
        Message::MouseDrag(p) => dragged(m, opt_pair(p)),
        Message::MouseRelease => EditorModel { is_dragging: false, ..m },
        Message::Copy => m,
        Message::Paste(t) => {
            let m1 = group_ended(m);
            if t@.len() == 0 {
                m1
            } else {
                pasted(m1, t@)
            }
        },
        Message::DeleteSelection => blinked(selection_deleted(group_ended(m))),
        Message::Tick(focused, due) => ticked(m, focused, due),
        Message::PageUp => blinked(EditorModel { cursor: paged_cursor(m, true), ..m }),
        Message::PageDown => blinked(EditorModel { cursor: paged_cursor(m, false), ..m }),
        Message::Home(shift) => blinked(extend_or_clear(m, (m.cursor.0, 0), shift)),
        Message::End(shift) => blinked(
            extend_or_clear(m, (m.cursor.0, len_of(m, m.cursor.0)), shift),
        ),
        Message::CtrlHome => blinked(EditorModel { cursor: (0, 0), ..cleared(m) }),
        Message::CtrlEnd => blinked(EditorModel { cursor: doc_end(m), ..cleared(m) }),
        Message::Undo => undo_applied(m),
        Message::Redo => redo_applied(m),
        Message::CanvasFocusGained => blinked(
            EditorModel { has_canvas_focus: true, show_cursor: true, ..m },
        ),
        Message::CanvasFocusLost => EditorModel {
            has_canvas_focus: false,
            show_cursor: false,
            preedit: None,
            ..m
        },
        Message::ImeOpened => EditorModel { preedit: None, ..m },
        Message::ImePreedit(content, sel) => EditorModel {
            preedit: if content@.len() == 0 {
                None
            } else {
                Some((content@, opt_pos(sel)))
            },
            ..m
        },
        Message::ImeCommit(t) => {
            let m0 = EditorModel { preedit: None, ..m };
            if t@.len() == 0 {
                m0
            } else {
                blinked(pasted(group_started(m0), t@))
            }
        },
        Message::ImeClosed => EditorModel { preedit: None, ..m },
    }
}

/// What the surroundings are asked to do after a message.
#[derive(Clone, Debug)]
pub struct Effects {
    /// Scroll so that the cursor is in view.
    pub scroll_to_cursor: bool,
    /// Put this text on the clipboard.
    pub copy: Option<String>,
    /// Read the clipboard and paste what it holds.
    pub read_clipboard: bool,
    /// Make this editor the focused one.
    pub capture_focus: bool,
    /// Restart the blink interval from now.
    pub restart_blink: bool,
}

/// Whether `msg` asks to scroll the cursor into view.
#[verifier::opaque]
pub open spec fn scrolls(m: EditorModel, msg: Message) -> bool {
    match msg {
        Message::Backspace | Message::Enter | Message::ArrowKey(_, _) | Message::DeleteSelection
        | Message::PageUp | Message::PageDown | Message::CtrlHome | Message::CtrlEnd => true,
        Message::Delete => has_selection(group_ended(m)),
        Message::Paste(t) => t@.len() > 0,
        Message::ImeCommit(t) => t@.len() > 0,
        Message::Undo => committed(group_ended(m).history).undo.len() > 0,
        Message::Redo => m.history.redo.len() > 0,
        _ => false,
    }
}

/// Whether `msg` restarts the blink interval.
#[verifier::opaque]
pub open spec fn restarts_blink(m: EditorModel, msg: Message) -> bool {
    match msg {
        Message::CharacterInput(_) | Message::Backspace | Message::Delete | Message::Enter
        | Message::Tab | Message::ArrowKey(_, _) | Message::MouseClick(_)
        | Message::DeleteSelection | Message::PageUp | Message::PageDown | Message::Home(_)
        | Message::End(_) | Message::CtrlHome | Message::CtrlEnd | Message::CanvasFocusGained => true,
        Message::Tick(focused, due) => focused && m.has_canvas_focus && due,
        Message::ImeCommit(t) => t@.len() > 0,
        Message::Undo => committed(group_ended(m).history).undo.len() > 0,
        Message::Redo => m.history.redo.len() > 0,
        _ => false,
    }
}

/// The effects are those `msg` asks for in state `m`.
#[verifier::opaque]
pub open spec fn effects_match(m: EditorModel, msg: Message, e: Effects) -> bool {
    &&& e.scroll_to_cursor == scrolls(m, msg)
    &&& e.restart_blink == restarts_blink(m, msg)
    &&& e.capture_focus == (msg is MouseClick)
    &&& e.read_clipboard == (msg matches Message::Paste(t) && t@.len() == 0)
    &&& match e.copy {
        Some(s) => msg is Copy && selected_text(m) == Some(s@),
        None => !(msg is Copy) || selected_text(m) is None,
    }
}

/// The code editor state.
pub struct CodeEditor {
    buffer: TextBuffer,
    cursor: (usize, usize),
    syntax: String,
    cursor_visible: bool,
    selection_start: Option<(usize, usize)>,
    selection_end: Option<(usize, usize)>,
    is_dragging: bool,
    history: CommandHistory,
    is_grouping: bool,
    wrap_enabled: bool,
    wrap_column: Option<usize>,
    search_replace_enabled: bool,
    line_numbers_enabled: bool,
    has_canvas_focus: bool,
    show_cursor: bool,
    ime_preedit: Option<ImePreedit>,
    page_lines: usize,
    view_columns: usize,
    drag_columns: usize,
    language: Language,
}

impl View for CodeEditor {
    type V = EditorModel;

    closed spec fn view(&self) -> EditorModel {
        EditorModel {
            lines: self.buffer@,
            cursor: pos_int(self.cursor),
            selection_start: opt_pos(self.selection_start),
            selection_end: opt_pos(self.selection_end),
            is_dragging: self.is_dragging,
            is_grouping: self.is_grouping,
            cursor_visible: self.cursor_visible,
            has_canvas_focus: self.has_canvas_focus,
            show_cursor: self.show_cursor,
            wrap_enabled: self.wrap_enabled,
            wrap_column: match self.wrap_column {
                Some(w) => Some(w as int),
                None => None,
            },
            search_replace_enabled: self.search_replace_enabled,
            line_numbers_enabled: self.line_numbers_enabled,
            preedit: match self.ime_preedit {
                Some(p) => Some((p.content@, opt_pos(p.selection))),
                None => None,
            },
            page_lines: self.page_lines as int,
            view_columns: self.view_columns as int,
            drag_columns: self.drag_columns as int,
            syntax: self.syntax@,
            language: self.language,
            history: self.history@,
        }
    }
}

/// An empty history keeping the editor's number of undo steps.
pub open spec fn empty_history() -> HistoryModel {
    HistoryModel {
        undo: Seq::empty(),
        redo: Seq::empty(),
        group: None,
        saved: Some((0nat, 0nat)),
        capacity: HISTORY_CAPACITY as nat,
    }
}

/// A new editor holding `content`, highlighted as `syntax`: cursor at the
/// start, no selection, wrapping at the view's width, line numbers and
/// search on, no focus yet, the default view size, English texts, and an
/// empty history.
pub open spec fn fresh_editor(content: Seq<char>, syntax: Seq<char>) -> EditorModel {
    EditorModel {
        lines: lines_of(content),
        cursor: (0, 0),
        selection_start: None,
        selection_end: None,
        is_dragging: false,
        is_grouping: false,
        cursor_visible: true,
        has_canvas_focus: false,
        show_cursor: false,
        wrap_enabled: true,
        wrap_column: None,
        search_replace_enabled: true,
        line_numbers_enabled: true,
        preedit: None,
        page_lines: DEFAULT_PAGE_LINES as int,
        view_columns: DEFAULT_VIEW_COLUMNS as int,
        drag_columns: DEFAULT_VIEW_COLUMNS as int,
        syntax,
        language: Language::English,
        history: empty_history(),
    }
}

/// The editor started afresh with `content`: cursor at the start, no
/// selection, no drag, an empty history, no typing run, the cursor shown;
/// the settings, focus and text being composed stay.
pub open spec fn reset_state(m: EditorModel, content: Seq<char>) -> EditorModel {
    EditorModel {
        lines: lines_of(content),
        cursor: (0, 0),
        selection_start: None,
        selection_end: None,
        is_dragging: false,
        history: empty_history(),
        is_grouping: false,
        cursor_visible: true,
        ..m
    }
}

/// The editor state is consistent: well-formed lines, the cursor on a valid
/// place, and rows at least one column wide.
pub open spec fn model_wf(m: EditorModel) -> bool {
    &&& state_wf(doc(m))
    &&& m.view_columns >= 1
    &&& m.drag_columns >= 1
    &&& (m.selection_start matches Some(p) ==> p.0 >= 0 && p.1 >= 0)
    &&& (m.selection_end matches Some(p) ==> p.0 >= 0 && p.1 >= 0)
    &&& (!m.is_grouping ==> m.history.group is None)
}

/// The editor state is consistent and its history joins up with its lines.
pub open spec fn model_ok(m: EditorModel) -> bool {
    &&& model_wf(m)
    &&& links_ok(m.history, m.lines)
    &&& (m.history.group matches Some(g) && g.1 > 0 ==> m.history.redo.len() == 0)
}

impl CodeEditor {
    /// The editor is consistent.
    pub closed spec fn wf(&self) -> bool {
        &&& self.buffer.wf()
        &&& model_wf(self@)
        &&& self.history.inv(doc_state(self.buffer@, self.cursor))
    }

    /// A new editor holding `content`, highlighted as `syntax`.
    pub fn new(content: &str, syntax: &str) -> (res: Self)
        ensures
            res.wf(),
            res@ == fresh_editor(content@, syntax@),
    {
        let buffer = TextBuffer::new(content);
        let ghost st = doc_state(buffer@, (0usize, 0usize));
        let history = CommandHistory::new(HISTORY_CAPACITY, Ghost(st));
        CodeEditor {
            buffer,
            cursor: (0, 0),
            syntax: string_from_chars(chars_of(syntax).as_slice()),
            cursor_visible: true,
            selection_start: None,
            selection_end: None,
            is_dragging: false,
            history,
            is_grouping: false,
            wrap_enabled: true,
            wrap_column: None,
            search_replace_enabled: true,
            line_numbers_enabled: true,
            has_canvas_focus: false,
            show_cursor: false,
            ime_preedit: None,
            page_lines: DEFAULT_PAGE_LINES,
            view_columns: DEFAULT_VIEW_COLUMNS,
            drag_columns: DEFAULT_VIEW_COLUMNS,
            language: Language::English,
        }
    }

    /// The text of the editor.
    pub fn content(&self) -> (res: String)
        requires
            self.wf(),
        ensures
            res@ == text_of(self@.lines),
    {
        self.buffer.to_string()
    }

    /// The number of lines.
    pub fn line_count(&self) -> (n: usize)
        requires
            self.wf(),
        ensures
            n == self@.lines.len(),
    {
        self.buffer.line_count()
    }

    /// The length of line `i`.
    pub fn line_len(&self, i: usize) -> (n: usize)
        requires
            self.wf(),
            i < self@.lines.len(),
        ensures
            n == self@.lines[i as int].len(),
    {
        self.buffer.line_len(i)
    }

    /// Line `i` as a string.
    pub fn line(&self, i: usize) -> (res: String)
        requires
            self.wf(),
            i < self@.lines.len(),
        ensures
            res@ == self@.lines[i as int],
    {
        self.buffer.line(i)
    }

    /// The cursor as `(line, column)`.
    pub fn cursor_position(&self) -> (res: (usize, usize))
        ensures
            pos_int(res) == self@.cursor,
    {
        self.cursor
    }

    /// The syntax the editor highlights.
    pub fn syntax(&self) -> (res: &String)
        ensures
            res@ == self@.syntax,
    {
        &self.syntax
    }

    /// The selection anchor, if any.
    pub fn selection_start(&self) -> (res: Option<(usize, usize)>)
        ensures
            opt_pos(res) == self@.selection_start,
    {
        self.selection_start
    }

    /// The selection end, if any.
    pub fn selection_end(&self) -> (res: Option<(usize, usize)>)
        ensures
            opt_pos(res) == self@.selection_end,
    {
        self.selection_end
    }

    /// Whether typed characters are being grouped into one undo step.
    pub fn is_grouping(&self) -> (res: bool)
        ensures
            res == self@.is_grouping,
    {
        self.is_grouping
    }

    /// Whether the canvas has keyboard focus.
    pub fn has_canvas_focus(&self) -> (res: bool)
        ensures
            res == self@.has_canvas_focus,
    {
        self.has_canvas_focus
    }

    /// Whether the cursor is to be drawn.
    pub fn show_cursor(&self) -> (res: bool)
        ensures
            res == self@.show_cursor,
    {
        self.show_cursor
    }

    /// Whether the cursor is in the visible phase of its blink.
    pub fn cursor_visible(&self) -> (res: bool)
        ensures
            res == self@.cursor_visible,
    {
        self.cursor_visible
    }

    /// Whether a mouse drag is selecting text.
    pub fn is_dragging(&self) -> (res: bool)
        ensures
            res == self@.is_dragging,
    {
        self.is_dragging
    }

    /// The text being composed in an input method, if any.
    pub fn ime_preedit(&self) -> (res: &Option<ImePreedit>)
        ensures
            match *res {
                Some(p) => self@.preedit == Some((p.content@, opt_pos(p.selection))),
                None => self@.preedit is None,
            },
    {
        &self.ime_preedit
    }

    /// Lines moved by Page Up and Page Down.
    pub fn page_lines(&self) -> (res: usize)
        ensures
            res == self@.page_lines,
    {
        self.page_lines
    }

    /// Columns per row used for wrapping.
    pub fn view_columns(&self) -> (res: usize)
        ensures
            res == self@.view_columns,
    {
        self.view_columns
    }
}


fn fx(scroll: bool, blink: bool) -> (e: Effects)
    ensures
        e.scroll_to_cursor == scroll,
        e.restart_blink == blink,
        e.copy is None,
        !e.read_clipboard,
        !e.capture_focus,
{
    Effects {
        scroll_to_cursor: scroll,
        copy: None,
        read_clipboard: false,
        capture_focus: false,
        restart_blink: blink,
    }
}

fn pos_le_exec(a: (usize, usize), b: (usize, usize)) -> (res: bool)
    ensures
        res == pos_le(a.0 as int, a.1 as int, b.0 as int, b.1 as int),
{
    a.0 < b.0 || (a.0 == b.0 && a.1 <= b.1)
}

/// The column Up or Down moves to within the same line: the offset in the
/// current row carried over to the target row, held inside the target row.
fn same_line_col(tv: VisualLine, cv: VisualLine, col: usize) -> (r: usize)
    requires
        tv.start_col <= tv.end_col,
    ensures
        r as int == ({
            let tc = tv.start_col + sat_sub(col as int, cv.start_col as int);
            if tc >= tv.end_col {
                max(sat_sub(tv.end_col as int, 1), tv.start_col as int)
            } else {
                tc
            }
        }),
        tv.start_col <= r <= tv.end_col,
{
    let off = if col >= cv.start_col {
        col - cv.start_col
    } else {
        0
    };
    if off >= tv.end_col - tv.start_col {
        let e1 = if tv.end_col >= 1 {
            tv.end_col - 1
        } else {
            0
        };
        if e1 >= tv.start_col {
            e1
        } else {
            tv.start_col
        }
    } else {
        tv.start_col + off
    }
}

/// The column Up or Down moves to on another line: the column held to the
/// target row's width, then to the line's length.
fn other_line_col(tv: VisualLine, col: usize, line_len: usize) -> (r: usize)
    requires
        tv.start_col <= tv.end_col <= line_len,
    ensures
        r as int == min(tv.start_col + min(col as int, tv.end_col - tv.start_col), line_len as int),
        r <= line_len,
{
    let seg = tv.end_col - tv.start_col;
    let a = if col < seg {
        col
    } else {
        seg
    };
    let x = tv.start_col + a;
    if x < line_len {
        x
    } else {
        line_len
    }
}

impl CodeEditor {
    /// Puts the cursor on the valid place `c`.
    fn put_cursor(&mut self, c: (usize, usize))
        requires
            old(self).wf(),
            valid_pos(old(self)@.lines, c.0 as int, c.1 as int),
        ensures
            final(self).wf(),
            final(self)@ == (EditorModel { cursor: pos_int(c), ..old(self)@ }),
    {
        let ghost before = doc_state(self.buffer@, self.cursor);
        self.cursor = c;
        proof {
            self.history.lemma_inv_lines(before, doc_state(self.buffer@, self.cursor));
        }
    }

    /// Restarts the blink: the cursor is shown.
    fn reset_cursor_blink(&mut self)
        requires
            old(self).wf(),
        ensures
            final(self).wf(),
            final(self)@ == blinked(old(self)@),
    {
        self.cursor_visible = true;
    }

    /// Clears the selection.
    pub fn clear_selection(&mut self)
        requires
            old(self).wf(),
        ensures
            final(self).wf(),
            final(self)@ == cleared(old(self)@),
    {
        self.selection_start = None;
        self.selection_end = None;
    }

    /// Ends a run of grouped edits.
    fn end_grouping(&mut self)
        requires
            old(self).wf(),
        ensures
            final(self).wf(),
            final(self)@ == group_ended(old(self)@),
    {
        proof {
            reveal(group_ended);
        }
        if self.is_grouping {
            self.history.end_group(Ghost(doc_state(self.buffer@, self.cursor)));
            self.is_grouping = false;
        }
    }

    /// Starts a run of grouped edits, unless one is going on.
    fn start_grouping(&mut self)
        requires
            old(self).wf(),
        ensures
            final(self).wf(),
            final(self)@ == group_started(old(self)@),
    {
        proof {
            reveal(group_started);
        }
        if !self.is_grouping {
            self.history.begin_group(Ghost(doc_state(self.buffer@, self.cursor)));
            self.is_grouping = true;
        }
    }

    /// Closes the history's open group, leaving the typing run as it is.
    pub fn end_history_group(&mut self)
        requires
            old(self).wf(),
        ensures
            final(self).wf(),
            final(self)@ == (EditorModel { history: committed(old(self)@.history), ..old(self)@ }),
    {
        self.history.end_group(Ghost(doc_state(self.buffer@, self.cursor)));
    }

    /// Replaces the text between `s` and `e` by `t` and records the change.
    #[verifier::rlimit(40)]
    fn apply_new_edit(&mut self, s: (usize, usize), e: (usize, usize), t: Vec<char>, cursor_at_end: bool)
        requires
            old(self).wf(),
            valid_pos(old(self)@.lines, s.0 as int, s.1 as int),
            valid_pos(old(self)@.lines, e.0 as int, e.1 as int),
            pos_le(s.0 as int, s.1 as int, e.0 as int, e.1 as int),
        ensures
            final(self).wf(),
            final(self)@ == edited(old(self)@, pos_int(s), pos_int(e), t@, cursor_at_end),
    {
        proof {
            reveal(edited);
        }
        let ghost pre = doc_state(self.buffer@, self.cursor);
        let removed = self.buffer.extract(s.0, s.1, e.0, e.1);
        let mut edit = Edit {
            start: s,
            end: e,
            removed,
            inserted: t,
            cursor_before: self.cursor,
            cursor_after: s,
        };
        proof {
            lemma_replace(pre.lines, s.0 as int, s.1 as int, e.0 as int, e.1 as int, edit.inserted@);
        }
        self.buffer.replace(s.0, s.1, e.0, e.1, &edit.inserted);
        if cursor_at_end {
            let end = insertion_end(&self.buffer, &edit, Ghost(pre));
            edit.cursor_after = end;
        }
        let after = edit.cursor_after;
        proof {
            lemma_undo_edit(edit, pre);
        }
        self.history.push(edit, Ghost(pre));
        self.cursor = after;
    }

    /// Inserts `t` at the cursor; the cursor ends after it.
    fn insert_at_cursor(&mut self, t: Vec<char>)
        requires
            old(self).wf(),
        ensures
            final(self).wf(),
            final(self)@ == inserted(old(self)@, t@),
    {
        let c = self.cursor;
        self.apply_new_edit(c, c, t, true);
    }

    /// Inserts one character at the cursor.
    fn insert_char(&mut self, ch: char)
        requires
            old(self).wf(),
        ensures
            final(self).wf(),
            final(self)@ == inserted(old(self)@, seq![ch]),
    {
        let mut t: Vec<char> = Vec::new();
        t.push(ch);
        proof {
            assert(t@ =~= seq![ch]);
        }
        self.insert_at_cursor(t);
    }

    /// Deletes the character before the cursor, or joins the line with the
    /// one before it.
    fn backspace_char(&mut self)
        requires
            old(self).wf(),
        ensures
            final(self).wf(),
            final(self)@ == backspaced(old(self)@),
    {
        proof {
            reveal(backspaced);
        }
        let (l, c) = self.cursor;
        if c > 0 {
            self.apply_new_edit((l, c - 1), (l, c), Vec::new(), false);
        } else if l > 0 {
            let pl = self.buffer.line_len(l - 1);
            self.apply_new_edit((l - 1, pl), (l, c), Vec::new(), false);
        } else {
            self.apply_new_edit((l, c), (l, c), Vec::new(), false);
        }
    }

    /// Deletes the character after the cursor, or joins the next line to
    /// this one.
    fn delete_char(&mut self)
        requires
            old(self).wf(),
        ensures
            final(self).wf(),
            final(self)@ == forward_deleted(old(self)@),
    {
        proof {
            reveal(forward_deleted);
        }
        let (l, c) = self.cursor;
        let n = self.buffer.line_count();
        let len = self.buffer.line_len(l);
        if c < len {
            self.apply_new_edit((l, c), (l, c + 1), Vec::new(), false);
        } else if l + 1 < n {
            self.apply_new_edit((l, c), (l + 1, 0), Vec::new(), false);
        } else {
            self.apply_new_edit((l, c), (l, c), Vec::new(), false);
        }
    }

    /// `p` held to the document.
    fn clamp_exec(&self, p: (usize, usize)) -> (r: (usize, usize))
        requires
            self.wf(),
        ensures
            pos_int(r) == clamp_pos(self@, pos_int(p)),
            valid_pos(self@.lines, r.0 as int, r.1 as int),
    {
        let n = self.buffer.line_count();
        let l = if p.0 < n - 1 {
            p.0
        } else {
            n - 1
        };
        let len = self.buffer.line_len(l);
        let c = if p.1 < len {
            p.1
        } else {
            len
        };
        (l, c)
    }

    /// The selection with its ends held to the document and in document
    /// order, when both ends are set.
    pub fn get_selection_range(&self) -> (res: Option<((usize, usize), (usize, usize))>)
        requires
            self.wf(),
        ensures
            match res {
                Some(r) => selection_range(self@) == Some((pos_int(r.0), pos_int(r.1)))
                    && valid_pos(self@.lines, r.0.0 as int, r.0.1 as int)
                    && valid_pos(self@.lines, r.1.0 as int, r.1.1 as int)
                    && pos_le(r.0.0 as int, r.0.1 as int, r.1.0 as int, r.1.1 as int),
                None => selection_range(self@) is None,
            },
    {
        proof {
            reveal(selection_range);
        }
        match (self.selection_start, self.selection_end) {
            (Some(s0), Some(e0)) => {
                let s = self.clamp_exec(s0);
                let e = self.clamp_exec(e0);
                if pos_le_exec(s, e) {
                    Some((s, e))
                } else {
                    Some((e, s))
                }
            },
            _ => None,
        }
    }

    /// The selected text, if both ends of the selection are set.
    pub fn get_selected_text(&self) -> (res: Option<String>)
        requires
            self.wf(),
        ensures
            match res {
                Some(t) => selected_text(self@) == Some(t@),
                None => selected_text(self@) is None,
            },
    {
        proof {
            reveal(selected_text);
        }
        match self.get_selection_range() {
            Some((s, e)) => {
                let v = self.buffer.extract(s.0, s.1, e.0, e.1);
                Some(string_from_chars(v.as_slice()))
            },
            None => None,
        }
    }

    /// Deletes the selected text; the cursor goes where it started.  An
    /// empty selection is only cleared.
    pub fn delete_selection(&mut self)
        requires
            old(self).wf(),
        ensures
            final(self).wf(),
            final(self)@ == selection_deleted(old(self)@),
    {
        proof {
            reveal(selection_deleted);
        }
        match self.get_selection_range() {
            Some((s, e)) => {
                if s.0 == e.0 && s.1 == e.1 {
                    self.clear_selection();
                } else {
                    self.apply_new_edit(s, e, Vec::new(), false);
                    self.clear_selection();
                }
            },
            None => {},
        }
    }

    /// Pastes `text` at the cursor, replacing the selection if there is one.
    pub fn paste_text(&mut self, text: &str)
        requires
            old(self).wf(),
        ensures
            final(self).wf(),
            final(self)@ == pasted(old(self)@, text@),
    {
        proof {
            reveal(pasted);
        }
        if self.selection_start.is_some() && self.selection_end.is_some() {
            self.delete_selection();
        }
        let t = chars_of(text);
        self.insert_at_cursor(t);
    }

    /// The wrap width of the rows for a view `columns` wide.
    fn wrap_width_exec(&self, columns: usize) -> (w: Option<usize>)
        requires
            columns >= 1,
        ensures
            opt_int(w) == wrap_width(self@, columns as int),
            w matches Some(x) ==> x >= 1,
    {
        if !self.wrap_enabled {
            None
        } else {
            match self.wrap_column {
                Some(c) => if c >= 1 {
                    Some(c)
                } else {
                    None
                },
                None => Some(columns),
            }
        }
    }

    /// The screen rows for a view `columns` wide.
    fn rows_for(&self, columns: usize) -> (rows: Vec<VisualLine>)
        requires
            self.wf(),
            columns >= 1,
        ensures
            rows_view(rows@) == screen_rows(self@, columns as int),
            forall|i: int|
                0 <= i < rows@.len() ==> crate::wrapping::row_in(
                    self@.lines,
                    #[trigger] rows_view(rows@)[i],
                ),
            rows@.len() >= self@.lines.len(),
    {
        let w = self.wrap_width_exec(columns);
        let rows = calculate_visual_lines(&self.buffer, w);
        proof {
            lemma_rows_in(self.buffer@, opt_int(w));
        }
        rows
    }

    /// The screen rows of the document at the view's width.
    pub fn visual_lines(&self) -> (rows: Vec<VisualLine>)
        requires
            self.wf(),
        ensures
            rows_view(rows@) == screen_rows(self@, self@.view_columns),
    {
        self.rows_for(self.view_columns)
    }

    /// Where Up (or Down) takes the cursor among `rows`.
    #[verifier::rlimit(60)]
    fn vertical_from_rows(&self, rows: &Vec<VisualLine>, up: bool) -> (r: (usize, usize))
        requires
            self.wf(),
            forall|i: int|
                0 <= i < rows@.len() ==> crate::wrapping::row_in(
                    self@.lines,
                    #[trigger] rows_view(rows@)[i],
                ),
        ensures
            pos_int(r) == vertical_in(rows_view(rows@), self@, up),
            valid_pos(self@.lines, r.0 as int, r.1 as int),
    {
        proof {
            reveal(vertical_in);
        }
        let ghost rv = rows_view(rows@);
        let (line, col) = self.cursor;
        let nrows = rows.len();
        match logical_to_visual(rows, line, col) {
            None => self.cursor,
            Some(cur) => {
                proof {
                    assert(rv.len() == rows@.len());
                    assert(cur < rows@.len());
                }
                if up && cur == 0 {
                    return self.cursor;
                }
                if !up && cur + 1 >= nrows {
                    return self.cursor;
                }
                let t = if up {
                    cur - 1
                } else {
                    cur + 1
                };
                let tv = rows[t];
                let cv = rows[cur];
                proof {
                    assert(rv[t as int] == crate::wrapping::row_of(tv));
                    assert(rv[cur as int] == crate::wrapping::row_of(cv));
                    assert(crate::wrapping::row_in(self@.lines, rv[t as int]));
                }
                let new_col = if tv.logical_line == line {
                    same_line_col(tv, cv, col)
                } else {
                    let ll = self.buffer.line_len(tv.logical_line);
                    other_line_col(tv, col, ll)
                };
                (tv.logical_line, new_col)
            },
        }
    }

    /// Where Up (or Down) takes the cursor.
    fn vertical_target_exec(&self, up: bool) -> (r: (usize, usize))
        requires
            self.wf(),
        ensures
            pos_int(r) == vertical_target(self@, up),
            valid_pos(self@.lines, r.0 as int, r.1 as int),
    {
        proof {
            reveal(vertical_target);
        }
        let rows = self.rows_for(self.view_columns);
        self.vertical_from_rows(&rows, up)
    }

    /// Where an arrow key takes the cursor.
    fn moved_target(&self, d: ArrowDirection) -> (r: (usize, usize))
        requires
            self.wf(),
        ensures
            pos_int(r) == moved_cursor(self@, d),
            valid_pos(self@.lines, r.0 as int, r.1 as int),
    {
        proof {
            reveal(moved_cursor);
        }
        let (line, col) = self.cursor;
        let n = self.buffer.line_count();
        match d {
            ArrowDirection::Up => self.vertical_target_exec(true),
            ArrowDirection::Down => self.vertical_target_exec(false),
            ArrowDirection::Left => {
                if col > 0 {
                    (line, col - 1)
                } else if line > 0 {
                    let pl = self.buffer.line_len(line - 1);
                    (line - 1, pl)
                } else {
                    (line, col)
                }
            },
            ArrowDirection::Right => {
                let len = self.buffer.line_len(line);
                if col < len {
                    (line, col + 1)
                } else if line + 1 < n {
                    (line + 1, 0)
                } else {
                    (line, col)
                }
            },
        }
    }

    /// Moves the cursor one step in `direction`.
    pub fn move_cursor(&mut self, direction: ArrowDirection)
        requires
            old(self).wf(),
        ensures
            final(self).wf(),
            final(self)@ == (EditorModel { cursor: moved_cursor(old(self)@, direction), ..old(self)@ }),
    {
        let c = self.moved_target(direction);
        self.put_cursor(c);
    }

    /// Moves the cursor to `c`, extending the selection with `shift` and
    /// clearing it without.
    fn extend_or_clear_to(&mut self, c: (usize, usize), shift: bool)
        requires
            old(self).wf(),
            valid_pos(old(self)@.lines, c.0 as int, c.1 as int),
        ensures
            final(self).wf(),
            final(self)@ == extend_or_clear(old(self)@, pos_int(c), shift),
    {
        proof {
            reveal(extend_or_clear);
        }
        if shift {
            if self.selection_start.is_none() {
                self.selection_start = Some(self.cursor);
            }
            self.put_cursor(c);
            self.selection_end = Some(c);
        } else {
            self.selection_start = None;
            self.selection_end = None;
            self.put_cursor(c);
        }
    }

    /// Where Page Up (or Page Down) takes the cursor.
    fn paged_target(&self, up: bool) -> (r: (usize, usize))
        requires
            self.wf(),
        ensures
            pos_int(r) == paged_cursor(self@, up),
            valid_pos(self@.lines, r.0 as int, r.1 as int),
    {
        proof {
            reveal(paged_cursor);
        }
        let (line, col) = self.cursor;
        let last = self.buffer.line_count() - 1;
        let nl = if up {
            if line >= self.page_lines {
                line - self.page_lines
            } else {
                0
            }
        } else {
            if self.page_lines >= last - line {
                last
            } else {
                line + self.page_lines
            }
        };
        let len = self.buffer.line_len(nl);
        let c = if col < len {
            col
        } else {
            len
        };
        (nl, c)
    }

    /// Moves the cursor up by a page.
    pub fn page_up(&mut self)
        requires
            old(self).wf(),
        ensures
            final(self).wf(),
            final(self)@ == (EditorModel { cursor: paged_cursor(old(self)@, true), ..old(self)@ }),
    {
        let c = self.paged_target(true);
        self.put_cursor(c);
    }

    /// Moves the cursor down by a page.
    pub fn page_down(&mut self)
        requires
            old(self).wf(),
        ensures
            final(self).wf(),
            final(self)@ == (EditorModel { cursor: paged_cursor(old(self)@, false), ..old(self)@ }),
    {
        let c = self.paged_target(false);
        self.put_cursor(c);
    }

    /// Where a pointer puts the cursor in a view `columns` wide.
    fn pointed_exec(&self, columns: usize, p: Option<(usize, usize)>) -> (r: Option<(usize, usize)>)
        requires
            self.wf(),
            columns >= 1,
        ensures
            opt_pos(r) == pointed(self@, columns as int, opt_pair(p)),
            r matches Some(c) ==> valid_pos(self@.lines, c.0 as int, c.1 as int),
    {
        proof {
            reveal(pointed);
        }
        match p {
            None => None,
            Some((row, off)) => {
                let rows = self.rows_for(columns);
                if row >= rows.len() {
                    let last = self.buffer.line_count() - 1;
                    let len = self.buffer.line_len(last);
                    Some((last, len))
                } else {
                    let r = rows[row];
                    proof {
                        assert(rows_view(rows@)[row as int] == crate::wrapping::row_of(r));
                        assert(crate::wrapping::row_in(self@.lines, rows_view(rows@)[row as int]));
                    }
                    let col = if off >= r.end_col - r.start_col {
                        r.end_col
                    } else {
                        r.start_col + off
                    };
                    Some((r.logical_line, col))
                }
            },
        }
    }

    /// The screen row the cursor is on, if it lies on one.
    pub fn cursor_visual_row(&self) -> (res: Option<usize>)
        requires
            self.wf(),
        ensures
            opt_int(res) == row_of_pos(screen_rows(self@, self@.view_columns), self@.cursor.0, self@.cursor.1),
    {
        let rows = self.rows_for(self.view_columns);
        logical_to_visual(&rows, self.cursor.0, self.cursor.1)
    }

    fn on_char(&mut self, c: char) -> (eff: Effects)
        requires
            old(self).wf(),
        ensures
            final(self).wf(),
            final(self)@ == next_state(old(self)@, Message::CharacterInput(c)),
            effects_match(old(self)@, Message::CharacterInput(c), eff),
    {
        proof {
            reveal(scrolls);
            reveal(restarts_blink);
            reveal(next_state);
            reveal(effects_match);
        }
        self.start_grouping();
        self.insert_char(c);
        self.reset_cursor_blink();
        fx(false, true)
    }

    fn on_backspace(&mut self) -> (eff: Effects)
        requires
            old(self).wf(),
        ensures
            final(self).wf(),
            final(self)@ == next_state(old(self)@, Message::Backspace),
            effects_match(old(self)@, Message::Backspace, eff),
    {
        proof {
            reveal(scrolls);
            reveal(restarts_blink);
            reveal(next_state);
            reveal(effects_match);
        }
        self.end_grouping();
        if self.selection_start.is_some() && self.selection_end.is_some() {
            self.delete_selection();
        } else {
            self.backspace_char();
        }
        self.reset_cursor_blink();
        fx(true, true)
    }

    fn on_delete(&mut self) -> (eff: Effects)
        requires
            old(self).wf(),
        ensures
            final(self).wf(),
            final(self)@ == next_state(old(self)@, Message::Delete),
            effects_match(old(self)@, Message::Delete, eff),
    {
        proof {
            reveal(scrolls);
            reveal(restarts_blink);
            reveal(next_state);
            reveal(effects_match);
        }
        self.end_grouping();
        if self.selection_start.is_some() && self.selection_end.is_some() {
            self.delete_selection();
            self.reset_cursor_blink();
            fx(true, true)
        } else {
            self.delete_char();
            self.reset_cursor_blink();
            fx(false, true)
        }
    }

    fn on_enter(&mut self) -> (eff: Effects)
        requires
            old(self).wf(),
        ensures
            final(self).wf(),
            final(self)@ == next_state(old(self)@, Message::Enter),
            effects_match(old(self)@, Message::Enter, eff),
    {
        proof {
            reveal(scrolls);
            reveal(restarts_blink);
            reveal(next_state);
            reveal(effects_match);
        }
        self.end_grouping();
        self.insert_char('\n');
        self.reset_cursor_blink();
        fx(true, true)
    }

    fn on_tab(&mut self) -> (eff: Effects)
        requires
            old(self).wf(),
        ensures
            final(self).wf(),
            final(self)@ == next_state(old(self)@, Message::Tab),
            effects_match(old(self)@, Message::Tab, eff),
    {
        proof {
            reveal(tabbed);
            reveal(scrolls);
            reveal(restarts_blink);
            reveal(next_state);
            reveal(effects_match);
        }
        self.start_grouping();
        self.insert_char(' ');
        self.insert_char(' ');
        self.insert_char(' ');
        self.insert_char(' ');
        self.reset_cursor_blink();
        fx(false, true)
    }

    fn on_arrow(&mut self, d: ArrowDirection, shift: bool) -> (eff: Effects)
        requires
            old(self).wf(),
        ensures
            final(self).wf(),
            final(self)@ == next_state(old(self)@, Message::ArrowKey(d, shift)),
            effects_match(old(self)@, Message::ArrowKey(d, shift), eff),
    {
        proof {
            reveal(scrolls);
            reveal(restarts_blink);
            reveal(next_state);
            reveal(effects_match);
        }
        self.end_grouping();
        let target = self.moved_target(d);
        self.extend_or_clear_to(target, shift);
        self.reset_cursor_blink();
        fx(true, true)
    }

    fn on_click(&mut self, p: Option<(usize, usize)>) -> (eff: Effects)
        requires
            old(self).wf(),
        ensures
            final(self).wf(),
            final(self)@ == next_state(old(self)@, Message::MouseClick(p)),
            effects_match(old(self)@, Message::MouseClick(p), eff),
    {
        proof {
            reveal(clicked);
            reveal(scrolls);
            reveal(restarts_blink);
            reveal(next_state);
            reveal(effects_match);
        }
        self.end_grouping();
        match self.pointed_exec(self.view_columns, p) {
            Some(c) => {
                self.put_cursor(c);
            },
            None => {},
        }
        self.cursor_visible = true;
        self.selection_end = None;
        self.is_dragging = true;
        self.selection_start = Some(self.cursor);
        self.has_canvas_focus = true;
        self.show_cursor = true;
        Effects {
            scroll_to_cursor: false,
            copy: None,
            read_clipboard: false,
            capture_focus: true,
            restart_blink: true,
        }
    }

    fn on_drag(&mut self, p: Option<(usize, usize)>) -> (eff: Effects)
        requires
            old(self).wf(),
        ensures
            final(self).wf(),
            final(self)@ == next_state(old(self)@, Message::MouseDrag(p)),
            effects_match(old(self)@, Message::MouseDrag(p), eff),
    {
        proof {
            reveal(dragged);
            reveal(scrolls);
            reveal(restarts_blink);
            reveal(next_state);
            reveal(effects_match);
        }
        if self.is_dragging {
            match self.pointed_exec(self.drag_columns, p) {
                Some(c) => {
                    self.put_cursor(c);
                    self.selection_end = Some(c);
                },
                None => {},
            }
        }
        fx(false, false)
    }

    fn on_copy(&mut self) -> (eff: Effects)
        requires
            old(self).wf(),
        ensures
            final(self).wf(),
            final(self)@ == next_state(old(self)@, Message::Copy),
            effects_match(old(self)@, Message::Copy, eff),
    {
        proof {
            reveal(scrolls);
            reveal(restarts_blink);
            reveal(next_state);
            reveal(effects_match);
        }
        let copy = self.get_selected_text();
        Effects {
            scroll_to_cursor: false,
            copy,
            read_clipboard: false,
            capture_focus: false,
            restart_blink: false,
        }
    }

    fn on_paste(&mut self, text: &String) -> (eff: Effects)
        requires
            old(self).wf(),
        ensures
            final(self).wf(),
            final(self)@ == next_state(old(self)@, Message::Paste(*text)),
            effects_match(old(self)@, Message::Paste(*text), eff),
    {
        proof {
            reveal(scrolls);
            reveal(restarts_blink);
            reveal(next_state);
            reveal(effects_match);
        }
        self.end_grouping();
        if text.as_str().is_empty() {
            Effects {
                scroll_to_cursor: false,
                copy: None,
                read_clipboard: true,
                capture_focus: false,
                restart_blink: false,
            }
        } else {
            self.paste_text(text.as_str());
            fx(true, false)
        }
    }

    fn on_delete_selection(&mut self) -> (eff: Effects)
        requires
            old(self).wf(),
        ensures
            final(self).wf(),
            final(self)@ == next_state(old(self)@, Message::DeleteSelection),
            effects_match(old(self)@, Message::DeleteSelection, eff),
    {
        proof {
            reveal(scrolls);
            reveal(restarts_blink);
            reveal(next_state);
            reveal(effects_match);
        }
        self.end_grouping();
        self.delete_selection();
        self.reset_cursor_blink();
        fx(true, true)
    }

    fn on_tick(&mut self, focused: bool, due: bool) -> (eff: Effects)
        requires
            old(self).wf(),
        ensures
            final(self).wf(),
            final(self)@ == next_state(old(self)@, Message::Tick(focused, due)),
            effects_match(old(self)@, Message::Tick(focused, due), eff),
    {
        proof {
            reveal(ticked);
            reveal(scrolls);
            reveal(restarts_blink);
            reveal(next_state);
            reveal(effects_match);
        }
        let blink = focused && self.has_canvas_focus && due;
        if blink {
            self.cursor_visible = !self.cursor_visible;
        }
        if !self.has_canvas_focus {
            self.show_cursor = false;
        }
        fx(false, blink)
    }

    fn on_page(&mut self, up: bool) -> (eff: Effects)
        requires
            old(self).wf(),
        ensures
            final(self).wf(),
            final(self)@ == next_state(old(self)@, if up { Message::PageUp } else { Message::PageDown }),
            effects_match(old(self)@, if up { Message::PageUp } else { Message::PageDown }, eff),
    {
        proof {
            reveal(scrolls);
            reveal(restarts_blink);
            reveal(next_state);
            reveal(effects_match);
        }
        if up {
            self.page_up();
        } else {
            self.page_down();
        }
        self.reset_cursor_blink();
        fx(true, true)
    }

    fn on_home_end(&mut self, end: bool, shift: bool) -> (eff: Effects)
        requires
            old(self).wf(),
        ensures
            final(self).wf(),
            final(self)@ == next_state(old(self)@, if end { Message::End(shift) } else { Message::Home(shift) }),
            effects_match(old(self)@, if end { Message::End(shift) } else { Message::Home(shift) }, eff),
    {
        proof {
            reveal(scrolls);
            reveal(restarts_blink);
            reveal(next_state);
            reveal(effects_match);
        }
        let col = if end {
            self.buffer.line_len(self.cursor.0)
        } else {
            0
        };
        let target = (self.cursor.0, col);
        self.extend_or_clear_to(target, shift);
        self.reset_cursor_blink();
        fx(false, true)
    }

    fn on_doc_edge(&mut self, end: bool) -> (eff: Effects)
        requires
            old(self).wf(),
        ensures
            final(self).wf(),
            final(self)@ == next_state(old(self)@, if end { Message::CtrlEnd } else { Message::CtrlHome }),
            effects_match(old(self)@, if end { Message::CtrlEnd } else { Message::CtrlHome }, eff),
    {
        proof {
            reveal(scrolls);
            reveal(restarts_blink);
            reveal(next_state);
            reveal(effects_match);
        }
        self.clear_selection();
        let target = if end {
            let last = self.buffer.line_count() - 1;
            let len = self.buffer.line_len(last);
            (last, len)
        } else {
            (0, 0)
        };
        self.put_cursor(target);
        self.reset_cursor_blink();
        fx(true, true)
    }

    fn on_undo(&mut self) -> (eff: Effects)
        requires
            old(self).wf(),
        ensures
            final(self).wf(),
            final(self)@ == next_state(old(self)@, Message::Undo),
            effects_match(old(self)@, Message::Undo, eff),
    {
        proof {
            reveal(undo_applied);
            reveal(scrolls);
            reveal(restarts_blink);
            reveal(next_state);
            reveal(effects_match);
        }
        self.end_grouping();
        let did = self.history.undo(&mut self.buffer, &mut self.cursor);
        proof {
            self.history.lemma_inv(doc_state(self.buffer@, self.cursor));
        }
        if did {
            self.clear_selection();
            self.reset_cursor_blink();
        }
        fx(did, did)
    }

    #[verifier::rlimit(40)]
    fn on_redo(&mut self) -> (eff: Effects)
        requires
            old(self).wf(),
        ensures
            final(self).wf(),
            final(self)@ == next_state(old(self)@, Message::Redo),
            effects_match(old(self)@, Message::Redo, eff),
    {
        proof {
            reveal(redo_applied);
            reveal(scrolls);
            reveal(restarts_blink);
            reveal(next_state);
            reveal(effects_match);
        }
        let did = self.history.redo(&mut self.buffer, &mut self.cursor);
        proof {
            self.history.lemma_inv(doc_state(self.buffer@, self.cursor));
        }
        if did {
            self.clear_selection();
            self.reset_cursor_blink();
        }
        fx(did, did)
    }

    fn on_focus(&mut self, gained: bool) -> (eff: Effects)
        requires
            old(self).wf(),
        ensures
            final(self).wf(),
            final(self)@ == next_state(old(self)@, if gained { Message::CanvasFocusGained } else { Message::CanvasFocusLost }),
            effects_match(old(self)@, if gained { Message::CanvasFocusGained } else { Message::CanvasFocusLost }, eff),
    {
        proof {
            reveal(scrolls);
            reveal(restarts_blink);
            reveal(next_state);
            reveal(effects_match);
        }
        if gained {
            self.has_canvas_focus = true;
            self.show_cursor = true;
            self.reset_cursor_blink();
            fx(false, true)
        } else {
            self.has_canvas_focus = false;
            self.show_cursor = false;
            self.ime_preedit = None;
            fx(false, false)
        }
    }

    #[verifier::rlimit(30)]
    fn on_preedit(&mut self, content: &String, selection: Option<(usize, usize)>) -> (eff: Effects)
        requires
            old(self).wf(),
        ensures
            final(self).wf(),
            final(self)@ == next_state(old(self)@, Message::ImePreedit(*content, selection)),
            effects_match(old(self)@, Message::ImePreedit(*content, selection), eff),
    {
        proof {
            reveal(scrolls);
            reveal(restarts_blink);
            reveal(next_state);
            reveal(effects_match);
        }
        if content.as_str().is_empty() {
            self.ime_preedit = None;
        } else {
            self.ime_preedit = Some(ImePreedit { content: content.clone(), selection });
        }
        fx(false, false)
    }

    fn on_commit(&mut self, text: &String) -> (eff: Effects)
        requires
            old(self).wf(),
        ensures
            final(self).wf(),
            final(self)@ == next_state(old(self)@, Message::ImeCommit(*text)),
            effects_match(old(self)@, Message::ImeCommit(*text), eff),
    {
        proof {
            reveal(scrolls);
            reveal(restarts_blink);
            reveal(next_state);
            reveal(effects_match);
        }
        let ghost m = self@;
        self.ime_preedit = None;
        let ghost m0 = self@;
        proof {
            assert(m0 == (EditorModel { preedit: None, ..m }));
        }
        if text.as_str().is_empty() {
            fx(false, false)
        } else {
            self.start_grouping();
            self.paste_text(text.as_str());
            self.reset_cursor_blink();
            proof {
                assert(self@ == blinked(pasted(group_started(m0), text@)));
            }
            fx(true, true)
        }
    }

    fn on_release(&mut self) -> (eff: Effects)
        requires
            old(self).wf(),
        ensures
            final(self).wf(),
            final(self)@ == next_state(old(self)@, Message::MouseRelease),
            effects_match(old(self)@, Message::MouseRelease, eff),
    {
        proof {
            reveal(scrolls);
            reveal(restarts_blink);
            reveal(next_state);
            reveal(effects_match);
        }
        self.is_dragging = false;
        fx(false, false)
    }

    fn on_ime_toggle(&mut self, opened: bool) -> (eff: Effects)
        requires
            old(self).wf(),
        ensures
            final(self).wf(),
            final(self)@ == next_state(old(self)@, if opened { Message::ImeOpened } else { Message::ImeClosed }),
            effects_match(old(self)@, if opened { Message::ImeOpened } else { Message::ImeClosed }, eff),
    {
        proof {
            reveal(scrolls);
            reveal(restarts_blink);
            reveal(next_state);
            reveal(effects_match);
        }
        self.ime_preedit = None;
        fx(false, false)
    }

    /// Reacts to `message`: changes the state as the message asks and tells
    /// the surroundings what to do next.
    pub fn update(&mut self, message: &Message) -> (eff: Effects)
        requires
            old(self).wf(),
        ensures
            final(self).wf(),
            final(self)@ == next_state(old(self)@, *message),
            effects_match(old(self)@, *message, eff),
    {
        match message {
            Message::CharacterInput(c) => self.on_char(*c),
            Message::Backspace => self.on_backspace(),
            Message::Delete => self.on_delete(),
            Message::Enter => self.on_enter(),
            Message::Tab => self.on_tab(),
            Message::ArrowKey(d, shift) => self.on_arrow(*d, *shift),
            Message::MouseClick(p) => self.on_click(*p),
            Message::MouseDrag(p) => self.on_drag(*p),
            Message::MouseRelease => self.on_release(),
            Message::Copy => self.on_copy(),
            Message::Paste(text) => self.on_paste(text),
            Message::DeleteSelection => self.on_delete_selection(),
            Message::Tick(focused, due) => self.on_tick(*focused, *due),
            Message::PageUp => self.on_page(true),
            Message::PageDown => self.on_page(false),
            Message::Home(shift) => self.on_home_end(false, *shift),
            Message::End(shift) => self.on_home_end(true, *shift),
            Message::CtrlHome => self.on_doc_edge(false),
            Message::CtrlEnd => self.on_doc_edge(true),
            Message::Undo => self.on_undo(),
            Message::Redo => self.on_redo(),
            Message::CanvasFocusGained => self.on_focus(true),
            Message::CanvasFocusLost => self.on_focus(false),
            Message::ImeOpened => self.on_ime_toggle(true),
            Message::ImePreedit(content, selection) => self.on_preedit(content, *selection),
            Message::ImeCommit(text) => self.on_commit(text),
            Message::ImeClosed => self.on_ime_toggle(false),
        }
    }
}

impl CodeEditor {
    /// The lines of the document.
    pub fn text_buffer(&self) -> (res: &TextBuffer)
        requires
            self.wf(),
        ensures
            res@ == self@.lines,
            res.wf(),
    {
        &self.buffer
    }

    /// Replaces the text between `s` and `e` by `t` and records the change;
    /// the cursor ends after the new text.
    pub fn replace_range(&mut self, s: (usize, usize), e: (usize, usize), t: Vec<char>)
        requires
            old(self).wf(),
            valid_pos(old(self)@.lines, s.0 as int, s.1 as int),
            valid_pos(old(self)@.lines, e.0 as int, e.1 as int),
            pos_le(s.0 as int, s.1 as int, e.0 as int, e.1 as int),
        ensures
            final(self).wf(),
            final(self)@ == edited(old(self)@, pos_int(s), pos_int(e), t@, true),
    {
        self.apply_new_edit(s, e, t, true);
    }

    /// Starts a run of edits undone as one step, unless one is going on.
    pub fn begin_edit_group(&mut self)
        requires
            old(self).wf(),
        ensures
            final(self).wf(),
            final(self)@ == group_started(old(self)@),
    {
        self.start_grouping();
    }

    /// Ends a run of edits undone as one step.
    pub fn finish_edit_group(&mut self)
        requires
            old(self).wf(),
        ensures
            final(self).wf(),
            final(self)@ == group_ended(old(self)@),
    {
        self.end_grouping();
    }

    /// Puts the cursor at `p` and clears the selection.
    pub fn move_cursor_to(&mut self, p: (usize, usize))
        requires
            old(self).wf(),
            valid_pos(old(self)@.lines, p.0 as int, p.1 as int),
        ensures
            final(self).wf(),
            final(self)@ == cleared(EditorModel { cursor: pos_int(p), ..old(self)@ }),
    {
        self.put_cursor(p);
        self.clear_selection();
    }
}

impl CodeEditor {
    /// Puts the cursor at `(line, col)` if that is a place of the document;
    /// returns whether it did.
    pub fn set_cursor(&mut self, line: usize, col: usize) -> (res: bool)
        requires
            old(self).wf(),
        ensures
            final(self).wf(),
            res == valid_pos(old(self)@.lines, line as int, col as int),
            res ==> final(self)@ == (EditorModel { cursor: (line as int, col as int), ..old(self)@ }),
            !res ==> final(self)@ == old(self)@,
    {
        let n = self.buffer.line_count();
        if line < n && col <= self.buffer.line_len(line) {
            self.put_cursor((line, col));
            true
        } else {
            false
        }
    }

    /// Sets both ends of the selection.
    pub fn set_selection(&mut self, start: Option<(usize, usize)>, end: Option<(usize, usize)>)
        requires
            old(self).wf(),
        ensures
            final(self).wf(),
            final(self)@ == (EditorModel {
                selection_start: opt_pos(start),
                selection_end: opt_pos(end),
                ..old(self)@
            }),
    {
        self.selection_start = start;
        self.selection_end = end;
    }

    /// Sets whether the canvas has keyboard focus.
    pub fn set_has_canvas_focus(&mut self, focused: bool)
        requires
            old(self).wf(),
        ensures
            final(self).wf(),
            final(self)@ == (EditorModel { has_canvas_focus: focused, ..old(self)@ }),
    {
        self.has_canvas_focus = focused;
    }

    /// Sets whether the cursor is drawn.
    pub fn set_show_cursor(&mut self, show: bool)
        requires
            old(self).wf(),
        ensures
            final(self).wf(),
            final(self)@ == (EditorModel { show_cursor: show, ..old(self)@ }),
    {
        self.show_cursor = show;
    }

    /// Whether the document differs from the one last marked as saved.
    pub fn is_modified(&self) -> (res: bool)
        requires
            self.wf(),
        ensures
            res == modified(self@.history),
    {
        proof {
            self.history.lemma_inv(doc_state(self.buffer@, self.cursor));
        }
        self.history.is_modified()
    }

    /// Marks the current state as the saved one.
    pub fn mark_saved(&mut self)
        requires
            old(self).wf(),
        ensures
            final(self).wf(),
            final(self)@ == (EditorModel {
                history: HistoryModel { saved: Some(position(old(self)@.history)), ..old(self)@.history },
                ..old(self)@
            }),
            !modified(final(self)@.history),
    {
        proof {
            self.history.lemma_inv(doc_state(self.buffer@, self.cursor));
        }
        self.history.mark_saved();
    }

    /// Whether an undo step is available.
    pub fn can_undo(&self) -> (res: bool)
        requires
            self.wf(),
        ensures
            res == can_undo_model(self@.history),
    {
        proof {
            self.history.lemma_inv(doc_state(self.buffer@, self.cursor));
        }
        self.history.can_undo()
    }

    /// Whether a redo step is available.
    pub fn can_redo(&self) -> (res: bool)
        requires
            self.wf(),
        ensures
            res == (self@.history.redo.len() > 0),
    {
        proof {
            self.history.lemma_inv(doc_state(self.buffer@, self.cursor));
        }
        self.history.can_redo()
    }

    /// Turns line wrapping on or off.
    pub fn set_wrap_enabled(&mut self, enabled: bool)
        requires
            old(self).wf(),
        ensures
            final(self).wf(),
            final(self)@ == (EditorModel { wrap_enabled: enabled, ..old(self)@ }),
    {
        self.wrap_enabled = enabled;
    }

    /// Whether long lines are wrapped.
    pub fn wrap_enabled(&self) -> (res: bool)
        ensures
            res == self@.wrap_enabled,
    {
        self.wrap_enabled
    }

    /// The editor with line wrapping turned on or off.
    pub fn with_wrap_enabled(self, enabled: bool) -> (res: Self)
        requires
            self.wf(),
        ensures
            res.wf(),
            res@ == (EditorModel { wrap_enabled: enabled, ..self@ }),
    {
        let mut e = self;
        e.wrap_enabled = enabled;
        e
    }

    /// The editor wrapping at a fixed column, or (`None`) at the view's width.
    pub fn with_wrap_column(self, column: Option<usize>) -> (res: Self)
        requires
            self.wf(),
        ensures
            res.wf(),
            res@ == (EditorModel { wrap_column: opt_int(column), ..self@ }),
    {
        let mut e = self;
        e.wrap_column = column;
        e
    }

    /// The fixed wrap column, if any.
    pub fn wrap_column(&self) -> (res: Option<usize>)
        ensures
            opt_int(res) == self@.wrap_column,
    {
        self.wrap_column
    }

    /// Turns search and replace on or off.
    pub fn set_search_replace_enabled(&mut self, enabled: bool)
        requires
            old(self).wf(),
        ensures
            final(self).wf(),
            final(self)@ == (EditorModel { search_replace_enabled: enabled, ..old(self)@ }),
    {
        self.search_replace_enabled = enabled;
    }

    /// Whether search and replace are on.
    pub fn search_replace_enabled(&self) -> (res: bool)
        ensures
            res == self@.search_replace_enabled,
    {
        self.search_replace_enabled
    }

    /// Shows or hides line numbers.
    pub fn set_line_numbers_enabled(&mut self, enabled: bool)
        requires
            old(self).wf(),
        ensures
            final(self).wf(),
            final(self)@ == (EditorModel { line_numbers_enabled: enabled, ..old(self)@ }),
    {
        self.line_numbers_enabled = enabled;
    }

    /// Whether line numbers are shown.
    pub fn line_numbers_enabled(&self) -> (res: bool)
        ensures
            res == self@.line_numbers_enabled,
    {
        self.line_numbers_enabled
    }

    /// The editor with line numbers shown or hidden.
    pub fn with_line_numbers_enabled(self, enabled: bool) -> (res: Self)
        requires
            self.wf(),
        ensures
            res.wf(),
            res@ == (EditorModel { line_numbers_enabled: enabled, ..self@ }),
    {
        let mut e = self;
        e.line_numbers_enabled = enabled;
        e
    }

    /// Gives up keyboard focus: the cursor is hidden and text being composed
    /// is dropped.
    pub fn lose_focus(&mut self)
        requires
            old(self).wf(),
        ensures
            final(self).wf(),
            final(self)@ == (EditorModel {
                has_canvas_focus: false,
                show_cursor: false,
                preedit: None,
                ..old(self)@
            }),
    {
        self.has_canvas_focus = false;
        self.show_cursor = false;
        self.ime_preedit = None;
    }

    /// Replaces the content and starts afresh: cursor at the start, no
    /// selection, no drag, an empty history, no typing run, cursor shown.
    pub fn reset(&mut self, content: &str)
        requires
            old(self).wf(),
        ensures
            final(self).wf(),
            final(self)@ == reset_state(old(self)@, content@),
    {
        let buffer = TextBuffer::new(content);
        let ghost st = doc_state(buffer@, (0usize, 0usize));
        self.history = CommandHistory::new(HISTORY_CAPACITY, Ghost(st));
        self.buffer = buffer;
        self.cursor = (0, 0);
        self.selection_start = None;
        self.selection_end = None;
        self.is_dragging = false;
        self.is_grouping = false;
        self.cursor_visible = true;
    }

    /// Sets the view's size in whole lines and columns: the lines Page Up
    /// and Page Down move, the columns rows are wrapped at, and the columns
    /// of the view a drag is measured in.  Column counts below one count as one.
    pub fn set_viewport(&mut self, page_lines: usize, view_columns: usize, drag_columns: usize)
        requires
            old(self).wf(),
        ensures
            final(self).wf(),
            final(self)@ == (EditorModel {
                page_lines: page_lines as int,
                view_columns: max(view_columns as int, 1),
                drag_columns: max(drag_columns as int, 1),
                ..old(self)@
            }),
    {
        self.page_lines = page_lines;
        self.view_columns = if view_columns >= 1 {
            view_columns
        } else {
            1
        };
        self.drag_columns = if drag_columns >= 1 {
            drag_columns
        } else {
            1
        };
    }

    /// Columns of the view a drag is measured in.
    pub fn drag_columns(&self) -> (res: usize)
        ensures
            res == self@.drag_columns,
    {
        self.drag_columns
    }

    /// Sets the language of the editor's interface texts.
    pub fn set_language(&mut self, language: Language)
        requires
            old(self).wf(),
        ensures
            final(self).wf(),
            final(self)@ == (EditorModel { language, ..old(self)@ }),
    {
        self.language = language;
    }

    /// The language of the editor's interface texts.
    pub fn language(&self) -> (res: Language)
        ensures
            res == self@.language,
    {
        self.language
    }
}

impl CodeEditor {
    /// A consistent editor has a consistent model.
    pub proof fn lemma_model_ok(&self)
        requires
            self.wf(),
        ensures
            model_ok(self@),
    {
        self.history.lemma_inv(doc_state(self.buffer@, self.cursor));
    }
}


impl CodeEditor {
    /// The place of the document a pointer at `(row, column offset)` of the
    /// view points to: past the last row, the end of the document; `None`
    /// for a pointer in the gutter.
    pub fn position_at(&self, target: Option<(usize, usize)>) -> (res: Option<(usize, usize)>)
        requires
            self.wf(),
        ensures
            opt_pos(res) == pointed(self@, self@.view_columns, opt_pos(target)),
            res matches Some(c) ==> valid_pos(self@.lines, c.0 as int, c.1 as int),
    {
        self.pointed_exec(self.view_columns, target)
    }
}

} // verus!
