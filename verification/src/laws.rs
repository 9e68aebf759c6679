//! Laws of the editor: what undo and redo give back, how a run of typing is
//! undone at once, what saving means for the modified flag, what an edit
//! does to the text, and that the language-server mirror follows the
//! editor's edits.

use vstd::prelude::*;

use crate::edit::DocState;
use crate::editor::{
    doc, edited, group_ended, group_started, has_selection, inserted, model_ok, model_wf,
    next_state, reset_state, selection_deleted, selection_range, undo_applied, redo_applied, ArrowDirection,
    EditorModel, Message,
};
use crate::history::{
    can_undo_model, committed, lemma_links_committed, links_ok, modified, position, trimmed, with_step,
    HistoryModel,
};
use crate::wrapping::{lemma_row_of_pos_unwrapped, visual_rows};
use crate::lines::{
    extract_text, flat, lemma_flat_lines_of, lemma_flat_split, lemma_offset_split, lemma_replace, lines_of, offset_of, pos_le,
    replace_lines, text_of, valid_lines, valid_pos,
};

verus! {

/// Both ends of the selection are set and enclose some text.
pub open spec fn nonempty_selection(m: EditorModel) -> bool {
    match selection_range(m) {
        Some(r) => r.0 != r.1,
        None => false,
    }
}

/// The editor after the characters of `cs` are typed one by one.
pub open spec fn typed(m: EditorModel, cs: Seq<char>) -> EditorModel
    decreases cs.len(),
{
    if cs.len() == 0 {
        m
    } else {
        next_state(typed(m, cs.drop_last()), Message::CharacterInput(cs.last()))
    }
}

/// A new step is the last undo step.
proof fn lemma_with_step_last(h: HistoryModel, st: (DocState, DocState))
    requires
        h.capacity >= 1,
    ensures
        with_step(h, st).undo.len() > 0,
        with_step(h, st).undo.last() == st,
        with_step(h, st).group is None,
{
    let u = h.undo.push(st);
    if u.len() > h.capacity {
        assert(u.subrange(1, u.len() as int).last() == u.last());
    }
}

proof fn lemma_typed_group(m: EditorModel, cs: Seq<char>)
    requires
        !m.is_grouping,
        cs.len() >= 1,
    ensures
        typed(m, cs).is_grouping,
        typed(m, cs).history.undo == committed(m.history).undo,
        typed(m, cs).history.group matches Some(g) && g.0 == doc(m) && g.1 == cs.len(),
    decreases cs.len(),
{
    reveal(next_state);
    reveal(group_started);
    reveal(edited);
    let p = typed(m, cs.drop_last());
    if cs.len() == 1 {
        assert(cs.drop_last().len() == 0);
        assert(p == m);
    } else {
        lemma_typed_group(m, cs.drop_last());
    }
}

/// A run of typing is undone at once: typing characters after anything but
/// typing, then undoing, gives back the lines and the cursor from before
/// the run.
pub proof fn lemma_undo_typing_run(m: EditorModel, cs: Seq<char>)
    requires
        !m.is_grouping,
        m.history.capacity >= 1,
        cs.len() >= 1,
    ensures
        next_state(typed(m, cs), Message::Undo).lines == m.lines,
        next_state(typed(m, cs), Message::Undo).cursor == m.cursor,
{
    reveal(next_state);
    reveal(undo_applied);
    reveal(group_ended);
    lemma_typed_group(m, cs);
    let t = typed(m, cs);
    let g = t.history.group->0;
    lemma_capacity_typed(m, cs);
    lemma_with_step_last(t.history, (g.0, g.2));
    let m1 = group_ended(t);
    assert(m1.history == committed(t.history));
    assert(committed(m1.history) == m1.history);
}

proof fn lemma_capacity_typed(m: EditorModel, cs: Seq<char>)
    ensures
        typed(m, cs).history.capacity == m.history.capacity,
    decreases cs.len(),
{
    reveal(next_state);
    reveal(group_started);
    reveal(edited);
    if cs.len() > 0 {
        lemma_capacity_typed(m, cs.drop_last());
    }
}

/// Undoing an edit gives back the lines and the cursor from before it, and
/// redoing it then gives back the lines and the cursor after it, with no
/// selection:
/// Enter; Backspace and Delete without a selection or with one that
/// encloses some text; Delete Selection with such a selection; pasting
/// some text without a selection.
#[verifier::rlimit(80)]
pub proof fn lemma_undo_edit_message(m: EditorModel, msg: Message)
    requires
        model_ok(m),
        msg is Enter || ((msg is Backspace || msg is Delete) && (!has_selection(m) || nonempty_selection(m)))
            || (msg is DeleteSelection && nonempty_selection(m)) || (msg matches Message::Paste(t) && t@.len() > 0
            && !has_selection(m)),
    ensures
        next_state(next_state(m, msg), Message::Undo).lines == m.lines,
        next_state(next_state(m, msg), Message::Undo).cursor == m.cursor,
        ({
            let n = next_state(m, msg);
            let r = next_state(next_state(n, Message::Undo), Message::Redo);
            &&& r.lines == n.lines
            &&& r.cursor == n.cursor
            &&& r.selection_start is None
            &&& r.selection_end is None
        }),
{
    reveal(next_state);
    reveal(undo_applied);
    reveal(group_ended);
    reveal(edited);
    reveal(crate::editor::backspaced);
    reveal(crate::editor::forward_deleted);
    reveal(selection_deleted);
    reveal(crate::editor::pasted);
    let m1 = group_ended(m);
    assert(m1.lines == m.lines && m1.cursor == m.cursor);
    lemma_committed_closed(m.history);
    assert(m1.history.group is None);
    assert(selection_range(m1) == selection_range(m)) by {
        reveal(selection_range);
    }
    let n = next_state(m, msg);
    let pre = doc(m1);
    let h1 = m1.history;
    assert(h1.capacity >= 1);
    let post = DocState { lines: n.lines, cursor: n.cursor };
    assert(n.history == with_step(h1, (pre, post)));
    lemma_with_step_last(h1, (pre, post));
    let n1 = group_ended(n);
    assert(n1.history == n.history);
    assert(committed(n1.history) == n1.history);
    reveal(redo_applied);
    let u = next_state(n, Message::Undo);
    assert(u.history.redo.last() == (pre, post));
}

/// Closing the group of a history leaves no group.
proof fn lemma_committed_closed(h: HistoryModel)
    ensures
        committed(h).group is None,
        committed(h).capacity == h.capacity,
{
}

/// Redo after undo gives back the lines from before the undo.
pub proof fn lemma_redo_after_undo(m: EditorModel)
    requires
        model_ok(m),
        committed(group_ended(m).history).undo.len() > 0,
    ensures
        next_state(m, Message::Undo).history.redo.len() > 0,
        next_state(next_state(m, Message::Undo), Message::Redo).lines == m.lines,
{
    reveal(next_state);
    reveal(undo_applied);
    reveal(redo_applied);
    reveal(group_ended);
    let m1 = group_ended(m);
    let h = m1.history;
    lemma_links_committed(m.history, m.lines);
    lemma_links_committed(h, m.lines);
    let c = committed(h);
    assert(links_ok(c, m.lines));
    assert(c.group is None);
    let last = c.undo.len() - 1;
    assert(c.undo[last].1.lines == m.lines);
}

/// Marking the document saved makes it unmodified.
pub proof fn lemma_saved_unmodified(h: HistoryModel)
    ensures
        !modified(HistoryModel { saved: Some(position(h)), ..h }),
{
}

/// An edit after saving makes the document modified, and undoing it makes
/// it unmodified again.
pub proof fn lemma_edit_after_save(m: EditorModel)
    requires
        !m.is_grouping,
        m.history.capacity >= 1,
        m.history.group is None,
        !modified(m.history),
    ensures
        modified(next_state(m, Message::Enter).history),
        !modified(next_state(next_state(m, Message::Enter), Message::Undo).history),
{
    reveal(next_state);
    reveal(undo_applied);
    reveal(group_ended);
    reveal(edited);
    let n = next_state(m, Message::Enter);
    let post = DocState { lines: n.lines, cursor: n.cursor };
    assert(n.history == with_step(m.history, (doc(m), post)));
    lemma_with_step_last(m.history, (doc(m), post));
    assert(committed(n.history) == n.history);
}

/// Any change of the text recorded after saving makes the document
/// modified.
pub proof fn lemma_edited_after_save(m: EditorModel, s: (int, int), e: (int, int), t: Seq<char>, at_end: bool)
    requires
        m.history.capacity >= 1,
        !modified(m.history),
    ensures
        modified(edited(m, s, e, t, at_end).history),
{
    reveal(edited);
    let n = edited(m, s, e, t, at_end);
    if m.history.group is None {
        let post = DocState { lines: n.lines, cursor: n.cursor };
        lemma_with_step_last(m.history, (doc(m), post));
    }
}

/// Typing a character after saving makes the document modified.
pub proof fn lemma_typing_after_save(m: EditorModel, c: char)
    requires
        model_ok(m),
        m.history.capacity >= 1,
        !modified(m.history),
    ensures
        modified(next_state(m, Message::CharacterInput(c)).history),
{
    reveal(next_state);
    reveal(group_started);
    let g = group_started(m);
    assert(!modified(g.history));
    lemma_edited_after_save(g, g.cursor, g.cursor, seq![c], true);
}

/// Inserting text at the cursor splices it into the text at the cursor's
/// offset and leaves the cursor just after it.
pub proof fn lemma_insert_splices(m: EditorModel, t: Seq<char>)
    requires
        model_wf(m),
    ensures
        ({
            let o = offset_of(m.lines, m.cursor.0, m.cursor.1);
            let n = inserted(m, t);
            &&& flat(n.lines) == flat(m.lines).take(o) + t + flat(m.lines).skip(o)
            &&& offset_of(n.lines, n.cursor.0, n.cursor.1) == o + t.len()
            &&& valid_lines(n.lines)
        }),
{
    reveal(edited);
    lemma_replace(m.lines, m.cursor.0, m.cursor.1, m.cursor.0, m.cursor.1, t);
}

/// Deleting a non-empty selection removes exactly the selected text and
/// puts the cursor where it started.
pub proof fn lemma_delete_selection_removes(m: EditorModel)
    requires
        model_wf(m),
        nonempty_selection(m),
    ensures
        ({
            let r = selection_range(m)->0;
            let os = offset_of(m.lines, r.0.0, r.0.1);
            let oe = offset_of(m.lines, r.1.0, r.1.1);
            let n = selection_deleted(m);
            &&& flat(n.lines) == flat(m.lines).take(os) + flat(m.lines).skip(oe)
            &&& extract_text(m.lines, r.0.0, r.0.1, r.1.0, r.1.1) == flat(m.lines).subrange(os, oe)
            &&& n.cursor == r.0
            &&& n.selection_start is None && n.selection_end is None
        }),
{
    reveal(selection_deleted);
    reveal(edited);
    reveal(selection_range);
    let r = selection_range(m)->0;
    lemma_selection_valid(m);
    lemma_replace(m.lines, r.0.0, r.0.1, r.1.0, r.1.1, Seq::empty());
    let f = flat(m.lines);
    let os = offset_of(m.lines, r.0.0, r.0.1);
    assert(f.take(os) + Seq::<char>::empty() =~= f.take(os));
}

/// The ends of the selection range are places of the document, in order.
pub proof fn lemma_selection_valid(m: EditorModel)
    requires
        model_wf(m),
        selection_range(m) is Some,
    ensures
        ({
            let r = selection_range(m)->0;
            &&& valid_pos(m.lines, r.0.0, r.0.1)
            &&& valid_pos(m.lines, r.1.0, r.1.1)
            &&& pos_le(r.0.0, r.0.1, r.1.0, r.1.1)
        }),
{
    reveal(selection_range);
}

/// The content of a new editor is the text it was made with.
pub proof fn lemma_content_round_trip(s: Seq<char>)
    ensures
        text_of(lines_of(s)) == s,
{
    lemma_flat_lines_of(s);
    assert(s.push('\n').drop_last() =~= s);
}


/// Tab is undone at once: pressing Tab after anything but typing, then
/// undoing, gives back the lines and the cursor from before it.
pub proof fn lemma_undo_tab(m: EditorModel)
    requires
        !m.is_grouping,
        m.history.capacity >= 1,
    ensures
        next_state(next_state(m, Message::Tab), Message::Undo).lines == m.lines,
        next_state(next_state(m, Message::Tab), Message::Undo).cursor == m.cursor,
{
    reveal(next_state);
    reveal(undo_applied);
    reveal(group_ended);
    reveal(group_started);
    reveal(crate::editor::tabbed);
    reveal(edited);
    let m0 = group_started(m);
    assert(m0.history.group == Some((doc(m), 0nat, doc(m))));
    let t = next_state(m, Message::Tab);
    assert(t.is_grouping);
    assert(t.history.capacity == m.history.capacity);
    assert(t.history.group matches Some(g) && g.0 == doc(m) && g.1 > 0);
    let g = t.history.group->0;
    lemma_with_step_last(t.history, (g.0, g.2));
    let m1 = group_ended(t);
    assert(m1.history == committed(t.history));
    assert(committed(m1.history) == m1.history);
}


/// Starting afresh with some text: the editor holds exactly that text, at
/// its start, with nothing to undo or redo and nothing unsaved.
pub proof fn lemma_reset_fresh(m: EditorModel, s: Seq<char>)
    ensures
        text_of(reset_state(m, s).lines) == s,
        reset_state(m, s).cursor == (0int, 0int),
        !can_undo_model(reset_state(m, s).history),
        reset_state(m, s).history.redo.len() == 0,
        !modified(reset_state(m, s).history),
{
    lemma_content_round_trip(s);
}

/// Without wrapping, Up moves the cursor to the line above and Down to the
/// line below, keeping its column where that line is long enough and
/// putting it at the line's end otherwise; the selection is cleared.
pub proof fn lemma_vertical_unwrapped(m: EditorModel, up: bool)
    requires
        model_wf(m),
        !m.wrap_enabled,
        if up {
            m.cursor.0 > 0
        } else {
            m.cursor.0 + 1 < m.lines.len()
        },
    ensures
        ({
            let n = next_state(m, Message::ArrowKey(if up { ArrowDirection::Up } else { ArrowDirection::Down }, false));
            let t = if up {
                m.cursor.0 - 1
            } else {
                m.cursor.0 + 1
            };
            &&& n.cursor == (t, if m.cursor.1 <= m.lines[t].len() {
                m.cursor.1
            } else {
                m.lines[t].len() as int
            })
            &&& n.lines == m.lines
            &&& n.selection_start is None
            &&& n.selection_end is None
        }),
{
    reveal(next_state);
    reveal(group_ended);
    reveal(crate::editor::extend_or_clear);
    reveal(crate::editor::moved_cursor);
    reveal(crate::editor::vertical_target);
    reveal(crate::editor::vertical_in);
    let m1 = group_ended(m);
    assert(m1.lines == m.lines && m1.cursor == m.cursor && !m1.wrap_enabled);
    lemma_row_of_pos_unwrapped(m.lines, m.cursor.0, m.cursor.1);
    let t = if up {
        m.cursor.0 - 1
    } else {
        m.cursor.0 + 1
    };
    assert(visual_rows(m.lines, None)[t] == (t, 0int, m.lines[t].len() as int));
}

/// Down then Up without wrapping gives back the place, when the column
/// fits on both lines.
pub proof fn lemma_down_up_unwrapped(m: EditorModel)
    requires
        model_wf(m),
        !m.wrap_enabled,
        m.cursor.0 + 1 < m.lines.len(),
        m.cursor.1 <= m.lines[m.cursor.0 + 1].len(),
    ensures
        next_state(
            next_state(m, Message::ArrowKey(ArrowDirection::Down, false)),
            Message::ArrowKey(ArrowDirection::Up, false),
        ).cursor == m.cursor,
{
    lemma_vertical_unwrapped(m, false);
    let n = next_state(m, Message::ArrowKey(ArrowDirection::Down, false));
    reveal(next_state);
    reveal(group_ended);
    reveal(crate::editor::extend_or_clear);
    assert(model_wf(n));
    lemma_vertical_unwrapped(n, true);
}

/// Delete without a selection removes the one character after the cursor
/// in the text (a line break at the end of a line), and the cursor stays
/// at the same offset in the text.
pub proof fn lemma_delete_removes_next_char(m: EditorModel)
    requires
        model_wf(m),
        !has_selection(m),
        offset_of(m.lines, m.cursor.0, m.cursor.1) < text_of(m.lines).len(),
    ensures
        ({
            let n = next_state(m, Message::Delete);
            let o = offset_of(m.lines, m.cursor.0, m.cursor.1);
            let t = text_of(m.lines);
            &&& text_of(n.lines) == t.take(o) + t.skip(o + 1)
            &&& offset_of(n.lines, n.cursor.0, n.cursor.1) == o
        }),
{
    reveal(next_state);
    reveal(group_ended);
    reveal(crate::editor::forward_deleted);
    reveal(edited);
    let ls = m.lines;
    let (l, c) = m.cursor;
    let o = offset_of(ls, l, c);
    let f = flat(ls);
    lemma_offset_split(ls, l, c);
    lemma_flat_nonempty(ls);
    let t = text_of(ls);
    assert(f == t.push('\n'));
    if c < ls[l].len() {
        lemma_replace(ls, l, c, l, c + 1, Seq::empty());
        assert(offset_of(ls, l, c + 1) == o + 1);
    } else if l + 1 < ls.len() {
        lemma_replace(ls, l, c, l + 1, 0, Seq::empty());
        lemma_flat_split(ls, l);
        assert(offset_of(ls, l + 1, 0) == o + 1);
    } else {
        lemma_flat_split(ls, l);
        assert(ls.skip(l + 1) =~= Seq::<Seq<char>>::empty());
        assert(o == t.len());
    }
    let n = next_state(m, Message::Delete);
    let nf = flat(n.lines);
    assert(nf =~= f.take(o) + f.skip(o + 1));
    lemma_flat_nonempty(n.lines);
    assert(f.take(o) =~= t.take(o));
    assert(f.skip(o + 1) =~= t.skip(o + 1).push('\n'));
    assert(text_of(n.lines) =~= t.take(o) + t.skip(o + 1));
}

/// Flattened lines end with a newline.
proof fn lemma_flat_nonempty(ls: Seq<Seq<char>>)
    requires
        ls.len() >= 1,
    ensures
        flat(ls).len() >= 1,
        flat(ls) == text_of(ls).push('\n'),
{
    assert(flat(ls) == flat(ls.drop_last()) + ls.last() + seq!['\n']);
    assert(flat(ls) =~= flat(ls).drop_last().push('\n'));
}

} // verus!
