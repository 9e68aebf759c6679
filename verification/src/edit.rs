//! Reversible edits.
//!
//! Every change of the document is one splice: the text between two places
//! is replaced by new text.  An edit records what it removed, so that the
//! splice can be undone exactly.

use vstd::prelude::*;

use crate::buffer::TextBuffer;
use crate::lines::{
    advance, extract_text, flat, lemma_advance_lines, lemma_lines_unique, lemma_offset_of_pos_at,
    lemma_pos_at_offset, lemma_replace, lines_of, offset_of, pos_at, pos_le, replace_lines,
    valid_lines, valid_pos,
};

verus! {

/// The document as the history sees it: its lines and the cursor.
pub struct DocState {
    pub lines: Seq<Seq<char>>,
    pub cursor: (int, int),
}

/// The document made of `lines` and `cursor`.
pub open spec fn doc_state(lines: Seq<Seq<char>>, cursor: (usize, usize)) -> DocState {
    DocState { lines, cursor: (cursor.0 as int, cursor.1 as int) }
}

/// A well-formed document: well-formed lines and a cursor on a valid place.
pub open spec fn state_wf(st: DocState) -> bool {
    &&& valid_lines(st.lines)
    &&& valid_pos(st.lines, st.cursor.0, st.cursor.1)
}

/// One splice of the document, with what it needs to be undone.
pub struct Edit {
    /// Where the replaced text starts.
    pub start: (usize, usize),
    /// Where the replaced text ends (before the edit).
    pub end: (usize, usize),
    /// The text that was replaced.
    pub removed: Vec<char>,
    /// The text that replaced it.
    pub inserted: Vec<char>,
    /// The cursor before the edit.
    pub cursor_before: (usize, usize),
    /// The cursor after the edit.
    pub cursor_after: (usize, usize),
}

/// Where the inserted text of `e` ends, once `e` is applied.
pub open spec fn inserted_end(e: Edit) -> (int, int) {
    advance(e.start.0 as int, e.start.1 as int, e.inserted@)
}

/// The document after `e`.
pub open spec fn forward(e: Edit, st: DocState) -> DocState {
    DocState {
        lines: replace_lines(
            st.lines,
            e.start.0 as int,
            e.start.1 as int,
            e.end.0 as int,
            e.end.1 as int,
            e.inserted@,
        ),
        cursor: (e.cursor_after.0 as int, e.cursor_after.1 as int),
    }
}

/// The document after `e` is undone.
pub open spec fn backward(e: Edit, st: DocState) -> DocState {
    DocState {
        lines: replace_lines(
            st.lines,
            e.start.0 as int,
            e.start.1 as int,
            inserted_end(e).0,
            inserted_end(e).1,
            e.removed@,
        ),
        cursor: (e.cursor_before.0 as int, e.cursor_before.1 as int),
    }
}

/// `e` was made in the lines of `st`: its range lies in them, it records
/// the text it removes, and both cursors it records are valid places.
pub open spec fn edit_wf(e: Edit, st: DocState) -> bool {
    let (sl, sc, el, ec) = (e.start.0 as int, e.start.1 as int, e.end.0 as int, e.end.1 as int);
    &&& state_wf(st)
    &&& valid_pos(st.lines, sl, sc)
    &&& valid_pos(st.lines, el, ec)
    &&& pos_le(sl, sc, el, ec)
    &&& e.removed@ == extract_text(st.lines, sl, sc, el, ec)
    &&& valid_pos(st.lines, e.cursor_before.0 as int, e.cursor_before.1 as int)
    &&& valid_pos(forward(e, st).lines, e.cursor_after.0 as int, e.cursor_after.1 as int)
}

/// The cursor an edit records as its starting one.
pub open spec fn before_cursor(e: Edit) -> (int, int) {
    (e.cursor_before.0 as int, e.cursor_before.1 as int)
}

/// `g` was made from `st`: each edit in the lines left by the ones before
/// it, the first one with the cursor of `st`.
pub open spec fn group_ok(g: Seq<Edit>, st: DocState) -> bool {
    &&& group_wf(g, st)
    &&& g.len() > 0 ==> before_cursor(g[0]) == st.cursor
}

/// The document after the edits of `g`, applied in order.
pub open spec fn forward_group(g: Seq<Edit>, st: DocState) -> DocState
    decreases g.len(),
{
    if g.len() == 0 {
        st
    } else {
        forward(g.last(), forward_group(g.drop_last(), st))
    }
}

/// The document after the edits of `g` are undone, last first.
pub open spec fn backward_group(g: Seq<Edit>, st: DocState) -> DocState
    decreases g.len(),
{
    if g.len() == 0 {
        st
    } else {
        backward_group(g.drop_last(), backward(g.last(), st))
    }
}

/// Each edit of `g` was made in the document left by the ones before it.
pub open spec fn group_wf(g: Seq<Edit>, st: DocState) -> bool
    decreases g.len(),
{
    if g.len() == 0 {
        state_wf(st)
    } else {
        group_wf(g.drop_last(), st) && edit_wf(g.last(), forward_group(g.drop_last(), st))
    }
}

/// Undoing an edit gives back the lines it was made in, with the cursor it
/// started from, and doing it leaves a well-formed document in which the
/// end of its insertion lies.
pub proof fn lemma_undo_edit(e: Edit, st: DocState)
    requires
        edit_wf(e, st),
    ensures
        state_wf(forward(e, st)),
        backward(e, forward(e, st)) == (DocState { lines: st.lines, cursor: before_cursor(e) }),
        valid_pos(forward(e, st).lines, inserted_end(e).0, inserted_end(e).1),
        valid_pos(forward(e, st).lines, e.start.0 as int, e.start.1 as int),
{
    let ls = st.lines;
    let (sl, sc, el, ec) = (e.start.0 as int, e.start.1 as int, e.end.0 as int, e.end.1 as int);
    let t = e.inserted@;
    lemma_replace(ls, sl, sc, el, ec, t);
    let nl = forward(e, st).lines;
    let f = flat(ls);
    let o = offset_of(ls, sl, sc);
    let oe = offset_of(ls, el, ec);
    let end = inserted_end(e);
    crate::lines::lemma_offset_split(ls, sl, sc);
    crate::lines::lemma_offset_split(ls, el, ec);
    // undoing splices the removed text back in
    lemma_pos_le_of_offsets(nl, sl, sc, end.0, end.1);
    lemma_replace(nl, sl, sc, end.0, end.1, e.removed@);
    let back = replace_lines(nl, sl, sc, end.0, end.1, e.removed@);
    let fnl = flat(nl);
    assert(fnl == f.take(o) + t + f.skip(oe));
    assert(fnl.take(o) =~= f.take(o));
    assert(fnl.skip(o + t.len()) =~= f.skip(oe));
    assert(flat(back) == fnl.take(o) + e.removed@ + fnl.skip(o + t.len()));
    assert(flat(back) =~= f);
    lemma_lines_unique(back, ls);
}

/// Offsets in order mean places in order.
pub proof fn lemma_pos_le_of_offsets(ls: Seq<Seq<char>>, al: int, ac: int, bl: int, bc: int)
    requires
        valid_lines(ls),
        valid_pos(ls, al, ac),
        valid_pos(ls, bl, bc),
        offset_of(ls, al, ac) <= offset_of(ls, bl, bc),
    ensures
        pos_le(al, ac, bl, bc),
{
    if bl < al {
        crate::lines::lemma_flat_take_mono(ls, bl + 1, al);
        crate::lines::lemma_flat_split(ls, bl);
    }
}

/// Undoing a group of edits, from any document holding the lines it left,
/// gives back the document it was made from.
pub proof fn lemma_undo_group(g: Seq<Edit>, st: DocState, y: DocState)
    requires
        group_ok(g, st),
        y.lines == forward_group(g, st).lines,
        g.len() > 0,
    ensures
        state_wf(forward_group(g, st)),
        backward_group(g, y) == st,
    decreases g.len(),
{
    lemma_group_wf_state(g, st);
    let gp = g.drop_last();
    let mid = forward_group(gp, st);
    lemma_undo_edit(g.last(), mid);
    let y2 = backward(g.last(), y);
    assert(y2 == backward(g.last(), forward(g.last(), mid)));
    if gp.len() > 0 {
        assert(gp[0] == g[0]);
        lemma_undo_group(gp, st, y2);
    } else {
        assert(backward_group(gp, y2) == y2);
        assert(g[0] == g.last());
    }
}

/// The documents a well-formed group passes through are well formed.
pub proof fn lemma_group_wf_state(g: Seq<Edit>, st: DocState)
    requires
        group_wf(g, st),
    ensures
        state_wf(st),
        state_wf(forward_group(g, st)),
    decreases g.len(),
{
    if g.len() > 0 {
        lemma_group_wf_state(g.drop_last(), st);
        lemma_undo_edit(g.last(), forward_group(g.drop_last(), st));
    }
}

/// Applies `e`, made in the lines of `st`, to the buffer and the cursor.
pub fn apply_edit(buf: &mut TextBuffer, cursor: &mut (usize, usize), e: &Edit, Ghost(st): Ghost<DocState>)
    requires
        edit_wf(*e, st),
        old(buf)@ == st.lines,
        old(buf).wf(),
    ensures
        final(buf)@ == forward(*e, st).lines,
        *final(cursor) == e.cursor_after,
        final(buf).wf(),
{
    buf.replace(e.start.0, e.start.1, e.end.0, e.end.1, &e.inserted);
    *cursor = e.cursor_after;
}

/// Undoes `e` on the buffer and the cursor.
pub fn revert_edit(buf: &mut TextBuffer, cursor: &mut (usize, usize), e: &Edit, Ghost(st): Ghost<DocState>)
    requires
        edit_wf(*e, st),
        old(buf)@ == forward(*e, st).lines,
        old(buf).wf(),
    ensures
        final(buf)@ == st.lines,
        *final(cursor) == e.cursor_before,
        final(buf).wf(),
{
    proof {
        lemma_undo_edit(*e, st);
        lemma_replace(st.lines, e.start.0 as int, e.start.1 as int, e.end.0 as int, e.end.1 as int, e.inserted@);
    }
    let (el, ec) = insertion_end(buf, e, Ghost(st));
    proof {
        lemma_pos_le_of_offsets(buf@, e.start.0 as int, e.start.1 as int, el as int, ec as int);
    }
    buf.replace(e.start.0, e.start.1, el, ec, &e.removed);
    *cursor = e.cursor_before;
}

/// Where the insertion of `e` ends in the buffer that `e` left.
pub fn insertion_end(buf: &TextBuffer, e: &Edit, Ghost(st): Ghost<DocState>) -> (res: (usize, usize))
    requires
        edit_wf(*e, st),
        buf@ == forward(*e, st).lines,
    ensures
        res.0 as int == inserted_end(*e).0,
        res.1 as int == inserted_end(*e).1,
        valid_pos(buf@, res.0 as int, res.1 as int),
{
    let ghost ls = st.lines;
    let ghost nl = buf@;
    let ghost (sl, sc) = (e.start.0 as int, e.start.1 as int);
    proof {
        lemma_replace(ls, sl, sc, e.end.0 as int, e.end.1 as int, e.inserted@);
        lemma_pos_at_offset(nl, sl, sc);
        buf.lemma_bounded();
        crate::lines::lemma_offset_split(ls, sl, sc);
        crate::lines::lemma_offset_split(ls, e.end.0 as int, e.end.1 as int);
    }
    let ghost o = offset_of(nl, sl, sc);
    let ghost f = flat(nl);
    proof {
        let big = flat(ls);
        let a = big.take(o);
        let b = big.skip(offset_of(ls, e.end.0 as int, e.end.1 as int));
        assert(f == a + e.inserted@ + b);
        assert(a.len() == o);
        assert(b.len() >= 1);
        assert(f.take(o + e.inserted@.len()) =~= f.take(o) + e.inserted@);
    }
    let t = &e.inserted;
    let n = t.len();
    let mut line = e.start.0;
    let mut col = e.start.1;
    let mut k: usize = 0;
    proof {
        assert(t@.take(0) =~= Seq::<char>::empty());
        assert(f.take(o + 0) =~= f.take(o));
    }
    while k < n
        invariant
            n == t@.len(),
            k <= n,
            nl == buf@,
            valid_lines(nl),
            f == flat(nl),
            0 <= o,
            o + n < f.len(),
            f.take(o + n) == f.take(o) + t@,
            lines_of(f.take(o)) == nl.take(sl).push(nl[sl].take(sc)),
            valid_pos(nl, sl, sc),
            sl == e.start.0 as int,
            sc == e.start.1 as int,
            (line as int, col as int) == advance(sl, sc, t@.take(k as int)),
            (line as int, col as int) == pos_at(nl, o + k),
            valid_pos(nl, line as int, col as int),
            nl.len() <= usize::MAX,
            forall|i: int| 0 <= i < nl.len() ==> nl[i].len() <= usize::MAX,
        decreases n - k,
    {
        let c = t[k];
        proof {
            assert(t@.take(k + 1).drop_last() =~= t@.take(k as int));
            assert(t@.take(k + 1).last() == c);
            lemma_offset_of_pos_at(nl, o + k + 1);
            assert(f.take(o + k + 1) =~= f.take(o) + t@.take(k + 1)) by {
                assert(f.take(o + n).take(o + k + 1) =~= f.take(o + k + 1));
            }
            assert(f.take(o + k) =~= f.take(o) + t@.take(k as int)) by {
                assert(f.take(o + n).take(o + k) =~= f.take(o + k));
            }
            lemma_advance_lines(f.take(o), t@.take(k + 1));
            assert(nl.take(sl).push(nl[sl].take(sc)).last() == nl[sl].take(sc));
        }
        if c == '\n' {
            line = line + 1;
            col = 0;
        } else {
            col = col + 1;
        }
        k = k + 1;
    }
    proof {
        assert(t@.take(n as int) =~= t@);
    }
    (line, col)
}

} // verus!
