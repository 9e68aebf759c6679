//! Undo and redo.
//!
//! The history keeps the edits made so far, grouped into undo steps.  Edits
//! recorded while a group is open form one step, so that a run of typing is
//! undone at once.  Each step remembers the document before it (with the
//! cursor it started from) and after it (with the cursor it left), so that
//! undo and redo restore both, wherever the cursor has been moved since.
//! The history also remembers the position at which the document was last
//! saved.

use vstd::prelude::*;

use crate::buffer::TextBuffer;
use crate::edit::{
    apply_edit, before_cursor, doc_state, edit_wf, forward, forward_group, group_ok, group_wf,
    lemma_group_wf_state, lemma_undo_edit, lemma_undo_group, revert_edit, state_wf, DocState, Edit,
};

verus! {

/// The edits of each step, as sequences.
pub open spec fn steps_view(v: Seq<Vec<Edit>>) -> Seq<Seq<Edit>> {
    Seq::new(v.len(), |i: int| v[i]@)
}

/// A step of edits `g` leads from the first document of `s` to the second.
pub open spec fn step_ok(g: Seq<Edit>, s: (DocState, DocState)) -> bool {
    &&& g.len() > 0
    &&& group_ok(g, s.0)
    &&& forward_group(g, s.0) == s.1
}

/// What the history holds, abstractly: for each undo step (oldest first)
/// and each redo step (next one last) the document before and after it;
/// the open group (the document it started from, how many edits it holds,
/// and the document they left); the saved position; and how many undo
/// steps are kept.
#[verifier::ext_equal]
pub struct HistoryModel {
    pub undo: Seq<(DocState, DocState)>,
    pub redo: Seq<(DocState, DocState)>,
    pub group: Option<(DocState, nat, DocState)>,
    pub saved: Option<(nat, nat)>,
    pub capacity: nat,
}

/// Where the document stands: the number of undo steps and the number of
/// edits in the open group.
pub open spec fn position(m: HistoryModel) -> (nat, nat) {
    (m.undo.len(), match m.group {
        Some(g) => g.1,
        None => 0,
    })
}

/// The document differs from the one last marked as saved.
pub open spec fn modified(m: HistoryModel) -> bool {
    m.saved != Some(position(m))
}

/// A saved position that stays reachable once a new step is added after
/// `u` undo steps.
pub open spec fn keep_saved(saved: Option<(nat, nat)>, u: nat) -> Option<(nat, nat)> {
    match saved {
        Some(p) => if p.1 == 0 && p.0 <= u {
            Some(p)
        } else {
            None
        },
        None => None,
    }
}

/// Drops the oldest undo step when there are more than the capacity.
pub open spec fn trimmed(m: HistoryModel) -> HistoryModel {
    if m.undo.len() > m.capacity {
        HistoryModel {
            undo: m.undo.subrange(1, m.undo.len() as int),
            saved: match m.saved {
                Some(p) => if p.0 == 0 {
                    None
                } else {
                    Some(((p.0 - 1) as nat, p.1))
                },
                None => None,
            },
            ..m
        }
    } else {
        m
    }
}

/// Adds an undo step; the redo steps are lost.
pub open spec fn with_step(m: HistoryModel, st: (DocState, DocState)) -> HistoryModel {
    trimmed(
        HistoryModel {
            undo: m.undo.push(st),
            redo: Seq::empty(),
            group: None,
            saved: keep_saved(m.saved, m.undo.len()),
            ..m
        },
    )
}

/// Closes the open group: a group holding edits becomes one undo step.
pub open spec fn committed(m: HistoryModel) -> HistoryModel {
    match m.group {
        None => m,
        Some(g) => if g.1 == 0 {
            HistoryModel { group: None, ..m }
        } else {
            let c = with_step(m, (g.0, g.2));
            if m.saved == Some(position(m)) {
                HistoryModel { saved: Some((c.undo.len(), 0nat)), ..c }
            } else {
                c
            }
        },
    }
}

/// The history after an edit leading from `pre` to `post` is recorded.
pub open spec fn recorded(m: HistoryModel, pre: DocState, post: DocState) -> HistoryModel {
    match m.group {
        Some(g) => HistoryModel {
            group: Some(
                if g.1 == 0 {
                    (pre, 1nat, post)
                } else {
                    (g.0, (g.1 + 1) as nat, post)
                },
            ),
            redo: Seq::empty(),
            saved: if m.saved == Some((m.undo.len(), (g.1 + 1) as nat)) {
                None
            } else {
                m.saved
            },
            ..m
        },
        None => with_step(m, (pre, post)),
    }
}

/// An undo step is available.
pub open spec fn can_undo_model(m: HistoryModel) -> bool {
    committed(m).undo.len() > 0
}

/// The history after an undo.
pub open spec fn undone(m: HistoryModel) -> HistoryModel {
    let c = committed(m);
    if c.undo.len() == 0 {
        c
    } else {
        HistoryModel { undo: c.undo.drop_last(), redo: c.redo.push(c.undo.last()), ..c }
    }
}

/// The history after a redo.
pub open spec fn redone(m: HistoryModel) -> HistoryModel {
    if m.redo.len() == 0 {
        m
    } else {
        let c = committed(m);
        trimmed(HistoryModel { undo: c.undo.push(c.redo.last()), redo: c.redo.drop_last(), ..c })
    }
}

/// The lines the history leaves the document at when the open group (if
/// any) is undone, given the current lines.
pub open spec fn base_lines(m: HistoryModel, lines: Seq<Seq<char>>) -> Seq<Seq<char>> {
    match m.group {
        Some(g) => g.0.lines,
        None => lines,
    }
}

/// The steps join up with each other and with the document's `lines`:
/// each undo step ends in the lines the next one starts from, the last one
/// in the lines the open group started from; redo steps likewise in the
/// other direction; and the open group ends in `lines`.
pub open spec fn links_ok(m: HistoryModel, lines: Seq<Seq<char>>) -> bool {
    let b = base_lines(m, lines);
    &&& forall|i: int|
        0 <= i < m.undo.len() ==> (#[trigger] m.undo[i]).1.lines == if i + 1 < m.undo.len() {
            m.undo[i + 1].0.lines
        } else {
            b
        }
    &&& forall|j: int|
        0 <= j < m.redo.len() ==> (#[trigger] m.redo[j]).0.lines == if j + 1 < m.redo.len() {
            m.redo[j + 1].1.lines
        } else {
            b
        }
    &&& match m.group {
        Some(g) => if g.1 > 0 {
            g.2.lines == lines
        } else {
            g.0.lines == lines
        },
        None => true,
    }
    &&& m.capacity >= 1
}

/// Closing the group keeps the steps joined up.
pub proof fn lemma_links_committed(m: HistoryModel, lines: Seq<Seq<char>>)
    requires
        links_ok(m, lines),
        m.group matches Some(g) && g.1 > 0 ==> m.redo.len() == 0,
    ensures
        links_ok(committed(m), lines),
        committed(m).group is None,
{
    match m.group {
        None => {},
        Some(g) => {
            if g.1 > 0 {
                let u = m.undo.push((g.0, g.2));
                let pre = HistoryModel {
                    undo: u,
                    redo: Seq::empty(),
                    group: None,
                    saved: keep_saved(m.saved, m.undo.len()),
                    ..m
                };
                assert forall|i: int| 0 <= i < u.len() implies (#[trigger] u[i]).1.lines == if i + 1
                    < u.len() {
                    u[i + 1].0.lines
                } else {
                    lines
                } by {
                    if i < m.undo.len() {
                        assert(u[i] == m.undo[i]);
                        if i + 1 < m.undo.len() {
                            assert(u[i + 1] == m.undo[i + 1]);
                        }
                    }
                }
                assert(links_ok(pre, lines));
                let t = trimmed(pre);
                if pre.undo.len() > pre.capacity {
                    assert forall|i: int| 0 <= i < t.undo.len() implies (#[trigger] t.undo[i]).1.lines
                        == if i + 1 < t.undo.len() {
                        t.undo[i + 1].0.lines
                    } else {
                        lines
                    } by {
                        assert(t.undo[i] == u[i + 1]);
                        if i + 1 < t.undo.len() {
                            assert(t.undo[i + 1] == u[i + 2]);
                        }
                    }
                }
                assert(links_ok(t, lines));
            }
        },
    }
}

/// The undo and redo history of a document.
pub struct CommandHistory {
    undo: Vec<Vec<Edit>>,
    redo: Vec<Vec<Edit>>,
    group: Option<Vec<Edit>>,
    max_size: usize,
    saved: Option<(usize, usize)>,
    undo_states: Ghost<Seq<(DocState, DocState)>>,
    redo_states: Ghost<Seq<(DocState, DocState)>>,
    group_start: Ghost<DocState>,
    group_end: Ghost<DocState>,
}

impl View for CommandHistory {
    type V = HistoryModel;

    closed spec fn view(&self) -> HistoryModel {
        HistoryModel {
            undo: self.undo_states@,
            redo: self.redo_states@,
            group: match self.group {
                Some(g) => Some((self.group_start@, g@.len(), self.group_end@)),
                None => None,
            },
            saved: match self.saved {
                Some(p) => Some((p.0 as nat, p.1 as nat)),
                None => None,
            },
            capacity: self.max_size as nat,
        }
    }
}

impl CommandHistory {
    /// The recorded documents match the recorded steps in number.
    pub closed spec fn wf(&self) -> bool {
        &&& self.undo_states@.len() == self.undo@.len()
        &&& self.redo_states@.len() == self.redo@.len()
        &&& self.max_size >= 1
    }

    /// Every recorded step leads from its first document to its second,
    /// the open group is well formed, and at most `max_size` undo steps are
    /// kept.
    pub closed spec fn core_ok(&self) -> bool {
        &&& self.wf()
        &&& self.undo@.len() <= self.max_size
        &&& forall|i: int|
            0 <= i < self.undo@.len() ==> step_ok(
                #[trigger] steps_view(self.undo@)[i],
                self.undo_states@[i],
            )
        &&& forall|j: int|
            0 <= j < self.redo@.len() ==> step_ok(
                #[trigger] steps_view(self.redo@)[j],
                self.redo_states@[j],
            )
        &&& self.group matches Some(g) ==> {
            &&& group_ok(g@, self.group_start@)
            &&& state_wf(self.group_start@)
            &&& (g@.len() > 0 ==> forward_group(g@, self.group_start@) == self.group_end@)
            &&& (g@.len() > 0 ==> self.redo@.len() == 0)
        }
    }

    /// The history describes how a document with the lines of `cur` was
    /// reached; `cur` is a well-formed document.
    pub closed spec fn inv(&self, cur: DocState) -> bool {
        &&& state_wf(cur)
        &&& self.core_ok()
        &&& links_ok(self@, cur.lines)
    }

    /// A history that describes some document is well formed, its steps
    /// join up with that document, and a group holding edits leaves no redo
    /// step.
    pub proof fn lemma_inv(&self, cur: DocState)
        requires
            self.inv(cur),
        ensures
            self.wf(),
            state_wf(cur),
            links_ok(self@, cur.lines),
            self@.group matches Some(g) && g.1 > 0 ==> self@.redo.len() == 0,
    {
    }

    /// The history describes any well-formed document with the same lines.
    pub proof fn lemma_inv_lines(&self, a: DocState, b: DocState)
        requires
            self.inv(a),
            state_wf(b),
            a.lines == b.lines,
        ensures
            self.inv(b),
    {
    }

    /// An empty history for the document `cur`, keeping at most `max_size` steps.
    pub fn new(max_size: usize, Ghost(cur): Ghost<DocState>) -> (res: Self)
        requires
            state_wf(cur),
            max_size >= 1,
        ensures
            res@ == (HistoryModel {
                undo: Seq::empty(),
                redo: Seq::empty(),
                group: None,
                saved: Some((0nat, 0nat)),
                capacity: max_size as nat,
            }),
            res.inv(cur),
    {
        CommandHistory {
            undo: Vec::new(),
            redo: Vec::new(),
            group: None,
            max_size,
            saved: Some((0, 0)),
            undo_states: Ghost(Seq::empty()),
            redo_states: Ghost(Seq::empty()),
            group_start: Ghost(cur),
            group_end: Ghost(cur),
        }
    }

    /// Adds a finished step that led from `s.0` to `s.1`, the lines of the
    /// document `cur`.
    fn commit(&mut self, g: Vec<Edit>, Ghost(s): Ghost<(DocState, DocState)>, Ghost(cur): Ghost<DocState>)
        requires
            old(self).group is None,
            old(self).core_ok(),
            links_ok(old(self)@, s.0.lines),
            step_ok(g@, s),
            state_wf(cur),
            s.1.lines == cur.lines,
        ensures
            final(self)@ == with_step(old(self)@, s),
            final(self).inv(cur),
            final(self).group is None,
    {
        let ghost m0 = self@;
        // a new step makes the redo steps unreachable
        self.redo = Vec::new();
        self.redo_states = Ghost(Seq::empty());
        let ghost old_steps = steps_view(self.undo@);
        let ghost old_states = self.undo_states@;
        self.undo.push(g);
        self.undo_states = Ghost(old_states.push(s));
        proof {
            assert(steps_view(self.undo@) =~= old_steps.push(g@));
            assert forall|i: int| 0 <= i < self.undo@.len() implies step_ok(
                #[trigger] steps_view(self.undo@)[i],
                self.undo_states@[i],
            ) by {
                if i < old_steps.len() {
                    assert(steps_view(self.undo@)[i] == old_steps[i]);
                }
            }
            assert(steps_view(self.redo@) =~= Seq::<Seq<Edit>>::empty());
        }
        // an unsaved position beyond the redo point can never come back
        match self.saved {
            Some(p) => {
                if !(p.0 <= self.undo.len() - 1 && p.1 == 0) {
                    self.saved = None;
                }
            },
            None => {},
        }
        if self.undo.len() > self.max_size {
            let ghost steps = steps_view(self.undo@);
            let ghost states = self.undo_states@;
            self.undo.remove(0);
            self.undo_states = Ghost(states.subrange(1, states.len() as int));
            proof {
                assert(steps_view(self.undo@) =~= steps.subrange(1, steps.len() as int));
                assert forall|i: int| 0 <= i < self.undo@.len() implies step_ok(
                    #[trigger] steps_view(self.undo@)[i],
                    self.undo_states@[i],
                ) by {
                    assert(steps_view(self.undo@)[i] == steps[i + 1]);
                }
            }
            match self.saved {
                Some(p) => {
                    if p.0 == 0 {
                        self.saved = None;
                    } else {
                        self.saved = Some((p.0 - 1, 0));
                    }
                },
                None => {},
            }
        }
        proof {
            let m1 = HistoryModel { group: Some((s.0, 1nat, s.1)), redo: Seq::empty(), ..m0 };
            lemma_links_committed(m1, cur.lines);
            assert(self@ =~= with_step(m0, s));
        }
    }

    /// Records an edit made in `pre`, starting from its cursor.  Outside a
    /// group the edit is a step of its own.
    pub fn push(&mut self, e: Edit, Ghost(pre): Ghost<DocState>)
        requires
            old(self).inv(pre),
            edit_wf(e, pre),
            before_cursor(e) == pre.cursor,
        ensures
            final(self)@ == recorded(old(self)@, pre, forward(e, pre)),
            final(self).inv(forward(e, pre)),
    {
        let ghost post = forward(e, pre);
        let ghost m0 = self@;
        proof {
            lemma_undo_edit(e, pre);
        }
        match self.group.take() {
            Some(mut g) => {
                let ghost gs = self.group_start@;
                let ghost old_g = g@;
                if g.len() == 0 {
                    g.push(e);
                    proof {
                        assert(g@.drop_last() =~= Seq::<Edit>::empty());
                        assert(g@[0] == e);
                        assert(group_wf(g@.drop_last(), pre));
                        assert(forward_group(g@.drop_last(), pre) == pre);
                        assert(group_wf(g@, pre));
                        assert(forward_group(g@, pre) == post);
                    }
                    self.group_start = Ghost(pre);
                } else {
                    proof {
                        lemma_group_wf_state(old_g, gs);
                        lemma_edit_wf_lines(e, pre, forward_group(old_g, gs));
                    }
                    g.push(e);
                    proof {
                        assert(g@.drop_last() =~= old_g);
                        assert(g@.last() == e);
                        assert(g@[0] == old_g[0]);
                        assert(group_wf(g@, gs));
                        assert(forward_group(g@, gs) == post);
                    }
                }
                self.group = Some(g);
                self.group_end = Ghost(post);
                self.redo = Vec::new();
                self.redo_states = Ghost(Seq::empty());
                proof {
                    assert(steps_view(self.redo@) =~= Seq::<Seq<Edit>>::empty());
                }
                match self.saved {
                    Some(p) => {
                        if p.0 == self.undo.len() && p.1 == g_len(&self.group) {
                            self.saved = None;
                        }
                    },
                    None => {},
                }
                proof {
                    assert(self@ =~= recorded(m0, pre, post));
                    let gg = self.group->0@;
                    assert(gg.drop_last() =~= old_g);
                    assert(group_wf(gg, self.group_start@));
                    assert(forward_group(gg, self.group_start@) == post);
                    assert(group_ok(gg, self.group_start@));
                    assert(links_ok(self@, post.lines));
                    assert(self.core_ok());
                }
            },
            None => {
                let mut g: Vec<Edit> = Vec::new();
                g.push(e);
                proof {
                    assert(g@.drop_last() =~= Seq::<Edit>::empty());
                    assert(forward_group(g@.drop_last(), pre) == pre);
                    assert(g@[0] == e);
                    assert(group_wf(g@.drop_last(), pre));
                    assert(group_wf(g@, pre));
                    assert(forward_group(g@, pre) == post);
                }
                self.commit(g, Ghost((pre, post)), Ghost(post));
            },
        }
    }

    /// Opens a group; later edits join it until it is closed.  An open
    /// group is closed first.
    pub fn begin_group(&mut self, Ghost(cur): Ghost<DocState>)
        requires
            old(self).inv(cur),
        ensures
            final(self)@ == (HistoryModel { group: Some((cur, 0nat, cur)), ..committed(old(self)@) }),
            final(self).inv(cur),
    {
        self.end_group(Ghost(cur));
        self.group = Some(Vec::new());
        self.group_start = Ghost(cur);
        self.group_end = Ghost(cur);
    }

    /// Closes the open group, making it one undo step if it holds edits.
    pub fn end_group(&mut self, Ghost(cur): Ghost<DocState>)
        requires
            old(self).inv(cur),
        ensures
            final(self)@ == committed(old(self)@),
            final(self).inv(cur),
            final(self)@.group is None,
    {
        let ghost m0 = self@;
        match self.group.take() {
            Some(g) => {
                if g.len() > 0 {
                    let ghost gs = self.group_start@;
                    let ghost ge = self.group_end@;
                    // whether the saved position is the one being closed
                    let here = match self.saved {
                        Some(p) => p.0 == self.undo.len() && p.1 == g.len(),
                        None => false,
                    };
                    proof {
                        assert(links_ok(self@, gs.lines)) by {
                            assert(self@.undo == m0.undo);
                        }
                    }
                    self.commit(g, Ghost((gs, ge)), Ghost(cur));
                    if here {
                        self.saved = Some((self.undo.len(), 0));
                    }
                    proof {
                        assert(self@ =~= committed(m0));
                    }
                } else {
                    proof {
                        assert(self@ =~= committed(m0));
                    }
                }
            },
            None => {},
        }
    }

    /// Undoes the last step on the buffer and the cursor.  An open group is
    /// closed first.  Returns whether there was a step to undo.
    pub fn undo(&mut self, buf: &mut TextBuffer, cursor: &mut (usize, usize)) -> (res: bool)
        requires
            old(buf).wf(),
            old(self).inv(doc_state(old(buf)@, *old(cursor))),
        ensures
            final(self)@ == undone(old(self)@),
            res == (committed(old(self)@).undo.len() > 0),
            res ==> doc_state(final(buf)@, *final(cursor)) == committed(old(self)@).undo.last().0,
            !res ==> final(buf)@ == old(buf)@ && *final(cursor) == *old(cursor),
            final(buf).wf(),
            final(self).inv(doc_state(final(buf)@, *final(cursor))),
    {
        let ghost cur = doc_state(buf@, *cursor);
        self.end_group(Ghost(cur));
        let ghost m1 = self@;
        if self.undo.len() == 0 {
            return false;
        }
        let ghost steps = steps_view(self.undo@);
        let ghost states = self.undo_states@;
        let g = self.undo.pop().unwrap();
        let ghost st = states.last();
        let ghost s = st.0;
        self.undo_states = Ghost(states.drop_last());
        proof {
            assert(steps[steps.len() - 1] == g@);
            assert(step_ok(g@, st));
            assert(st.1.lines == cur.lines);
            lemma_group_wf_state(g@, s);
        }
        let n = g.len();
        let mut i = n;
        proof {
            assert(g@.take(n as int) =~= g@);
        }
        while i > 0
            invariant
                i <= n == g@.len(),
                n > 0,
                group_ok(g@, s),
                buf.wf(),
                buf@ == forward_group(g@.take(i as int), s).lines,
                i < n ==> doc_state(buf@, *cursor) == crate::edit::backward_group(
                    g@.subrange(i as int, n as int),
                    forward_group(g@, s),
                ),
            decreases i,
        {
            proof {
                lemma_group_step(g@, s, i - 1);
            }
            revert_edit(buf, cursor, &g[i - 1], Ghost(forward_group(g@.take(i - 1), s)));
            i = i - 1;
            proof {
                lemma_backward_suffix(g@, s, i as int);
            }
        }
        proof {
            assert(g@.subrange(0, n as int) =~= g@);
            lemma_undo_group(g@, s, forward_group(g@, s));
            let now = doc_state(buf@, *cursor);
            assert(now == s);
            assert(steps_view(self.undo@) =~= steps.drop_last());
        }
        let ghost rsteps = steps_view(self.redo@);
        let ghost rstates = self.redo_states@;
        self.redo.push(g);
        self.redo_states = Ghost(rstates.push(st));
        proof {
            assert(steps_view(self.redo@) =~= rsteps.push(g@));
            assert forall|k: int| 0 <= k < self.undo@.len() implies step_ok(
                #[trigger] steps_view(self.undo@)[k],
                self.undo_states@[k],
            ) by {
                assert(steps_view(self.undo@)[k] == steps[k]);
            }
            assert forall|j: int| 0 <= j < self.redo@.len() implies step_ok(
                #[trigger] steps_view(self.redo@)[j],
                self.redo_states@[j],
            ) by {
                if j < rsteps.len() {
                    assert(steps_view(self.redo@)[j] == rsteps[j]);
                }
            }
            let m2 = self@;
            assert(m2 =~= undone(old(self)@));
            assert forall|j: int| 0 <= j < m2.redo.len() implies (#[trigger] m2.redo[j]).0.lines
                == if j + 1 < m2.redo.len() {
                m2.redo[j + 1].1.lines
            } else {
                s.lines
            } by {
                if j + 1 < m2.redo.len() {
                    assert(m2.redo[j] == m1.redo[j]);
                    if j + 1 < m1.redo.len() {
                        assert(m2.redo[j + 1] == m1.redo[j + 1]);
                    }
                }
            }
            assert forall|k: int| 0 <= k < m2.undo.len() implies (#[trigger] m2.undo[k]).1.lines
                == if k + 1 < m2.undo.len() {
                m2.undo[k + 1].0.lines
            } else {
                s.lines
            } by {
                assert(m2.undo[k] == m1.undo[k]);
                assert(m1.undo[k + 1] == states[k + 1]);
            }
        }
        true
    }

    /// Redoes the last undone step on the buffer and the cursor.  Returns
    /// whether there was a step to redo.
    pub fn redo(&mut self, buf: &mut TextBuffer, cursor: &mut (usize, usize)) -> (res: bool)
        requires
            old(buf).wf(),
            old(self).inv(doc_state(old(buf)@, *old(cursor))),
        ensures
            final(self)@ == redone(old(self)@),
            res == (old(self)@.redo.len() > 0),
            res ==> doc_state(final(buf)@, *final(cursor)) == old(self)@.redo.last().1,
            !res ==> final(buf)@ == old(buf)@ && *final(cursor) == *old(cursor),
            final(buf).wf(),
            final(self).inv(doc_state(final(buf)@, *final(cursor))),
    {
        let ghost cur = doc_state(buf@, *cursor);
        if self.redo.len() == 0 {
            return false;
        }
        self.end_group(Ghost(cur));
        let ghost m1 = self@;
        let ghost rsteps = steps_view(self.redo@);
        let ghost rstates = self.redo_states@;
        let g = self.redo.pop().unwrap();
        let ghost st = rstates.last();
        let ghost b = st.0;
        self.redo_states = Ghost(rstates.drop_last());
        proof {
            assert(rsteps[rsteps.len() - 1] == g@);
            assert(step_ok(g@, st));
            assert(b.lines == cur.lines);
            lemma_group_wf_state(g@, b);
        }
        let n = g.len();
        let mut i: usize = 0;
        proof {
            assert(g@.take(0) =~= Seq::<Edit>::empty());
        }
        while i < n
            invariant
                i <= n == g@.len(),
                group_ok(g@, b),
                buf.wf(),
                buf@ == forward_group(g@.take(i as int), b).lines,
                i > 0 ==> doc_state(buf@, *cursor) == forward_group(g@.take(i as int), b),
            decreases n - i,
        {
            proof {
                lemma_group_step(g@, b, i as int);
            }
            apply_edit(buf, cursor, &g[i], Ghost(forward_group(g@.take(i as int), b)));
            i = i + 1;
        }
        proof {
            assert(g@.take(n as int) =~= g@);
            assert(steps_view(self.redo@) =~= rsteps.drop_last());
        }
        // the step goes back on the undo stack, without touching the redo steps
        let ghost steps = steps_view(self.undo@);
        let ghost states = self.undo_states@;
        self.undo.push(g);
        self.undo_states = Ghost(states.push(st));
        proof {
            assert(steps_view(self.undo@) =~= steps.push(g@));
            assert forall|k: int| 0 <= k < self.undo@.len() implies step_ok(
                #[trigger] steps_view(self.undo@)[k],
                self.undo_states@[k],
            ) by {
                if k < steps.len() {
                    assert(steps_view(self.undo@)[k] == steps[k]);
                }
            }
            assert forall|j: int| 0 <= j < self.redo@.len() implies step_ok(
                #[trigger] steps_view(self.redo@)[j],
                self.redo_states@[j],
            ) by {
                assert(steps_view(self.redo@)[j] == rsteps[j]);
            }
        }
        if self.undo.len() > self.max_size {
            let ghost steps2 = steps_view(self.undo@);
            let ghost states2 = self.undo_states@;
            self.undo.remove(0);
            self.undo_states = Ghost(states2.subrange(1, states2.len() as int));
            proof {
                assert(steps_view(self.undo@) =~= steps2.subrange(1, steps2.len() as int));
                assert forall|k: int| 0 <= k < self.undo@.len() implies step_ok(
                    #[trigger] steps_view(self.undo@)[k],
                    self.undo_states@[k],
                ) by {
                    assert(steps_view(self.undo@)[k] == steps2[k + 1]);
                }
            }
            match self.saved {
                Some(p) => {
                    if p.0 == 0 {
                        self.saved = None;
                    } else {
                        self.saved = Some((p.0 - 1, p.1));
                    }
                },
                None => {},
            }
        }
        proof {
            let m2 = self@;
            assert(m2 =~= redone(old(self)@));
            let a = st.1;
            let u = m1.undo.push(st);
            assert forall|k: int| 0 <= k < u.len() implies (#[trigger] u[k]).1.lines == if k + 1
                < u.len() {
                u[k + 1].0.lines
            } else {
                a.lines
            } by {
                if k < m1.undo.len() {
                    assert(u[k] == m1.undo[k]);
                    if k + 1 < m1.undo.len() {
                        assert(u[k + 1] == m1.undo[k + 1]);
                    }
                }
            }
            if u.len() > m1.capacity {
                assert forall|k: int| 0 <= k < m2.undo.len() implies (#[trigger] m2.undo[k]).1.lines
                    == if k + 1 < m2.undo.len() {
                    m2.undo[k + 1].0.lines
                } else {
                    a.lines
                } by {
                    assert(m2.undo[k] == u[k + 1]);
                    if k + 1 < m2.undo.len() {
                        assert(m2.undo[k + 1] == u[k + 2]);
                    }
                }
            }
            assert forall|j: int| 0 <= j < m2.redo.len() implies (#[trigger] m2.redo[j]).0.lines
                == if j + 1 < m2.redo.len() {
                m2.redo[j + 1].1.lines
            } else {
                a.lines
            } by {
                assert(m2.redo[j] == m1.redo[j]);
                assert(m1.redo[j + 1] == rstates[j + 1]);
            }
        }
        true
    }

    /// Marks the current position as the saved one.
    pub fn mark_saved(&mut self)
        requires
            old(self).wf(),
        ensures
            final(self)@ == (HistoryModel { saved: Some(position(old(self)@)), ..old(self)@ }),
            final(self).wf(),
            forall|c: DocState| old(self).inv(c) ==> final(self).inv(c),
    {
        self.saved = Some((self.undo.len(), g_len(&self.group)));
    }

    /// Whether the document differs from the one last marked as saved.
    pub fn is_modified(&self) -> (res: bool)
        requires
            self.wf(),
        ensures
            res == modified(self@),
    {
        match self.saved {
            Some(p) => !(p.0 == self.undo.len() && p.1 == g_len(&self.group)),
            None => true,
        }
    }

    /// Whether an undo step is available.
    pub fn can_undo(&self) -> (res: bool)
        requires
            self.wf(),
        ensures
            res == can_undo_model(self@),
    {
        g_len(&self.group) > 0 || self.undo.len() > 0
    }

    /// Whether a redo step is available.
    pub fn can_redo(&self) -> (res: bool)
        requires
            self.wf(),
        ensures
            res == (self@.redo.len() > 0),
    {
        self.redo.len() > 0
    }
}

fn g_len(g: &Option<Vec<Edit>>) -> (n: usize)
    ensures
        n == match g {
            Some(v) => v@.len(),
            None => 0,
        },
{
    match g {
        Some(v) => v.len(),
        None => 0,
    }
}

/// An edit made in some lines is made in any document with those lines.
proof fn lemma_edit_wf_lines(e: Edit, a: DocState, b: DocState)
    requires
        edit_wf(e, a),
        state_wf(b),
        a.lines == b.lines,
    ensures
        edit_wf(e, b),
        forward(e, a) == forward(e, b),
{
}

proof fn lemma_group_wf_prefix(g: Seq<Edit>, st: DocState, i: int)
    requires
        group_wf(g, st),
        0 <= i <= g.len(),
    ensures
        group_wf(g.take(i), st),
    decreases g.len(),
{
    if i < g.len() {
        lemma_group_wf_prefix(g.drop_last(), st, i);
        assert(g.drop_last().take(i) =~= g.take(i));
    } else {
        assert(g.take(i) =~= g);
    }
}

proof fn lemma_group_step(g: Seq<Edit>, st: DocState, i: int)
    requires
        group_wf(g, st),
        0 <= i < g.len(),
    ensures
        edit_wf(g[i], forward_group(g.take(i), st)),
        forward_group(g.take(i + 1), st) == forward(g[i], forward_group(g.take(i), st)),
        group_wf(g.take(i), st),
{
    lemma_group_wf_prefix(g, st, i + 1);
    lemma_group_wf_prefix(g, st, i);
    assert(g.take(i + 1).drop_last() =~= g.take(i));
    assert(g.take(i + 1).last() == g[i]);
}

/// Undoing the edits from `i` on, last first, from the end of the group
/// reaches the lines before edit `i`, with the cursor edit `i` started from.
proof fn lemma_backward_suffix(g: Seq<Edit>, st: DocState, i: int)
    requires
        group_wf(g, st),
        0 <= i < g.len(),
    ensures
        crate::edit::backward_group(g.subrange(i, g.len() as int), forward_group(g, st)) == (DocState {
            lines: forward_group(g.take(i), st).lines,
            cursor: before_cursor(g[i]),
        }),
    decreases g.len() - i,
{
    let rest = g.subrange(i, g.len() as int);
    let mid = forward_group(g.take(i), st);
    lemma_group_step(g, st, i);
    lemma_group_wf_state(g.take(i), st);
    // the suffix is a group made from `mid` that ends where `g` ends
    lemma_suffix_group(g, st, i);
    assert(rest[0] == g[i]);
    let st2 = DocState { lines: mid.lines, cursor: before_cursor(g[i]) };
    lemma_edit_wf_lines(g[i], mid, st2);
    lemma_group_ok_shift(rest, mid, st2);
    lemma_undo_group(rest, st2, forward_group(g, st));
}

/// The edits of `g` from `i` on form a group made from the document before
/// edit `i`, and lead to where `g` leads.
proof fn lemma_suffix_group(g: Seq<Edit>, st: DocState, i: int)
    requires
        group_wf(g, st),
        0 <= i <= g.len(),
    ensures
        group_wf(g.subrange(i, g.len() as int), forward_group(g.take(i), st)),
        forward_group(g.subrange(i, g.len() as int), forward_group(g.take(i), st)) == forward_group(
            g,
            st,
        ),
    decreases g.len() - i,
{
    let mid = forward_group(g.take(i), st);
    if i == g.len() {
        assert(g.subrange(i, g.len() as int) =~= Seq::<Edit>::empty());
        assert(g.take(i) =~= g);
        lemma_group_wf_state(g, st);
    } else {
        let gp = g.drop_last();
        lemma_suffix_group(gp, st, i);
        assert(gp.take(i) =~= g.take(i));
        let r = g.subrange(i, g.len() as int);
        assert(r.drop_last() =~= gp.subrange(i, gp.len() as int));
        assert(r.last() == g.last());
    }
}

/// A group well formed from one document is well formed from any document
/// with the same lines and the group's starting cursor.
proof fn lemma_group_ok_shift(g: Seq<Edit>, a: DocState, b: DocState)
    requires
        group_wf(g, a),
        state_wf(b),
        a.lines == b.lines,
        g.len() > 0,
        b.cursor == before_cursor(g[0]),
    ensures
        group_ok(g, b),
        forward_group(g, a) == forward_group(g, b),
    decreases g.len(),
{
    lemma_group_wf_lines(g, a, b);
}

proof fn lemma_group_wf_lines(g: Seq<Edit>, a: DocState, b: DocState)
    requires
        group_wf(g, a),
        state_wf(b),
        a.lines == b.lines,
    ensures
        group_wf(g, b),
        g.len() > 0 ==> forward_group(g, a) == forward_group(g, b),
        g.len() == 0 ==> forward_group(g, a).lines == forward_group(g, b).lines,
    decreases g.len(),
{
    if g.len() > 0 {
        let gp = g.drop_last();
        lemma_group_wf_lines(gp, a, b);
        lemma_group_wf_state(gp, a);
        lemma_group_wf_state(gp, b);
        lemma_edit_wf_lines(g.last(), forward_group(gp, a), forward_group(gp, b));
    }
}

} // verus!
