//! Which editor receives keyboard input.  Editors get ids counting up from
//! one; the first editor holds the focus until another asks for it.

use vstd::prelude::*;

verus! {

/// The ids handed to editors and the id of the focused one (0: none).
pub struct FocusRegistry {
    next_id: u64,
    focused: u64,
}

impl View for FocusRegistry {
    type V = (u64, u64);

    closed spec fn view(&self) -> (u64, u64) {
        (self.next_id, self.focused)
    }
}

impl FocusRegistry {
    /// No editor yet; the first id handed out is 1.
    pub fn new() -> (res: Self)
        ensures
            res@ == (1u64, 0u64),
    {
        FocusRegistry { next_id: 1, focused: 0 }
    }

    /// Hands out the id of a new editor; the editor with id 1 takes the focus.
    pub fn register(&mut self) -> (id: u64)
        ensures
            id == old(self)@.0,
            final(self)@.0 == id.wrapping_add(1),
            final(self)@.1 == if id == 1 {
                1
            } else {
                old(self)@.1
            },
    {
        let id = self.next_id;
        self.next_id = self.next_id.wrapping_add(1);
        if id == 1 {
            self.focused = id;
        }
        id
    }

    /// Gives the focus to editor `id`; every other editor loses it.
    pub fn request_focus(&mut self, id: u64)
        ensures
            final(self)@ == focus_given(old(self)@, id),
    {
        self.focused = id;
    }

    /// Whether editor `id` has the focus.
    pub fn is_focused(&self, id: u64) -> (res: bool)
        ensures
            res == has_focus(self@, id),
    {
        self.focused == id
    }
}

/// The registry after editor `id` asked for the focus.
pub open spec fn focus_given(r: (u64, u64), id: u64) -> (u64, u64) {
    (r.0, id)
}

/// Editor `id` has the focus.
pub open spec fn has_focus(r: (u64, u64), id: u64) -> bool {
    r.1 == id
}

/// After an editor asks for the focus, it has the focus and no other
/// editor does.
pub proof fn lemma_focus_exclusive(r: (u64, u64), id: u64, other: u64)
    ensures
        has_focus(focus_given(r, id), other) <==> other == id,
{
}

} // verus!
