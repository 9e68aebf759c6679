//! The hover tooltip: a request goes out once the pointer rests on a place
//! of the document for a while, the reply shows, and the tooltip hides
//! after the pointer leaves it.  Times are milliseconds on a clock of the
//! caller's choosing.

use vstd::prelude::*;

use crate::text_model::LspPosition;
use crate::types::EditorId;

verus! {

/// How long the pointer must rest before a hover request goes out, and how
/// long the tooltip stays after the pointer leaves the editor's text.
pub const HOVER_DELAY_MS: u64 = 400;

/// How long the tooltip stays after the pointer leaves the editor.
pub const EDITOR_EXIT_DELAY_MS: u64 = 500;

/// How long the tooltip stays after the pointer leaves the tooltip.
pub const TOOLTIP_EXIT_DELAY_MS: u64 = 300;

/// The tooltip's state.
pub struct HoverState {
    /// The text shown, if the tooltip is up.
    pub text: Option<String>,
    /// The place last pointed at.
    pub anchor: Option<(EditorId, LspPosition)>,
    /// A request waiting for the pointer to rest: where, and from when.
    pub pending: Option<(EditorId, LspPosition, u64)>,
    /// When the tooltip hides, if it is about to.
    pub hide_at: Option<u64>,
    /// The pointer is over the tooltip.
    pub interactive: bool,
    /// The editor the overlays belong to.
    pub overlay: Option<EditorId>,
}

/// The tooltip's state, abstractly.
pub struct HoverModel {
    pub text: Option<Seq<char>>,
    pub anchor: Option<(EditorId, LspPosition)>,
    pub pending: Option<(EditorId, LspPosition, u64)>,
    pub hide_at: Option<u64>,
    pub interactive: bool,
    pub overlay: Option<EditorId>,
}

impl View for HoverState {
    type V = HoverModel;

    open spec fn view(&self) -> HoverModel {
        HoverModel {
            text: match self.text {
                Some(t) => Some(t@),
                None => None,
            },
            anchor: self.anchor,
            pending: self.pending,
            hide_at: self.hide_at,
            interactive: self.interactive,
            overlay: self.overlay,
        }
    }
}

/// `t + d`, held to the clock's range.
pub open spec fn later(t: u64, d: u64) -> u64 {
    if t + d > u64::MAX {
        u64::MAX
    } else {
        (t + d) as u64
    }
}

/// The tooltip hidden and every request forgotten; the overlays stay with
/// their editor while the completion menu is open.
pub open spec fn hover_cleared(h: HoverModel, completion_visible: bool) -> HoverModel {
    HoverModel {
        text: None,
        anchor: None,
        pending: None,
        hide_at: None,
        overlay: if completion_visible { h.overlay } else { None },
        ..h
    }
}

/// The state after the pointer moved over editor `id`, at `position` of the
/// document (`None`: over no text), at time `now`.  While the pointer is
/// over the tooltip nothing changes; a new place starts the wait for a
/// request; leaving the text makes a tooltip of another editor hide soon.
pub open spec fn hover_moved(h: HoverModel, id: EditorId, position: Option<LspPosition>, now: u64) -> HoverModel {
    let h1 = if h.interactive && (h.text is None || h.overlay != Some(id)) {
        HoverModel { interactive: false, hide_at: None, pending: None, ..h }
    } else {
        h
    };
    if h.interactive && !(h.text is None || h.overlay != Some(id)) {
        h
    } else {
        match position {
            None => if h1.text is Some && h1.overlay == Some(id) {
                h1
            } else if h1.text is Some {
                HoverModel { hide_at: Some(later(now, HOVER_DELAY_MS)), ..h1 }
            } else {
                h1
            },
            Some(p) => if h1.anchor == Some((id, p)) {
                h1
            } else {
                HoverModel {
                    anchor: Some((id, p)),
                    interactive: false,
                    pending: Some((id, p, later(now, HOVER_DELAY_MS))),
                    hide_at: None,
                    ..h1
                }
            },
        }
    }
}

/// A tooltip without an editor is taken down.
pub open spec fn hover_orphan_cleared(h: HoverModel, completion_visible: bool) -> HoverModel {
    if h.text is Some && h.overlay is None {
        hover_cleared(h, completion_visible)
    } else {
        h
    }
}

/// The request that is due at `now`, if any, and the state once it is
/// taken.
pub open spec fn hover_due(h: HoverModel, now: u64) -> (HoverModel, Option<(EditorId, LspPosition)>) {
    match h.pending {
        Some((id, p, at)) => if now >= at {
            (HoverModel { pending: None, ..h }, Some((id, p)))
        } else {
            (h, None)
        },
        None => (h, None),
    }
}

/// The state after the request for editor `id` went out (`sent`) or could
/// not be sent.
pub open spec fn hover_request_done(h: HoverModel, id: EditorId, sent: bool) -> HoverModel {
    if sent {
        HoverModel { overlay: Some(id), ..h }
    } else {
        HoverModel { anchor: None, ..h }
    }
}

/// The state at time `now` once a hide that is due has happened.
pub open spec fn hover_expired(h: HoverModel, now: u64, completion_visible: bool) -> HoverModel {
    match h.hide_at {
        Some(at) => if now >= at && !h.interactive {
            hover_cleared(h, completion_visible)
        } else {
            h
        },
        None => h,
    }
}

/// The state after the server answered a hover request with `text`, the
/// editor `active` being the active one: blank text takes the tooltip
/// down, other text shows.
pub open spec fn hover_answered(h: HoverModel, text: Seq<char>, blank: bool, active: EditorId, completion_visible: bool) -> HoverModel {
    if blank {
        hover_cleared(h, completion_visible)
    } else {
        HoverModel {
            text: Some(text),
            hide_at: None,
            overlay: if h.overlay is None { Some(active) } else { h.overlay },
            ..h
        }
    }
}

impl HoverState {
    /// No tooltip, nothing pending.
    pub fn new() -> (res: Self)
        ensures
            res@ == (HoverModel { text: None, anchor: None, pending: None, hide_at: None, interactive: false, overlay: None }),
    {
        HoverState { text: None, anchor: None, pending: None, hide_at: None, interactive: false, overlay: None }
    }

    /// Takes the tooltip down and forgets every request.
    pub fn clear(&mut self, completion_visible: bool)
        ensures
            final(self)@ == hover_cleared(old(self)@, completion_visible),
    {
        self.text = None;
        self.anchor = None;
        self.pending = None;
        self.hide_at = None;
        if !completion_visible {
            self.overlay = None;
        }
    }

    /// The pointer moved over editor `id`, at `position` of the document,
    /// at time `now`.
    pub fn pointer_moved(&mut self, id: EditorId, position: Option<LspPosition>, now: u64)
        ensures
            final(self)@ == hover_moved(old(self)@, id, position, now),
    {
        if self.interactive {
            let mine = match self.overlay {
                Some(o) => o.0 == id.0,
                None => false,
            };
            if self.text.is_none() || !mine {
                self.interactive = false;
                self.hide_at = None;
                self.pending = None;
            } else {
                return;
            }
        }
        let mine = match self.overlay {
            Some(o) => o.0 == id.0,
            None => false,
        };
        match position {
            None => {
                if self.text.is_some() && mine {
                    return;
                }
                if self.text.is_some() {
                    self.hide_at = Some(now.saturating_add(HOVER_DELAY_MS));
                }
            },
            Some(p) => {
                let same = match self.anchor {
                    Some((a, q)) => a.0 == id.0 && q.line == p.line && q.character == p.character,
                    None => false,
                };
                if same {
                    return;
                }
                self.anchor = Some((id, p));
                self.interactive = false;
                self.pending = Some((id, p, now.saturating_add(HOVER_DELAY_MS)));
                self.hide_at = None;
            },
        }
    }

    /// Takes down a tooltip that belongs to no editor, then takes the
    /// request that is due at `now`, if any.
    pub fn due_request(&mut self, now: u64, completion_visible: bool) -> (res: Option<(EditorId, LspPosition)>)
        ensures
            (final(self)@, res) == hover_due(hover_orphan_cleared(old(self)@, completion_visible), now),
    {
        if self.text.is_some() && self.overlay.is_none() {
            self.clear(completion_visible);
        }
        match self.pending {
            Some((id, p, at)) => {
                if now >= at {
                    self.pending = None;
                    Some((id, p))
                } else {
                    None
                }
            },
            None => None,
        }
    }

    /// Records whether the request for editor `id` went out.
    pub fn request_done(&mut self, id: EditorId, sent: bool)
        ensures
            final(self)@ == hover_request_done(old(self)@, id, sent),
    {
        if sent {
            self.overlay = Some(id);
        } else {
            self.anchor = None;
        }
    }

    /// Hides the tooltip when its time has come at `now`.
    pub fn expire(&mut self, now: u64, completion_visible: bool)
        ensures
            final(self)@ == hover_expired(old(self)@, now, completion_visible),
    {
        match self.hide_at {
            Some(at) => {
                if now >= at && !self.interactive {
                    self.clear(completion_visible);
                }
            },
            None => {},
        }
    }

    /// The server answered with `text`; `active` is the active editor.
    pub fn answered(&mut self, text: String, active: EditorId, completion_visible: bool)
        ensures
            final(self)@ == hover_answered(
                old(self)@,
                text@,
                crate::textutil::trimmed(text@).len() == 0,
                active,
                completion_visible,
            ),
    {
        if crate::textutil::is_blank(text.as_str()) {
            self.clear(completion_visible);
        } else {
            self.text = Some(text);
            self.hide_at = None;
            if self.overlay.is_none() {
                self.overlay = Some(active);
            }
        }
    }

    /// The pointer entered editor `id`: its tooltip stays.
    pub fn editor_entered(&mut self, id: EditorId)
        ensures
            final(self)@ == (if old(self)@.overlay == Some(id) {
                HoverModel { hide_at: None, ..old(self)@ }
            } else {
                old(self)@
            }),
    {
        if let Some(o) = self.overlay {
            if o.0 == id.0 {
                self.hide_at = None;
            }
        }
    }

    /// The pointer left editor `id` at `now`: its tooltip hides soon unless
    /// the pointer is over it.
    pub fn editor_exited(&mut self, id: EditorId, now: u64)
        ensures
            final(self)@ == (if old(self)@.overlay == Some(id) && old(self)@.text is Some && !old(self)@.interactive {
                HoverModel { hide_at: Some(later(now, EDITOR_EXIT_DELAY_MS)), ..old(self)@ }
            } else {
                old(self)@
            }),
    {
        if let Some(o) = self.overlay {
            if o.0 == id.0 && self.text.is_some() && !self.interactive {
                self.hide_at = Some(now.saturating_add(EDITOR_EXIT_DELAY_MS));
            }
        }
    }

    /// The pointer entered the tooltip: it stays while the pointer is there.
    pub fn tooltip_entered(&mut self)
        ensures
            final(self)@ == (HoverModel { interactive: true, hide_at: None, ..old(self)@ }),
    {
        self.interactive = true;
        self.hide_at = None;
    }

    /// The pointer left the tooltip at `now`: it hides soon.
    pub fn tooltip_exited(&mut self, now: u64)
        ensures
            final(self)@ == (HoverModel {
                interactive: false,
                hide_at: Some(later(now, TOOLTIP_EXIT_DELAY_MS)),
                ..old(self)@
            }),
    {
        self.interactive = false;
        self.hide_at = Some(now.saturating_add(TOOLTIP_EXIT_DELAY_MS));
    }

    /// The pointer left the window at `now`: a tooltip hides soon.
    pub fn pointer_left_window(&mut self, now: u64)
        ensures
            final(self)@ == (if old(self)@.text is Some {
                HoverModel { interactive: false, hide_at: Some(later(now, HOVER_DELAY_MS)), ..old(self)@ }
            } else {
                old(self)@
            }),
    {
        if self.text.is_some() {
            self.interactive = false;
            self.hide_at = Some(now.saturating_add(HOVER_DELAY_MS));
        }
    }
}

/// A hover request goes out only once the pointer has rested: after the
/// pointer moves to a new place of an editor at time `t` (the pointer not
/// over the tooltip, and any tooltip belonging to an editor), the request
/// for that place is due at `now` exactly when `now` is at least the delay
/// past `t`.
pub proof fn lemma_request_after_rest(
    h: HoverModel,
    id: EditorId,
    p: LspPosition,
    t: u64,
    now: u64,
    completion_visible: bool,
)
    requires
        !h.interactive,
        h.anchor != Some((id, p)),
        h.text is Some ==> h.overlay is Some,
    ensures
        ({
            let h1 = hover_moved(h, id, Some(p), t);
            let (h2, due) = hover_due(hover_orphan_cleared(h1, completion_visible), now);
            &&& h1.pending == Some((id, p, later(t, HOVER_DELAY_MS)))
            &&& (due == Some((id, p)) <==> now >= later(t, HOVER_DELAY_MS))
            &&& (due is None ==> h2.pending == h1.pending)
        }),
{
}

/// A tooltip the pointer is over never hides by time.
pub proof fn lemma_interactive_stays(h: HoverModel, now: u64, completion_visible: bool)
    requires
        h.interactive,
    ensures
        hover_expired(h, now, completion_visible) == h,
{
}

} // verus!
