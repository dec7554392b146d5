//! The slot for a floating editor dialog (the colour picker a node's
//! property panel opens): the node editor queues a dialog, and the
//! app-level host takes it up on its next pass, so the dialog can be
//! dragged anywhere in the window rather than clipped to the pane that
//! opened it.
//!
//! A queued dialog replaces one that was never taken up. An active
//! dialog is never replaced: its own close request is the only way for
//! it to make way for the next one.
use vstd::prelude::*;

verus! {

/// The queued dialog and the one on screen.
pub struct FloatingOverlayHost<T> {
    pending: Option<T>,
    active: Option<T>,
}

/// What one sync of the host does: the active dialog goes if it asked
/// to close; then, with none on screen, the queued one comes up.
/// Returns the new `(pending, active)` and whether anything changed.
pub open spec fn synced<T>(pending: Option<T>, active: Option<T>, close_requested: bool) -> (
    Option<T>,
    Option<T>,
    bool,
) {
    let closing = active is Some && close_requested;
    let a1 = if closing {
        None
    } else {
        active
    };
    if a1 is None && pending is Some {
        (None, pending, true)
    } else {
        (pending, a1, closing)
    }
}

impl<T> FloatingOverlayHost<T> {
    /// The queued dialog, not yet taken up.
    pub closed spec fn pending_spec(&self) -> Option<T> {
        self.pending
    }

    /// The dialog on screen.
    pub closed spec fn active_spec(&self) -> Option<T> {
        self.active
    }

    /// Nothing queued, nothing on screen.
    pub fn new() -> (r: FloatingOverlayHost<T>)
        ensures
            r.pending_spec() is None,
            r.active_spec() is None,
    {
        FloatingOverlayHost { pending: None, active: None }
    }

    /// Queue `dialog`, replacing one the host has not taken up yet.
    pub fn set(&mut self, dialog: T)
        ensures
            final(self).pending_spec() == Some(dialog),
            final(self).active_spec() == old(self).active_spec(),
    {
        self.pending = Some(dialog);
    }

    /// Whether a dialog is queued.
    pub fn is_pending(&self) -> (r: bool)
        ensures
            r == (self.pending_spec() is Some),
    {
        self.pending.is_some()
    }

    /// Whether a dialog is on screen. Without one the host lets every
    /// event fall through to the widgets below.
    pub fn has_active(&self) -> (r: bool)
        ensures
            r == (self.active_spec() is Some),
    {
        self.active.is_some()
    }

    /// The dialog on screen.
    pub fn active(&self) -> (r: Option<&T>)
        ensures
            match r {
                Some(d) => self.active_spec() == Some(*d),
                None => self.active_spec() is None,
            },
    {
        match &self.active {
            Some(d) => Some(d),
            None => None,
        }
    }

    /// The dialog on screen, to lay out or dispatch to.
    pub fn active_mut(&mut self) -> (r: Option<&mut T>)
        ensures
            match r {
                Some(d) => old(self).active_spec() == Some(*d) && final(self).active_spec() == Some(*final(d))
                    && final(self).pending_spec() == old(self).pending_spec(),
                None => old(self).active_spec() is None && *final(self) == *old(self),
            },
    {
        match &mut self.active {
            Some(d) => Some(d),
            None => None,
        }
    }

    /// One sync, at the start of every layout, paint and event pass:
    /// `close_requested` is the active dialog's close flag, read and
    /// cleared by the caller. Returns whether the window must repaint.
    pub fn sync(&mut self, close_requested: bool) -> (changed: bool)
        ensures
            (final(self).pending_spec(), final(self).active_spec(), changed) == synced(
                old(self).pending_spec(),
                old(self).active_spec(),
                close_requested,
            ),
    {
        let mut changed = false;
        if self.active.is_some() && close_requested {
            self.active = None;
            changed = true;
        }
        if self.active.is_none() {
            if let Some(d) = self.pending.take() {
                self.active = Some(d);
                changed = true;
            }
        }
        changed
    }
}

} // verus!
