//! The first-paint gate: a shell paints on its very first tick no matter
//! what the host reports, and afterwards only when the window was resized
//! or the host asks for a frame.
use vstd::prelude::*;

verus! {

/// Whether the shell has painted at least once.
#[derive(Debug, Default)]
pub struct FirstPaintGate {
    painted: bool,
}

impl FirstPaintGate {
    /// A gate that has not painted yet.
    pub fn new() -> (g: FirstPaintGate)
        ensures
            !g.painted_spec(),
    {
        FirstPaintGate { painted: false }
    }

    /// Whether the first paint has happened.
    pub closed spec fn painted_spec(&self) -> bool {
        self.painted
    }

    /// Whether the first paint has happened.
    pub fn has_painted(&self) -> (r: bool)
        ensures
            r == self.painted_spec(),
    {
        self.painted
    }

    /// Record that a frame was painted.
    pub fn mark_painted(&mut self)
        ensures
            final(self).painted_spec(),
    {
        self.painted = true;
    }

    /// Whether this tick must paint: always before the first paint, on a
    /// resize, and otherwise when the host wants a draw. The host is only
    /// asked when neither of the first two holds.
    pub fn should_paint_tick(&self, resized: bool, host_wants_draw: impl FnOnce() -> bool) -> (r: bool)
        requires
            self.painted_spec() && !resized ==> call_requires(host_wants_draw, ()),
        ensures
            !self.painted_spec() || resized ==> r,
            self.painted_spec() && !resized ==> call_ensures(host_wants_draw, (), r),
    {
        !self.painted || resized || host_wants_draw()
    }
}

} // verus!
