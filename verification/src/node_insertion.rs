//! The pile-up fan-out for nodes placed relative to the graph's Output
//! when the free-slot scan found no room: each such placement moves one
//! step further, wrapping back to zero past the limit, so successive
//! give-up placements fan out instead of marching off the canvas.
//!
//! Offsets are whole canvas units.
use vstd::prelude::*;

verus! {

/// One fan-out step, in canvas units.
pub const PILE_UP_STEP_UNITS: u32 = 30;

/// The offset wraps to zero once a step would pass this.
pub const PILE_UP_WRAP_UNITS: u32 = 150;

/// The offset after one step from `offset`.
pub open spec fn advanced(offset: u32) -> u32 {
    if offset + PILE_UP_STEP_UNITS > PILE_UP_WRAP_UNITS {
        0
    } else {
        (offset + PILE_UP_STEP_UNITS) as u32
    }
}

/// The current pile-up offset.
#[derive(Debug, Default)]
pub struct PileUp {
    offset: u32,
}

impl PileUp {
    /// No fan-out yet.
    pub fn new() -> (p: PileUp)
        ensures
            p.offset_spec() == 0,
    {
        PileUp { offset: 0 }
    }

    /// The current offset.
    pub closed spec fn offset_spec(&self) -> u32 {
        self.offset
    }

    /// The current offset.
    pub fn pile_up_offset(&self) -> (r: u32)
        ensures
            r == self.offset_spec(),
    {
        self.offset
    }

    /// Advance the offset one step, wrapping past [`PILE_UP_WRAP_UNITS`].
    pub fn advance_pile_up_offset(&mut self)
        ensures
            final(self).offset_spec() == advanced(old(self).offset_spec()),
    {
        if self.offset > PILE_UP_WRAP_UNITS - PILE_UP_STEP_UNITS {
            self.offset = 0;
        } else {
            self.offset = self.offset + PILE_UP_STEP_UNITS;
        }
    }

    /// Reset the fan-out.
    pub fn reset_pile_up_offset(&mut self)
        ensures
            final(self).offset_spec() == 0,
    {
        self.offset = 0;
    }
}

/// From zero, the offset only ever takes the values `0, 30, …, 150`, and
/// six steps bring it back to where it was.
pub proof fn lemma_pile_up_cycles(offset: u32)
    requires
        offset % PILE_UP_STEP_UNITS == 0,
        offset <= PILE_UP_WRAP_UNITS,
    ensures
        advanced(offset) % PILE_UP_STEP_UNITS == 0,
        advanced(offset) <= PILE_UP_WRAP_UNITS,
        advanced(advanced(advanced(advanced(advanced(advanced(offset)))))) == offset,
{
}

} // verus!
