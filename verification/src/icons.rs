//! Identity of each glyph the viewport toolbar's circular buttons paint.
use vstd::prelude::*;

verus! {

/// Identity of the icon to paint. A flat, `Copy` enum so a button can
/// store it and dispatch on it while painting.
#[derive(Clone, Copy, Debug, PartialEq, Eq, Structural)]
pub enum IconKind {
    /// Reset-view: house outline.
    Home,
    /// Fit-to-selection: four inward-pointing corner brackets.
    Fit,
    /// Pointer arrow.
    Select,
    /// Rotate: 3/4 circular arrow.
    Rotate,
    /// Pan: 4-way arrows.
    Pan,
    /// Zoom: magnifier with diagonal handle.
    Zoom,
    /// Turntable: arrow looping around a horizontal disc.
    Turn,
    /// Perspective: 3 lines converging to a vanishing point.
    Persp,
    /// Print-bed / floor-grid: three horizontal lines.
    Bed,
    /// Shaded sphere — half-lit circle.
    Shade,
    /// Three dots on a horizontal line (snap intervals).
    Snap,
    /// Small downward chevron: "this opens a dropdown".
    DropdownChevron,
}

} // verus!
