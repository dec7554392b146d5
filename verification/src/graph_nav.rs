//! The graph pane's navigation cluster: a home button that fits the
//! graph to the pane, and a segmented Select / Pan / Zoom control that
//! re-binds the left mouse button.
//!
//! This is the cluster's state machine. The widget hit-tests the pointer
//! against its buttons (that is geometry) and hands the result in as an
//! event; what comes back says whether the event was consumed, which
//! command goes to the node editor, and whether to redraw.
use vstd::prelude::*;

verus! {

/// What the left mouse button does in the node editor.
#[derive(Clone, Copy, Debug, PartialEq, Eq, Structural)]
pub enum NavMode {
    Select,
    Pan,
    Zoom,
}

/// How many segments the mode control has.
pub const MODE_COUNT: usize = 3;

/// The mode of segment `i`, in display order.
pub open spec fn mode_at(i: int) -> NavMode {
    if i == 0 {
        NavMode::Select
    } else if i == 1 {
        NavMode::Pan
    } else {
        NavMode::Zoom
    }
}

/// The mode of segment `i`, in display order.
pub fn segment_mode(i: usize) -> (r: NavMode)
    requires
        i < MODE_COUNT,
    ensures
        r == mode_at(i as int),
{
    if i == 0 {
        NavMode::Select
    } else if i == 1 {
        NavMode::Pan
    } else {
        NavMode::Zoom
    }
}

/// A mode's short name, as the inspector shows it.
pub open spec fn mode_name_spec(m: NavMode) -> Seq<char> {
    match m {
        NavMode::Select => "select"@,
        NavMode::Pan => "pan"@,
        NavMode::Zoom => "zoom"@,
    }
}

/// A mode's short name, as the inspector shows it.
pub fn mode_name(m: NavMode) -> (r: &'static str)
    ensures
        r@ == mode_name_spec(m),
{
    match m {
        NavMode::Select => "select",
        NavMode::Pan => "pan",
        NavMode::Zoom => "zoom",
    }
}

/// A button of the cluster.
#[derive(Clone, Copy, Debug, PartialEq, Eq, Structural)]
pub enum NavRegion {
    Home,
    /// Segment `i` of the mode control.
    Mode(usize),
}

/// Whether a region names a button the cluster has.
pub open spec fn region_ok(r: Option<NavRegion>) -> bool {
    match r {
        Some(NavRegion::Mode(i)) => i < MODE_COUNT,
        _ => true,
    }
}

/// A button's tooltip.
pub open spec fn tooltip_spec(r: NavRegion) -> Seq<char> {
    match r {
        NavRegion::Home => "Reset graph view"@,
        NavRegion::Mode(0) => "Select Mode"@,
        NavRegion::Mode(1) => "Pan Mode (middle click)"@,
        NavRegion::Mode(_) => "Zoom Mode (scroll wheel)"@,
    }
}

impl NavRegion {
    /// The button's tooltip.
    pub fn tooltip(self) -> (r: &'static str)
        ensures
            r@ == tooltip_spec(self),
    {
        match self {
            NavRegion::Home => "Reset graph view",
            NavRegion::Mode(0) => "Select Mode",
            NavRegion::Mode(1) => "Pan Mode (middle click)",
            NavRegion::Mode(_) => "Zoom Mode (scroll wheel)",
        }
    }
}

/// A command for the node editor.
#[derive(Clone, Copy, Debug, PartialEq, Eq, Structural)]
pub enum NavCommand {
    /// Animate a fit of the whole graph into the pane.
    FitToContent,
    /// Re-bind the left mouse button.
    SetInteractionMode(NavMode),
}

/// A pointer event, with the button under the pointer (`None` over no
/// button, or when the pointer left the widget). Presses and releases
/// are of the left button.
#[derive(Clone, Copy, Debug, PartialEq, Eq, Structural)]
pub enum NavEvent {
    Move(Option<NavRegion>),
    Down(Option<NavRegion>),
    Up(Option<NavRegion>),
}

/// What an event leads to.
#[derive(Clone, Copy, Debug, PartialEq, Eq, Structural)]
pub struct NavReaction {
    /// The cluster took the event.
    pub consumed: bool,
    /// The command for the node editor, if any.
    pub command: Option<NavCommand>,
    /// The cluster must be repainted.
    pub redraw: bool,
}

/// The cluster's state.
#[derive(Clone, Copy, Debug, PartialEq, Eq, Structural)]
pub struct GraphNavCluster {
    /// The active mode.
    pub mode: NavMode,
    /// The button under the pointer.
    pub hovered: Option<NavRegion>,
    /// The button a press started on.
    pub pressed: Option<NavRegion>,
}

/// Running button `r`: home fits the graph; a segment switches the mode,
/// and the active one sends nothing.
pub open spec fn activated(s: GraphNavCluster, r: NavRegion) -> (GraphNavCluster, Option<NavCommand>) {
    match r {
        NavRegion::Home => (s, Some(NavCommand::FitToContent)),
        NavRegion::Mode(i) => {
            let m = mode_at(i as int);
            if s.mode == m {
                (s, None)
            } else {
                (GraphNavCluster { mode: m, ..s }, Some(NavCommand::SetInteractionMode(m)))
            }
        },
    }
}

/// One event: a move latches the hovered button (redrawing when it
/// changes); a press on a button arms it; a release on the armed button
/// is a click; a release anywhere disarms, and is consumed when a press
/// was armed.
pub open spec fn nav_step(s: GraphNavCluster, e: NavEvent) -> (GraphNavCluster, NavReaction) {
    match e {
        NavEvent::Move(r) => (
            GraphNavCluster { hovered: r, ..s },
            NavReaction { consumed: false, command: None, redraw: s.hovered != r },
        ),
        NavEvent::Down(Some(r)) => (
            GraphNavCluster { pressed: Some(r), ..s },
            NavReaction { consumed: true, command: None, redraw: false },
        ),
        NavEvent::Down(None) => (s, NavReaction { consumed: false, command: None, redraw: false }),
        NavEvent::Up(r) => {
            let s1 = GraphNavCluster { pressed: None, ..s };
            match s.pressed {
                Some(a) => if r == Some(a) {
                    let (s2, c) = activated(s1, a);
                    (s2, NavReaction { consumed: true, command: c, redraw: true })
                } else {
                    (s1, NavReaction { consumed: true, command: None, redraw: false })
                },
                None => (s1, NavReaction { consumed: false, command: None, redraw: false }),
            }
        },
    }
}

/// Whether an event names only buttons the cluster has.
pub open spec fn event_ok(e: NavEvent) -> bool {
    match e {
        NavEvent::Move(r) => region_ok(r),
        NavEvent::Down(r) => region_ok(r),
        NavEvent::Up(r) => region_ok(r),
    }
}

impl GraphNavCluster {
    /// The cluster's invariant: the latched buttons exist.
    pub open spec fn wf(self) -> bool {
        region_ok(self.hovered) && region_ok(self.pressed)
    }

    /// Select mode, nothing hovered or pressed.
    pub fn new() -> (s: GraphNavCluster)
        ensures
            s == (GraphNavCluster { mode: NavMode::Select, hovered: None, pressed: None }),
            s.wf(),
    {
        GraphNavCluster { mode: NavMode::Select, hovered: None, pressed: None }
    }

    fn activate(&mut self, r: NavRegion) -> (c: Option<NavCommand>)
        requires
            region_ok(Some(r)),
        ensures
            (*final(self), c) == activated(*old(self), r),
    {
        match r {
            NavRegion::Home => Some(NavCommand::FitToContent),
            NavRegion::Mode(i) => {
                let m = segment_mode(i);
                if self.mode == m {
                    None
                } else {
                    self.mode = m;
                    Some(NavCommand::SetInteractionMode(m))
                }
            },
        }
    }

    /// Handle one event; see [`nav_step`].
    pub fn on_event(&mut self, e: NavEvent) -> (r: NavReaction)
        requires
            old(self).wf(),
            event_ok(e),
        ensures
            (*final(self), r) == nav_step(*old(self), e),
            final(self).wf(),
    {
        match e {
            NavEvent::Move(r) => {
                let changed = self.hovered != r;
                self.hovered = r;
                NavReaction { consumed: false, command: None, redraw: changed }
            },
            NavEvent::Down(Some(r)) => {
                self.pressed = Some(r);
                NavReaction { consumed: true, command: None, redraw: false }
            },
            NavEvent::Down(None) => NavReaction { consumed: false, command: None, redraw: false },
            NavEvent::Up(r) => {
                let pressed = self.pressed;
                self.pressed = None;
                match pressed {
                    Some(a) => {
                        if r == Some(a) {
                            let c = self.activate(a);
                            NavReaction { consumed: true, command: c, redraw: true }
                        } else {
                            NavReaction { consumed: true, command: None, redraw: false }
                        }
                    },
                    None => NavReaction { consumed: false, command: None, redraw: false },
                }
            },
        }
    }

    /// The tooltip of the hovered button; none over no button.
    pub fn tooltip_text(&self) -> (r: Option<&'static str>)
        ensures
            match self.hovered {
                Some(h) => r matches Some(t) && t@ == tooltip_spec(h),
                None => r is None,
            },
    {
        match self.hovered {
            Some(h) => Some(h.tooltip()),
            None => None,
        }
    }

    /// What the pointer is over, as the inspector shows it: `none`,
    /// `home`, or the hovered segment's mode name.
    pub fn hovered_name(&self) -> (r: &'static str)
        requires
            self.wf(),
        ensures
            r@ == match self.hovered {
                None => "none"@,
                Some(NavRegion::Home) => "home"@,
                Some(NavRegion::Mode(i)) => mode_name_spec(mode_at(i as int)),
            },
    {
        match self.hovered {
            None => "none",
            Some(NavRegion::Home) => "home",
            Some(NavRegion::Mode(i)) => mode_name(segment_mode(i)),
        }
    }
}

/// A click (press, then release on the same button) on mode segment `i`
/// — Select, Pan, Zoom in display order — makes that mode the active one;
/// when it was not already, the node editor is told to switch to it. A
/// click on home fits the graph and leaves the mode alone. Either way the
/// click is consumed, redrawn, and disarms the cluster.
pub proof fn lemma_click_selects_the_segment_mode(s: GraphNavCluster, i: usize)
    requires
        i < MODE_COUNT,
    ensures
        ({
            let m = seq![NavMode::Select, NavMode::Pan, NavMode::Zoom][i as int];
            let (s1, _) = nav_step(s, NavEvent::Down(Some(NavRegion::Mode(i))));
            let (s2, r) = nav_step(s1, NavEvent::Up(Some(NavRegion::Mode(i))));
            &&& s2.mode == m
            &&& s2.pressed is None
            &&& s2.hovered == s.hovered
            &&& r.consumed && r.redraw
            &&& r.command == if s.mode == m {
                None
            } else {
                Some(NavCommand::SetInteractionMode(m))
            }
        }),
        ({
            let (s1, _) = nav_step(s, NavEvent::Down(Some(NavRegion::Home)));
            let (s2, r) = nav_step(s1, NavEvent::Up(Some(NavRegion::Home)));
            &&& s2.mode == s.mode
            &&& s2.pressed is None
            &&& r == NavReaction { consumed: true, command: Some(NavCommand::FitToContent), redraw: true }
        }),
{
}

} // verus!
