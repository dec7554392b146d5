//! The graph navigation cluster's state machine.

use atomartist_ui::graph_nav::{GraphNavCluster, NavCommand, NavEvent, NavMode, NavRegion};

/// Press and release on the same button.
fn click(c: &mut GraphNavCluster, region: NavRegion) -> Option<NavCommand> {
    let down = c.on_event(NavEvent::Down(Some(region)));
    assert!(down.consumed);
    let up = c.on_event(NavEvent::Up(Some(region)));
    assert!(up.consumed);
    up.command
}

#[test]
fn home_queues_fit_to_content() {
    let mut c = GraphNavCluster::new();
    assert_eq!(click(&mut c, NavRegion::Home), Some(NavCommand::FitToContent));
    assert_eq!(c.mode, NavMode::Select, "mode is untouched");
}

#[test]
fn mode_segments_switch_and_deduplicate() {
    let mut c = GraphNavCluster::new();
    assert_eq!(c.mode, NavMode::Select, "Select is the default");

    assert_eq!(click(&mut c, NavRegion::Mode(1)), Some(NavCommand::SetInteractionMode(NavMode::Pan)));
    assert_eq!(c.mode, NavMode::Pan);

    assert_eq!(click(&mut c, NavRegion::Mode(1)), None, "already in pan mode");

    assert_eq!(click(&mut c, NavRegion::Mode(2)), Some(NavCommand::SetInteractionMode(NavMode::Zoom)));
    assert_eq!(c.mode, NavMode::Zoom);
}

#[test]
fn a_press_that_slides_off_does_not_fire() {
    let mut c = GraphNavCluster::new();
    assert!(c.on_event(NavEvent::Down(Some(NavRegion::Home))).consumed);
    let up = c.on_event(NavEvent::Up(None));
    assert!(up.consumed, "the armed press is consumed");
    assert_eq!(up.command, None);
    assert_eq!(c.pressed, None);
    // A release that slides onto another button is no click either.
    c.on_event(NavEvent::Down(Some(NavRegion::Mode(2))));
    assert_eq!(c.on_event(NavEvent::Up(Some(NavRegion::Mode(1)))).command, None);
    assert_eq!(c.mode, NavMode::Select);
}

#[test]
fn tooltips_track_the_hovered_button() {
    let mut c = GraphNavCluster::new();
    assert_eq!(c.tooltip_text(), None);

    assert!(c.on_event(NavEvent::Move(Some(NavRegion::Home))).redraw);
    assert_eq!(c.tooltip_text(), Some("Reset graph view"));

    for (index, expected) in [(0, "Select Mode"), (1, "Pan Mode (middle click)"), (2, "Zoom Mode (scroll wheel)")] {
        c.on_event(NavEvent::Move(Some(NavRegion::Mode(index))));
        assert_eq!(c.tooltip_text(), Some(expected));
    }
    assert!(!c.on_event(NavEvent::Move(Some(NavRegion::Mode(2)))).redraw, "same button, no repaint");

    // Leaving the widget clears the hover latch.
    c.on_event(NavEvent::Move(None));
    assert_eq!(c.tooltip_text(), None);
    assert_eq!(c.hovered_name(), "none");
}

#[test]
fn the_inspector_names_the_hovered_button() {
    let mut c = GraphNavCluster::new();
    c.on_event(NavEvent::Move(Some(NavRegion::Home)));
    assert_eq!(c.hovered_name(), "home");
    c.on_event(NavEvent::Move(Some(NavRegion::Mode(1))));
    assert_eq!(c.hovered_name(), "pan");
}

#[test]
fn presses_off_the_buttons_are_not_taken() {
    let mut c = GraphNavCluster::new();
    let r = c.on_event(NavEvent::Down(None));
    assert!(!r.consumed);
    let r = c.on_event(NavEvent::Up(None));
    assert!(!r.consumed, "nothing was armed");
}
