//! The floating dialog slot.

use atomartist_ui::floating_overlay::FloatingOverlayHost;

#[test]
fn empty_host_passes_through_events() {
    let mut overlay: FloatingOverlayHost<&str> = FloatingOverlayHost::new();
    assert!(!overlay.is_pending());
    assert!(!overlay.has_active(), "with no dialog every event falls through");
    assert!(!overlay.sync(true), "a close request with nothing up changes nothing");
}

#[test]
fn layout_claims_pending_dialog_from_handle() {
    let mut overlay = FloatingOverlayHost::new();
    overlay.set("picker");
    assert!(overlay.is_pending());
    assert!(overlay.sync(false));
    assert!(!overlay.is_pending(), "host should have taken the dialog");
    assert_eq!(overlay.active(), Some(&"picker"));
}

#[test]
fn close_flag_drops_child_on_next_layout() {
    let mut overlay = FloatingOverlayHost::new();
    overlay.set("picker");
    overlay.sync(false);
    assert!(overlay.has_active());
    assert!(!overlay.sync(false), "nothing to do");
    assert!(overlay.sync(true));
    assert!(!overlay.has_active(), "host should have dropped the closed dialog");
}

#[test]
fn an_active_dialog_is_never_replaced() {
    let mut overlay = FloatingOverlayHost::new();
    overlay.set("first");
    overlay.sync(false);
    overlay.set("second");
    overlay.set("third");
    assert!(!overlay.sync(false));
    assert_eq!(overlay.active(), Some(&"first"), "only its close request makes way");
    assert!(overlay.sync(true));
    assert_eq!(overlay.active(), Some(&"third"), "the newest queued dialog comes up in the same pass");
    assert!(!overlay.is_pending());
}

#[test]
fn the_active_dialog_can_be_updated_in_place() {
    let mut overlay = FloatingOverlayHost::new();
    overlay.set(1u32);
    overlay.sync(false);
    if let Some(d) = overlay.active_mut() {
        *d += 1;
    }
    assert_eq!(overlay.active(), Some(&2));
}
