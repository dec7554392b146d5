use atomartist_ui::first_paint::FirstPaintGate;

#[test]
fn the_first_tick_paints_whatever_the_host_says() {
    let gate = FirstPaintGate::new();
    assert!(!gate.has_painted());
    assert!(gate.should_paint_tick(false, || false));
}

#[test]
fn after_the_first_paint_only_a_resize_or_the_host_forces_a_frame() {
    let mut gate = FirstPaintGate::new();
    gate.mark_painted();
    assert!(gate.has_painted());
    assert!(!gate.should_paint_tick(false, || false));
    assert!(gate.should_paint_tick(false, || true));
    assert!(gate.should_paint_tick(true, || false));
}

#[test]
fn the_host_is_not_asked_when_the_answer_is_already_known() {
    let gate = FirstPaintGate::new();
    let mut asked = false;
    assert!(gate.should_paint_tick(false, || {
        asked = true;
        false
    }));
    assert!(!asked);
}
