use atomartist_ui::node_insertion::{PileUp, PILE_UP_STEP_UNITS, PILE_UP_WRAP_UNITS};

#[test]
fn the_pile_up_offset_advances_and_wraps() {
    let mut pile = PileUp::new();
    pile.reset_pile_up_offset();
    assert_eq!(pile.pile_up_offset(), 0);
    let seen: Vec<u32> = (0..6)
        .map(|_| {
            pile.advance_pile_up_offset();
            pile.pile_up_offset()
        })
        .collect();
    assert_eq!(seen, vec![30, 60, 90, 120, 150, 0]);
    assert!(
        seen.iter().all(|v| *v <= PILE_UP_WRAP_UNITS),
        "the offset never marches past the wrap point"
    );
    pile.reset_pile_up_offset();
    assert_eq!(pile.pile_up_offset(), 0);
}

#[test]
fn the_step_is_thirty_units() {
    assert_eq!(PILE_UP_STEP_UNITS, 30);
    assert_eq!(PILE_UP_WRAP_UNITS, 150);
}
