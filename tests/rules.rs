use game_of_life::{next_state, Cell, Seeding};

#[test]
fn rule_table_covers_every_case() {
    for n in 0..=8usize {
        let survives = n == 2 || n == 3;
        assert_eq!(next_state(true, n), survives, "live cell with {} neighbors", n);
        assert_eq!(next_state(false, n), n == 3, "dead cell with {} neighbors", n);
    }
}

#[test]
fn live_cell_dies_of_underpopulation() {
    assert!(!next_state(true, 0));
    assert!(!next_state(true, 1));
}

#[test]
fn live_cell_dies_of_overpopulation() {
    assert!(!next_state(true, 4));
    assert!(!next_state(true, 8));
}

#[test]
fn dead_cell_is_born_on_three() {
    assert!(next_state(false, 3));
    assert!(!next_state(false, 2));
    assert!(!next_state(false, 4));
}

#[test]
fn seeding_cell_for_draw_compares_with_threshold() {
    let s = Seeding::sparse();
    assert_eq!(s.alive_below, 2);
    assert_eq!(s.draw_range, 9);
    assert_eq!(s.cell_for_draw(0), Cell { alive: true });
    assert_eq!(s.cell_for_draw(1), Cell { alive: true });
    assert_eq!(s.cell_for_draw(2), Cell { alive: false });
    assert_eq!(s.cell_for_draw(8), Cell { alive: false });
    let e = Seeding::empty();
    assert_eq!(e.cell_for_draw(0), Cell { alive: false });
}
