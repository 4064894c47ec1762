use game_of_life::{AutomatonState, Boundary, LifeError, Seeding};

fn grid_with(rows: usize, cols: usize, boundary: Boundary, live: &[(usize, usize)]) -> AutomatonState {
    let mut g = AutomatonState::new(rows, cols, boundary, Seeding::empty(), 1).unwrap();
    for &(r, c) in live {
        g.set_alive(r, c, true).unwrap();
    }
    g
}

fn live_cells(g: &AutomatonState) -> Vec<(usize, usize)> {
    let mut out = Vec::new();
    for r in 0..g.rows() {
        for c in 0..g.cols() {
            if g.is_alive(r, c).unwrap() {
                out.push((r, c));
            }
        }
    }
    out
}

fn snapshot(g: &AutomatonState) -> Vec<bool> {
    let mut out = Vec::new();
    for r in 0..g.rows() {
        for c in 0..g.cols() {
            out.push(g.is_alive(r, c).unwrap());
        }
    }
    out
}

#[test]
fn new_rejects_zero_dimensions() {
    let a = AutomatonState::new(0, 4, Boundary::Wrap, Seeding::sparse(), 3);
    assert_eq!(a.err(), Some(LifeError::InvalidDimensions));
    let b = AutomatonState::new(4, 0, Boundary::Clamp, Seeding::sparse(), 3);
    assert_eq!(b.err(), Some(LifeError::InvalidDimensions));
}

#[test]
fn new_keeps_dimensions_and_boundary() {
    let g = AutomatonState::new(7, 5, Boundary::Clamp, Seeding::sparse(), 3).unwrap();
    assert_eq!(g.rows(), 7);
    assert_eq!(g.cols(), 5);
    assert_eq!(g.boundary(), Boundary::Clamp);
    assert_eq!(snapshot(&g).len(), 35);
}

#[test]
fn empty_seeding_gives_dead_grid() {
    let g = AutomatonState::new(4, 4, Boundary::Wrap, Seeding::empty(), 9).unwrap();
    assert!(live_cells(&g).is_empty());
}

#[test]
fn certain_seeding_gives_live_grid() {
    let s = Seeding { alive_below: 9, draw_range: 9 };
    let g = AutomatonState::new(6, 6, Boundary::Wrap, s, 9).unwrap();
    assert_eq!(live_cells(&g).len(), 36);
}

#[test]
fn even_seeding_gives_a_mix() {
    let s = Seeding { alive_below: 1, draw_range: 2 };
    let g = AutomatonState::new(40, 40, Boundary::Wrap, s, 12345).unwrap();
    let n = live_cells(&g).len();
    assert!(n > 0 && n < 1600);
}

#[test]
fn out_of_range_query_is_refused() {
    let mut g = grid_with(3, 4, Boundary::Wrap, &[]);
    assert_eq!(g.is_alive(3, 0), Err(LifeError::OutOfRangeQuery));
    assert_eq!(g.is_alive(0, 4), Err(LifeError::OutOfRangeQuery));
    assert_eq!(g.is_alive(2, 3), Ok(false));
    assert_eq!(g.set_alive(3, 0, true), Err(LifeError::OutOfRangeQuery));
    assert_eq!(g.set_alive(0, 4, true), Err(LifeError::OutOfRangeQuery));
    assert_eq!(g.set_alive(2, 3, true), Ok(()));
    assert_eq!(g.is_alive(2, 3), Ok(true));
}

#[test]
fn blinker_oscillates_with_period_two() {
    let start = grid_with(5, 5, Boundary::Wrap, &[(2, 1), (2, 2), (2, 3)]);
    let mut g = grid_with(5, 5, Boundary::Wrap, &[(2, 1), (2, 2), (2, 3)]);
    g.step();
    assert_eq!(live_cells(&g), vec![(1, 2), (2, 2), (3, 2)]);
    g.step();
    assert_eq!(live_cells(&g), live_cells(&start));
    assert_eq!(live_cells(&g), vec![(2, 1), (2, 2), (2, 3)]);
}

#[test]
fn wrap_corners_are_neighbors() {
    let g = grid_with(3, 3, Boundary::Wrap, &[(0, 0), (0, 2), (2, 0), (2, 2)]);
    assert_eq!(g.count_live_neighbors(0, 0), 3);
    assert_eq!(g.count_live_neighbors(2, 2), 3);
    assert_eq!(g.count_live_neighbors(1, 1), 4);
    let h = grid_with(3, 3, Boundary::Wrap, &[(2, 2)]);
    assert_eq!(h.count_live_neighbors(0, 0), 1);
}

#[test]
fn clamp_corners_do_not_wrap() {
    let g = grid_with(3, 3, Boundary::Clamp, &[(0, 0), (0, 2), (2, 0), (2, 2)]);
    assert_eq!(g.count_live_neighbors(0, 0), 0);
    assert_eq!(g.count_live_neighbors(2, 2), 0);
    assert_eq!(g.count_live_neighbors(1, 1), 4);
    assert_eq!(g.count_live_neighbors(0, 1), 2);
}

#[test]
fn clamp_counts_three_five_eight_on_full_grid() {
    let all: Vec<(usize, usize)> = (0..3).flat_map(|r| (0..3).map(move |c| (r, c))).collect();
    let g = grid_with(3, 3, Boundary::Clamp, &all);
    assert_eq!(g.count_live_neighbors(0, 0), 3);
    assert_eq!(g.count_live_neighbors(0, 2), 3);
    assert_eq!(g.count_live_neighbors(2, 0), 3);
    assert_eq!(g.count_live_neighbors(2, 2), 3);
    assert_eq!(g.count_live_neighbors(0, 1), 5);
    assert_eq!(g.count_live_neighbors(1, 1), 8);
    let w = grid_with(3, 3, Boundary::Wrap, &all);
    assert_eq!(w.count_live_neighbors(0, 0), 8);
    assert_eq!(w.count_live_neighbors(1, 2), 8);
}

#[test]
fn policies_agree_on_interior_cells() {
    let live = [(0, 0), (1, 2), (2, 1), (2, 3), (3, 3), (4, 0), (4, 4)];
    let w = grid_with(5, 5, Boundary::Wrap, &live);
    let c = grid_with(5, 5, Boundary::Clamp, &live);
    for r in 1..4 {
        for col in 1..4 {
            assert_eq!(w.count_live_neighbors(r, col), c.count_live_neighbors(r, col));
        }
    }
    assert_ne!(w.count_live_neighbors(0, 0), c.count_live_neighbors(0, 0));
}

#[test]
fn same_seed_gives_same_runs() {
    let mut a = AutomatonState::new(20, 20, Boundary::Wrap, Seeding::sparse(), 42).unwrap();
    let mut b = AutomatonState::new(20, 20, Boundary::Wrap, Seeding::sparse(), 42).unwrap();
    assert_eq!(snapshot(&a), snapshot(&b));
    for _ in 0..10 {
        a.step();
        b.step();
        assert_eq!(snapshot(&a), snapshot(&b));
    }
    a.reset();
    b.reset();
    assert_eq!(snapshot(&a), snapshot(&b));
}

#[test]
fn block_is_still() {
    let block = [(2, 2), (2, 3), (3, 2), (3, 3)];
    let mut g = grid_with(6, 6, Boundary::Wrap, &block);
    for _ in 0..12 {
        g.step();
        assert_eq!(live_cells(&g), block.to_vec());
    }
}

#[test]
fn glider_moves_one_cell_diagonally_in_four_steps() {
    let glider = [(0, 1), (1, 2), (2, 0), (2, 1), (2, 2)];
    let mut g = grid_with(8, 8, Boundary::Wrap, &glider);
    for _ in 0..4 {
        g.step();
    }
    let moved: Vec<(usize, usize)> = glider.iter().map(|&(r, c)| (r + 1, c + 1)).collect();
    assert_eq!(live_cells(&g), moved);
}

#[test]
fn glider_wraps_around_the_torus() {
    let glider = [(0, 1), (1, 2), (2, 0), (2, 1), (2, 2)];
    let mut g = grid_with(6, 6, Boundary::Wrap, &glider);
    for _ in 0..24 {
        g.step();
    }
    assert_eq!(live_cells(&g), glider.to_vec());
}

#[test]
fn reset_keeps_shape_and_reseeds() {
    let mut g = AutomatonState::new(5, 8, Boundary::Clamp, Seeding::empty(), 5).unwrap();
    g.set_alive(1, 1, true).unwrap();
    g.reset();
    assert_eq!(g.rows(), 5);
    assert_eq!(g.cols(), 8);
    assert_eq!(g.boundary(), Boundary::Clamp);
    assert!(live_cells(&g).is_empty());
    let s = Seeding { alive_below: 3, draw_range: 3 };
    let mut h = AutomatonState::new(4, 4, Boundary::Wrap, s, 5).unwrap();
    h.step();
    assert!(live_cells(&h).is_empty());
    h.reset();
    assert_eq!(live_cells(&h).len(), 16);
}

#[test]
fn single_cell_grid_wraps_onto_itself() {
    let mut g = grid_with(1, 1, Boundary::Wrap, &[(0, 0)]);
    assert_eq!(g.count_live_neighbors(0, 0), 8);
    g.step();
    assert_eq!(g.is_alive(0, 0), Ok(false));
    let c = grid_with(1, 1, Boundary::Clamp, &[(0, 0)]);
    assert_eq!(c.count_live_neighbors(0, 0), 0);
}

#[test]
fn clamp_blinker_at_edge_loses_cells() {
    let mut g = grid_with(3, 3, Boundary::Clamp, &[(0, 0), (0, 1), (0, 2)]);
    g.step();
    assert_eq!(live_cells(&g), vec![(0, 1), (1, 1)]);
}

#[test]
fn reset_draws_continue_the_stream() {
    let mut a = AutomatonState::new(12, 12, Boundary::Wrap, Seeding::sparse(), 77).unwrap();
    let mut b = AutomatonState::new(12, 12, Boundary::Wrap, Seeding::sparse(), 77).unwrap();
    let first = snapshot(&a);
    for _ in 0..3 {
        b.step();
    }
    a.reset();
    b.reset();
    assert_eq!(snapshot(&a), snapshot(&b));
    assert_ne!(snapshot(&a), first);
}

#[test]
fn different_seeds_give_different_grids() {
    let a = AutomatonState::new(20, 20, Boundary::Wrap, Seeding::sparse(), 1).unwrap();
    let b = AutomatonState::new(20, 20, Boundary::Wrap, Seeding::sparse(), 2).unwrap();
    assert_ne!(snapshot(&a), snapshot(&b));
}

#[test]
fn block_across_the_corner_is_still() {
    let block = [(0, 0), (0, 4), (4, 0), (4, 4)];
    let mut g = grid_with(5, 5, Boundary::Wrap, &block);
    for _ in 0..6 {
        g.step();
        assert_eq!(live_cells(&g), block.to_vec());
    }
}

#[test]
fn glider_across_the_edge_moves_diagonally() {
    let glider = [(0, 1), (1, 2), (2, 0), (2, 1), (2, 2)];
    let placed: Vec<(usize, usize)> = glider.iter().map(|&(r, c)| ((r + 5) % 7, (c + 6) % 6)).collect();
    let mut g = grid_with(7, 6, Boundary::Wrap, &placed);
    for _ in 0..4 {
        g.step();
    }
    let mut moved: Vec<(usize, usize)> = glider.iter().map(|&(r, c)| ((r + 6) % 7, (c + 7) % 6)).collect();
    moved.sort();
    assert_eq!(live_cells(&g), moved);
}
