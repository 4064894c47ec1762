//! The mathematical model of a grid: cells in row-major order, the eight
//! neighbors of a position under each boundary policy, and whole generations.
use vstd::prelude::*;
use crate::rules::{rule, Cell};

verus! {

/// How positions beyond the grid's edge are treated when counting neighbors.
#[derive(Clone, Copy, Debug, PartialEq, Eq, Structural)]
pub enum Boundary {
    /// Opposite edges are adjacent: every cell has eight neighbors.
    Wrap,
    /// Positions outside the grid are absent from the count.
    Clamp,
}

/// Position of `(row, col)` in a row-major buffer with `cols` columns.
pub open spec fn index_of(row: int, col: int, cols: int) -> int {
    row * cols + col
}

/// The coordinate `x + d` taken around a ring of size `n`.
pub open spec fn wrap_coord(x: int, d: int, n: int) -> int {
    ((x + d) + n) % n
}

/// Whether the neighbor at offset `(dr, dc)` of `(row, col)` exists and is alive.
pub open spec fn neighbor_alive(
    g: Seq<Cell>,
    rows: int,
    cols: int,
    mode: Boundary,
    row: int,
    col: int,
    dr: int,
    dc: int,
) -> bool {
    match mode {
        Boundary::Wrap => g[index_of(wrap_coord(row, dr, rows), wrap_coord(col, dc, cols), cols)].alive,
        Boundary::Clamp => 0 <= row + dr < rows && 0 <= col + dc < cols && g[index_of(
            row + dr,
            col + dc,
            cols,
        )].alive,
    }
}

/// One for a true flag, zero for a false one.
pub open spec fn count_of(b: bool) -> nat {
    if b {
        1
    } else {
        0
    }
}

/// Number of live cells among the eight neighbors of `(row, col)`.
pub open spec fn live_neighbors(
    g: Seq<Cell>,
    rows: int,
    cols: int,
    mode: Boundary,
    row: int,
    col: int,
) -> nat {
    count_of(neighbor_alive(g, rows, cols, mode, row, col, -1, -1)) + count_of(
        neighbor_alive(g, rows, cols, mode, row, col, -1, 0),
    ) + count_of(neighbor_alive(g, rows, cols, mode, row, col, -1, 1)) + count_of(
        neighbor_alive(g, rows, cols, mode, row, col, 0, -1),
    ) + count_of(neighbor_alive(g, rows, cols, mode, row, col, 0, 1)) + count_of(
        neighbor_alive(g, rows, cols, mode, row, col, 1, -1),
    ) + count_of(neighbor_alive(g, rows, cols, mode, row, col, 1, 0)) + count_of(
        neighbor_alive(g, rows, cols, mode, row, col, 1, 1),
    )
}

/// The generation after `g`: every cell takes the rule's value on its own
/// state and its live-neighbor count in `g`.
pub open spec fn next_generation(g: Seq<Cell>, rows: int, cols: int, mode: Boundary) -> Seq<Cell> {
    Seq::new(
        (rows * cols) as nat,
        |i: int|
            Cell {
                alive: rule(g[i].alive, live_neighbors(g, rows, cols, mode, i / cols, i % cols)),
            },
    )
}

/// The grid after `n` generations from `g`.
pub open spec fn generations(g: Seq<Cell>, rows: int, cols: int, mode: Boundary, n: nat) -> Seq<
    Cell,
>
    decreases n,
{
    if n == 0 {
        g
    } else {
        next_generation(generations(g, rows, cols, mode, (n - 1) as nat), rows, cols, mode)
    }
}

/// A position inside the grid has an index inside the buffer, from which
/// division and remainder by `cols` give the position back.
pub proof fn lemma_index_in_bounds(row: int, col: int, rows: int, cols: int)
    requires
        0 <= row < rows,
        0 <= col < cols,
    ensures
        0 <= index_of(row, col, cols) < rows * cols,
        index_of(row, col, cols) / cols == row,
        index_of(row, col, cols) % cols == col,
{
    assert(0 <= row * cols + col < rows * cols) by (nonlinear_arith)
        requires
            0 <= row < rows,
            0 <= col < cols,
    ;
    vstd::arithmetic::div_mod::lemma_fundamental_div_mod_converse(
        row * cols + col,
        cols,
        row,
        col,
    );
}

} // verus!
