//! Properties of whole generations: reproducible runs, the still block,
//! the moving glider, and the neighborhoods that each boundary policy gives.
use vstd::prelude::*;
use crate::automaton::{seeded_grid, AutomatonState};
use crate::model::{
    count_of, generations, lemma_index_in_bounds, live_neighbors, neighbor_alive, next_generation,
    wrap_coord, Boundary,
};
use crate::rules::{rule, Cell};

verus! {

/// Where `x + d` lands on a ring of size `n`, for a step of at most one.
pub proof fn lemma_wrap_coord(x: int, d: int, n: int)
    requires
        0 <= x < n,
        -1 <= d <= 1,
    ensures
        wrap_coord(x, d, n) == if x + d < 0 {
            n - 1
        } else if x + d >= n {
            0
        } else {
            x + d
        },
{
    if x + d < 0 {
        vstd::arithmetic::div_mod::lemma_fundamental_div_mod_converse(x + d + n, n, 0, n - 1);
    } else if x + d >= n {
        vstd::arithmetic::div_mod::lemma_fundamental_div_mod_converse(x + d + n, n, 2, 0);
    } else {
        vstd::arithmetic::div_mod::lemma_fundamental_div_mod_converse(x + d + n, n, 1, x + d);
    }
}

/// Runs are reproducible. `new` seeds a grid from the first draws of its
/// seed's stream and `reset` from the draws that follow those already
/// taken; stepping then depends on the grid alone. So two automata of the
/// same shape, policy, seeding and seed, seeded from the same point of
/// their streams, hold the same cells after any number of steps.
pub proof fn seeded_runs_agree(a: AutomatonState, b: AutomatonState, from: nat, steps: nat)
    requires
        a.wf(),
        b.wf(),
        a.num_rows() == b.num_rows(),
        a.num_cols() == b.num_cols(),
        a.mode() == b.mode(),
        a.seeding_spec() == b.seeding_spec(),
        a.seed_spec() == b.seed_spec(),
        a.cells() == seeded_grid(
            a.seeding_spec(),
            a.seed_spec(),
            from,
            (a.num_rows() * a.num_cols()) as nat,
        ),
        b.cells() == seeded_grid(
            b.seeding_spec(),
            b.seed_spec(),
            from,
            (b.num_rows() * b.num_cols()) as nat,
        ),
    ensures
        a.cells() == b.cells(),
        generations(a.cells(), a.num_rows(), a.num_cols(), a.mode(), steps) == generations(
            b.cells(),
            b.num_rows(),
            b.num_cols(),
            b.mode(),
            steps,
        ),
{
}

/// The grid in which exactly the 2x2 block whose top-left cell is
/// `(top, left)` is alive.
pub open spec fn block(rows: int, cols: int, top: int, left: int) -> Seq<Cell> {
    Seq::new(
        (rows * cols) as nat,
        |i: int|
            Cell { alive: top <= i / cols <= top + 1 && left <= i % cols <= left + 1 },
    )
}

/// A block clear of the edges: each of its cells and their neighbors lie
/// inside the grid.
pub open spec fn block_is_interior(rows: int, cols: int, top: int, left: int) -> bool {
    1 <= top && top + 3 <= rows && 1 <= left && left + 3 <= cols
}

proof fn lemma_block_neighbor(
    rows: int,
    cols: int,
    mode: Boundary,
    top: int,
    left: int,
    x: int,
    y: int,
    dr: int,
    dc: int,
)
    requires
        block_is_interior(rows, cols, top, left),
        0 <= x < rows,
        0 <= y < cols,
        -1 <= dr <= 1,
        -1 <= dc <= 1,
    ensures
        neighbor_alive(block(rows, cols, top, left), rows, cols, mode, x, y, dr, dc) == (top <= x
            + dr <= top + 1 && left <= y + dc <= left + 1),
{
    let g = block(rows, cols, top, left);
    match mode {
        Boundary::Wrap => {
            lemma_wrap_coord(x, dr, rows);
            lemma_wrap_coord(y, dc, cols);
            let wx = wrap_coord(x, dr, rows);
            let wy = wrap_coord(y, dc, cols);
            lemma_index_in_bounds(wx, wy, rows, cols);
        },
        Boundary::Clamp => {
            if 0 <= x + dr < rows && 0 <= y + dc < cols {
                lemma_index_in_bounds(x + dr, y + dc, rows, cols);
            }
        },
    }
}

/// A 2x2 block clear of the edges is a still life: under either policy it
/// is unchanged by a generation, and so by any number of them.
pub proof fn block_is_still_life(
    rows: int,
    cols: int,
    mode: Boundary,
    top: int,
    left: int,
    steps: nat,
)
    requires
        block_is_interior(rows, cols, top, left),
    ensures
        next_generation(block(rows, cols, top, left), rows, cols, mode) == block(
            rows,
            cols,
            top,
            left,
        ),
        generations(block(rows, cols, top, left), rows, cols, mode, steps) == block(
            rows,
            cols,
            top,
            left,
        ),
    decreases steps,
{
    let g = block(rows, cols, top, left);
    let h = next_generation(g, rows, cols, mode);
    assert forall|i: int| 0 <= i < rows * cols implies #[trigger] h[i] == g[i] by {
        let x = i / cols;
        let y = i % cols;
        vstd::arithmetic::div_mod::lemma_fundamental_div_mod(i, cols);
        assert(0 <= x < rows) by (nonlinear_arith)
            requires
                0 <= i < rows * cols,
                i == cols * x + y,
                0 <= y < cols,
        ;
        lemma_block_neighbor(rows, cols, mode, top, left, x, y, -1, -1);
        lemma_block_neighbor(rows, cols, mode, top, left, x, y, -1, 0);
        lemma_block_neighbor(rows, cols, mode, top, left, x, y, -1, 1);
        lemma_block_neighbor(rows, cols, mode, top, left, x, y, 0, -1);
        lemma_block_neighbor(rows, cols, mode, top, left, x, y, 0, 1);
        lemma_block_neighbor(rows, cols, mode, top, left, x, y, 1, -1);
        lemma_block_neighbor(rows, cols, mode, top, left, x, y, 1, 0);
        lemma_block_neighbor(rows, cols, mode, top, left, x, y, 1, 1);
    }
    assert(h =~= g);
    if steps > 0 {
        block_is_still_life(rows, cols, mode, top, left, (steps - 1) as nat);
    }
}

/// Whether every cell of `g` is alive.
pub open spec fn all_alive(g: Seq<Cell>) -> bool {
    forall|i: int| 0 <= i < g.len() ==> (#[trigger] g[i]).alive
}

/// On which positions around `(row, col)` the two policies agree: the
/// neighbor at `(dr, dc)` is read from the same cell when it lies inside.
proof fn lemma_neighbor_under_policies(
    g: Seq<Cell>,
    rows: int,
    cols: int,
    row: int,
    col: int,
    dr: int,
    dc: int,
)
    requires
        g.len() == rows * cols,
        0 <= row < rows,
        0 <= col < cols,
        -1 <= dr <= 1,
        -1 <= dc <= 1,
    ensures
        0 <= row + dr < rows && 0 <= col + dc < cols ==> neighbor_alive(
            g,
            rows,
            cols,
            Boundary::Wrap,
            row,
            col,
            dr,
            dc,
        ) == neighbor_alive(g, rows, cols, Boundary::Clamp, row, col, dr, dc),
        all_alive(g) ==> neighbor_alive(g, rows, cols, Boundary::Wrap, row, col, dr, dc),
        all_alive(g) ==> (neighbor_alive(g, rows, cols, Boundary::Clamp, row, col, dr, dc) <==> (0
            <= row + dr < rows && 0 <= col + dc < cols)),
{
    lemma_wrap_coord(row, dr, rows);
    lemma_wrap_coord(col, dc, cols);
    lemma_index_in_bounds(wrap_coord(row, dr, rows), wrap_coord(col, dc, cols), rows, cols);
    if 0 <= row + dr < rows && 0 <= col + dc < cols {
        lemma_index_in_bounds(row + dr, col + dc, rows, cols);
    }
}

/// Under `Wrap` the grid has no edge: every cell has eight neighbor
/// positions, so on a grid of live cells each one counts eight.
pub proof fn wrap_counts_eight(g: Seq<Cell>, rows: int, cols: int, row: int, col: int)
    requires
        g.len() == rows * cols,
        all_alive(g),
        0 <= row < rows,
        0 <= col < cols,
    ensures
        live_neighbors(g, rows, cols, Boundary::Wrap, row, col) == 8,
{
    lemma_neighbor_under_policies(g, rows, cols, row, col, -1, -1);
    lemma_neighbor_under_policies(g, rows, cols, row, col, -1, 0);
    lemma_neighbor_under_policies(g, rows, cols, row, col, -1, 1);
    lemma_neighbor_under_policies(g, rows, cols, row, col, 0, -1);
    lemma_neighbor_under_policies(g, rows, cols, row, col, 0, 1);
    lemma_neighbor_under_policies(g, rows, cols, row, col, 1, -1);
    lemma_neighbor_under_policies(g, rows, cols, row, col, 1, 0);
    lemma_neighbor_under_policies(g, rows, cols, row, col, 1, 1);
}

/// Under `Clamp` a corner cell has three neighbor positions, all inside the
/// grid: on a grid of live cells a corner counts three.
pub proof fn clamp_corner_counts_three(g: Seq<Cell>, rows: int, cols: int, row: int, col: int)
    requires
        g.len() == rows * cols,
        all_alive(g),
        rows >= 2,
        cols >= 2,
        row == 0 || row == rows - 1,
        col == 0 || col == cols - 1,
    ensures
        live_neighbors(g, rows, cols, Boundary::Clamp, row, col) == 3,
{
    lemma_neighbor_under_policies(g, rows, cols, row, col, -1, -1);
    lemma_neighbor_under_policies(g, rows, cols, row, col, -1, 0);
    lemma_neighbor_under_policies(g, rows, cols, row, col, -1, 1);
    lemma_neighbor_under_policies(g, rows, cols, row, col, 0, -1);
    lemma_neighbor_under_policies(g, rows, cols, row, col, 0, 1);
    lemma_neighbor_under_policies(g, rows, cols, row, col, 1, -1);
    lemma_neighbor_under_policies(g, rows, cols, row, col, 1, 0);
    lemma_neighbor_under_policies(g, rows, cols, row, col, 1, 1);
}

/// The two policies count alike on every cell whose eight neighbor
/// positions lie inside the grid.
pub proof fn policies_agree_inside(g: Seq<Cell>, rows: int, cols: int, row: int, col: int)
    requires
        g.len() == rows * cols,
        1 <= row && row + 1 < rows,
        1 <= col && col + 1 < cols,
    ensures
        live_neighbors(g, rows, cols, Boundary::Wrap, row, col) == live_neighbors(
            g,
            rows,
            cols,
            Boundary::Clamp,
            row,
            col,
        ),
{
    lemma_neighbor_under_policies(g, rows, cols, row, col, -1, -1);
    lemma_neighbor_under_policies(g, rows, cols, row, col, -1, 0);
    lemma_neighbor_under_policies(g, rows, cols, row, col, -1, 1);
    lemma_neighbor_under_policies(g, rows, cols, row, col, 0, -1);
    lemma_neighbor_under_policies(g, rows, cols, row, col, 0, 1);
    lemma_neighbor_under_policies(g, rows, cols, row, col, 1, -1);
    lemma_neighbor_under_policies(g, rows, cols, row, col, 1, 0);
    lemma_neighbor_under_policies(g, rows, cols, row, col, 1, 1);
}

/// Whether `v` is `start` or the coordinate after it on a ring of size `n`.
pub open spec fn on_ring_pair(v: int, start: int, n: int) -> bool {
    v == start || v == wrap_coord(start, 1, n)
}

/// The grid in which exactly the 2x2 block from `(top, left)` is alive,
/// its second row and column taken around the torus: the block may
/// straddle an edge.
pub open spec fn ring_block(rows: int, cols: int, top: int, left: int) -> Seq<Cell> {
    Seq::new(
        (rows * cols) as nat,
        |i: int|
            Cell {
                alive: on_ring_pair(i / cols, top, rows) && on_ring_pair(i % cols, left, cols),
            },
    )
}

/// Along one axis of a ring of at least four, a coordinate in the pair has
/// exactly one of its two ring neighbors in the pair, and one outside has
/// at most one.
proof fn lemma_ring_axis(x: int, t: int, n: int)
    requires
        n >= 4,
        0 <= x < n,
        0 <= t < n,
    ensures
        on_ring_pair(wrap_coord(x, 0, n), t, n) == on_ring_pair(x, t, n),
        on_ring_pair(x, t, n) ==> (on_ring_pair(wrap_coord(x, -1, n), t, n) != on_ring_pair(
            wrap_coord(x, 1, n),
            t,
            n,
        )),
        !on_ring_pair(x, t, n) ==> !(on_ring_pair(wrap_coord(x, -1, n), t, n) && on_ring_pair(
            wrap_coord(x, 1, n),
            t,
            n,
        )),
{
    lemma_wrap_coord(x, -1, n);
    lemma_wrap_coord(x, 0, n);
    lemma_wrap_coord(x, 1, n);
    lemma_wrap_coord(t, 1, n);
}

proof fn lemma_ring_block_neighbor(
    rows: int,
    cols: int,
    top: int,
    left: int,
    x: int,
    y: int,
    dr: int,
    dc: int,
)
    requires
        rows >= 1,
        cols >= 1,
        0 <= x < rows,
        0 <= y < cols,
        -1 <= dr <= 1,
        -1 <= dc <= 1,
    ensures
        neighbor_alive(ring_block(rows, cols, top, left), rows, cols, Boundary::Wrap, x, y, dr, dc)
            == (on_ring_pair(wrap_coord(x, dr, rows), top, rows) && on_ring_pair(
            wrap_coord(y, dc, cols),
            left,
            cols,
        )),
{
    lemma_wrap_coord(x, dr, rows);
    lemma_wrap_coord(y, dc, cols);
    lemma_index_in_bounds(wrap_coord(x, dr, rows), wrap_coord(y, dc, cols), rows, cols);
}

/// On a torus of at least 4x4 a 2x2 block is a still life wherever it
/// stands, across an edge too: it is unchanged by a generation, and so by
/// any number of them.
pub proof fn ring_block_is_still_life(rows: int, cols: int, top: int, left: int, steps: nat)
    requires
        rows >= 4,
        cols >= 4,
        0 <= top < rows,
        0 <= left < cols,
    ensures
        next_generation(ring_block(rows, cols, top, left), rows, cols, Boundary::Wrap)
            == ring_block(rows, cols, top, left),
        generations(ring_block(rows, cols, top, left), rows, cols, Boundary::Wrap, steps)
            == ring_block(rows, cols, top, left),
    decreases steps,
{
    let g = ring_block(rows, cols, top, left);
    let h = next_generation(g, rows, cols, Boundary::Wrap);
    assert forall|i: int| 0 <= i < rows * cols implies #[trigger] h[i] == g[i] by {
        let x = i / cols;
        let y = i % cols;
        vstd::arithmetic::div_mod::lemma_fundamental_div_mod(i, cols);
        assert(0 <= x < rows) by (nonlinear_arith)
            requires
                0 <= i < rows * cols,
                i == cols * x + y,
                0 <= y < cols,
        ;
        lemma_ring_axis(x, top, rows);
        lemma_ring_axis(y, left, cols);
        lemma_ring_block_neighbor(rows, cols, top, left, x, y, -1, -1);
        lemma_ring_block_neighbor(rows, cols, top, left, x, y, -1, 0);
        lemma_ring_block_neighbor(rows, cols, top, left, x, y, -1, 1);
        lemma_ring_block_neighbor(rows, cols, top, left, x, y, 0, -1);
        lemma_ring_block_neighbor(rows, cols, top, left, x, y, 0, 1);
        lemma_ring_block_neighbor(rows, cols, top, left, x, y, 1, -1);
        lemma_ring_block_neighbor(rows, cols, top, left, x, y, 1, 0);
        lemma_ring_block_neighbor(rows, cols, top, left, x, y, 1, 1);
    }
    assert(h =~= g);
    if steps > 0 {
        ring_block_is_still_life(rows, cols, top, left, (steps - 1) as nat);
    }
}

/// The live cells of the glider in its phase `k` (0 to 4), at offsets
/// `(a, b)` from the top-left corner of its 4x4 box; phase 4 is phase 0
/// moved one cell down and one right.
#[verifier::opaque]
pub open spec fn glider_cell(k: int, a: int, b: int) -> bool {
    if k == 0 {
        (a == 0 && b == 1) || (a == 1 && b == 2) || (a == 2 && b == 0) || (a == 2 && b == 1) || (a == 2 && b == 2)
    } else if k == 1 {
        (a == 1 && b == 0) || (a == 1 && b == 2) || (a == 2 && b == 1) || (a == 2 && b == 2) || (a == 3 && b == 1)
    } else if k == 2 {
        (a == 1 && b == 2) || (a == 2 && b == 0) || (a == 2 && b == 2) || (a == 3 && b == 1) || (a == 3 && b == 2)
    } else if k == 3 {
        (a == 1 && b == 1) || (a == 2 && b == 2) || (a == 2 && b == 3) || (a == 3 && b == 1) || (a == 3 && b == 2)
    } else {
        k == 4 && ((a == 1 && b == 2) || (a == 2 && b == 3) || (a == 3 && b == 1) || (a == 3 && b == 2) || (a == 3 && b == 3))
    }
}

/// The offset of `x` from `t` on a ring of size `n`, read as -1 for the
/// coordinate just before `t`.
pub open spec fn ring_offset(x: int, t: int, n: int) -> int {
    let d = if x >= t {
        x - t
    } else {
        x - t + n
    };
    if d == n - 1 {
        -1
    } else {
        d
    }
}

/// The grid that holds exactly the glider in phase `k` with its box at
/// `(top, left)`, taken around the torus.
pub open spec fn glider(rows: int, cols: int, top: int, left: int, k: int) -> Seq<Cell> {
    Seq::new(
        (rows * cols) as nat,
        |i: int|
            Cell {
                alive: glider_cell(k, ring_offset(i / cols, top, rows), ring_offset(i % cols, left, cols)),
            },
    )
}

/// In the plane, one generation takes each phase to the next.
proof fn lemma_glider_phase(k: int, a: int, b: int)
    requires
        0 <= k < 4,
    ensures
        rule(glider_cell(k, a, b), count_of(glider_cell(k, a + -1, b + -1)) + count_of(glider_cell(k, a + -1, b + 0)) + count_of(glider_cell(k, a + -1, b + 1)) + count_of(glider_cell(k, a + 0, b + -1)) + count_of(glider_cell(k, a + 0, b + 1)) + count_of(glider_cell(k, a + 1, b + -1)) + count_of(glider_cell(k, a + 1, b + 0)) + count_of(glider_cell(k, a + 1, b + 1))) == glider_cell(k + 1, a, b),
{
    reveal(glider_cell);
    if -1 <= a <= 4 && -1 <= b <= 4 {
        assert(a == -1 || a == 0 || a == 1 || a == 2 || a == 3 || a == 4);
        assert(b == -1 || b == 0 || b == 1 || b == 2 || b == 3 || b == 4);
    }
}

/// The glider stays inside its 4x4 box in every phase.
proof fn lemma_glider_box(k: int, a: int, b: int)
    ensures
        glider_cell(k, a, b) ==> 0 <= a <= 3 && 0 <= b <= 3,
{
    reveal(glider_cell);
}

/// A step of at most one along a ring of at least six moves the offset by
/// that step wherever the glider's box can see it.
proof fn lemma_ring_offset_step(x: int, t: int, n: int, d: int)
    requires
        n >= 6,
        0 <= x < n,
        0 <= t < n,
        -1 <= d <= 1,
    ensures
        (0 <= ring_offset(wrap_coord(x, d, n), t, n) <= 3) == (0 <= ring_offset(x, t, n) + d <= 3),
        0 <= ring_offset(x, t, n) + d <= 3 ==> ring_offset(wrap_coord(x, d, n), t, n)
            == ring_offset(x, t, n) + d,
{
    lemma_wrap_coord(x, d, n);
}

proof fn lemma_glider_neighbor(
    rows: int,
    cols: int,
    top: int,
    left: int,
    k: int,
    x: int,
    y: int,
    dr: int,
    dc: int,
)
    requires
        rows >= 6,
        cols >= 6,
        0 <= top < rows,
        0 <= left < cols,
        0 <= x < rows,
        0 <= y < cols,
        -1 <= dr <= 1,
        -1 <= dc <= 1,
    ensures
        neighbor_alive(glider(rows, cols, top, left, k), rows, cols, Boundary::Wrap, x, y, dr, dc)
            == glider_cell(k, ring_offset(x, top, rows) + dr, ring_offset(y, left, cols) + dc),
{
    lemma_wrap_coord(x, dr, rows);
    lemma_wrap_coord(y, dc, cols);
    lemma_ring_offset_step(x, top, rows, dr);
    lemma_ring_offset_step(y, left, cols, dc);
    lemma_glider_box(k, ring_offset(x, top, rows) + dr, ring_offset(y, left, cols) + dc);
    lemma_glider_box(
        k,
        ring_offset(wrap_coord(x, dr, rows), top, rows),
        ring_offset(wrap_coord(y, dc, cols), left, cols),
    );
    lemma_index_in_bounds(wrap_coord(x, dr, rows), wrap_coord(y, dc, cols), rows, cols);
}

proof fn lemma_glider_generation(rows: int, cols: int, top: int, left: int, k: int)
    requires
        rows >= 6,
        cols >= 6,
        0 <= top < rows,
        0 <= left < cols,
        0 <= k < 4,
    ensures
        next_generation(glider(rows, cols, top, left, k), rows, cols, Boundary::Wrap) == glider(
            rows,
            cols,
            top,
            left,
            k + 1,
        ),
{
    let g = glider(rows, cols, top, left, k);
    let h = next_generation(g, rows, cols, Boundary::Wrap);
    let f = glider(rows, cols, top, left, k + 1);
    assert forall|i: int| 0 <= i < rows * cols implies #[trigger] h[i] == f[i] by {
        let x = i / cols;
        let y = i % cols;
        vstd::arithmetic::div_mod::lemma_fundamental_div_mod(i, cols);
        assert(0 <= x < rows) by (nonlinear_arith)
            requires
                0 <= i < rows * cols,
                i == cols * x + y,
                0 <= y < cols,
        ;
        lemma_glider_neighbor(rows, cols, top, left, k, x, y, -1, -1);
        lemma_glider_neighbor(rows, cols, top, left, k, x, y, -1, 0);
        lemma_glider_neighbor(rows, cols, top, left, k, x, y, -1, 1);
        lemma_glider_neighbor(rows, cols, top, left, k, x, y, 0, -1);
        lemma_glider_neighbor(rows, cols, top, left, k, x, y, 0, 1);
        lemma_glider_neighbor(rows, cols, top, left, k, x, y, 1, -1);
        lemma_glider_neighbor(rows, cols, top, left, k, x, y, 1, 0);
        lemma_glider_neighbor(rows, cols, top, left, k, x, y, 1, 1);
        lemma_glider_phase(k, ring_offset(x, top, rows), ring_offset(y, left, cols));
    }
    assert(h =~= f);
}

/// Moving the box one step along the ring lowers the offset by one,
/// wherever the glider's box can see it.
proof fn lemma_ring_offset_shift(x: int, t: int, n: int)
    requires
        n >= 6,
        0 <= x < n,
        0 <= t < n,
    ensures
        (0 <= ring_offset(x, wrap_coord(t, 1, n), n) <= 3) == (0 <= ring_offset(x, t, n) - 1 <= 3),
        0 <= ring_offset(x, t, n) - 1 <= 3 ==> ring_offset(x, wrap_coord(t, 1, n), n)
            == ring_offset(x, t, n) - 1,
{
    lemma_wrap_coord(t, 1, n);
}

/// The glider's fifth phase is its first, with the box one cell further
/// down and right around the torus.
proof fn lemma_glider_moved(rows: int, cols: int, top: int, left: int)
    requires
        rows >= 6,
        cols >= 6,
        0 <= top < rows,
        0 <= left < cols,
    ensures
        glider(rows, cols, top, left, 4) == glider(
            rows,
            cols,
            wrap_coord(top, 1, rows),
            wrap_coord(left, 1, cols),
            0,
        ),
{
    let g = glider(rows, cols, top, left, 4);
    let f = glider(rows, cols, wrap_coord(top, 1, rows), wrap_coord(left, 1, cols), 0);
    assert forall|i: int| 0 <= i < rows * cols implies #[trigger] g[i] == f[i] by {
        let x = i / cols;
        let y = i % cols;
        vstd::arithmetic::div_mod::lemma_fundamental_div_mod(i, cols);
        assert(0 <= x < rows) by (nonlinear_arith)
            requires
                0 <= i < rows * cols,
                i == cols * x + y,
                0 <= y < cols,
        ;
        lemma_ring_offset_shift(x, top, rows);
        lemma_ring_offset_shift(y, left, cols);
        reveal(glider_cell);
    }
    assert(g =~= f);
}

/// A glider on a torus of at least 6x6 takes its own shape again after
/// four generations, moved one cell down and one cell right (around the
/// edges where it meets them).
pub proof fn glider_moves_diagonally(rows: int, cols: int, top: int, left: int)
    requires
        rows >= 6,
        cols >= 6,
        0 <= top < rows,
        0 <= left < cols,
    ensures
        generations(glider(rows, cols, top, left, 0), rows, cols, Boundary::Wrap, 4) == glider(
            rows,
            cols,
            wrap_coord(top, 1, rows),
            wrap_coord(left, 1, cols),
            0,
        ),
{
    let g0 = glider(rows, cols, top, left, 0);
    lemma_glider_generation(rows, cols, top, left, 0);
    lemma_glider_generation(rows, cols, top, left, 1);
    lemma_glider_generation(rows, cols, top, left, 2);
    lemma_glider_generation(rows, cols, top, left, 3);
    assert(generations(g0, rows, cols, Boundary::Wrap, 0) == g0);
    assert(generations(g0, rows, cols, Boundary::Wrap, 1) == glider(rows, cols, top, left, 1));
    assert(generations(g0, rows, cols, Boundary::Wrap, 2) == glider(rows, cols, top, left, 2));
    assert(generations(g0, rows, cols, Boundary::Wrap, 3) == glider(rows, cols, top, left, 3));
    assert(generations(g0, rows, cols, Boundary::Wrap, 4) == glider(rows, cols, top, left, 4));
    lemma_glider_moved(rows, cols, top, left);
}

} // verus!
