//! The automaton: a grid of cells in two buffers, stepped one generation at
//! a time and seeded from its own random stream.
use vstd::prelude::*;
use crate::model::{
    index_of, lemma_index_in_bounds, live_neighbors, neighbor_alive, next_generation,
    wrap_coord, Boundary,
};
use crate::random::{seeded_draws, SeededSource};
use crate::rules::{next_state, Cell};

verus! {

/// Why an operation on the automaton was refused.
#[derive(Clone, Copy, Debug, PartialEq, Eq, Structural)]
pub enum LifeError {
    /// A grid needs at least one row and one column.
    InvalidDimensions,
    /// A position outside `[0, rows) x [0, cols)` was asked for.
    OutOfRangeQuery,
}

/// How a fresh grid is populated: each cell draws an integer in
/// `[0, draw_range)` and is alive when the draw is below `alive_below`,
/// a Bernoulli trial with probability `alive_below / draw_range`.
#[derive(Clone, Copy, Debug, PartialEq, Eq, Structural)]
pub struct Seeding {
    pub alive_below: u32,
    pub draw_range: u32,
}

/// The cell that a draw gives under `s`.
pub open spec fn seeded_cell(s: Seeding, draw: u32) -> Cell {
    Cell { alive: draw < s.alive_below }
}

/// The cells that a sequence of draws gives under `s`, one draw per cell.
pub open spec fn cells_from_draws(s: Seeding, draws: Seq<u32>) -> Seq<Cell> {
    draws.map_values(|d: u32| seeded_cell(s, d))
}

/// The grid of `len` cells that `s` gives from the draws of a source
/// started at `seed`, after the first `from` draws.
pub open spec fn seeded_grid(s: Seeding, seed: u64, from: nat, len: nat) -> Seq<Cell> {
    cells_from_draws(s, seeded_draws(seed, from, len, s.draw_range))
}

/// Whether every cell of `cells` is dead.
pub open spec fn all_dead(cells: Seq<Cell>) -> bool {
    forall|i: int| 0 <= i < cells.len() ==> !(#[trigger] cells[i]).alive
}

/// Overwrites each cell of `cells`, in order, with one drawn from `source`
/// under `s`.
fn fill_seeded(cells: &mut Vec<Cell>, source: &mut SeededSource, s: Seeding)
    requires
        s.draw_range > 0,
    ensures
        final(cells)@.len() == old(cells)@.len(),
        final(source).seed_spec() == old(source).seed_spec(),
        final(source).taken_spec() == old(source).taken_spec() + old(cells)@.len(),
        final(cells)@ == seeded_grid(
            s,
            old(source).seed_spec(),
            old(source).taken_spec(),
            old(cells)@.len(),
        ),
{
    let ghost seed = source.seed_spec();
    let ghost from = source.taken_spec();
    let ghost draws = seeded_draws(seed, from, cells@.len(), s.draw_range);
    let len = cells.len();
    let mut i: usize = 0;
    while i < len
        invariant
            s.draw_range > 0,
            len == cells@.len(),
            i <= len,
            source.seed_spec() == seed,
            source.taken_spec() == from + i,
            draws == seeded_draws(seed, from, len as nat, s.draw_range),
            forall|j: int| 0 <= j < i ==> #[trigger] cells@[j] == seeded_cell(s, draws[j]),
        decreases len - i,
    {
        let d = source.next_below(s.draw_range);
        cells.set(i, s.cell_for_draw(d));
        i = i + 1;
    }
    assert(cells@ =~= seeded_grid(s, seed, from, len as nat));
}

/// Sets every cell of `cells` dead.
fn clear_cells(cells: &mut Vec<Cell>)
    ensures
        final(cells)@.len() == old(cells)@.len(),
        all_dead(final(cells)@),
{
    let len = cells.len();
    let mut i: usize = 0;
    while i < len
        invariant
            len == cells@.len(),
            i <= len,
            forall|j: int| 0 <= j < i ==> !(#[trigger] cells@[j]).alive,
        decreases len - i,
    {
        cells.set(i, Cell { alive: false });
        i = i + 1;
    }
}

impl Seeding {
    /// Each cell alive with probability two in nine.
    pub fn sparse() -> (s: Seeding)
        ensures
            s.alive_below == 2,
            s.draw_range == 9,
    {
        Seeding { alive_below: 2, draw_range: 9 }
    }

    /// No cell alive: every draw is at least the threshold.
    pub fn empty() -> (s: Seeding)
        ensures
            s.alive_below == 0,
            s.draw_range == 1,
    {
        Seeding { alive_below: 0, draw_range: 1 }
    }

    /// The cell that `draw` gives.
    pub fn cell_for_draw(&self, draw: u32) -> (c: Cell)
        ensures
            c == seeded_cell(*self, draw),
    {
        Cell { alive: draw < self.alive_below }
    }
}

/// A rectangular grid of cells under a boundary policy, held in two buffers:
/// `current` is the generation that queries read, `next` is scratch that a
/// step fills before the two are exchanged.
pub struct AutomatonState {
    rows: usize,
    cols: usize,
    boundary: Boundary,
    seeding: Seeding,
    current: Vec<Cell>,
    next: Vec<Cell>,
    source: SeededSource,
}

impl AutomatonState {
    pub closed spec fn num_rows(&self) -> int {
        self.rows as int
    }

    pub closed spec fn num_cols(&self) -> int {
        self.cols as int
    }

    pub closed spec fn mode(&self) -> Boundary {
        self.boundary
    }

    pub closed spec fn seeding_spec(&self) -> Seeding {
        self.seeding
    }

    /// The current generation, row-major.
    pub closed spec fn cells(&self) -> Seq<Cell> {
        self.current@
    }

    /// The seed that the grid's random stream started from.
    pub closed spec fn seed_spec(&self) -> u64 {
        self.source.seed_spec()
    }

    /// How many draws the grid has taken from its random stream.
    pub closed spec fn draws_taken(&self) -> nat {
        self.source.taken_spec()
    }

    /// The scratch buffer.
    pub closed spec fn scratch(&self) -> Seq<Cell> {
        self.next@
    }

    /// Both buffers hold exactly `rows * cols` cells, the grid has at least
    /// one row and one column, and the seeding draws from a nonempty range.
    pub open spec fn wf(&self) -> bool {
        &&& self.num_rows() >= 1
        &&& self.num_cols() >= 1
        &&& self.num_rows() * self.num_cols() <= usize::MAX
        &&& self.cells().len() == self.num_rows() * self.num_cols()
        &&& self.scratch().len() == self.num_rows() * self.num_cols()
        &&& self.seeding_spec().draw_range > 0
    }

    /// Number of rows.
    pub fn rows(&self) -> (r: usize)
        ensures
            r == self.num_rows(),
    {
        self.rows
    }

    /// Number of columns.
    pub fn cols(&self) -> (r: usize)
        ensures
            r == self.num_cols(),
    {
        self.cols
    }

    /// The boundary policy chosen at construction.
    pub fn boundary(&self) -> (r: Boundary)
        ensures
            r == self.mode(),
    {
        self.boundary
    }

    /// The coordinate one step `d` from `x` along an axis of size `n`, if the
    /// policy admits it: taken around the ring under `Wrap`, absent past an
    /// edge under `Clamp`.
    fn shifted(x: usize, d: i8, n: usize, mode: Boundary) -> (r: Option<usize>)
        requires
            x < n,
            -1 <= d <= 1,
        ensures
            mode == Boundary::Wrap ==> r == Some(wrap_coord(x as int, d as int, n as int) as usize),
            mode == Boundary::Wrap ==> 0 <= wrap_coord(x as int, d as int, n as int) < n,
            mode == Boundary::Clamp ==> (r is Some <==> 0 <= x + d < n),
            mode == Boundary::Clamp && r is Some ==> r->0 == x + d,
    {
        let ghost n_i = n as int;
        if d == 0 {
            proof {
                vstd::arithmetic::div_mod::lemma_fundamental_div_mod_converse(
                    x + 0 + n_i,
                    n_i,
                    1,
                    x as int,
                );
            }
            Some(x)
        } else if d < 0 {
            if x == 0 {
                proof {
                    vstd::arithmetic::div_mod::lemma_fundamental_div_mod_converse(
                        x - 1 + n_i,
                        n_i,
                        0,
                        n_i - 1,
                    );
                }
                match mode {
                    Boundary::Wrap => Some(n - 1),
                    Boundary::Clamp => None,
                }
            } else {
                proof {
                    vstd::arithmetic::div_mod::lemma_fundamental_div_mod_converse(
                        x - 1 + n_i,
                        n_i,
                        1,
                        x - 1,
                    );
                }
                Some(x - 1)
            }
        } else {
            if x + 1 == n {
                proof {
                    vstd::arithmetic::div_mod::lemma_fundamental_div_mod_converse(
                        x + 1 + n_i,
                        n_i,
                        2,
                        0,
                    );
                }
                match mode {
                    Boundary::Wrap => Some(0),
                    Boundary::Clamp => None,
                }
            } else {
                proof {
                    vstd::arithmetic::div_mod::lemma_fundamental_div_mod_converse(
                        x + 1 + n_i,
                        n_i,
                        1,
                        x + 1,
                    );
                }
                Some(x + 1)
            }
        }
    }

    /// Whether the neighbor at offset `(dr, dc)` of `(row, col)` exists under
    /// the boundary policy and is alive in the current generation.
    fn neighbor_is_alive(&self, row: usize, col: usize, dr: i8, dc: i8) -> (r: bool)
        requires
            self.wf(),
            row < self.num_rows(),
            col < self.num_cols(),
            -1 <= dr <= 1,
            -1 <= dc <= 1,
        ensures
            r == neighbor_alive(
                self.cells(),
                self.num_rows(),
                self.num_cols(),
                self.mode(),
                row as int,
                col as int,
                dr as int,
                dc as int,
            ),
    {
        let nr = Self::shifted(row, dr, self.rows, self.boundary);
        let nc = Self::shifted(col, dc, self.cols, self.boundary);
        match (nr, nc) {
            (Some(r), Some(c)) => {
                proof {
                    lemma_index_in_bounds(r as int, c as int, self.rows as int, self.cols as int);
                }
                self.current[r * self.cols + c].alive
            },
            _ => false,
        }
    }

    /// Number of live cells among the eight neighbors of `(row, col)` in the
    /// current generation, under the grid's boundary policy.
    pub fn count_live_neighbors(&self, row: usize, col: usize) -> (n: usize)
        requires
            self.wf(),
            row < self.num_rows(),
            col < self.num_cols(),
        ensures
            n == live_neighbors(
                self.cells(),
                self.num_rows(),
                self.num_cols(),
                self.mode(),
                row as int,
                col as int,
            ),
            n <= 8,
    {
        let mut n: usize = 0;
        if self.neighbor_is_alive(row, col, -1, -1) {
            n = n + 1;
        }
        if self.neighbor_is_alive(row, col, -1, 0) {
            n = n + 1;
        }
        if self.neighbor_is_alive(row, col, -1, 1) {
            n = n + 1;
        }
        if self.neighbor_is_alive(row, col, 0, -1) {
            n = n + 1;
        }
        if self.neighbor_is_alive(row, col, 0, 1) {
            n = n + 1;
        }
        if self.neighbor_is_alive(row, col, 1, -1) {
            n = n + 1;
        }
        if self.neighbor_is_alive(row, col, 1, 0) {
            n = n + 1;
        }
        if self.neighbor_is_alive(row, col, 1, 1) {
            n = n + 1;
        }
        n
    }

    /// Whether the cell at `(row, col)` is alive in the current generation;
    /// a position outside the grid is refused.
    pub fn is_alive(&self, row: usize, col: usize) -> (r: Result<bool, LifeError>)
        requires
            self.wf(),
        ensures
            r is Err <==> (row >= self.num_rows() || col >= self.num_cols()),
            r is Err ==> r == Err::<bool, LifeError>(LifeError::OutOfRangeQuery),
            r is Ok ==> r->Ok_0 == self.cells()[index_of(row as int, col as int, self.num_cols())].alive,
    {
        if row >= self.rows || col >= self.cols {
            return Err(LifeError::OutOfRangeQuery);
        }
        proof {
            lemma_index_in_bounds(row as int, col as int, self.rows as int, self.cols as int);
        }
        Ok(self.current[row * self.cols + col].alive)
    }

    /// Sets the cell at `(row, col)` of the current generation to `alive`;
    /// a position outside the grid is refused and nothing changes.
    pub fn set_alive(&mut self, row: usize, col: usize, alive: bool) -> (r: Result<(), LifeError>)
        requires
            old(self).wf(),
        ensures
            final(self).wf(),
            final(self).num_rows() == old(self).num_rows(),
            final(self).num_cols() == old(self).num_cols(),
            final(self).mode() == old(self).mode(),
            final(self).seeding_spec() == old(self).seeding_spec(),
            final(self).seed_spec() == old(self).seed_spec(),
            final(self).draws_taken() == old(self).draws_taken(),
            r is Err <==> (row >= old(self).num_rows() || col >= old(self).num_cols()),
            r is Err ==> r == Err::<(), LifeError>(LifeError::OutOfRangeQuery),
            r is Err ==> final(self).cells() == old(self).cells(),
            r is Ok ==> final(self).cells() == old(self).cells().update(
                index_of(row as int, col as int, old(self).num_cols()),
                Cell { alive },
            ),
    {
        if row >= self.rows || col >= self.cols {
            return Err(LifeError::OutOfRangeQuery);
        }
        proof {
            lemma_index_in_bounds(row as int, col as int, self.rows as int, self.cols as int);
        }
        self.current.set(row * self.cols + col, Cell { alive });
        Ok(())
    }

    /// Advances one generation. Every cell of the new generation is computed
    /// from the generation before the call alone: the rule is written into
    /// the scratch buffer, which then becomes the current one.
    pub fn step(&mut self)
        requires
            old(self).wf(),
        ensures
            final(self).wf(),
            final(self).num_rows() == old(self).num_rows(),
            final(self).num_cols() == old(self).num_cols(),
            final(self).mode() == old(self).mode(),
            final(self).seeding_spec() == old(self).seeding_spec(),
            final(self).seed_spec() == old(self).seed_spec(),
            final(self).draws_taken() == old(self).draws_taken(),
            final(self).cells() == next_generation(
                old(self).cells(),
                old(self).num_rows(),
                old(self).num_cols(),
                old(self).mode(),
            ),
    {
        let rows = self.rows;
        let cols = self.cols;
        let ghost g = self.current@;
        let ghost target = next_generation(g, rows as int, cols as int, self.boundary);
        let mut row: usize = 0;
        while row < rows
            invariant
                self.wf(),
                self.rows == rows,
                self.cols == cols,
                self.boundary == old(self).boundary,
                self.seeding == old(self).seeding,
                self.source == old(self).source,
                self.current@ == g,
                g == old(self).current@,
                target == next_generation(g, rows as int, cols as int, self.boundary),
                row <= rows,
                forall|i: int| 0 <= i < row * cols ==> #[trigger] self.next@[i] == target[i],
            decreases rows - row,
        {
            let mut col: usize = 0;
            while col < cols
                invariant
                    self.wf(),
                    self.rows == rows,
                    self.cols == cols,
                    self.boundary == old(self).boundary,
                    self.seeding == old(self).seeding,
                self.source == old(self).source,
                    self.current@ == g,
                    target == next_generation(g, rows as int, cols as int, self.boundary),
                    row < rows,
                    col <= cols,
                    forall|i: int| 0 <= i < row * cols + col ==> #[trigger] self.next@[i] == target[i],
                decreases cols - col,
            {
                proof {
                    lemma_index_in_bounds(row as int, col as int, rows as int, cols as int);
                }
                let n = self.count_live_neighbors(row, col);
                let idx = row * cols + col;
                let alive = next_state(self.current[idx].alive, n);
                self.next.set(idx, Cell { alive });
                col = col + 1;
            }
            proof {
                assert((row + 1) * cols == row * cols + cols) by (nonlinear_arith);
            }
            row = row + 1;
        }
        assert(self.next@ =~= target);
        std::mem::swap(&mut self.current, &mut self.next);
    }

    /// A grid of `rows` by `cols` cells under `boundary`, seeded under
    /// `seeding` from the first `rows * cols` draws of a random stream that
    /// starts at `seed`, one per cell in row-major order, with an all-dead
    /// scratch buffer. A grid with no rows or no columns is refused.
    pub fn new(rows: usize, cols: usize, boundary: Boundary, seeding: Seeding, seed: u64) -> (r:
        Result<AutomatonState, LifeError>)
        requires
            rows * cols <= usize::MAX,
            seeding.draw_range > 0,
        ensures
            r is Err <==> (rows == 0 || cols == 0),
            r is Err ==> r == Err::<AutomatonState, LifeError>(LifeError::InvalidDimensions),
            r is Ok ==> {
                let s = r->Ok_0;
                &&& s.wf()
                &&& s.num_rows() == rows
                &&& s.num_cols() == cols
                &&& s.mode() == boundary
                &&& s.seeding_spec() == seeding
                &&& s.seed_spec() == seed
                &&& s.draws_taken() == rows * cols
                &&& s.cells() == seeded_grid(seeding, seed, 0, (rows * cols) as nat)
                &&& all_dead(s.scratch())
            },
    {
        if rows == 0 || cols == 0 {
            return Err(LifeError::InvalidDimensions);
        }
        let len = rows * cols;
        let mut source = SeededSource::new(seed);
        let mut current = vec![Cell { alive: false }; len];
        let mut next = vec![Cell { alive: false }; len];
        fill_seeded(&mut current, &mut source, seeding);
        clear_cells(&mut next);
        Ok(AutomatonState { rows, cols, boundary, seeding, current, next, source })
    }

    /// Seeds the current generation afresh from the next `rows * cols` draws
    /// of the grid's random stream, in place, and clears the scratch buffer. Dimensions, boundary policy and
    /// seeding stay as they are.
    pub fn reset(&mut self)
        requires
            old(self).wf(),
        ensures
            final(self).wf(),
            final(self).num_rows() == old(self).num_rows(),
            final(self).num_cols() == old(self).num_cols(),
            final(self).mode() == old(self).mode(),
            final(self).seeding_spec() == old(self).seeding_spec(),
            final(self).seed_spec() == old(self).seed_spec(),
            final(self).draws_taken() == old(self).draws_taken() + old(self).num_rows()
                * old(self).num_cols(),
            final(self).cells() == seeded_grid(
                old(self).seeding_spec(),
                old(self).seed_spec(),
                old(self).draws_taken(),
                (old(self).num_rows() * old(self).num_cols()) as nat,
            ),
            all_dead(final(self).scratch()),
    {
        fill_seeded(&mut self.current, &mut self.source, self.seeding);
        clear_cells(&mut self.next);
    }
}

} // verus!
