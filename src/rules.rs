//! The local rule of the Game of Life, on a single cell.
use vstd::prelude::*;

verus! {

/// One cell of the grid: alive or dead.
#[derive(Clone, Copy, Debug, PartialEq, Eq, Structural)]
pub struct Cell {
    pub alive: bool,
}

/// The state of a cell in the next generation, from its own state and the
/// number of live cells around it.
pub open spec fn rule(alive: bool, live_neighbors: nat) -> bool {
    if alive {
        live_neighbors == 2 || live_neighbors == 3
    } else {
        live_neighbors == 3
    }
}

/// Applies the rule: a live cell survives with two or three live neighbors,
/// a dead cell is born with exactly three, every other cell is dead.
pub fn next_state(alive: bool, live_neighbors: usize) -> (r: bool)
    ensures
        r == rule(alive, live_neighbors as nat),
{
    match (alive, live_neighbors) {
        (true, 2) | (true, 3) => true,
        (false, 3) => true,
        _ => false,
    }
}

/// The rule as a table: underpopulation, survival and overpopulation for a
/// live cell; birth on exactly three for a dead one.
pub proof fn rule_table(alive: bool, live_neighbors: nat)
    ensures
        alive && live_neighbors < 2 ==> !rule(alive, live_neighbors),
        alive && (live_neighbors == 2 || live_neighbors == 3) ==> rule(alive, live_neighbors),
        alive && live_neighbors > 3 ==> !rule(alive, live_neighbors),
        !alive && live_neighbors == 3 ==> rule(alive, live_neighbors),
        !alive && live_neighbors != 3 ==> !rule(alive, live_neighbors),
{
}

} // verus!
