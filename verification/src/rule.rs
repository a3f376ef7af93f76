//! The rule evaluator: a pure function from a cell's current state and its
//! live-neighbor count to its state in the next generation.

use vstd::prelude::*;

verus! {

/// The canonical Game of Life transition rule: a live cell survives with
/// exactly 2 or 3 live neighbors, a dead cell is born with exactly 3 live
/// neighbors, and every other cell is dead in the next generation.
pub open spec fn spec_next_state(alive: bool, live_neighbor_count: int) -> bool {
    if alive {
        live_neighbor_count == 2 || live_neighbor_count == 3
    } else {
        live_neighbor_count == 3
    }
}

/// Computes the next state of one cell from its current state and its
/// live-neighbor count.
pub fn next_state(alive: bool, live_neighbor_count: u8) -> (next: bool)
    ensures
        next == spec_next_state(alive, live_neighbor_count as int),
{
    if alive {
        live_neighbor_count == 2 || live_neighbor_count == 3
    } else {
        live_neighbor_count == 3
    }
}

} // verus!
