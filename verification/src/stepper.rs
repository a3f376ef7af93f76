//! The stepper: advances a grid by one generation, evaluating the rule for
//! every cell against an immutable snapshot of the previous generation and
//! writing the results into a fresh grid.

use crate::grid::{lemma_row_major_in_range, lemma_row_major_order, row_major, Grid, Topology};
use crate::rule::{next_state, spec_next_state};
use vstd::prelude::*;

verus! {

/// 1 for a live cell, 0 for a dead one.
pub open spec fn b2i(b: bool) -> int {
    if b {
        1
    } else {
        0
    }
}

/// Wraps a coordinate that strayed at most one step outside `[0, n)` back
/// into range, as toroidal edges demand.
pub open spec fn wrap1(x: int, n: int) -> int {
    if x < 0 {
        x + n
    } else if x >= n {
        x - n
    } else {
        x
    }
}

/// Whether the neighbor of `(row, col)` at offset `(dr, dc)` is alive. Under
/// bounded edges a position outside the grid counts as dead; under toroidal
/// edges it wraps around to the opposite side.
pub open spec fn neighbor_live(g: Grid, row: int, col: int, dr: int, dc: int) -> bool {
    match g.topology {
        Topology::Bounded => g.live_at(row + dr, col + dc),
        Topology::Toroidal => g.live_at(
            wrap1(row + dr, g.spec_height()),
            wrap1(col + dc, g.spec_width()),
        ),
    }
}

/// The number of live cells among the eight neighbors of `(row, col)`: the
/// positions offset by `(+-1, 0)`, `(0, +-1)` and `(+-1, +-1)`, looked up
/// under the grid's boundary policy.
pub open spec fn neighbor_count(g: Grid, row: int, col: int) -> int {
    b2i(neighbor_live(g, row, col, -1, -1)) + b2i(neighbor_live(g, row, col, -1, 0)) + b2i(
        neighbor_live(g, row, col, -1, 1),
    ) + b2i(neighbor_live(g, row, col, 0, -1)) + b2i(neighbor_live(g, row, col, 0, 1)) + b2i(
        neighbor_live(g, row, col, 1, -1),
    ) + b2i(neighbor_live(g, row, col, 1, 0)) + b2i(neighbor_live(g, row, col, 1, 1))
}

/// The next generation's state of the cell at `(row, col)` of `g`: the rule
/// applied to the cell's current state and its live-neighbor count.
pub open spec fn step_cell(g: Grid, row: int, col: int) -> bool {
    spec_next_state(g.live_at(row, col), neighbor_count(g, row, col))
}

/// How one generation relates to the next: `s` has the same dimensions as
/// `g`, and every in-bounds cell of `s` is the rule applied to the matching
/// cell of `g` and its live-neighbor count in `g`.
pub open spec fn is_step_of(s: Grid, g: Grid) -> bool {
    &&& s.wf()
    &&& s.spec_width() == g.spec_width()
    &&& s.spec_height() == g.spec_height()
    &&& s.topology == g.topology
    &&& forall|r: int, c: int|
        g.in_bounds(r, c) ==> #[trigger] s.live_at(r, c) == step_cell(g, r, c)
}

/// Whether the cell at the signed position `(row, col)` of `g` is alive; any
/// position outside the grid is dead.
fn live_signed(g: &Grid, row: i64, col: i64) -> (b: bool)
    requires
        g.wf(),
    ensures
        b == g.live_at(row as int, col as int),
{
    if 0 <= row && row < g.height as i64 && 0 <= col && col < g.width as i64 {
        proof {
            lemma_row_major_in_range(row as int, col as int, g.spec_width(), g.spec_height());
        }
        let idx: usize = (row as usize) * (g.width as usize) + (col as usize);
        g.cells[idx]
    } else {
        false
    }
}

/// Wraps a coordinate that strayed at most one step outside `[0, n)` back
/// into range.
fn wrap_coord(x: i64, n: u32) -> (w: u32)
    requires
        n >= 1,
        -1 <= x as int <= n as int,
    ensures
        w as int == wrap1(x as int, n as int),
        w < n,
{
    if x < 0 {
        n - 1
    } else if x >= n as i64 {
        0
    } else {
        x as u32
    }
}

/// Whether the neighbor of the in-bounds cell `(row, col)` at offset
/// `(dr, dc)` is alive, looked up under the grid's boundary policy.
fn neighbor_alive(g: &Grid, row: u32, col: u32, dr: i64, dc: i64) -> (b: bool)
    requires
        g.wf(),
        g.in_bounds(row as int, col as int),
        -1 <= dr <= 1,
        -1 <= dc <= 1,
    ensures
        b == neighbor_live(*g, row as int, col as int, dr as int, dc as int),
{
    match g.topology {
        Topology::Bounded => live_signed(g, row as i64 + dr, col as i64 + dc),
        Topology::Toroidal => {
            let r = wrap_coord(row as i64 + dr, g.height);
            let c = wrap_coord(col as i64 + dc, g.width);
            proof {
                lemma_row_major_in_range(r as int, c as int, g.spec_width(), g.spec_height());
            }
            let idx: usize = (r as usize) * (g.width as usize) + (c as usize);
            g.cells[idx]
        },
    }
}

/// Counts the live neighbors of the in-bounds cell at `(row, col)`.
pub fn count_live_neighbors(g: &Grid, row: u32, col: u32) -> (n: u8)
    requires
        g.wf(),
        g.in_bounds(row as int, col as int),
    ensures
        n as int == neighbor_count(*g, row as int, col as int),
        n <= 8,
{
    let mut n: u8 = 0;
    if neighbor_alive(g, row, col, -1, -1) {
        n = n + 1;
    }
    if neighbor_alive(g, row, col, -1, 0) {
        n = n + 1;
    }
    if neighbor_alive(g, row, col, -1, 1) {
        n = n + 1;
    }
    if neighbor_alive(g, row, col, 0, -1) {
        n = n + 1;
    }
    if neighbor_alive(g, row, col, 0, 1) {
        n = n + 1;
    }
    if neighbor_alive(g, row, col, 1, -1) {
        n = n + 1;
    }
    if neighbor_alive(g, row, col, 1, 0) {
        n = n + 1;
    }
    if neighbor_alive(g, row, col, 1, 1) {
        n = n + 1;
    }
    n
}

/// Advances `current` one generation. The result is a fresh grid of the same
/// dimensions; each of its cells is the rule applied to the matching cell of
/// the `current` snapshot, which is never mutated during the evaluation.
pub fn step(current: &Grid) -> (next: Grid)
    requires
        current.wf(),
    ensures
        next.wf(),
        next.spec_width() == current.spec_width(),
        next.spec_height() == current.spec_height(),
        next.topology == current.topology,
        is_step_of(next, *current),
{
    let width = current.width;
    let height = current.height;
    let topology = current.topology;
    let mut cells: Vec<bool> = Vec::new();
    let mut row: u32 = 0;
    while row < height
        invariant
            row <= height,
            current.wf(),
            width == current.width,
            height == current.height,
            cells@.len() == (row as int) * (width as int),
            forall|r: int, c: int|
                0 <= r < row && 0 <= c < width ==> #[trigger] cells@[row_major(r, c, width as int)]
                    == step_cell(*current, r, c),
        decreases height - row,
    {
        let mut col: u32 = 0;
        while col < width
            invariant
                row < height,
                col <= width,
                current.wf(),
                width == current.width,
                height == current.height,
                cells@.len() == row_major(row as int, col as int, width as int),
                forall|r: int, c: int|
                    (0 <= r < row && 0 <= c < width) || (r == row && 0 <= c < col)
                        ==> #[trigger] cells@[row_major(r, c, width as int)] == step_cell(
                        *current,
                        r,
                        c,
                    ),
            decreases width - col,
        {
            let alive = live_signed(current, row as i64, col as i64);
            let count = count_live_neighbors(current, row, col);
            let v = next_state(alive, count);
            let ghost prev = cells@;
            cells.push(v);
            proof {
                lemma_row_major_in_range(row as int, col as int, width as int, height as int);
                assert forall|r: int, c: int|
                    (0 <= r < row && 0 <= c < width) || (r == row && 0 <= c < col + 1)
                        implies #[trigger] cells@[row_major(r, c, width as int)] == step_cell(
                    *current,
                    r,
                    c,
                ) by {
                    if r == row as int && c == col as int {
                        assert(cells@[row_major(r, c, width as int)] == v);
                    } else {
                        lemma_row_major_order(r, c, row as int, col as int, width as int);
                        assert(cells@[row_major(r, c, width as int)] == prev[row_major(
                            r,
                            c,
                            width as int,
                        )]);
                    }
                }
            }
            col = col + 1;
        }
        proof {
            assert((row as int + 1) * (width as int) == (row as int) * (width as int) + (
            width as int)) by (nonlinear_arith);
        }
        row = row + 1;
    }
    let next = Grid { width, height, topology, cells };
    proof {
        assert((width as int) * (height as int) == (height as int) * (width as int))
            by (nonlinear_arith);
        assert forall|r: int, c: int| current.in_bounds(r, c) implies #[trigger] next.live_at(r, c)
            == step_cell(*current, r, c) by {
            lemma_row_major_in_range(r, c, width as int, height as int);
        }
    }
    next
}

} // verus!
