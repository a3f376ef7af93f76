//! General laws of the engine, each proved once for every grid: how one
//! generation relates to the next, stated over the same spec functions that
//! `step`'s contract uses.

use crate::grid::{row_major, Grid, Topology};
use crate::stepper::{is_step_of, neighbor_count, neighbor_live, step_cell};
use vstd::arithmetic::div_mod::{lemma_fundamental_div_mod, lemma_mod_pos_bound};
use vstd::prelude::*;

verus! {

/// One step preserves the grid's dimensions: a grid standing as the step of
/// `g` has exactly `g`'s width and height.
pub proof fn lemma_step_preserves_dimensions(g: Grid, s: Grid)
    requires
        is_step_of(s, g),
    ensures
        s.spec_width() == g.spec_width(),
        s.spec_height() == g.spec_height(),
{
}

/// Survival: a live cell stays alive after one step exactly when it has 2 or
/// 3 live neighbors; with any other count it dies.
pub proof fn lemma_survival(g: Grid, s: Grid, row: int, col: int)
    requires
        g.wf(),
        is_step_of(s, g),
        g.live_at(row, col),
    ensures
        s.live_at(row, col) <==> (neighbor_count(g, row, col) == 2 || neighbor_count(g, row, col)
            == 3),
{
}

/// Birth: a dead cell becomes alive after one step exactly when it has 3 live
/// neighbors; otherwise it stays dead.
pub proof fn lemma_birth(g: Grid, s: Grid, row: int, col: int)
    requires
        g.wf(),
        is_step_of(s, g),
        g.in_bounds(row, col),
        !g.live_at(row, col),
    ensures
        s.live_at(row, col) <==> neighbor_count(g, row, col) == 3,
{
}

/// An all-dead grid is a fixed point: stepping a grid with no live cell
/// yields a grid with no live cell.
pub proof fn lemma_all_dead_fixed_point(g: Grid, s: Grid)
    requires
        g.wf(),
        is_step_of(s, g),
        forall|r: int, c: int| !(#[trigger] g.live_at(r, c)),
    ensures
        forall|r: int, c: int| !(#[trigger] s.live_at(r, c)),
{
    assert forall|r: int, c: int| !(#[trigger] s.live_at(r, c)) by {
        if s.in_bounds(r, c) {
            assert(!neighbor_live(g, r, c, -1, -1));
            assert(!neighbor_live(g, r, c, -1, 0));
            assert(!neighbor_live(g, r, c, -1, 1));
            assert(!neighbor_live(g, r, c, 0, -1));
            assert(!neighbor_live(g, r, c, 0, 1));
            assert(!neighbor_live(g, r, c, 1, -1));
            assert(!neighbor_live(g, r, c, 1, 0));
            assert(!neighbor_live(g, r, c, 1, 1));
            assert(neighbor_count(g, r, c) == 0);
            assert(!g.live_at(r, c));
            assert(s.live_at(r, c) == step_cell(g, r, c));
        }
    }
}

/// An isolated live cell dies: a bounded grid whose only live cell is at
/// `(row0, col0)` steps to the all-dead grid, since that cell has no live
/// neighbor and no dead cell has more than one. Under toroidal edges the law
/// fails on degenerate grids, where one live cell can wrap into several
/// neighbor slots of the same position, so it is stated for bounded edges.
pub proof fn lemma_isolated_cell_dies(g: Grid, s: Grid, row0: int, col0: int)
    requires
        g.wf(),
        g.topology == Topology::Bounded,
        is_step_of(s, g),
        g.live_at(row0, col0),
        forall|r: int, c: int| !(r == row0 && c == col0) ==> !(#[trigger] g.live_at(r, c)),
    ensures
        forall|r: int, c: int| !(#[trigger] s.live_at(r, c)),
{
    assert forall|r: int, c: int| !(#[trigger] s.live_at(r, c)) by {
        if s.in_bounds(r, c) {
            assert(g.live_at(r - 1, c - 1) ==> r - 1 == row0 && c - 1 == col0);
            assert(g.live_at(r - 1, c) ==> r - 1 == row0 && c == col0);
            assert(g.live_at(r - 1, c + 1) ==> r - 1 == row0 && c + 1 == col0);
            assert(g.live_at(r, c - 1) ==> r == row0 && c - 1 == col0);
            assert(g.live_at(r, c + 1) ==> r == row0 && c + 1 == col0);
            assert(g.live_at(r + 1, c - 1) ==> r + 1 == row0 && c - 1 == col0);
            assert(g.live_at(r + 1, c) ==> r + 1 == row0 && c == col0);
            assert(g.live_at(r + 1, c + 1) ==> r + 1 == row0 && c + 1 == col0);
            assert(neighbor_count(g, r, c) <= 1);
            assert(s.live_at(r, c) == step_cell(g, r, c));
        }
    }
}

/// Determinism: two grids that both stand as the step of the same input agree
/// on every cell and hold identical cell buffers — the transition depends on
/// the input grid alone.
pub proof fn lemma_step_deterministic(g: Grid, s1: Grid, s2: Grid)
    requires
        g.wf(),
        is_step_of(s1, g),
        is_step_of(s2, g),
    ensures
        forall|r: int, c: int| #[trigger] s1.live_at(r, c) == s2.live_at(r, c),
        s1.cells@ == s2.cells@,
{
    assert forall|r: int, c: int| #[trigger] s1.live_at(r, c) == s2.live_at(r, c) by {
        if g.in_bounds(r, c) {
            assert(s1.live_at(r, c) == step_cell(g, r, c));
            assert(s2.live_at(r, c) == step_cell(g, r, c));
        }
    }
    let w = g.spec_width();
    let h = g.spec_height();
    assert(s1.cells@.len() == w * h);
    assert(s2.cells@.len() == w * h);
    assert forall|i: int| 0 <= i < s1.cells@.len() implies s1.cells@[i] == s2.cells@[i] by {
        let q = i / w;
        let m = i % w;
        lemma_fundamental_div_mod(i, w);
        lemma_mod_pos_bound(i, w);
        assert(0 <= q < h && q * w + m == i) by (nonlinear_arith)
            requires
                i == w * q + m,
                0 <= m < w,
                0 <= i < w * h,
        ;
        assert(row_major(q, m, w) == i);
        assert(s1.in_bounds(q, m) && s2.in_bounds(q, m));
        assert(s1.live_at(q, m) == s2.live_at(q, m));
        assert(s1.cells@[i] == s1.live_at(q, m));
        assert(s2.cells@[i] == s2.live_at(q, m));
    }
    assert(s1.cells@ =~= s2.cells@);
}

} // verus!
