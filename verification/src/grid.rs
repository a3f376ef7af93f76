//! The grid: a two-dimensional field of binary cells, stored densely in
//! row-major order, with fixed dimensions of at least one in each axis and a
//! boundary policy chosen at construction.

use vstd::arithmetic::div_mod::lemma_fundamental_div_mod_converse;
use vstd::pervasive::VecAdditionalExecFns;
use vstd::prelude::*;

verus! {

/// The errors the engine can report: rejected construction dimensions, and a
/// cell query outside the grid.
#[derive(Clone, Copy, Debug, PartialEq, Eq, Structural)]
pub enum GridError {
    /// Construction was asked for a grid with zero width or zero height.
    InvalidDimensions,
    /// A queried position lies outside `[0, width) x [0, height)`.
    OutOfBounds,
}

/// The grid's boundary policy, fixed at construction. With `Bounded` edges,
/// positions beyond the extent are permanently dead; with `Toroidal` edges,
/// neighbor lookups wrap around to the opposite side.
#[derive(Clone, Copy, Debug, PartialEq, Eq, Structural)]
pub enum Topology {
    Bounded,
    Toroidal,
}

/// The row-major index of position `(row, col)` in a grid of the given width.
pub open spec fn row_major(row: int, col: int, width: int) -> int {
    row * width + col
}

/// An in-bounds position has a row-major index inside a buffer of
/// `width * height` cells.
pub proof fn lemma_row_major_in_range(row: int, col: int, width: int, height: int)
    requires
        0 <= row < height,
        0 <= col < width,
    ensures
        0 <= row_major(row, col, width) < width * height,
{
    assert(0 <= row * width + col < width * height) by (nonlinear_arith)
        requires
            0 <= row < height,
            0 <= col < width,
    ;
}

/// Row-major indexing is injective on in-bounds columns: two positions with
/// the same index are the same position.
pub proof fn lemma_row_major_injective(r1: int, c1: int, r2: int, c2: int, width: int)
    requires
        0 <= r1,
        0 <= r2,
        0 <= c1 < width,
        0 <= c2 < width,
        row_major(r1, c1, width) == row_major(r2, c2, width),
    ensures
        r1 == r2,
        c1 == c2,
{
    let i = row_major(r1, c1, width);
    lemma_fundamental_div_mod_converse(i, width, r1, c1);
    lemma_fundamental_div_mod_converse(i, width, r2, c2);
}

/// Row-major order: a position on an earlier row, or on the same row at an
/// earlier column, has a strictly smaller index.
pub proof fn lemma_row_major_order(r1: int, c1: int, r2: int, c2: int, width: int)
    requires
        0 <= r1,
        0 <= c1 < width,
        0 <= c2,
        r1 < r2 || (r1 == r2 && c1 < c2),
    ensures
        0 <= row_major(r1, c1, width) < row_major(r2, c2, width),
{
    assert(0 <= r1 * width + c1 < r2 * width + c2) by (nonlinear_arith)
        requires
            0 <= r1,
            0 <= c1 < width,
            0 <= c2,
            r1 < r2 || (r1 == r2 && c1 < c2),
    ;
}

/// Relies on rand::random: draws one boolean from the process-wide random
/// source. Nothing is promised of the value.
#[verifier::external_body]
fn random_bool() -> bool {
    rand::random::<bool>()
}

/// A two-dimensional grid of cells, each alive or dead. Positions are
/// `(row, col)` with `0 <= row < height` and `0 <= col < width`; cells sit
/// densely in row-major order.
pub struct Grid {
    pub width: u32,
    pub height: u32,
    pub topology: Topology,
    pub cells: Vec<bool>,
}

impl Grid {
    /// Well-formedness: both dimensions are at least one, the buffer holds
    /// exactly one cell per position, and the cell count fits in a `usize`
    /// index.
    pub open spec fn wf(self) -> bool {
        &&& self.width >= 1
        &&& self.height >= 1
        &&& self.cells@.len() == self.spec_width() * self.spec_height()
        &&& self.spec_width() * self.spec_height() <= usize::MAX as int
    }

    pub open spec fn spec_width(self) -> int {
        self.width as int
    }

    pub open spec fn spec_height(self) -> int {
        self.height as int
    }

    /// Whether `(row, col)` lies inside the grid.
    pub open spec fn in_bounds(self, row: int, col: int) -> bool {
        0 <= row < self.spec_height() && 0 <= col < self.spec_width()
    }

    /// Whether the cell at `(row, col)` is alive. Positions outside the grid
    /// hold no cell and read as dead; any toroidal wrapping happens in the
    /// stepper's neighbor lookup, never here.
    pub open spec fn live_at(self, row: int, col: int) -> bool {
        self.in_bounds(row, col) && self.cells@[row_major(row, col, self.spec_width())]
    }

    /// Creates a grid of the given dimensions and boundary policy whose cell
    /// at each position `(row, col)` is the initializer's answer for that
    /// position. Fails with `InvalidDimensions` exactly when
    /// `width == 0 || height == 0`.
    pub fn new_with_topology<F: Fn(u32, u32) -> bool>(
        width: u32,
        height: u32,
        topology: Topology,
        initializer: F,
    ) -> (result: Result<Grid, GridError>)
        requires
            (width as int) * (height as int) <= usize::MAX as int,
            forall|r: u32, c: u32|
                r < height && c < width ==> #[trigger] call_requires(initializer, (r, c)),
        ensures
            result is Ok <==> (width >= 1 && height >= 1),
            result is Err ==> result == Err::<Grid, GridError>(GridError::InvalidDimensions),
            result matches Ok(g) ==> {
                &&& g.wf()
                &&& g.spec_width() == width
                &&& g.spec_height() == height
                &&& g.topology == topology
                &&& forall|r: int, c: int|
                    g.in_bounds(r, c) ==> call_ensures(
                        initializer,
                        (r as u32, c as u32),
                        #[trigger] g.live_at(r, c),
                    )
            },
    {
        if width == 0 || height == 0 {
            return Err(GridError::InvalidDimensions);
        }
        let mut cells: Vec<bool> = Vec::new();
        let mut row: u32 = 0;
        while row < height
            invariant
                row <= height,
                width >= 1,
                height >= 1,
                (width as int) * (height as int) <= usize::MAX as int,
                cells@.len() == row_major(row as int, 0, width as int),
                forall|r: u32, c: u32|
                    r < height && c < width ==> #[trigger] call_requires(initializer, (r, c)),
                forall|r: int, c: int|
                    0 <= r < row && 0 <= c < width ==> call_ensures(
                        initializer,
                        (r as u32, c as u32),
                        #[trigger] cells@[row_major(r, c, width as int)],
                    ),
            decreases height - row,
        {
            let mut col: u32 = 0;
            while col < width
                invariant
                    row < height,
                    col <= width,
                    width >= 1,
                    height >= 1,
                    (width as int) * (height as int) <= usize::MAX as int,
                    cells@.len() == row_major(row as int, col as int, width as int),
                    forall|r: u32, c: u32|
                        r < height && c < width ==> #[trigger] call_requires(initializer, (r, c)),
                    forall|r: int, c: int|
                        (0 <= r < row && 0 <= c < width) || (r == row && 0 <= c < col)
                            ==> call_ensures(
                            initializer,
                            (r as u32, c as u32),
                            #[trigger] cells@[row_major(r, c, width as int)],
                        ),
                decreases width - col,
            {
                let alive = initializer(row, col);
                let ghost prev = cells@;
                cells.push(alive);
                proof {
                    lemma_row_major_in_range(row as int, col as int, width as int, height as int);
                    assert forall|r: int, c: int|
                        (0 <= r < row && 0 <= c < width) || (r == row && 0 <= c < col + 1)
                            implies call_ensures(
                        initializer,
                        (r as u32, c as u32),
                        #[trigger] cells@[row_major(r, c, width as int)],
                    ) by {
                        if r == row as int && c == col as int {
                            assert(cells@[row_major(r, c, width as int)] == alive);
                        } else {
                            lemma_row_major_order(r, c, row as int, col as int, width as int);
                            assert(cells@[row_major(r, c, width as int)] == prev[row_major(
                                r,
                                c,
                                width as int,
                            )]);
                        }
                    }
                }
                col = col + 1;
            }
            proof {
                assert((row as int + 1) * (width as int) == (row as int) * (width as int) + (
                width as int)) by (nonlinear_arith);
            }
            row = row + 1;
        }
        let g = Grid { width, height, topology, cells };
        proof {
            assert((width as int) * (height as int) == (height as int) * (width as int))
                by (nonlinear_arith);
            assert forall|r: int, c: int| g.in_bounds(r, c) implies call_ensures(
                initializer,
                (r as u32, c as u32),
                #[trigger] g.live_at(r, c),
            ) by {
                lemma_row_major_in_range(r, c, width as int, height as int);
            }
        }
        Ok(g)
    }

    /// Creates a grid with the default bounded boundary policy: positions
    /// beyond the extent are permanently dead. The cell at each position
    /// `(row, col)` is the initializer's answer for that position. Fails with
    /// `InvalidDimensions` exactly when `width == 0 || height == 0`.
    pub fn new<F: Fn(u32, u32) -> bool>(width: u32, height: u32, initializer: F) -> (result:
        Result<Grid, GridError>)
        requires
            (width as int) * (height as int) <= usize::MAX as int,
            forall|r: u32, c: u32|
                r < height && c < width ==> #[trigger] call_requires(initializer, (r, c)),
        ensures
            result is Ok <==> (width >= 1 && height >= 1),
            result is Err ==> result == Err::<Grid, GridError>(GridError::InvalidDimensions),
            result matches Ok(g) ==> {
                &&& g.wf()
                &&& g.spec_width() == width
                &&& g.spec_height() == height
                &&& g.topology == Topology::Bounded
                &&& forall|r: int, c: int|
                    g.in_bounds(r, c) ==> call_ensures(
                        initializer,
                        (r as u32, c as u32),
                        #[trigger] g.live_at(r, c),
                    )
            },
    {
        Grid::new_with_topology(width, height, Topology::Bounded, initializer)
    }

    /// Creates a grid of the given dimensions with every cell dead. Fails
    /// with `InvalidDimensions` exactly when `width == 0 || height == 0`.
    pub fn new_dead(width: u32, height: u32) -> (result: Result<Grid, GridError>)
        requires
            (width as int) * (height as int) <= usize::MAX as int,
        ensures
            result is Ok <==> (width >= 1 && height >= 1),
            result is Err ==> result == Err::<Grid, GridError>(GridError::InvalidDimensions),
            result matches Ok(g) ==> {
                &&& g.wf()
                &&& g.spec_width() == width
                &&& g.spec_height() == height
                &&& g.topology == Topology::Bounded
                &&& forall|r: int, c: int| !(#[trigger] g.live_at(r, c))
            },
    {
        let dead = (|_r: u32, _c: u32| -> (b: bool)
            ensures
                !b,
            {
                false
            });
        let result = Grid::new(width, height, dead);
        proof {
            if result is Ok {
                let g = result->Ok_0;
                assert forall|r: int, c: int| !(#[trigger] g.live_at(r, c)) by {
                    if g.in_bounds(r, c) {
                        assert(call_ensures(dead, (r as u32, c as u32), g.live_at(r, c)));
                    }
                }
            }
        }
        result
    }

    /// Creates a grid of the given dimensions with every cell seeded
    /// independently from the process-wide random source. Fails with
    /// `InvalidDimensions` exactly when `width == 0 || height == 0`; the cell
    /// states themselves are random and carry no promise.
    pub fn new_random(width: u32, height: u32) -> (result: Result<Grid, GridError>)
        requires
            (width as int) * (height as int) <= usize::MAX as int,
        ensures
            result is Ok <==> (width >= 1 && height >= 1),
            result is Err ==> result == Err::<Grid, GridError>(GridError::InvalidDimensions),
            result matches Ok(g) ==> g.wf() && g.spec_width() == width && g.spec_height() == height
                && g.topology == Topology::Bounded,
    {
        let seed = (|_r: u32, _c: u32| -> bool { random_bool() });
        Grid::new(width, height, seed)
    }

    /// Reports the grid's width and height.
    pub fn dimensions(&self) -> (d: (u32, u32))
        ensures
            d.0 == self.spec_width(),
            d.1 == self.spec_height(),
    {
        (self.width, self.height)
    }

    /// Returns whether the cell at `(row, col)` is alive, or `OutOfBounds`
    /// exactly when the position lies outside the grid.
    pub fn get(&self, row: u32, col: u32) -> (result: Result<bool, GridError>)
        requires
            self.wf(),
        ensures
            self.in_bounds(row as int, col as int) ==> result == Ok::<bool, GridError>(
                self.live_at(row as int, col as int),
            ),
            !self.in_bounds(row as int, col as int) ==> result == Err::<bool, GridError>(
                GridError::OutOfBounds,
            ),
    {
        if row < self.height && col < self.width {
            proof {
                lemma_row_major_in_range(
                    row as int,
                    col as int,
                    self.spec_width(),
                    self.spec_height(),
                );
            }
            let idx: usize = (row as usize) * (self.width as usize) + (col as usize);
            Ok(self.cells[idx])
        } else {
            Err(GridError::OutOfBounds)
        }
    }

    /// Sets the cell at `(row, col)`, leaving every other cell and the
    /// dimensions unchanged, or fails with `OutOfBounds` exactly when the
    /// position lies outside the grid, leaving the grid unchanged.
    pub fn set(&mut self, row: u32, col: u32, alive: bool) -> (result: Result<(), GridError>)
        requires
            old(self).wf(),
        ensures
            final(self).wf(),
            final(self).spec_width() == old(self).spec_width(),
            final(self).spec_height() == old(self).spec_height(),
            final(self).topology == old(self).topology,
            old(self).in_bounds(row as int, col as int) ==> {
                &&& result == Ok::<(), GridError>(())
                &&& forall|r: int, c: int|
                    #[trigger] final(self).live_at(r, c) == (if r == row as int && c
                        == col as int {
                        alive
                    } else {
                        old(self).live_at(r, c)
                    })
            },
            !old(self).in_bounds(row as int, col as int) ==> result == Err::<(), GridError>(
                GridError::OutOfBounds,
            ) && *final(self) == *old(self),
    {
        if row < self.height && col < self.width {
            proof {
                lemma_row_major_in_range(
                    row as int,
                    col as int,
                    self.spec_width(),
                    self.spec_height(),
                );
            }
            let idx: usize = (row as usize) * (self.width as usize) + (col as usize);
            self.cells.set(idx, alive);
            proof {
                assert forall|r: int, c: int|
                    #[trigger] self.live_at(r, c) == (if r == row as int && c == col as int {
                        alive
                    } else {
                        old(self).live_at(r, c)
                    }) by {
                    if self.in_bounds(r, c) {
                        lemma_row_major_in_range(r, c, self.spec_width(), self.spec_height());
                        if row_major(r, c, self.spec_width()) == idx {
                            lemma_row_major_injective(
                                r,
                                c,
                                row as int,
                                col as int,
                                self.spec_width(),
                            );
                        }
                    }
                }
            }
            Ok(())
        } else {
            Err(GridError::OutOfBounds)
        }
    }
}

} // verus!
