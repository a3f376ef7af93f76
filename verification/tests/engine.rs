use game_of_life::grid::{Grid, GridError, Topology};
use game_of_life::rule::next_state;
use game_of_life::stepper::{count_live_neighbors, step};

/// Builds a grid with exactly the given cells alive.
fn grid_with_live(width: u32, height: u32, live: &[(u32, u32)]) -> Grid {
    Grid::new(width, height, |r: u32, c: u32| live.contains(&(r, c))).unwrap()
}

/// Collects the live positions of a grid, in row-major order.
fn live_positions(g: &Grid) -> Vec<(u32, u32)> {
    let (width, height) = g.dimensions();
    let mut live = Vec::new();
    for r in 0..height {
        for c in 0..width {
            if g.get(r, c).unwrap() {
                live.push((r, c));
            }
        }
    }
    live
}

fn grids_equal(a: &Grid, b: &Grid) -> bool {
    a.dimensions() == b.dimensions() && live_positions(a) == live_positions(b)
}

#[test]
fn rule_live_cell_survives_with_two_or_three() {
    assert!(next_state(true, 2));
    assert!(next_state(true, 3));
    for n in [0u8, 1, 4, 5, 6, 7, 8] {
        assert!(!next_state(true, n));
    }
}

#[test]
fn rule_dead_cell_born_with_exactly_three() {
    assert!(next_state(false, 3));
    for n in [0u8, 1, 2, 4, 5, 6, 7, 8] {
        assert!(!next_state(false, n));
    }
}

#[test]
fn step_preserves_dimensions() {
    let g = grid_with_live(7, 3, &[(0, 0), (2, 6), (1, 3)]);
    let s = step(&g);
    assert_eq!(s.dimensions(), (7, 3));
    let t = step(&s);
    assert_eq!(t.dimensions(), (7, 3));
}

#[test]
fn all_dead_grid_is_fixed_point() {
    let g = Grid::new_dead(4, 5).unwrap();
    let s = step(&g);
    assert_eq!(s.dimensions(), (4, 5));
    assert!(live_positions(&s).is_empty());
}

#[test]
fn isolated_cell_dies() {
    let g = grid_with_live(5, 5, &[(2, 2)]);
    let s = step(&g);
    assert!(live_positions(&s).is_empty());
}

#[test]
fn block_still_life_is_fixed_point() {
    let block = grid_with_live(4, 4, &[(1, 1), (1, 2), (2, 1), (2, 2)]);
    let s = step(&block);
    assert!(grids_equal(&s, &block));
}

#[test]
fn blinker_oscillates_with_period_two() {
    let horizontal = grid_with_live(10, 10, &[(5, 4), (5, 5), (5, 6)]);
    let after_one = step(&horizontal);
    let vertical = grid_with_live(10, 10, &[(4, 5), (5, 5), (6, 5)]);
    assert!(grids_equal(&after_one, &vertical));
    let after_two = step(&after_one);
    assert!(grids_equal(&after_two, &horizontal));
}

#[test]
fn zero_width_is_invalid_dimensions() {
    assert_eq!(Grid::new_dead(0, 7).err(), Some(GridError::InvalidDimensions));
    assert_eq!(
        Grid::new(0, 7, |_r: u32, _c: u32| true).err(),
        Some(GridError::InvalidDimensions)
    );
    assert_eq!(
        Grid::new_random(0, 7).err(),
        Some(GridError::InvalidDimensions)
    );
}

#[test]
fn zero_height_is_invalid_dimensions() {
    assert_eq!(Grid::new_dead(7, 0).err(), Some(GridError::InvalidDimensions));
    assert_eq!(
        Grid::new(7, 0, |_r: u32, _c: u32| true).err(),
        Some(GridError::InvalidDimensions)
    );
    assert_eq!(
        Grid::new_random(0, 0).err(),
        Some(GridError::InvalidDimensions)
    );
}

#[test]
fn get_outside_grid_is_out_of_bounds() {
    let g = Grid::new_dead(3, 2).unwrap();
    assert_eq!(g.get(2, 0), Err(GridError::OutOfBounds));
    assert_eq!(g.get(0, 3), Err(GridError::OutOfBounds));
    assert_eq!(g.get(9, 9), Err(GridError::OutOfBounds));
    assert_eq!(g.get(1, 2), Ok(false));
}

#[test]
fn set_outside_grid_is_out_of_bounds() {
    let mut g = Grid::new_dead(3, 3).unwrap();
    assert_eq!(g.set(3, 0, true), Err(GridError::OutOfBounds));
    assert_eq!(g.set(0, 3, true), Err(GridError::OutOfBounds));
    assert!(live_positions(&g).is_empty());
}

#[test]
fn set_then_get_roundtrip() {
    let mut g = Grid::new_dead(3, 3).unwrap();
    assert_eq!(g.set(1, 2, true), Ok(()));
    assert_eq!(g.get(1, 2), Ok(true));
    assert_eq!(g.get(2, 1), Ok(false));
    assert_eq!(g.set(1, 2, false), Ok(()));
    assert_eq!(g.get(1, 2), Ok(false));
}

#[test]
fn initializer_decides_each_cell() {
    let g = Grid::new(4, 3, |r: u32, c: u32| (r + c) % 2 == 0).unwrap();
    for r in 0..3u32 {
        for c in 0..4u32 {
            assert_eq!(g.get(r, c), Ok((r + c) % 2 == 0));
        }
    }
}

#[test]
fn step_is_deterministic() {
    let live = [(0, 1), (1, 1), (2, 1), (2, 2), (3, 0)];
    let g1 = grid_with_live(6, 6, &live);
    let g2 = grid_with_live(6, 6, &live);
    assert!(grids_equal(&step(&g1), &step(&g2)));
    assert!(grids_equal(&step(&g1), &step(&g1)));
}

#[test]
fn neighbor_count_in_the_interior() {
    let g = grid_with_live(5, 5, &[(1, 1), (1, 2), (1, 3), (2, 1), (3, 3)]);
    assert_eq!(count_live_neighbors(&g, 2, 2), 5);
    assert_eq!(count_live_neighbors(&g, 0, 0), 1);
}

#[test]
fn neighbor_count_at_the_border_treats_outside_as_dead() {
    // A full 2x2 grid: every cell has exactly the other three as neighbors.
    let g = grid_with_live(2, 2, &[(0, 0), (0, 1), (1, 0), (1, 1)]);
    assert_eq!(count_live_neighbors(&g, 0, 0), 3);
    assert_eq!(count_live_neighbors(&g, 0, 1), 3);
    assert_eq!(count_live_neighbors(&g, 1, 0), 3);
    assert_eq!(count_live_neighbors(&g, 1, 1), 3);
    // So the full 2x2 grid is itself a still life.
    assert!(grids_equal(&step(&g), &g));
}

fn toroidal_with_live(width: u32, height: u32, live: &[(u32, u32)]) -> Grid {
    Grid::new_with_topology(width, height, Topology::Toroidal, |r: u32, c: u32| {
        live.contains(&(r, c))
    })
    .unwrap()
}

#[test]
fn bounded_blinker_at_the_edge_collapses() {
    // With bounded edges the top row has no neighbors above it, so a blinker
    // pressed against the edge loses its top arm instead of oscillating.
    let g = grid_with_live(5, 5, &[(0, 1), (0, 2), (0, 3)]);
    let s = step(&g);
    assert_eq!(live_positions(&s), vec![(0, 2), (1, 2)]);
}

#[test]
fn toroidal_blinker_wraps_across_the_edge() {
    // With toroidal edges the same blinker sees the bottom row as its upper
    // neighbors and keeps oscillating with period two.
    let g = toroidal_with_live(5, 5, &[(0, 1), (0, 2), (0, 3)]);
    let s = step(&g);
    assert_eq!(live_positions(&s), vec![(0, 2), (1, 2), (4, 2)]);
    let t = step(&s);
    assert!(grids_equal(&t, &g));
}

#[test]
fn toroidal_single_column_wraps_onto_itself() {
    // In a one-column toroidal grid the left and right neighbor offsets wrap
    // back onto the column, so one live cell is seen twice by itself and
    // three times by each vertical neighbor.
    let g = toroidal_with_live(1, 3, &[(0, 0)]);
    let s = step(&g);
    assert_eq!(live_positions(&s), vec![(0, 0), (1, 0), (2, 0)]);
    let t = step(&s);
    assert!(live_positions(&t).is_empty());
}

#[test]
fn random_grid_has_requested_dimensions() {
    let g = Grid::new_random(8, 6).unwrap();
    assert_eq!(g.dimensions(), (8, 6));
    for r in 0..6u32 {
        for c in 0..8u32 {
            assert!(g.get(r, c).is_ok());
        }
    }
}
