use evo::grid::{Cell, Grid, SeekOrientation};

#[test]
fn test_cell_set_unset() {
    let mut cell = Cell::new(7);
    assert_eq!(cell.value, 7);
    cell.unset();
    assert_eq!(cell.value, 0);
    cell.set(9);
    assert_eq!(cell.value, 9);
    let default_cell = Cell::default();
    assert_eq!(default_cell.value, 0);
}

#[test]
fn test_new_grid_is_empty() {
    let grid = Grid::new(4, 6);
    assert_eq!(grid.shape(), (4, 6));
    assert_eq!(grid.num_set(), 0);
    for r in 0..4 {
        for c in 0..6 {
            assert!(!grid.is_set((r, c)));
        }
    }
}

#[test]
fn test_shape_of_empty_grid() {
    let grid = Grid::new(0, 5);
    assert_eq!(grid.shape(), (0, 0));
    let grid2 = Grid::new(0, 0);
    assert_eq!(grid2.shape(), (0, 0));
}

#[test]
fn test_set_get_unset_cell() {
    let mut grid = Grid::new(3, 3);
    grid.set_cell((1, 2), 5);
    assert!(grid.is_set((1, 2)));
    assert_eq!(grid.get((1, 2)).value, 5);
    assert_eq!(grid.num_set(), 1);
    grid.unset_cell((1, 2));
    assert!(!grid.is_set((1, 2)));
    assert_eq!(grid.num_set(), 0);
}

#[test]
fn test_set_cells_last_write_wins() {
    let mut grid = Grid::new(2, 2);
    grid.set_cells(vec![((0, 0), 5), ((1, 1), 6), ((0, 0), 7)]);
    assert_eq!(grid.get((0, 0)).value, 7);
    assert_eq!(grid.get((1, 1)).value, 6);
    assert_eq!(grid.num_set(), 2);
}

#[test]
fn test_unset_cells() {
    let mut grid = Grid::new(2, 2);
    grid.set_cells(vec![((0, 0), 2), ((0, 1), 3), ((1, 0), 4)]);
    assert_eq!(grid.num_set(), 3);
    grid.unset_cells(vec![(0, 0), (1, 0)]);
    assert!(!grid.is_set((0, 0)));
    assert!(grid.is_set((0, 1)));
    assert!(!grid.is_set((1, 0)));
    assert_eq!(grid.num_set(), 1);
}

#[test]
fn test_reset_clears_any_occupancy() {
    let mut grid = Grid::new(3, 4);
    grid.set_cells(vec![((0, 0), 2), ((2, 3), 3), ((1, 1), 4)]);
    assert_eq!(grid.num_set(), 3);
    grid.reset();
    assert_eq!(grid.num_set(), 0);
    assert_eq!(grid.shape(), (3, 4));
    for r in 0..3 {
        for c in 0..4 {
            assert!(!grid.is_set((r, c)));
        }
    }
}

#[test]
fn test_seek_zero_at_edges_is_false() {
    let grid = Grid::new(3, 3);
    assert!(!grid.seek_zero((2, 1), SeekOrientation::PosX));
    assert!(!grid.seek_zero((0, 1), SeekOrientation::NegX));
    assert!(!grid.seek_zero((1, 2), SeekOrientation::PosY));
    assert!(!grid.seek_zero((1, 0), SeekOrientation::NegY));
}

/// A direct linear scan over the cells strictly between `pos` and the grid
/// edge, for checking `seek_zero` against its definition.
fn reference_seek(grid: &Grid, pos: (usize, usize), orientation: SeekOrientation) -> bool {
    let (x, y) = pos;
    let (rows, cols) = grid.shape();
    match orientation {
        SeekOrientation::PosX => (x + 1..rows).any(|i| !grid.is_set((i, y))),
        SeekOrientation::NegX => (0..x).any(|i| !grid.is_set((i, y))),
        SeekOrientation::PosY => (y + 1..cols).any(|j| !grid.is_set((x, j))),
        SeekOrientation::NegY => (0..y).any(|j| !grid.is_set((x, j))),
    }
}

#[test]
fn test_seek_zero_probes_past_occupied_neighbor() {
    // (1, 0) is occupied but (2, 0) is free: the probe from (0, 0) along
    // +row must still report a free cell (it is a linear probe, not an
    // adjacency check).
    let mut grid = Grid::new(3, 3);
    grid.set_cell((1, 0), 5);
    assert!(grid.seek_zero((0, 0), SeekOrientation::PosX));
    assert_eq!(
        grid.seek_zero((0, 0), SeekOrientation::PosX),
        reference_seek(&grid, (0, 0), SeekOrientation::PosX)
    );
}

#[test]
fn test_seek_zero_fully_packed_is_false() {
    let mut grid = Grid::new(2, 2);
    grid.set_cells(vec![((0, 0), 2), ((0, 1), 3), ((1, 0), 4), ((1, 1), 5)]);
    assert!(!grid.seek_zero((0, 0), SeekOrientation::PosX));
    assert!(!grid.seek_zero((0, 0), SeekOrientation::PosY));
    assert!(!grid.seek_zero((1, 1), SeekOrientation::NegX));
    assert!(!grid.seek_zero((1, 1), SeekOrientation::NegY));
    assert_eq!(
        grid.seek_zero((0, 0), SeekOrientation::PosX),
        reference_seek(&grid, (0, 0), SeekOrientation::PosX)
    );
}

#[test]
fn test_seek_zero_matches_reference_in_all_orientations() {
    let mut grid = Grid::new(4, 4);
    grid.set_cells(vec![((0, 1), 2), ((1, 1), 3), ((2, 1), 4), ((3, 1), 5), ((1, 2), 6)]);
    for x in 0..4 {
        for y in 0..4 {
            for orientation in [
                SeekOrientation::PosX,
                SeekOrientation::NegX,
                SeekOrientation::PosY,
                SeekOrientation::NegY,
            ] {
                assert_eq!(
                    grid.seek_zero((x, y), orientation),
                    reference_seek(&grid, (x, y), orientation)
                );
            }
        }
    }
}
