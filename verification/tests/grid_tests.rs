use falling_sand::grid::{Grid, GridError};
use falling_sand::particle::Particle;

#[test]
fn new_grid_is_empty() {
    let grid = Grid::new(4, 3);
    assert_eq!(grid.dimensions(), (4, 3));
    for col in 0..4 {
        for row in 0..3 {
            assert_eq!(grid.get(col, row), Ok(Particle::Empty));
        }
    }
    assert_eq!(grid.occupied(), 0);
}

#[test]
fn smallest_grid_has_one_cell() {
    let mut grid = Grid::new(1, 1);
    assert_eq!(grid.dimensions(), (1, 1));
    assert_eq!(grid.get(0, 0), Ok(Particle::Empty));
    assert_eq!(grid.set(0, 0, Particle::Water), Ok(()));
    assert_eq!(grid.get(0, 0), Ok(Particle::Water));
    assert_eq!(grid.get(1, 0), Err(GridError::OutOfBounds));
    assert_eq!(grid.get(0, 1), Err(GridError::OutOfBounds));
}

#[test]
fn set_overwrites_one_cell_only() {
    let mut grid = Grid::new(3, 2);
    assert_eq!(grid.set(1, 0, Particle::Sand), Ok(()));
    assert_eq!(grid.set(2, 1, Particle::Water), Ok(()));
    assert_eq!(grid.set(1, 0, Particle::Water), Ok(()));
    for col in 0..3 {
        for row in 0..2 {
            let expected = if (col, row) == (1, 0) || (col, row) == (2, 1) {
                Particle::Water
            } else {
                Particle::Empty
            };
            assert_eq!(grid.get(col, row), Ok(expected));
        }
    }
}

#[test]
fn columns_and_rows_are_not_mixed_up() {
    let mut grid = Grid::new(2, 5);
    assert_eq!(grid.set(1, 4, Particle::Sand), Ok(()));
    assert_eq!(grid.get(1, 4), Ok(Particle::Sand));
    assert_eq!(grid.set(4, 1, Particle::Sand), Err(GridError::OutOfBounds));
    assert_eq!(grid.get(4, 1), Err(GridError::OutOfBounds));
    assert_eq!(grid.occupied(), 1);
}

#[test]
fn get_out_of_bounds_is_an_error() {
    let grid = Grid::new(3, 2);
    assert_eq!(grid.get(3, 0), Err(GridError::OutOfBounds));
    assert_eq!(grid.get(0, 2), Err(GridError::OutOfBounds));
    assert_eq!(grid.get(3, 2), Err(GridError::OutOfBounds));
    assert_eq!(grid.get(usize::MAX, 0), Err(GridError::OutOfBounds));
    assert_eq!(grid.get(0, usize::MAX), Err(GridError::OutOfBounds));
    assert_eq!(grid.get(2, 1), Ok(Particle::Empty));
}

#[test]
fn set_out_of_bounds_changes_nothing() {
    let mut grid = Grid::new(3, 2);
    assert_eq!(grid.set(0, 0, Particle::Sand), Ok(()));
    let before = grid.clone();
    assert_eq!(grid.set(3, 0, Particle::Water), Err(GridError::OutOfBounds));
    assert_eq!(grid.set(0, 2, Particle::Water), Err(GridError::OutOfBounds));
    assert_eq!(grid.set(usize::MAX, usize::MAX, Particle::Water), Err(GridError::OutOfBounds));
    assert_eq!(grid, before);
}

#[test]
fn in_bounds_agrees_with_get() {
    let grid = Grid::new(2, 3);
    for col in 0..4 {
        for row in 0..5 {
            assert_eq!(grid.in_bounds(col, row), grid.get(col, row).is_ok());
            assert_eq!(grid.in_bounds(col, row), col < 2 && row < 3);
        }
    }
}

#[test]
fn clear_empties_every_cell() {
    let mut grid = Grid::new(4, 4);
    for col in 0..4 {
        for row in 0..4 {
            let value = if (col + row) % 2 == 0 { Particle::Sand } else { Particle::Water };
            assert_eq!(grid.set(col, row, value), Ok(()));
        }
    }
    assert_eq!(grid.occupied(), 16);
    grid.clear();
    assert_eq!(grid.dimensions(), (4, 4));
    for col in 0..4 {
        for row in 0..4 {
            assert_eq!(grid.get(col, row), Ok(Particle::Empty));
        }
    }
    assert_eq!(grid.occupied(), 0);
    assert_eq!(grid, Grid::new(4, 4));
}

#[test]
fn clear_of_an_empty_grid_changes_nothing() {
    let mut grid = Grid::new(2, 2);
    grid.clear();
    assert_eq!(grid, Grid::new(2, 2));
}

#[test]
fn occupied_counts_sand_and_water() {
    let mut grid = Grid::new(3, 3);
    assert_eq!(grid.set(0, 0, Particle::Sand), Ok(()));
    assert_eq!(grid.set(1, 1, Particle::Water), Ok(()));
    assert_eq!(grid.set(2, 2, Particle::Sand), Ok(()));
    assert_eq!(grid.occupied(), 3);
    assert_eq!(grid.set(1, 1, Particle::Empty), Ok(()));
    assert_eq!(grid.occupied(), 2);
}

#[test]
fn at_reads_what_set_wrote() {
    let mut grid = Grid::new(3, 4);
    assert_eq!(grid.set(2, 3, Particle::Water), Ok(()));
    assert_eq!(grid.at(2, 3), Particle::Water);
    assert_eq!(grid.at(0, 0), Particle::Empty);
}

#[test]
fn swap_exchanges_two_cells() {
    let mut grid = Grid::new(2, 2);
    assert_eq!(grid.set(0, 1, Particle::Sand), Ok(()));
    assert_eq!(grid.set(0, 0, Particle::Water), Ok(()));
    grid.swap((0, 1), (0, 0));
    assert_eq!(grid.get(0, 0), Ok(Particle::Sand));
    assert_eq!(grid.get(0, 1), Ok(Particle::Water));
    assert_eq!(grid.get(1, 0), Ok(Particle::Empty));
    assert_eq!(grid.get(1, 1), Ok(Particle::Empty));
    grid.swap((1, 1), (1, 1));
    assert_eq!(grid.get(1, 1), Ok(Particle::Empty));
    assert_eq!(grid.occupied(), 2);
}

#[test]
fn clone_is_equal_and_independent() {
    let mut grid = Grid::new(2, 2);
    assert_eq!(grid.set(1, 1, Particle::Sand), Ok(()));
    let copy = grid.clone();
    assert_eq!(copy, grid);
    assert_eq!(grid.set(0, 0, Particle::Water), Ok(()));
    assert_ne!(copy, grid);
    assert_eq!(copy.get(0, 0), Ok(Particle::Empty));
}

#[test]
fn particles_that_give_way() {
    assert!(Particle::Empty.yields());
    assert!(Particle::Water.yields());
    assert!(!Particle::Sand.yields());
    assert!(!Particle::Empty.is_occupied());
    assert!(Particle::Sand.is_occupied());
    assert!(Particle::Water.is_occupied());
}
