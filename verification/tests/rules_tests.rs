use falling_sand::grid::Grid;
use falling_sand::moves::Move;
use falling_sand::particle::Particle;
use falling_sand::rules::{collect_moves, propose};
use rand::rngs::StdRng;
use rand::{Rng, SeedableRng};

fn grid_with(width: usize, height: usize, cells: &[((usize, usize), Particle)]) -> Grid {
    let mut grid = Grid::new(width, height);
    for &((col, row), value) in cells {
        assert_eq!(grid.set(col, row, value), Ok(()));
    }
    grid
}

fn pair(m: Option<Move>) -> Option<((usize, usize), (usize, usize))> {
    m.map(|m| (m.source, m.destination))
}

#[test]
fn sand_falls_straight_down_first() {
    let grid = grid_with(3, 3, &[((1, 2), Particle::Sand)]);
    assert_eq!(pair(propose(&grid, 1, 2)), Some(((1, 2), (1, 1))));
}

#[test]
fn sand_sinks_into_water() {
    let grid = grid_with(3, 3, &[((1, 2), Particle::Sand), ((1, 1), Particle::Water)]);
    assert_eq!(pair(propose(&grid, 1, 2)), Some(((1, 2), (1, 1))));
}

#[test]
fn blocked_sand_goes_down_left_before_down_right() {
    let grid = grid_with(3, 3, &[((1, 2), Particle::Sand), ((1, 1), Particle::Sand)]);
    assert_eq!(pair(propose(&grid, 1, 2)), Some(((1, 2), (0, 1))));
}

#[test]
fn sand_goes_down_left_into_water() {
    let grid = grid_with(
        3,
        3,
        &[((1, 2), Particle::Sand), ((1, 1), Particle::Sand), ((0, 1), Particle::Water)],
    );
    assert_eq!(pair(propose(&grid, 1, 2)), Some(((1, 2), (0, 1))));
}

#[test]
fn sand_goes_down_right_when_left_is_taken() {
    let grid = grid_with(
        3,
        3,
        &[((1, 2), Particle::Sand), ((1, 1), Particle::Sand), ((0, 1), Particle::Sand)],
    );
    assert_eq!(pair(propose(&grid, 1, 2)), Some(((1, 2), (2, 1))));
}

#[test]
fn sand_stays_when_all_three_are_taken() {
    let grid = grid_with(
        3,
        3,
        &[
            ((1, 2), Particle::Sand),
            ((0, 1), Particle::Sand),
            ((1, 1), Particle::Sand),
            ((2, 1), Particle::Sand),
        ],
    );
    assert_eq!(pair(propose(&grid, 1, 2)), None);
}

#[test]
fn sand_on_the_bottom_row_stays() {
    let grid = grid_with(3, 3, &[((0, 0), Particle::Sand), ((1, 0), Particle::Sand)]);
    assert_eq!(pair(propose(&grid, 0, 0)), None);
    assert_eq!(pair(propose(&grid, 1, 0)), None);
}

#[test]
fn sand_in_the_left_column_never_goes_left() {
    let grid = grid_with(2, 2, &[((0, 1), Particle::Sand), ((0, 0), Particle::Sand)]);
    assert_eq!(pair(propose(&grid, 0, 1)), Some(((0, 1), (1, 0))));
    let full = grid_with(
        2,
        2,
        &[((0, 1), Particle::Sand), ((0, 0), Particle::Sand), ((1, 0), Particle::Sand)],
    );
    assert_eq!(pair(propose(&full, 0, 1)), None);
}

#[test]
fn sand_in_the_right_column_never_goes_right() {
    let grid = grid_with(2, 2, &[((1, 1), Particle::Sand), ((1, 0), Particle::Sand)]);
    assert_eq!(pair(propose(&grid, 1, 1)), Some(((1, 1), (0, 0))));
    let full = grid_with(
        2,
        2,
        &[((1, 1), Particle::Sand), ((1, 0), Particle::Sand), ((0, 0), Particle::Sand)],
    );
    assert_eq!(pair(propose(&full, 1, 1)), None);
}

#[test]
fn sand_in_a_single_column_can_only_fall() {
    let grid = grid_with(1, 3, &[((0, 2), Particle::Sand), ((0, 1), Particle::Sand)]);
    assert_eq!(pair(propose(&grid, 0, 2)), None);
    assert_eq!(pair(propose(&grid, 0, 1)), Some(((0, 1), (0, 0))));
}

#[test]
fn water_and_empty_cells_propose_nothing() {
    let grid = grid_with(3, 3, &[((1, 2), Particle::Water)]);
    assert_eq!(pair(propose(&grid, 1, 2)), None);
    assert_eq!(pair(propose(&grid, 0, 2)), None);
    assert!(collect_moves(&grid).is_empty());
}

#[test]
fn cells_outside_the_grid_propose_nothing() {
    let grid = grid_with(2, 2, &[((1, 1), Particle::Sand)]);
    assert_eq!(pair(propose(&grid, 2, 1)), None);
    assert_eq!(pair(propose(&grid, 1, 2)), None);
    assert_eq!(pair(propose(&grid, usize::MAX, usize::MAX)), None);
}

#[test]
fn moves_are_collected_column_by_column() {
    let grid = grid_with(
        3,
        3,
        &[
            ((2, 1), Particle::Sand),
            ((0, 2), Particle::Sand),
            ((0, 1), Particle::Sand),
            ((1, 0), Particle::Sand),
            ((1, 2), Particle::Water),
        ],
    );
    let moves = collect_moves(&grid);
    let pairs: Vec<((usize, usize), (usize, usize))> =
        moves.iter().map(|m| (m.source, m.destination)).collect();
    assert_eq!(pairs, vec![((0, 1), (0, 0)), ((0, 2), (1, 1)), ((2, 1), (2, 0))]);
}

#[test]
fn collecting_does_not_change_the_grid() {
    let grid = grid_with(3, 3, &[((1, 2), Particle::Sand), ((1, 1), Particle::Water)]);
    let before = grid.clone();
    let moves = collect_moves(&grid);
    assert_eq!(moves.len(), 1);
    assert_eq!(grid, before);
}

#[test]
fn proposed_destinations_lie_on_the_grid() {
    let mut rng = StdRng::seed_from_u64(2024);
    for round in 0..200 {
        let width = 1 + round % 7;
        let height = 1 + (round / 7) % 6;
        let mut grid = Grid::new(width, height);
        for col in 0..width {
            for row in 0..height {
                let value = match rng.gen_range(0..4) {
                    0 => Particle::Empty,
                    1 => Particle::Water,
                    _ => Particle::Sand,
                };
                assert_eq!(grid.set(col, row, value), Ok(()));
            }
        }
        for col in 0..width {
            for row in 0..height {
                if let Some(m) = propose(&grid, col, row) {
                    assert_eq!(m.source, (col, row));
                    assert!(m.destination.0 < width);
                    assert!(m.destination.1 < height);
                    assert_eq!(m.destination.1 + 1, row);
                    assert_eq!(grid.get(col, row), Ok(Particle::Sand));
                    assert_ne!(grid.get(m.destination.0, m.destination.1), Ok(Particle::Sand));
                }
            }
        }
        for m in collect_moves(&grid) {
            assert!(grid.in_bounds(m.source.0, m.source.1));
            assert!(grid.in_bounds(m.destination.0, m.destination.1));
        }
    }
}
