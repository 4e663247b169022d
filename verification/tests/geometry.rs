use grid_binning::config::{BinError, ConfigError};
use grid_binning::geometry::{cell_of, Grid, Point};

#[test]
fn cell_of_divides_and_rounds_down() {
    assert_eq!(cell_of(0, 0, 10), (0, 0));
    assert_eq!(cell_of(9, 9, 10), (0, 0));
    assert_eq!(cell_of(19, 25, 10), (1, 2));
    assert_eq!(cell_of(999, 0, 10), (99, 0));
}

#[test]
fn cell_of_puts_a_boundary_point_in_the_higher_cell() {
    for k in -5i64..=5 {
        assert_eq!(cell_of(k * 10, k * 7, 10).0, k);
        assert_eq!(cell_of(k * 10, k * 7, 7).1, k);
    }
    assert_eq!(cell_of(10, 20, 10), (1, 2));
    assert_eq!(cell_of(30, 30, 3), (10, 10));
}

#[test]
fn cell_of_rounds_negative_coordinates_towards_minus_infinity() {
    assert_eq!(cell_of(-1, -10, 10), (-1, -1));
    assert_eq!(cell_of(-11, -20, 10), (-2, -2));
    assert_eq!(cell_of(-10, 5, 10), (-1, 0));
}

#[test]
fn cell_of_takes_the_extremes_of_the_coordinate_range() {
    assert_eq!(cell_of(i64::MAX, i64::MIN, 1), (i64::MAX, i64::MIN));
    assert_eq!(cell_of(i64::MAX, i64::MIN, i64::MAX), (1, -2));
    assert_eq!(cell_of(i64::MIN, i64::MAX, 2), (-4611686018427387904, 4611686018427387903));
}

#[test]
fn cell_of_gives_the_same_cell_every_time() {
    let point = Point { x: 123, y: -456 };
    let first = cell_of(point.x, point.y, 10);
    for _ in 0..100 {
        assert_eq!(cell_of(point.x, point.y, 10), first);
    }
    assert_eq!(first, (12, -46));
}

#[test]
fn grid_new_accepts_a_grid_with_cells() {
    assert_eq!(Grid::new(100, 100), Ok(Grid { width: 100, height: 100 }));
    assert_eq!(Grid::new(1, 1), Ok(Grid { width: 1, height: 1 }));
}

#[test]
fn grid_new_refuses_a_grid_without_columns_or_rows() {
    assert_eq!(Grid::new(0, 5), Err(BinError::Configuration(ConfigError::GridWidth)));
    assert_eq!(Grid::new(5, 0), Err(BinError::Configuration(ConfigError::GridHeight)));
    assert_eq!(Grid::new(0, 0), Err(BinError::Configuration(ConfigError::GridWidth)));
}

#[test]
fn grid_new_refuses_a_grid_that_cannot_be_indexed() {
    assert_eq!(
        Grid::new(usize::MAX, 2),
        Err(BinError::Configuration(ConfigError::GridTooLarge))
    );
    assert_eq!(
        Grid::new(usize::MAX, usize::MAX),
        Err(BinError::Configuration(ConfigError::GridTooLarge))
    );
}

#[test]
fn index_of_numbers_the_cells_row_by_row() {
    let grid = Grid::new(100, 50).unwrap();
    assert_eq!(grid.cell_count(), 5000);
    assert_eq!(grid.index_of((0, 0)), Some(0));
    assert_eq!(grid.index_of((99, 0)), Some(99));
    assert_eq!(grid.index_of((0, 1)), Some(100));
    assert_eq!(grid.index_of((7, 3)), Some(307));
    assert_eq!(grid.index_of((99, 49)), Some(4999));
}

#[test]
fn index_of_refuses_a_cell_outside_the_grid() {
    let grid = Grid::new(100, 50).unwrap();
    assert_eq!(grid.index_of((100, 0)), None);
    assert_eq!(grid.index_of((0, 50)), None);
    assert_eq!(grid.index_of((-1, 0)), None);
    assert_eq!(grid.index_of((0, -1)), None);
    assert_eq!(grid.index_of((i64::MAX, i64::MAX)), None);
    assert_eq!(grid.index_of((i64::MIN, 3)), None);
}

#[test]
fn key_of_index_is_the_inverse_of_index_of() {
    let grid = Grid::new(7, 5).unwrap();
    for slot in 0..grid.cell_count() {
        let key = grid.key_of_index(slot);
        assert_eq!(grid.index_of(key), Some(slot));
    }
    assert_eq!(grid.key_of_index(0), (0, 0));
    assert_eq!(grid.key_of_index(6), (6, 0));
    assert_eq!(grid.key_of_index(7), (0, 1));
    assert_eq!(grid.key_of_index(34), (6, 4));
}
