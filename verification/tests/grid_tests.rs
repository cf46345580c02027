use bunker_stats::grid::{grid, Grid};

#[test]
fn no_grid_without_samples_or_points() {
    assert_eq!(grid(&[], 5), Grid::Empty);
    assert_eq!(grid(&[1, 2, 3], 0), Grid::Empty);
    assert_eq!(grid(&[], 0), Grid::Empty);
}

#[test]
fn equal_samples_give_a_flat_grid() {
    assert_eq!(grid(&[0, 0, 0], 5), Grid::Flat { points: 5, at: 0 });
    assert_eq!(grid(&[7], 3), Grid::Flat { points: 3, at: 0 });
}

#[test]
fn different_samples_give_a_grid_from_least_to_greatest() {
    assert_eq!(grid(&[3, 1, 2], 4), Grid::Spread { points: 4, low: 1, high: 0 });
    assert_eq!(grid(&[1, 5, 1, 5], 2), Grid::Spread { points: 2, low: 0, high: 3 });
}

#[test]
fn a_single_point_is_still_a_grid() {
    assert_eq!(grid(&[1, 2], 1), Grid::Spread { points: 1, low: 0, high: 1 });
}
