use bunker_stats::axis::{lanes, last_axis, Lanes, LastAxis};
use bunker_stats::error::InvalidArgument;

#[test]
fn one_dimensional_input_has_the_single_axis_zero() {
    assert_eq!(lanes(1, 0, true), Ok(Lanes::Whole));
}

#[test]
fn one_dimensional_input_refuses_other_axes() {
    assert_eq!(lanes(1, 1, true), Err(InvalidArgument::AxisOutOfRange { rank: 1, axis: 1 }));
    assert_eq!(lanes(1, -1, true), Err(InvalidArgument::AxisOutOfRange { rank: 1, axis: -1 }));
    assert_eq!(lanes(1, 2, false), Err(InvalidArgument::AxisOutOfRange { rank: 1, axis: 2 }));
}

#[test]
fn one_dimensional_input_must_be_contiguous() {
    assert_eq!(lanes(1, 0, false), Err(InvalidArgument::NotContiguous));
}

#[test]
fn two_dimensional_input_has_axes_zero_and_one() {
    assert_eq!(lanes(2, 0, true), Ok(Lanes::Columns));
    assert_eq!(lanes(2, 1, true), Ok(Lanes::Rows));
    assert_eq!(lanes(2, 0, false), Ok(Lanes::Columns));
    assert_eq!(lanes(2, 1, false), Ok(Lanes::Rows));
}

#[test]
fn two_dimensional_input_refuses_other_axes() {
    assert_eq!(lanes(2, 2, true), Err(InvalidArgument::AxisOutOfRange { rank: 2, axis: 2 }));
    assert_eq!(lanes(2, -1, true), Err(InvalidArgument::AxisOutOfRange { rank: 2, axis: -1 }));
}

#[test]
fn other_ranks_are_refused() {
    assert_eq!(lanes(0, 0, true), Err(InvalidArgument::UnsupportedRank { rank: 0 }));
    assert_eq!(lanes(3, 0, true), Err(InvalidArgument::UnsupportedRank { rank: 3 }));
    assert_eq!(lanes(4, 9, false), Err(InvalidArgument::UnsupportedRank { rank: 4 }));
}

#[test]
fn rank_zero_is_a_scalar() {
    assert_eq!(last_axis(&[]), Ok(LastAxis::Scalar));
}

#[test]
fn rank_one_is_a_single_row() {
    assert_eq!(last_axis(&[7]), Ok(LastAxis::Rows { count: 1, width: 7 }));
    assert_eq!(last_axis(&[0]), Ok(LastAxis::Rows { count: 1, width: 0 }));
}

#[test]
fn leading_axes_are_flattened() {
    assert_eq!(last_axis(&[2, 3]), Ok(LastAxis::Rows { count: 2, width: 3 }));
    assert_eq!(last_axis(&[2, 3, 4]), Ok(LastAxis::Rows { count: 6, width: 4 }));
    assert_eq!(last_axis(&[2, 3, 4, 5]), Ok(LastAxis::Rows { count: 24, width: 5 }));
}

#[test]
fn an_empty_leading_axis_leaves_no_rows() {
    assert_eq!(last_axis(&[0, 3]), Ok(LastAxis::Rows { count: 0, width: 3 }));
    assert_eq!(last_axis(&[5, 0, 3]), Ok(LastAxis::Rows { count: 0, width: 3 }));
    assert_eq!(last_axis(&[usize::MAX, usize::MAX, 0, 3]), Ok(LastAxis::Rows { count: 0, width: 3 }));
}

#[test]
fn too_many_rows_are_refused() {
    assert_eq!(last_axis(&[usize::MAX, 2, 3]), Err(InvalidArgument::TooLarge));
    assert_eq!(last_axis(&[usize::MAX, usize::MAX, 1]), Err(InvalidArgument::TooLarge));
}

#[test]
fn the_last_extent_does_not_count_towards_the_rows() {
    assert_eq!(last_axis(&[usize::MAX, usize::MAX]), Ok(LastAxis::Rows { count: usize::MAX, width: usize::MAX }));
}
