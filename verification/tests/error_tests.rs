use bunker_stats::error::InvalidArgument;

#[test]
fn every_failure_has_its_message() {
    assert_eq!(
        InvalidArgument::AxisOutOfRange { rank: 2, axis: 5 }.message(),
        "axis is out of range for the rank of the input"
    );
    assert_eq!(
        InvalidArgument::UnsupportedRank { rank: 3 }.message(),
        "only 1-D and 2-D inputs can be reduced along an axis"
    );
    assert_eq!(InvalidArgument::NotContiguous.message(), "input must be contiguous");
    assert_eq!(
        InvalidArgument::ShapeMismatch { rows: 2, cols: 2, len: 3 }.message(),
        "buffer length does not match the shape"
    );
    assert_eq!(InvalidArgument::TooLarge.message(), "shape describes more entries than can be addressed");
}

#[test]
fn failures_compare_by_what_they_hold() {
    assert_eq!(InvalidArgument::NotContiguous, InvalidArgument::NotContiguous);
    assert_ne!(InvalidArgument::UnsupportedRank { rank: 3 }, InvalidArgument::UnsupportedRank { rank: 4 });
    assert_ne!(InvalidArgument::NotContiguous, InvalidArgument::TooLarge);
}
