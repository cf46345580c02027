use bunker_stats::shift::{base_index, bases, ratio_bases};

fn bits(xs: &[f64]) -> Vec<u64> {
    xs.iter().map(|x| x.to_bits()).collect()
}

#[test]
fn base_lies_periods_back() {
    assert_eq!(base_index(4, 1, 0), None);
    assert_eq!(base_index(4, 1, 1), Some(0));
    assert_eq!(base_index(4, 1, 3), Some(2));
    assert_eq!(base_index(4, 3, 3), Some(0));
    assert_eq!(base_index(4, 3, 2), None);
}

#[test]
fn negative_periods_look_ahead() {
    assert_eq!(base_index(4, -1, 0), Some(1));
    assert_eq!(base_index(4, -1, 2), Some(3));
    assert_eq!(base_index(4, -1, 3), None);
    assert_eq!(base_index(4, -3, 0), Some(3));
    assert_eq!(base_index(4, -3, 1), None);
}

#[test]
fn zero_periods_compare_a_sample_with_itself() {
    assert_eq!(base_index(4, 0, 0), Some(0));
    assert_eq!(base_index(4, 0, 3), Some(3));
}

#[test]
fn periods_as_long_as_the_series_leave_no_base() {
    assert_eq!(bases(3, 3), vec![None, None, None]);
    assert_eq!(bases(3, -3), vec![None, None, None]);
    assert_eq!(bases(3, 100), vec![None, None, None]);
    assert_eq!(bases(3, isize::MAX), vec![None, None, None]);
    assert_eq!(bases(3, isize::MIN), vec![None, None, None]);
}

#[test]
fn index_outside_the_series_has_a_base_only_where_it_lands_inside() {
    assert_eq!(base_index(4, 5, 7), Some(2));
    assert_eq!(base_index(4, 1, 7), None);
    assert_eq!(base_index(0, 0, 0), None);
    assert_eq!(base_index(usize::MAX, isize::MIN, 0), Some(1usize << (usize::BITS - 1)));
    assert_eq!(base_index(usize::MAX, isize::MIN, usize::MAX), None);
    assert_eq!(base_index(usize::MAX, isize::MAX, 0), None);
    assert_eq!(base_index(usize::MAX, isize::MAX, usize::MAX - 1), Some(usize::MAX - 1 - isize::MAX as usize));
}

#[test]
fn bases_of_a_series() {
    assert_eq!(bases(4, 1), vec![None, Some(0), Some(1), Some(2)]);
    assert_eq!(bases(4, 2), vec![None, None, Some(0), Some(1)]);
    assert_eq!(bases(4, -1), vec![Some(1), Some(2), Some(3), None]);
    assert_eq!(bases(4, 0), vec![Some(0), Some(1), Some(2), Some(3)]);
    assert_eq!(bases(0, 1), Vec::<Option<usize>>::new());
}

#[test]
fn ratio_bases_leave_out_a_base_of_zero() {
    let xs = bits(&[2.0, 0.0, 4.0, -0.0, 8.0]);
    assert_eq!(ratio_bases(&xs, 1), vec![None, Some(0), None, Some(2), None]);
    assert_eq!(ratio_bases(&xs, -1), vec![None, Some(2), None, Some(4), None]);
}

#[test]
fn ratio_bases_keep_a_base_that_is_nan_or_infinite() {
    let xs = bits(&[f64::NAN, 1.0, f64::INFINITY, 1.0]);
    assert_eq!(ratio_bases(&xs, 1), vec![None, Some(0), Some(1), Some(2)]);
}

#[test]
fn ratio_bases_of_nothing() {
    assert_eq!(ratio_bases(&[], 1), Vec::<Option<usize>>::new());
}
