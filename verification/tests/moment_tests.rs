use bunker_stats::moment::degrees_of_freedom;

#[test]
fn fewer_than_two_samples_leave_no_freedom() {
    assert_eq!(degrees_of_freedom(0), None);
    assert_eq!(degrees_of_freedom(1), None);
}

#[test]
fn freedom_is_one_less_than_the_count() {
    assert_eq!(degrees_of_freedom(2), Some(1));
    assert_eq!(degrees_of_freedom(10), Some(9));
    assert_eq!(degrees_of_freedom(usize::MAX), Some(usize::MAX - 1));
}
