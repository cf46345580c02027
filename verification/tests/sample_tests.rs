use bunker_stats::sample::{is_equal, is_less, key, keys, not_a_number, present, sign, sign_mask, span, Sign};

fn bits(xs: &[f64]) -> Vec<u64> {
    xs.iter().map(|x| x.to_bits()).collect()
}

#[test]
fn nan_patterns_are_recognised() {
    assert!(not_a_number(f64::NAN.to_bits()));
    assert!(not_a_number((-f64::NAN).to_bits()));
    assert!(not_a_number(0x7ff0_0000_0000_0001));
    assert!(not_a_number(0xffff_ffff_ffff_ffff));
}

#[test]
fn numbers_and_infinities_are_not_nan() {
    for x in [0.0, -0.0, 1.0, -1.0, f64::MAX, f64::MIN, f64::MIN_POSITIVE, 5e-324, f64::INFINITY, f64::NEG_INFINITY] {
        assert!(!not_a_number(x.to_bits()));
    }
}

#[test]
fn key_of_nan_is_absent() {
    assert_eq!(key(f64::NAN.to_bits()), None);
}

#[test]
fn key_of_both_zeros_is_zero() {
    assert_eq!(key(0.0f64.to_bits()), Some(0));
    assert_eq!(key((-0.0f64).to_bits()), Some(0));
}

#[test]
fn key_of_one_is_its_pattern_and_of_minus_one_the_negation() {
    assert_eq!(key(1.0f64.to_bits()), Some(0x3ff0_0000_0000_0000));
    assert_eq!(key((-1.0f64).to_bits()), Some(-0x3ff0_0000_0000_0000));
}

#[test]
fn keys_order_as_the_values_do() {
    let xs = [
        f64::NEG_INFINITY,
        f64::MIN,
        -1e300,
        -2.5,
        -1.0,
        -1e-300,
        -5e-324,
        0.0,
        5e-324,
        1e-300,
        0.1,
        1.0,
        1.0000000000000002,
        2.5,
        1e300,
        f64::MAX,
        f64::INFINITY,
    ];
    for a in xs {
        for b in xs {
            let ka = key(a.to_bits()).unwrap();
            let kb = key(b.to_bits()).unwrap();
            assert_eq!(a < b, ka < kb, "{} < {}", a, b);
            assert_eq!(a == b, ka == kb, "{} == {}", a, b);
        }
    }
}

#[test]
fn keys_of_a_series() {
    let got = keys(&bits(&[1.0, -1.0, 0.0])).unwrap();
    assert_eq!(got, vec![0x3ff0_0000_0000_0000, -0x3ff0_0000_0000_0000, 0]);
}

#[test]
fn keys_of_the_empty_series() {
    assert_eq!(keys(&[]), Some(vec![]));
}

#[test]
fn keys_are_refused_when_a_sample_is_nan() {
    assert_eq!(keys(&bits(&[1.0, f64::NAN, 2.0])), None);
    assert_eq!(keys(&bits(&[f64::NAN])), None);
}

#[test]
fn sign_of_samples() {
    assert_eq!(sign(3.5f64.to_bits()), Sign::Positive);
    assert_eq!(sign((-3.5f64).to_bits()), Sign::Negative);
    assert_eq!(sign(0.0f64.to_bits()), Sign::Zero);
    assert_eq!(sign((-0.0f64).to_bits()), Sign::Zero);
    assert_eq!(sign(f64::NAN.to_bits()), Sign::Undefined);
    assert_eq!(sign(f64::INFINITY.to_bits()), Sign::Positive);
    assert_eq!(sign(f64::NEG_INFINITY.to_bits()), Sign::Negative);
    assert_eq!(sign(5e-324f64.to_bits()), Sign::Positive);
}

#[test]
fn signs_are_minus_one_zero_one() {
    let got = sign_mask(&bits(&[2.0, -3.0, 0.0, -0.0, f64::NAN, f64::INFINITY, f64::NEG_INFINITY]));
    assert_eq!(got, vec![1i8, -1, 0, 0, 0, 1, -1]);
}

#[test]
fn signs_of_the_empty_series() {
    assert_eq!(sign_mask(&[]), Vec::<i8>::new());
}

#[test]
fn less_follows_the_values() {
    assert!(is_less(1.0f64.to_bits(), 2.0f64.to_bits()));
    assert!(!is_less(2.0f64.to_bits(), 1.0f64.to_bits()));
    assert!(!is_less(1.0f64.to_bits(), 1.0f64.to_bits()));
    assert!(is_less((-1.0f64).to_bits(), 0.0f64.to_bits()));
    assert!(!is_less((-0.0f64).to_bits(), 0.0f64.to_bits()));
    assert!(!is_less(0.0f64.to_bits(), (-0.0f64).to_bits()));
}

#[test]
fn nothing_is_less_than_nan_and_nan_is_less_than_nothing() {
    let nan = f64::NAN.to_bits();
    assert!(!is_less(nan, 1.0f64.to_bits()));
    assert!(!is_less(1.0f64.to_bits(), nan));
    assert!(!is_less(nan, nan));
    assert!(!is_less(f64::NEG_INFINITY.to_bits(), nan));
}

#[test]
fn present_lists_the_numbers() {
    let got = present(&bits(&[f64::NAN, 1.0, f64::NAN, 2.0, 3.0, f64::NAN]));
    assert_eq!(got, vec![1usize, 3, 4]);
}

#[test]
fn present_of_only_nan_is_empty() {
    assert_eq!(present(&bits(&[f64::NAN, f64::NAN])), Vec::<usize>::new());
    assert_eq!(present(&[]), Vec::<usize>::new());
}

#[test]
fn present_of_only_numbers_lists_all() {
    assert_eq!(present(&bits(&[0.5, -0.5, f64::INFINITY])), vec![0usize, 1, 2]);
}

#[test]
fn span_of_nothing_is_absent() {
    assert_eq!(span(&[]), None);
}

#[test]
fn span_finds_least_and_greatest() {
    assert_eq!(span(&bits(&[3.0, 1.0, 4.0, 1.0, 5.0, 9.0, 2.0, 6.0])), Some((1, 5)));
}

#[test]
fn span_takes_the_earliest_of_equal_samples() {
    assert_eq!(span(&bits(&[2.0, 7.0, 2.0, 7.0])), Some((0, 1)));
    assert_eq!(span(&bits(&[0.0, -0.0, 0.0])), Some((0, 0)));
}

#[test]
fn span_of_one_sample() {
    assert_eq!(span(&bits(&[4.5])), Some((0, 0)));
    assert_eq!(span(&bits(&[f64::NAN])), Some((0, 0)));
}

#[test]
fn span_passes_over_nan_after_the_first_sample() {
    assert_eq!(span(&bits(&[3.0, f64::NAN, 1.0, f64::NAN, 8.0])), Some((2, 4)));
}

#[test]
fn span_that_begins_with_nan_stays_there() {
    assert_eq!(span(&bits(&[f64::NAN, 1.0, 8.0])), Some((0, 0)));
}

#[test]
fn equal_follows_the_values() {
    assert!(is_equal(1.5f64.to_bits(), 1.5f64.to_bits()));
    assert!(!is_equal(1.5f64.to_bits(), 1.25f64.to_bits()));
    assert!(is_equal(0.0f64.to_bits(), (-0.0f64).to_bits()));
    assert!(is_equal(f64::INFINITY.to_bits(), f64::INFINITY.to_bits()));
    assert!(!is_equal(f64::INFINITY.to_bits(), f64::NEG_INFINITY.to_bits()));
}

#[test]
fn nan_equals_nothing() {
    let nan = f64::NAN.to_bits();
    assert!(!is_equal(nan, nan));
    assert!(!is_equal(nan, 1.0f64.to_bits()));
    assert!(!is_equal(1.0f64.to_bits(), nan));
}
