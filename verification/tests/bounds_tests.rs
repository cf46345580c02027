use bunker_stats::bounds::{outliers, side, sides, Side};

fn bits(xs: &[f64]) -> Vec<u64> {
    xs.iter().map(|x| x.to_bits()).collect()
}

#[test]
fn side_of_a_sample() {
    let (low, high) = (1.0f64.to_bits(), 2.0f64.to_bits());
    assert_eq!(side(0.5f64.to_bits(), low, high), Side::Below);
    assert_eq!(side(1.0f64.to_bits(), low, high), Side::Within);
    assert_eq!(side(1.5f64.to_bits(), low, high), Side::Within);
    assert_eq!(side(2.0f64.to_bits(), low, high), Side::Within);
    assert_eq!(side(2.5f64.to_bits(), low, high), Side::Above);
}

#[test]
fn nan_sample_crosses_no_fence() {
    assert_eq!(side(f64::NAN.to_bits(), 1.0f64.to_bits(), 2.0f64.to_bits()), Side::Within);
}

#[test]
fn nan_fence_is_never_crossed() {
    let nan = f64::NAN.to_bits();
    assert_eq!(side(0.0f64.to_bits(), nan, 2.0f64.to_bits()), Side::Within);
    assert_eq!(side(5.0f64.to_bits(), nan, 2.0f64.to_bits()), Side::Above);
    assert_eq!(side(5.0f64.to_bits(), 1.0f64.to_bits(), nan), Side::Within);
    assert_eq!(side(0.0f64.to_bits(), 1.0f64.to_bits(), nan), Side::Below);
    assert_eq!(side(0.0f64.to_bits(), nan, nan), Side::Within);
}

#[test]
fn lower_fence_is_looked_at_first() {
    // lower fence above the upper one
    let (low, high) = (5.0f64.to_bits(), 1.0f64.to_bits());
    assert_eq!(side(0.0f64.to_bits(), low, high), Side::Below);
    assert_eq!(side(3.0f64.to_bits(), low, high), Side::Below);
    assert_eq!(side(7.0f64.to_bits(), low, high), Side::Above);
}

#[test]
fn infinite_fences() {
    let (low, high) = (f64::NEG_INFINITY.to_bits(), f64::INFINITY.to_bits());
    assert_eq!(side(f64::MAX.to_bits(), low, high), Side::Within);
    assert_eq!(side(f64::INFINITY.to_bits(), low, high), Side::Within);
    assert_eq!(side(f64::NEG_INFINITY.to_bits(), low, high), Side::Within);
}

#[test]
fn sides_of_a_series() {
    let got = sides(&bits(&[0.0, 1.0, 2.0, 3.0, f64::NAN]), 1.0f64.to_bits(), 2.0f64.to_bits());
    assert_eq!(got, vec![Side::Below, Side::Within, Side::Within, Side::Above, Side::Within]);
    assert_eq!(sides(&[], 0, 0), Vec::<Side>::new());
}

#[test]
fn clamped_samples_lie_between_the_fences() {
    let xs = [-9.0, -1.0, 0.0, 0.5, 1.0, 7.0, 1e9, f64::INFINITY, f64::NEG_INFINITY];
    let (low, high) = (-1.0f64, 1.0f64);
    let got = sides(&bits(&xs), low.to_bits(), high.to_bits());
    for (x, s) in xs.iter().zip(got) {
        let y = match s {
            Side::Below => low,
            Side::Within => *x,
            Side::Above => high,
        };
        assert!(low <= y && y <= high);
        if low <= *x && *x <= high {
            assert_eq!(y, *x);
        }
    }
}

#[test]
fn outliers_are_the_samples_outside_the_fences() {
    let got = outliers(&bits(&[1.0, 2.0, 3.0, 4.0, 100.0]), 2.0f64.to_bits(), (-1.0f64).to_bits(), 7.0f64.to_bits());
    assert_eq!(got, vec![false, false, false, false, true]);
    let got = outliers(&bits(&[-50.0, 2.0, 3.0]), 2.0f64.to_bits(), (-1.0f64).to_bits(), 7.0f64.to_bits());
    assert_eq!(got, vec![true, false, false]);
}

#[test]
fn nothing_is_flagged_when_the_spread_is_zero() {
    let got = outliers(&bits(&[1.0, 5.0, 9.0]), 0.0f64.to_bits(), 5.0f64.to_bits(), 5.0f64.to_bits());
    assert_eq!(got, vec![false, false, false]);
    let got = outliers(&bits(&[1.0, 5.0, 9.0]), (-0.0f64).to_bits(), 5.0f64.to_bits(), 5.0f64.to_bits());
    assert_eq!(got, vec![false, false, false]);
}

#[test]
fn nothing_is_flagged_when_the_spread_is_nan() {
    let got = outliers(&bits(&[1.0, 5.0, 9.0]), f64::NAN.to_bits(), 4.0f64.to_bits(), 6.0f64.to_bits());
    assert_eq!(got, vec![false, false, false]);
}

#[test]
fn outliers_of_nothing() {
    assert_eq!(outliers(&[], 1.0f64.to_bits(), 0, 0), Vec::<bool>::new());
}
