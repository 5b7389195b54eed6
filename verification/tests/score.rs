use leaderboard::score::Score;

fn score_of(value: f64) -> Score {
    Score::from_bits(value.to_bits()).expect("a finite number")
}

#[test]
fn keys_order_scores_as_the_numbers_are_ordered() {
    let values = [
        -1.0e300,
        -12345.678,
        -1.0,
        -f64::MIN_POSITIVE,
        -5e-324,
        -0.0,
        0.0,
        5e-324,
        f64::MIN_POSITIVE,
        0.1,
        1.0,
        1.0000000000000002,
        10.0,
        1.0e300,
        f64::MAX,
        f64::MIN,
    ];
    for a in values {
        for b in values {
            let (x, y) = (score_of(a), score_of(b));
            assert_eq!(x.exceeds(&y), a > b, "{} > {}", a, b);
            assert_eq!(y.exceeds(&x), b > a, "{} > {}", b, a);
            assert_eq!(x == y, a == b, "{} == {}", a, b);
        }
    }
}

#[test]
fn infinities_and_nans_are_no_scores() {
    assert_eq!(Score::from_bits(f64::INFINITY.to_bits()), None);
    assert_eq!(Score::from_bits(f64::NEG_INFINITY.to_bits()), None);
    assert_eq!(Score::from_bits(f64::NAN.to_bits()), None);
    assert_eq!(Score::from_bits((-f64::NAN).to_bits()), None);
    assert_eq!(Score::from_bits(0x7FF0_0000_0000_0001), None);
    assert_eq!(Score::from_bits(0xFFFF_FFFF_FFFF_FFFF), None);
    assert!(Score::from_bits(0x7FEF_FFFF_FFFF_FFFF).is_some());
    assert!(Score::from_bits(0xFFEF_FFFF_FFFF_FFFF).is_some());
}

#[test]
fn a_score_gives_its_bits_back() {
    for value in [0.0, 1.0, -1.0, 10.5, -2.25e-10, f64::MAX, f64::MIN, 5e-324, -5e-324] {
        let bits = score_of(value).to_bits();
        assert_eq!(bits, value.to_bits());
        assert_eq!(f64::from_bits(bits), value);
    }
}

#[test]
fn negative_zero_comes_back_as_zero() {
    let bits = score_of(-0.0).to_bits();
    assert_eq!(bits, 0);
    assert_eq!(f64::from_bits(bits), 0.0);
    assert_eq!(score_of(-0.0), score_of(0.0));
}

#[test]
fn the_bits_of_one_and_of_minus_two() {
    assert_eq!(score_of(1.0).to_bits(), 0x3FF0_0000_0000_0000);
    assert_eq!(score_of(-2.0).to_bits(), 0xC000_0000_0000_0000);
}
