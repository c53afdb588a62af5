use wherehaveibeen::{fixed_point_text, key_of, quantize, unsigned_text, Coordinate};

#[test]
fn equal_values_in_different_representations_share_a_key() {
    // 47.1234567 degrees written with seven, nine and twelve decimals
    assert_eq!(quantize(471_234_567, 7), 4_712_346);
    assert_eq!(quantize(47_123_456_700, 9), 4_712_346);
    assert_eq!(quantize(47_123_456_700_000, 12), 4_712_346);
    // 8.5 degrees with one decimal and with seven
    assert_eq!(quantize(85, 1), quantize(85_000_000, 7));
    assert_eq!(quantize(85, 1), 850_000);
}

#[test]
fn quantize_rounds_halves_away_from_zero() {
    assert_eq!(quantize(1_234_550, 7), 12_346);
    assert_eq!(quantize(-1_234_550, 7), -12_346);
    assert_eq!(quantize(1_234_549, 7), 12_345);
    assert_eq!(quantize(-49, 7), 0);
    assert_eq!(quantize(-50, 7), -1);
    assert_eq!(quantize(i64::MIN, 7), -92_233_720_368_547_758);
}

#[test]
fn key_of_quantizes_both_axes() {
    assert_eq!(key_of(&Coordinate::new(471_234_567, -85_432_149)), (4_712_346, -854_321));
}

#[test]
fn fixed_point_rendering() {
    assert_eq!(fixed_point_text(4_712_346, 5), "47.12346");
    assert_eq!(fixed_point_text(-1, 5), "-0.00001");
    assert_eq!(fixed_point_text(0, 5), "0.00000");
    assert_eq!(fixed_point_text(-854_321, 5), "-8.54321");
    assert_eq!(fixed_point_text(1_234, 0), "1234");
    assert_eq!(fixed_point_text(i64::MIN, 7), "-922337203685.4775808");
    assert_eq!(unsigned_text(0), "0");
    assert_eq!(unsigned_text(u64::MAX), "18446744073709551615");
}
