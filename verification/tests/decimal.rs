use polymarket_rs::decimal::{pow10_i128, u64_to_digits, Dec, MAX_UNITS, UNITS_PER_ONE};

#[test]
fn from_units_keeps_the_raw_count() {
    assert_eq!(Dec::from_units(123).units, 123);
    assert_eq!(Dec::from_units(-MAX_UNITS).units, -MAX_UNITS);
    assert_eq!(Dec::from_units(MAX_UNITS).units, MAX_UNITS);
}

#[test]
fn new_scales_the_mantissa() {
    // 0.50 and 0.51 at two decimal places, and whole numbers at scale zero.
    assert_eq!(Dec::new(50, 2).units, 500_000_000);
    assert_eq!(Dec::new(51, 2).units, 510_000_000);
    assert_eq!(Dec::new(100, 0).units, 100 * UNITS_PER_ONE);
    assert_eq!(Dec::new(-25, 1).units, -2_500_000_000);
    assert_eq!(Dec::new(123_456_789, 9).units, 123_456_789);
}

#[test]
fn powers_of_ten() {
    assert_eq!(pow10_i128(0), 1);
    assert_eq!(pow10_i128(1), 10);
    assert_eq!(pow10_i128(9), UNITS_PER_ONE);
    assert_eq!(pow10_i128(18), MAX_UNITS);
}

#[test]
fn digit_strings() {
    assert_eq!(u64_to_digits(0), "0");
    assert_eq!(u64_to_digits(7), "7");
    assert_eq!(u64_to_digits(10), "10");
    assert_eq!(u64_to_digits(12345), "12345");
    assert_eq!(u64_to_digits(1_000_000_000), "1000000000");
}

#[test]
fn display_renders_all_nine_fraction_digits() {
    assert_eq!(Dec::from_units(0).to_display_string(), "0.000000000");
    assert_eq!(Dec::new(50, 2).to_display_string(), "0.500000000");
    assert_eq!(Dec::new(200, 0).to_display_string(), "200.000000000");
    assert_eq!(Dec::from_units(1).to_display_string(), "0.000000001");
    assert_eq!(Dec::from_units(-1_500_000_000).to_display_string(), "-1.500000000");
    assert_eq!(Dec::from_units(MAX_UNITS).to_display_string(), "1000000000.000000000");
}

#[test]
fn decimals_compare_by_value() {
    assert_eq!(Dec::new(50, 2), Dec::from_units(500_000_000));
    assert_ne!(Dec::new(50, 2), Dec::new(51, 2));
}
