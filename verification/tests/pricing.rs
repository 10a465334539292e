use polymarket_rs::decimal::Dec;
use polymarket_rs::error::ClobError;
use polymarket_rs::price::{calculate_market_price, OrderLevel};

fn level(price: Dec, size: Dec) -> OrderLevel {
    OrderLevel { price, size }
}

fn book() -> Vec<OrderLevel> {
    vec![
        level(Dec::new(50, 2), Dec::new(100, 0)),
        level(Dec::new(51, 2), Dec::new(200, 0)),
    ]
}

#[test]
fn first_level_satisfies_target() {
    // Level one's notional is exactly 50.00, which meets the target.
    let price = calculate_market_price(&book(), Dec::new(5000, 2)).unwrap();
    assert_eq!(price, Dec::new(50, 2));
}

#[test]
fn second_level_completes_the_fill() {
    // After level one (50.00, insufficient) level two brings the running
    // notional to 152.00, so the order is priced at level two.
    let price = calculate_market_price(&book(), Dec::new(6000, 2)).unwrap();
    assert_eq!(price, Dec::new(51, 2));
}

#[test]
fn whole_book_falls_short() {
    // Total available notional is 152.00 < 200.00.
    let err = calculate_market_price(&book(), Dec::new(20000, 2)).unwrap_err();
    match err {
        ClobError::InvalidOrder(msg) => {
            assert_eq!(
                msg,
                "Not enough liquidity to create market order with amount 200.000000000"
            );
        }
        other => panic!("expected InvalidOrder, got {:?}", other),
    }
}

#[test]
fn insufficient_message_carries_requested_amount() {
    let err = calculate_market_price(&book(), Dec::new(15201, 2)).unwrap_err();
    match err {
        ClobError::InvalidOrder(msg) => {
            assert!(msg.contains("152.010000000"));
        }
        other => panic!("expected InvalidOrder, got {:?}", other),
    }
}

#[test]
fn empty_book_is_insufficient_for_zero_amount() {
    let err = calculate_market_price(&Vec::new(), Dec::from_units(0)).unwrap_err();
    assert!(matches!(err, ClobError::InvalidOrder(_)));
}

#[test]
fn empty_book_is_insufficient_for_positive_amount() {
    let err = calculate_market_price(&Vec::new(), Dec::new(50, 0)).unwrap_err();
    assert!(matches!(err, ClobError::InvalidOrder(_)));
}

#[test]
fn levels_beyond_the_fill_are_never_priced() {
    // A sentinel price sits beyond the level that completes the fill; it must
    // never be returned, even though its notional would also cover the target.
    let positions = vec![
        level(Dec::new(50, 2), Dec::new(100, 0)),
        level(Dec::new(999, 0), Dec::new(1000, 0)),
    ];
    let price = calculate_market_price(&positions, Dec::new(5000, 2)).unwrap();
    assert_eq!(price, Dec::new(50, 2));
}

#[test]
fn non_positive_amount_returns_first_level_price() {
    // The scan does not special-case a non-positive target: the first level
    // immediately satisfies the comparison.
    let price = calculate_market_price(&book(), Dec::from_units(-1_000_000_000)).unwrap();
    assert_eq!(price, Dec::new(50, 2));
    let price = calculate_market_price(&book(), Dec::from_units(0)).unwrap();
    assert_eq!(price, Dec::new(50, 2));
}

#[test]
fn zero_size_levels_are_swept_through() {
    let positions = vec![
        level(Dec::new(50, 2), Dec::from_units(0)),
        level(Dec::new(75, 2), Dec::new(100, 0)),
    ];
    let price = calculate_market_price(&positions, Dec::new(10, 0)).unwrap();
    assert_eq!(price, Dec::new(75, 2));
}

#[test]
fn exact_total_is_still_a_fill() {
    // The comparison is "reached or exceeded": a target equal to the total
    // notional fills at the last level.
    let err_or_price = calculate_market_price(&book(), Dec::new(15200, 2));
    assert_eq!(err_or_price.unwrap(), Dec::new(51, 2));
}
