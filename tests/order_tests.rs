use clob_engine::decimal::Decimal;
use clob_engine::order::{Order, OrderStatus, Side, Trade};

fn dec(num: i64, scale: u32) -> Decimal {
    Decimal::new(num, scale)
}

#[test]
fn test_order_creation() {
    let order = Order::new(Side::Buy, dec(10050, 2), dec(10, 0));
    assert_eq!(order.side, Side::Buy);
    assert_eq!(order.price, dec(10050, 2));
    assert_eq!(order.quantity, dec(10, 0));
    assert_eq!(order.remaining_quantity, dec(10, 0));
    assert_eq!(order.status, OrderStatus::Open);
}

#[test]
fn test_order_can_match() {
    let buy = Order::new(Side::Buy, dec(100, 0), dec(10, 0));
    let sell = Order::new(Side::Sell, dec(99, 0), dec(5, 0));

    assert!(buy.can_match(&sell));
    assert!(sell.can_match(&buy));
}

#[test]
fn test_order_cannot_match_same_side() {
    let buy1 = Order::new(Side::Buy, dec(100, 0), dec(10, 0));
    let buy2 = Order::new(Side::Buy, dec(99, 0), dec(5, 0));

    assert!(!buy1.can_match(&buy2));
}

#[test]
fn test_order_fill() {
    let mut order = Order::new(Side::Buy, dec(100, 0), dec(10, 0));

    order.fill(dec(5, 0));
    assert_eq!(order.remaining_quantity, dec(5, 0));
    assert_eq!(order.status, OrderStatus::PartiallyFilled);

    order.fill(dec(5, 0));
    assert_eq!(order.remaining_quantity, dec(0, 0));
    assert_eq!(order.status, OrderStatus::Filled);
    assert!(order.is_filled());
}

#[test]
fn sell_above_buy_limit_does_not_match() {
    let buy = Order::new(Side::Buy, dec(100, 0), dec(10, 0));
    let sell = Order::new(Side::Sell, dec(101, 0), dec(5, 0));
    assert!(!buy.can_match(&sell));
    assert!(!sell.can_match(&buy));
}

#[test]
fn fresh_orders_get_distinct_ids_and_a_clock_time() {
    let a = Order::new(Side::Sell, dec(1, 0), dec(1, 0));
    let b = Order::new(Side::Sell, dec(1, 0), dec(1, 0));
    assert_ne!(a.id, b.id);
    assert!(a.timestamp > 1_600_000_000_000);
    let t = Trade::new(a.id, b.id, dec(1, 0), dec(1, 0), Side::Buy);
    assert_ne!(t.id, a.id);
    assert!(t.timestamp >= a.timestamp);
    assert_eq!(t.maker_order_id, b.id);
}

#[test]
fn side_names() {
    assert_eq!(Side::Buy.to_string(), "buy");
    assert_eq!(Side::Sell.to_string(), "sell");
}

#[test]
fn decimal_construction_and_text() {
    assert_eq!(dec(10050, 2).units, 1_005_000_000_000);
    assert_eq!(dec(10050, 2).to_string(), "100.5");
    assert_eq!(dec(100, 0).to_string(), "100");
    assert_eq!(dec(-25, 1).to_string(), "-2.5");
    assert_eq!(Decimal::zero().to_string(), "0");
    assert_eq!(dec(1, 10).to_string(), "0.0000000001");
}

#[test]
fn decimal_parsing() {
    assert_eq!(Decimal::parse("100.50"), Some(dec(10050, 2)));
    assert_eq!(Decimal::parse("7"), Some(dec(7, 0)));
    assert_eq!(Decimal::parse("-0.25"), Some(dec(-25, 2)));
    assert_eq!(Decimal::parse("abc"), None);
    assert_eq!(Decimal::parse("0.00000000001"), None);
    assert_eq!(Decimal::parse("1.000000000000"), Some(dec(1, 0)));
    assert_eq!(Decimal::parse("79228162514264337593543950335"), None);
}

#[test]
fn decimal_from_parts() {
    assert_eq!(Decimal::from_parts(12345, 3), Some(dec(12345, 3)));
    assert_eq!(Decimal::from_parts(1200, 12), Some(dec(12, 10)));
    assert_eq!(Decimal::from_parts(1201, 12), None);
    assert_eq!(Decimal::from_parts(79228162514264337593543950335, 0), None);
}
