use clob_engine::decimal::Decimal;
use clob_engine::order::{Order, OrderStatus, Side};
use clob_engine::order_book::{OrderBook, PriceLevel};

fn dec(num: i64, scale: u32) -> Decimal {
    Decimal::new(num, scale)
}

#[test]
fn test_empty_order_book() {
    let book = OrderBook::new("BTC/USD");
    assert!(book.best_bid().is_none());
    assert!(book.best_ask().is_none());
    assert!(book.spread().is_none());
}

#[test]
fn test_add_orders() {
    let mut book = OrderBook::new("BTC/USD");

    book.add_order(Order::new(Side::Buy, dec(100, 0), dec(10, 0)));
    book.add_order(Order::new(Side::Buy, dec(99, 0), dec(5, 0)));
    book.add_order(Order::new(Side::Sell, dec(101, 0), dec(8, 0)));

    assert_eq!(book.best_bid(), Some(dec(100, 0)));
    assert_eq!(book.best_ask(), Some(dec(101, 0)));
    assert_eq!(book.spread(), Some(dec(1, 0)));
}

#[test]
fn test_full_match() {
    let mut book = OrderBook::new("BTC/USD");

    book.add_order(Order::new(Side::Sell, dec(100, 0), dec(10, 0)));

    let buy = Order::new(Side::Buy, dec(100, 0), dec(10, 0));
    let trades = book.match_order(buy);

    assert_eq!(trades.len(), 1);
    assert_eq!(trades[0].quantity, dec(10, 0));
    assert_eq!(trades[0].price, dec(100, 0));
    assert!(book.best_ask().is_none());
}

#[test]
fn test_partial_match() {
    let mut book = OrderBook::new("BTC/USD");

    book.add_order(Order::new(Side::Sell, dec(100, 0), dec(10, 0)));

    let buy = Order::new(Side::Buy, dec(100, 0), dec(5, 0));
    let trades = book.match_order(buy);

    assert_eq!(trades.len(), 1);
    assert_eq!(trades[0].quantity, dec(5, 0));

    let depth = book.ask_depth(10);
    assert_eq!(depth.len(), 1);
    assert_eq!(depth[0], (dec(100, 0), dec(5, 0)));
}

#[test]
fn test_price_time_priority() {
    let mut book = OrderBook::new("BTC/USD");

    let sell1 = Order::new(Side::Sell, dec(100, 0), dec(5, 0));
    let sell1_id = sell1.id;
    book.add_order(sell1);

    let sell2 = Order::new(Side::Sell, dec(100, 0), dec(5, 0));
    book.add_order(sell2);

    let buy = Order::new(Side::Buy, dec(100, 0), dec(5, 0));
    let trades = book.match_order(buy);

    assert_eq!(trades.len(), 1);
    assert_eq!(trades[0].maker_order_id, sell1_id);
}

#[test]
fn test_no_match_spread() {
    let mut book = OrderBook::new("BTC/USD");

    book.add_order(Order::new(Side::Sell, dec(101, 0), dec(10, 0)));

    let buy = Order::new(Side::Buy, dec(100, 0), dec(10, 0));
    let trades = book.match_order(buy);

    assert!(trades.is_empty());
    assert_eq!(book.best_bid(), Some(dec(100, 0)));
    assert_eq!(book.best_ask(), Some(dec(101, 0)));
}

#[test]
fn test_aggressive_matching_multiple_levels() {
    let mut book = OrderBook::new("BTC/USD");

    book.add_order(Order::new(Side::Sell, dec(100, 0), dec(5, 0)));
    book.add_order(Order::new(Side::Sell, dec(101, 0), dec(5, 0)));
    book.add_order(Order::new(Side::Sell, dec(102, 0), dec(5, 0)));

    let buy = Order::new(Side::Buy, dec(102, 0), dec(12, 0));
    let trades = book.match_order(buy);

    assert_eq!(trades.len(), 3);
    assert_eq!(trades[0].price, dec(100, 0));
    assert_eq!(trades[1].price, dec(101, 0));
    assert_eq!(trades[2].price, dec(102, 0));
    assert_eq!(trades[2].quantity, dec(2, 0));
}

#[test]
fn full_match_empties_the_book() {
    let mut book = OrderBook::new("BTC/USD");
    let sell = Order::new(Side::Sell, dec(100, 0), dec(10, 0));
    let sell_id = sell.id;
    book.add_order(sell);
    let buy = Order::new(Side::Buy, dec(100, 0), dec(10, 0));
    let buy_id = buy.id;
    let trades = book.match_order(buy);
    assert_eq!(trades.len(), 1);
    assert_eq!(trades[0].maker_order_id, sell_id);
    assert_eq!(trades[0].taker_order_id, buy_id);
    assert_eq!(trades[0].taker_side, Side::Buy);
    assert!(book.best_bid().is_none());
    assert!(book.best_ask().is_none());
    assert!(book.spread().is_none());
    assert_eq!(book.order_count(), 0);
    assert!(book.bid_depth(10).is_empty());
    assert!(book.ask_depth(10).is_empty());
}

#[test]
fn partial_match_keeps_maker_and_rests_no_bid() {
    let mut book = OrderBook::new("BTC/USD");
    book.add_order(Order::new(Side::Sell, dec(100, 0), dec(10, 0)));
    let trades = book.match_order(Order::new(Side::Buy, dec(100, 0), dec(5, 0)));
    assert_eq!(trades.len(), 1);
    assert_eq!(trades[0].price, dec(100, 0));
    assert_eq!(trades[0].quantity, dec(5, 0));
    assert_eq!(book.best_ask(), Some(dec(100, 0)));
    assert!(book.best_bid().is_none());
    assert_eq!(book.order_count(), 1);
}

#[test]
fn no_cross_widens_book_with_spread_one() {
    let mut book = OrderBook::new("BTC/USD");
    book.add_order(Order::new(Side::Sell, dec(101, 0), dec(10, 0)));
    let trades = book.match_order(Order::new(Side::Buy, dec(100, 0), dec(10, 0)));
    assert!(trades.is_empty());
    assert_eq!(book.spread(), Some(dec(1, 0)));
    assert_eq!(book.bid_depth(10), vec![(dec(100, 0), dec(10, 0))]);
}

#[test]
fn time_priority_leaves_second_order() {
    let mut book = OrderBook::new("BTC/USD");
    let a = Order::new(Side::Sell, dec(100, 0), dec(5, 0));
    let a_id = a.id;
    book.add_order(a);
    book.add_order(Order::new(Side::Sell, dec(100, 0), dec(5, 0)));
    let trades = book.match_order(Order::new(Side::Buy, dec(100, 0), dec(5, 0)));
    assert_eq!(trades.len(), 1);
    assert_eq!(trades[0].maker_order_id, a_id);
    assert_eq!(book.ask_depth(10), vec![(dec(100, 0), dec(5, 0))]);
}

#[test]
fn sweep_leaves_rest_of_last_level() {
    let mut book = OrderBook::new("BTC/USD");
    book.add_order(Order::new(Side::Sell, dec(100, 0), dec(5, 0)));
    book.add_order(Order::new(Side::Sell, dec(101, 0), dec(5, 0)));
    book.add_order(Order::new(Side::Sell, dec(102, 0), dec(5, 0)));
    let trades = book.match_order(Order::new(Side::Buy, dec(102, 0), dec(12, 0)));
    let fills: Vec<(Decimal, Decimal)> = trades.iter().map(|t| (t.price, t.quantity)).collect();
    assert_eq!(
        fills,
        vec![(dec(100, 0), dec(5, 0)), (dec(101, 0), dec(5, 0)), (dec(102, 0), dec(2, 0))]
    );
    assert_eq!(book.ask_depth(10), vec![(dec(102, 0), dec(3, 0))]);
    assert!(book.best_bid().is_none());
}

#[test]
fn taker_residual_rests_at_its_limit() {
    let mut book = OrderBook::new("BTC/USD");
    book.add_order(Order::new(Side::Sell, dec(100, 0), dec(5, 0)));
    let trades = book.match_order(Order::new(Side::Buy, dec(105, 0), dec(10, 0)));
    assert_eq!(trades.len(), 1);
    assert_eq!(trades[0].price, dec(100, 0));
    assert_eq!(trades[0].quantity, dec(5, 0));
    assert!(book.best_ask().is_none());
    assert_eq!(book.bid_depth(10), vec![(dec(105, 0), dec(5, 0))]);
    assert_eq!(book.best_bid(), Some(dec(105, 0)));
}

#[test]
fn sell_taker_sweeps_bids_highest_first() {
    let mut book = OrderBook::new("BTC/USD");
    book.add_order(Order::new(Side::Buy, dec(98, 0), dec(2, 0)));
    book.add_order(Order::new(Side::Buy, dec(99, 0), dec(3, 0)));
    let trades = book.match_order(Order::new(Side::Sell, dec(97, 0), dec(10, 0)));
    assert_eq!(trades.len(), 2);
    assert_eq!(trades[0].price, dec(99, 0));
    assert_eq!(trades[1].price, dec(98, 0));
    let total: i128 = trades.iter().map(|t| t.quantity.units).sum();
    assert_eq!(total + book.ask_depth(1)[0].1.units, dec(10, 0).units);
    assert_eq!(book.best_ask(), Some(dec(97, 0)));
    assert!(book.best_bid().is_none());
}

#[test]
fn empty_book_incoming_order_rests() {
    let mut book = OrderBook::new("BTC/USD");
    let trades = book.match_order(Order::new(Side::Sell, dec(50, 0), dec(3, 0)));
    assert!(trades.is_empty());
    assert_eq!(book.best_ask(), Some(dec(50, 0)));
    assert_eq!(book.order_count(), 1);
}

#[test]
fn depth_is_best_first_and_limited() {
    let mut book = OrderBook::new("BTC/USD");
    for p in [95, 97, 96, 94] {
        book.add_order(Order::new(Side::Buy, dec(p, 0), dec(1, 0)));
    }
    book.add_order(Order::new(Side::Buy, dec(97, 0), dec(2, 0)));
    for p in [103, 101, 102] {
        book.add_order(Order::new(Side::Sell, dec(p, 0), dec(1, 0)));
    }
    assert_eq!(book.bid_depth(2), vec![(dec(97, 0), dec(3, 0)), (dec(96, 0), dec(1, 0))]);
    assert_eq!(
        book.ask_depth(10),
        vec![(dec(101, 0), dec(1, 0)), (dec(102, 0), dec(1, 0)), (dec(103, 0), dec(1, 0))]
    );
    assert_eq!(book.bid_depth(0), vec![]);
    assert_eq!(book.order_count(), 8);
    assert_eq!(book.quantity_at(Side::Buy, dec(97, 0)), dec(3, 0));
    assert_eq!(book.quantity_at(Side::Buy, dec(90, 0)), dec(0, 0));
}

#[test]
fn price_level_queue() {
    let mut level = PriceLevel::new(dec(100, 0));
    assert!(level.is_empty());
    let a = Order::new(Side::Sell, dec(100, 0), dec(4, 0));
    let b = Order::new(Side::Sell, dec(100, 0), dec(6, 0));
    level.add_order(a);
    level.add_order(b);
    assert_eq!(level.len(), 2);
    assert_eq!(level.total_quantity, dec(10, 0));
    let first = level.pop_front().unwrap();
    assert_eq!(first.id, a.id);
    assert_eq!(first.status, OrderStatus::Open);
    assert_eq!(level.total_quantity, dec(6, 0));
    assert_eq!(level.pop_front().unwrap().id, b.id);
    assert!(level.pop_front().is_none());
    assert_eq!(level.total_quantity, dec(0, 0));
}

#[test]
fn front_mut_updates_oldest_order_in_place() {
    let mut level = PriceLevel::new(dec(100, 0));
    assert!(level.front_mut().is_none());
    let a = Order::new(Side::Sell, dec(100, 0), dec(4, 0));
    level.add_order(a);
    level.add_order(Order::new(Side::Sell, dec(100, 0), dec(6, 0)));
    if let Some(order) = level.front_mut() {
        assert_eq!(order.id, a.id);
        order.fill(dec(1, 0));
    }
    assert_eq!(level.orders[0].remaining_quantity, dec(3, 0));
    assert_eq!(level.orders[0].status, OrderStatus::PartiallyFilled);
    assert_eq!(level.orders[1].remaining_quantity, dec(6, 0));
    assert_eq!(level.total_quantity, dec(10, 0));
}

fn side_total(depth: &[(Decimal, Decimal)]) -> i128 {
    depth.iter().map(|(_, q)| q.units).sum()
}

#[test]
fn invariants_and_conservation_over_many_orders() {
    let mut book = OrderBook::new("BTC/USD");
    let mut seed: u64 = 0x2545_f491_4f6c_dd1d;
    for _ in 0..600 {
        seed = seed.wrapping_mul(6364136223846793005).wrapping_add(1442695040888963407);
        let side = if (seed >> 33) % 2 == 0 { Side::Buy } else { Side::Sell };
        let price = 95 + ((seed >> 40) % 11) as i64;
        let quantity = 1 + ((seed >> 50) % 9) as i64;
        let order = Order::new(side, dec(price, 0), dec(quantity, 0));

        let own_before = match side {
            Side::Buy => side_total(&book.bid_depth(usize::MAX)),
            Side::Sell => side_total(&book.ask_depth(usize::MAX)),
        };
        let trades = book.match_order(order);
        let own_after = match side {
            Side::Buy => side_total(&book.bid_depth(usize::MAX)),
            Side::Sell => side_total(&book.ask_depth(usize::MAX)),
        };
        let traded: i128 = trades.iter().map(|t| t.quantity.units).sum();
        assert_eq!(traded + (own_after - own_before), dec(quantity, 0).units);
        for t in &trades {
            assert!(t.quantity.units > 0);
            assert_eq!(t.taker_order_id, order.id);
            match side {
                Side::Buy => assert!(t.price.units <= dec(price, 0).units),
                Side::Sell => assert!(t.price.units >= dec(price, 0).units),
            }
        }
        if let (Some(bid), Some(ask)) = (book.best_bid(), book.best_ask()) {
            assert!(bid.units < ask.units);
        }
        let bids = book.bid_depth(usize::MAX);
        let asks = book.ask_depth(usize::MAX);
        assert!(bids.windows(2).all(|w| w[0].0.units > w[1].0.units));
        assert!(asks.windows(2).all(|w| w[0].0.units < w[1].0.units));
        assert!(bids.iter().chain(asks.iter()).all(|(_, q)| q.units > 0));
    }
}
