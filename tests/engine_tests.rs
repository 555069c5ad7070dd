use clob_engine::decimal::Decimal;
use clob_engine::engine::{EngineBuilder, EngineError, EngineEvent, MatchingEngine};
use clob_engine::order::{OrderRequest, Side};

fn dec(num: i64, scale: u32) -> Decimal {
    Decimal::new(num, scale)
}

fn request(side: Side, price: i64, quantity: i64) -> OrderRequest {
    OrderRequest { side, price: dec(price, 0), quantity: dec(quantity, 0) }
}

#[test]
fn test_engine_processes_orders() {
    let mut engine = EngineBuilder::new("BTC/USD").engine();
    let events = engine.process_order(request(Side::Sell, 100, 10)).unwrap();
    assert_eq!(events.len(), 1);
    match &events[0] {
        EngineEvent::OrderBookUpdate { best_ask, .. } => {
            assert_eq!(*best_ask, Some(dec(100, 0)));
        }
        _ => panic!("Expected OrderBookUpdate"),
    }
}

#[test]
fn test_engine_generates_trades() {
    let mut engine = EngineBuilder::new("BTC/USD").engine();
    engine.process_order(request(Side::Sell, 100, 10)).unwrap();
    let events = engine.process_order(request(Side::Buy, 100, 10)).unwrap();
    match &events[0] {
        EngineEvent::Trade(trade) => {
            assert_eq!(trade.price, dec(100, 0));
            assert_eq!(trade.quantity, dec(10, 0));
        }
        _ => panic!("Expected Trade event"),
    }
}

#[test]
fn full_match_publishes_trade_then_empty_depth() {
    let mut engine = MatchingEngine::new("BTC/USD");
    engine.process_order(request(Side::Sell, 100, 10)).unwrap();
    let events = engine.process_order(request(Side::Buy, 100, 10)).unwrap();
    assert_eq!(events.len(), 2);
    assert!(matches!(events[0], EngineEvent::Trade(_)));
    match &events[1] {
        EngineEvent::OrderBookUpdate { best_bid, best_ask, bid_depth, ask_depth } => {
            assert!(best_bid.is_none());
            assert!(best_ask.is_none());
            assert!(bid_depth.is_empty());
            assert!(ask_depth.is_empty());
        }
        _ => panic!("Expected OrderBookUpdate"),
    }
}

#[test]
fn sweep_publishes_trades_in_matching_order() {
    let mut engine = MatchingEngine::new("BTC/USD");
    for p in [102, 100, 101] {
        engine.process_order(request(Side::Sell, p, 5)).unwrap();
    }
    let events = engine.process_order(request(Side::Buy, 102, 12)).unwrap();
    assert_eq!(events.len(), 4);
    let prices: Vec<Decimal> = events[..3]
        .iter()
        .map(|e| match e {
            EngineEvent::Trade(t) => t.price,
            _ => panic!("Expected Trade event"),
        })
        .collect();
    assert_eq!(prices, vec![dec(100, 0), dec(101, 0), dec(102, 0)]);
    match &events[3] {
        EngineEvent::OrderBookUpdate { best_ask, ask_depth, .. } => {
            assert_eq!(*best_ask, Some(dec(102, 0)));
            assert_eq!(*ask_depth, vec![(dec(102, 0), dec(3, 0))]);
        }
        _ => panic!("Expected OrderBookUpdate"),
    }
}

#[test]
fn depth_update_holds_at_most_ten_levels() {
    let mut engine = MatchingEngine::new("BTC/USD");
    let mut last = Vec::new();
    for p in 1..=12 {
        last = engine.process_order(request(Side::Buy, p, 1)).unwrap();
    }
    match &last[0] {
        EngineEvent::OrderBookUpdate { best_bid, bid_depth, .. } => {
            assert_eq!(*best_bid, Some(dec(12, 0)));
            assert_eq!(bid_depth.len(), 10);
            assert_eq!(bid_depth[0].0, dec(12, 0));
            assert_eq!(bid_depth[9].0, dec(3, 0));
        }
        _ => panic!("Expected OrderBookUpdate"),
    }
}

#[test]
fn engine_refuses_non_positive_and_out_of_range() {
    let mut engine = MatchingEngine::new("BTC/USD");
    assert_eq!(engine.process_order(request(Side::Buy, 0, 1)).unwrap_err(), EngineError::NotPositive);
    assert_eq!(engine.process_order(request(Side::Buy, 1, -1)).unwrap_err(), EngineError::NotPositive);
    let huge = OrderRequest {
        side: Side::Sell,
        price: dec(1, 0),
        quantity: Decimal::from_units(79_228_162_514_264_337_593_543_950_335),
    };
    assert!(engine.process_order(huge).is_ok());
    assert_eq!(engine.process_order(request(Side::Sell, 1, 1)).unwrap_err(), EngineError::OutOfRange);
    let too_big = OrderRequest {
        side: Side::Sell,
        price: Decimal::from_units(79_228_162_514_264_337_593_543_950_336),
        quantity: dec(1, 0),
    };
    assert_eq!(engine.process_order(too_big).unwrap_err(), EngineError::OutOfRange);
}

#[test]
fn stats_report_book_figures() {
    let mut engine = MatchingEngine::new("BTC/USD");
    engine.process_order(request(Side::Buy, 99, 1)).unwrap();
    engine.process_order(request(Side::Sell, 101, 1)).unwrap();
    engine.process_order(request(Side::Sell, 102, 1)).unwrap();
    let stats = engine.stats();
    assert_eq!(stats.symbol, "BTC/USD");
    assert_eq!(stats.best_bid, Some(dec(99, 0)));
    assert_eq!(stats.best_ask, Some(dec(101, 0)));
    assert_eq!(stats.spread, Some(dec(2, 0)));
    assert_eq!(stats.order_count, 3);
}

#[test]
fn builder_settings() {
    let b = EngineBuilder::new("ETH/USD");
    assert_eq!(b.symbol, "ETH/USD");
    assert_eq!(b.order_buffer_size, 10_000);
    assert_eq!(b.event_buffer_size, 1_000);
    let b = b.order_buffer_size(5).event_buffer_size(7);
    assert_eq!(b.order_buffer_size, 5);
    assert_eq!(b.event_buffer_size, 7);
    assert_eq!(b.engine().stats().symbol, "ETH/USD");
}

#[test]
fn process_at_uses_given_identity() {
    let mut engine = MatchingEngine::new("BTC/USD");
    engine.process_order_at(request(Side::Sell, 100, 4), 7, 1000).unwrap();
    let events = engine.process_order_at(request(Side::Buy, 100, 4), 8, 2000).unwrap();
    match &events[0] {
        EngineEvent::Trade(t) => {
            assert_eq!(t.maker_order_id, 7);
            assert_eq!(t.taker_order_id, 8);
            assert_eq!(t.taker_side, Side::Buy);
        }
        _ => panic!("Expected Trade event"),
    }
}
