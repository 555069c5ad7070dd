use clob_engine::api::{
    accepted_response, depth_payload, parse_side, rejection_response, side_from_lowercase,
    unavailable_response, validate_lowercase, validate_submission, Rejection, SubmitOrderRequest,
};
use clob_engine::decimal::Decimal;
use clob_engine::engine::{event_is_in_range, EngineEvent, MatchingEngine};
use clob_engine::journal::{JournalAction, JournalInput, TradeBuffer};
use clob_engine::market_data::{connected_message, engine_event_to_snapshot, snapshot_at, ws_message_of, WsMessage};
use clob_engine::order::{OrderRequest, Side, Trade};
use clob_engine::simulation::{
    capped_num_orders, default_num_orders, order_from_draws, random_order, summarize_latencies, SimulationConfig,
};

fn dec(num: i64, scale: u32) -> Decimal {
    Decimal::new(num, scale)
}

fn submission(side: &str, price: i64, quantity: i64) -> SubmitOrderRequest {
    SubmitOrderRequest { side: side.to_string(), price: dec(price, 0), quantity: dec(quantity, 0) }
}

#[test]
fn side_is_case_insensitive() {
    assert_eq!(parse_side("BUY"), Some(Side::Buy));
    assert_eq!(parse_side("Sell"), Some(Side::Sell));
    assert_eq!(parse_side("hold"), None);
    assert_eq!(parse_side(""), None);
}

#[test]
fn lowercase_side_names_are_exact() {
    assert_eq!(side_from_lowercase(&"buy".to_string()), Some(Side::Buy));
    assert_eq!(side_from_lowercase(&"sell".to_string()), Some(Side::Sell));
    assert_eq!(side_from_lowercase(&"BUY".to_string()), None);
    assert_eq!(side_from_lowercase(&"buy ".to_string()), None);
    assert_eq!(validate_lowercase(&"sell".to_string(), dec(5, 0), dec(1, 0)).unwrap().side, Side::Sell);
    assert_eq!(validate_lowercase(&"Sell".to_string(), dec(5, 0), dec(1, 0)).unwrap_err(), Rejection::InvalidSide);
    assert_eq!(
        validate_lowercase(&"buy".to_string(), dec(5, 0), dec(0, 0)).unwrap_err(),
        Rejection::NonPositiveQuantity
    );
}

#[test]
fn validation_order_of_checks() {
    let ok = validate_submission(&submission("Buy", 100, 2)).unwrap();
    assert_eq!(ok.side, Side::Buy);
    assert_eq!(ok.price, dec(100, 0));
    assert_eq!(ok.quantity, dec(2, 0));
    assert_eq!(validate_submission(&submission("short", 0, 0)).unwrap_err(), Rejection::InvalidSide);
    assert_eq!(validate_submission(&submission("sell", 0, 0)).unwrap_err(), Rejection::NonPositivePrice);
    assert_eq!(validate_submission(&submission("sell", -3, 1)).unwrap_err(), Rejection::NonPositivePrice);
    assert_eq!(validate_submission(&submission("sell", 3, 0)).unwrap_err(), Rejection::NonPositiveQuantity);
}

#[test]
fn submit_responses() {
    let (code, body) = rejection_response(Rejection::InvalidSide);
    assert_eq!(code, 400);
    assert!(!body.success);
    assert_eq!(body.message, "Invalid side. Must be 'buy' or 'sell'");
    assert_eq!(rejection_response(Rejection::NonPositivePrice).1.message, "Price must be positive");
    assert_eq!(rejection_response(Rejection::NonPositiveQuantity).1.message, "Quantity must be positive");
    let (code, body) = accepted_response(42);
    assert_eq!(code, 202);
    assert!(body.success);
    assert_eq!(body.order_id, Some(42));
    assert_eq!(body.message, "Order submitted successfully");
    let (code, body) = unavailable_response();
    assert_eq!(code, 503);
    assert_eq!(body.message, "Engine unavailable");
}

fn book_update() -> EngineEvent {
    let mut engine = MatchingEngine::new("BTC/USD");
    engine.process_order(OrderRequest { side: Side::Buy, price: dec(9950, 2), quantity: dec(15, 1) }).unwrap();
    engine.process_order(OrderRequest { side: Side::Sell, price: dec(101, 0), quantity: dec(2, 0) }).unwrap();
    engine.process_order(OrderRequest { side: Side::Sell, price: dec(102, 0), quantity: dec(3, 0) }).unwrap().pop().unwrap()
}

#[test]
fn depth_payload_texts() {
    let event = book_update();
    assert!(event_is_in_range(&event));
    let payload = depth_payload(&event);
    assert_eq!(payload.best_bid.as_deref(), Some("99.5"));
    assert_eq!(payload.best_ask.as_deref(), Some("101"));
    assert_eq!(payload.bids, vec![("99.5".to_string(), "1.5".to_string())]);
    assert_eq!(
        payload.asks,
        vec![("101".to_string(), "2".to_string()), ("102".to_string(), "3".to_string())]
    );
}

#[test]
fn depth_payload_round_trips_through_text() {
    let event = book_update();
    let payload = depth_payload(&event);
    let parse = |pairs: &Vec<(String, String)>| -> Vec<(Decimal, Decimal)> {
        pairs
            .iter()
            .map(|(p, q)| (Decimal::parse(p).unwrap(), Decimal::parse(q).unwrap()))
            .collect()
    };
    let rebuilt = EngineEvent::OrderBookUpdate {
        best_bid: payload.best_bid.as_deref().map(|s| Decimal::parse(s).unwrap()),
        best_ask: payload.best_ask.as_deref().map(|s| Decimal::parse(s).unwrap()),
        bid_depth: parse(&payload.bids),
        ask_depth: parse(&payload.asks),
    };
    let again = depth_payload(&rebuilt);
    assert_eq!(again.best_bid, payload.best_bid);
    assert_eq!(again.best_ask, payload.best_ask);
    assert_eq!(again.bids, payload.bids);
    assert_eq!(again.asks, payload.asks);
}

#[test]
fn trade_event_gives_empty_depth_payload() {
    let t = Trade::new(1, 2, dec(100, 0), dec(1, 0), Side::Sell);
    let payload = depth_payload(&EngineEvent::Trade(t));
    assert!(payload.best_bid.is_none() && payload.best_ask.is_none());
    assert!(payload.bids.is_empty() && payload.asks.is_empty());
}

#[test]
fn snapshots_of_events() {
    let event = book_update();
    let s = snapshot_at(&event, "BTC/USD", 1234);
    assert_eq!(s.symbol, "BTC/USD");
    assert_eq!(s.best_bid.as_deref(), Some("99.5"));
    assert_eq!(s.best_ask.as_deref(), Some("101"));
    assert_eq!(s.spread.as_deref(), Some("1.5"));
    assert!(s.last_trade_price.is_none());
    assert_eq!(s.timestamp, 1234);
    let mut t = Trade::new(1, 2, dec(10025, 2), dec(3, 0), Side::Buy);
    t.timestamp = 99;
    let s = engine_event_to_snapshot(&EngineEvent::Trade(t), "BTC/USD").unwrap();
    assert_eq!(s.last_trade_price.as_deref(), Some("100.25"));
    assert_eq!(s.last_trade_quantity.as_deref(), Some("3"));
    assert_eq!(s.timestamp, 99);
    assert!(s.spread.is_none());
}

#[test]
fn stream_messages() {
    match connected_message() {
        WsMessage::Connected { message } => assert_eq!(message, "Connected to CLOB market data feed"),
        _ => panic!("Expected Connected"),
    }
    let mut t = Trade::new(1, 2, dec(100, 0), dec(5, 1), Side::Sell);
    t.timestamp = 7;
    match ws_message_of(&EngineEvent::Trade(t)) {
        WsMessage::Trade { price, quantity, side, timestamp } => {
            assert_eq!(price, "100");
            assert_eq!(quantity, "0.5");
            assert_eq!(side, "sell");
            assert_eq!(timestamp, 7);
        }
        _ => panic!("Expected Trade"),
    }
    match ws_message_of(&book_update()) {
        WsMessage::OrderBook { best_bid, asks, .. } => {
            assert_eq!(best_bid.as_deref(), Some("99.5"));
            assert_eq!(asks.len(), 2);
        }
        _ => panic!("Expected OrderBook"),
    }
}

#[test]
fn simulation_settings_and_draws() {
    assert_eq!(default_num_orders(), 1000);
    assert_eq!(capped_num_orders(50_000), 10_000);
    assert_eq!(capped_num_orders(25), 25);
    let config = SimulationConfig::default();
    assert_eq!(config.base_price, dec(10000, 2));
    assert_eq!(config.price_variance, dec(500, 2));
    assert_eq!(config.min_quantity, dec(100, 4));
    assert_eq!(config.max_quantity, dec(10000, 4));
    let o = order_from_draws(&config, false, -dec(250, 2).units, dec(5, 1).units);
    assert_eq!(o.side, Side::Sell);
    assert_eq!(o.price, dec(9750, 2));
    assert_eq!(o.quantity, dec(5, 1));
    for _ in 0..200 {
        let r = random_order(&config);
        assert!(r.price.units >= dec(95, 0).units && r.price.units <= dec(105, 0).units);
        assert!(r.quantity.units >= dec(1, 2).units && r.quantity.units <= dec(1, 0).units);
    }
}

#[test]
fn latency_summary() {
    let s = summarize_latencies(&vec![30, 10, 20]);
    assert_eq!(s.total_us, 60);
    assert_eq!(s.min_us, 10);
    assert_eq!(s.max_us, 30);
    let e = summarize_latencies(&vec![]);
    assert_eq!((e.total_us, e.min_us, e.max_us), (0, 0, 0));
    let big = summarize_latencies(&vec![u64::MAX, u64::MAX]);
    assert_eq!(big.total_us, 2 * u64::MAX as u128);
}

#[test]
fn journal_batches() {
    let t = Trade::new(1, 2, dec(1, 0), dec(1, 0), Side::Buy);
    let mut buffer = TradeBuffer::new(2);
    assert!(matches!(buffer.step(JournalInput::Tick), JournalAction::Wait));
    assert!(matches!(buffer.step(JournalInput::Trade(t)), JournalAction::Wait));
    assert!(matches!(buffer.step(JournalInput::Other), JournalAction::Wait));
    assert!(matches!(buffer.step(JournalInput::Lagged(3)), JournalAction::Wait));
    match buffer.step(JournalInput::Trade(t)) {
        JournalAction::Flush(v) => assert_eq!(v.len(), 2),
        _ => panic!("Expected Flush"),
    }
    buffer.step(JournalInput::Trade(t));
    match buffer.step(JournalInput::Tick) {
        JournalAction::Flush(v) => assert_eq!(v.len(), 1),
        _ => panic!("Expected Flush"),
    }
    buffer.step(JournalInput::Trade(t));
    match buffer.step(JournalInput::Closed) {
        JournalAction::FlushAndStop(v) => assert_eq!(v.len(), 1),
        _ => panic!("Expected FlushAndStop"),
    }
}
