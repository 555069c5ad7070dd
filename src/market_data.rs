//! Market data shaped for subscribers: headline snapshots and the messages
//! of the market data stream.

use vstd::prelude::*;
use crate::engine::event_in_range;
use crate::decimal::{option_text, option_view, pairs_text, text_of, Decimal};
use crate::engine::EngineEvent;
use crate::order::{now_millis, side_text};

verus! {

/// A headline view of the market after one event.
#[derive(Clone, Debug)]
pub struct MarketSnapshot {
    pub symbol: String,
    pub best_bid: Option<String>,
    pub best_ask: Option<String>,
    pub spread: Option<String>,
    pub last_trade_price: Option<String>,
    pub last_trade_quantity: Option<String>,
    /// Unix milliseconds.
    pub timestamp: i64,
}

/// The text of the spread between two optional best prices.
pub open spec fn spread_text(bid: Option<Decimal>, ask: Option<Decimal>) -> Option<Seq<char>> {
    match (bid, ask) {
        (Some(b), Some(a)) => Some(text_of(Decimal { units: (a@ - b@) as i128 })),
        _ => None,
    }
}

/// Whether `s` is the snapshot of `event` for `symbol`, taken at `now` for a
/// depth update and at the trade's own time for a trade.
pub open spec fn is_snapshot(s: MarketSnapshot, event: EngineEvent, symbol: Seq<char>, now: i64) -> bool {
    &&& s.symbol@ == symbol
    &&& match event {
        EngineEvent::OrderBookUpdate { best_bid, best_ask, .. } => {
            &&& option_view(s.best_bid) == option_text(best_bid)
            &&& option_view(s.best_ask) == option_text(best_ask)
            &&& option_view(s.spread) == spread_text(best_bid, best_ask)
            &&& s.last_trade_price.is_none()
            &&& s.last_trade_quantity.is_none()
            &&& s.timestamp == now
        },
        EngineEvent::Trade(t) => {
            &&& s.best_bid.is_none()
            &&& s.best_ask.is_none()
            &&& s.spread.is_none()
            &&& option_view(s.last_trade_price) == Some(text_of(t.price))
            &&& option_view(s.last_trade_quantity) == Some(text_of(t.quantity))
            &&& s.timestamp == t.timestamp
        },
    }
}

/// The snapshot of an event for `symbol`, with `now` as the time of a depth update.
pub fn snapshot_at(event: &EngineEvent, symbol: &str, now: i64) -> (r: MarketSnapshot)
    requires
        event_in_range(*event),
    ensures
        is_snapshot(r, *event, symbol@, now),
{
    match event {
        EngineEvent::OrderBookUpdate { best_bid, best_ask, .. } => {
            let spread = match (best_bid, best_ask) {
                (Some(bid), Some(ask)) => {
                    let d = Decimal { units: ask.units - bid.units };
                    Some(d.to_string())
                },
                _ => None,
            };
            MarketSnapshot {
                symbol: String::from_str(symbol),
                best_bid: Decimal::option_to_string(*best_bid),
                best_ask: Decimal::option_to_string(*best_ask),
                spread,
                last_trade_price: None,
                last_trade_quantity: None,
                timestamp: now,
            }
        },
        EngineEvent::Trade(trade) => MarketSnapshot {
            symbol: String::from_str(symbol),
            best_bid: None,
            best_ask: None,
            spread: None,
            last_trade_price: Some(trade.price.to_string()),
            last_trade_quantity: Some(trade.quantity.to_string()),
            timestamp: trade.timestamp,
        },
    }
}

/// The snapshot of an event for `symbol`; a depth update is stamped with
/// the current time.
pub fn engine_event_to_snapshot(event: &EngineEvent, symbol: &str) -> (r: Option<MarketSnapshot>)
    requires
        event_in_range(*event),
    ensures
        r matches Some(s) && is_snapshot(s, *event, symbol@, s.timestamp),
{
    let now = now_millis();
    Some(snapshot_at(event, symbol, now))
}

/// A message of the market data stream.
#[derive(Clone, Debug)]
pub enum WsMessage {
    /// A trade was executed.
    Trade { price: String, quantity: String, side: String, timestamp: i64 },
    /// The book after a request.
    OrderBook {
        best_bid: Option<String>,
        best_ask: Option<String>,
        bids: Vec<(String, String)>,
        asks: Vec<(String, String)>,
    },
    /// The stream is open.
    Connected { message: String },
}

/// The greeting sent when a subscriber connects.
pub fn connected_message() -> (r: WsMessage)
    ensures
        r matches WsMessage::Connected { message } && message@ == "Connected to CLOB market data feed"@,
{
    WsMessage::Connected { message: String::from_str("Connected to CLOB market data feed") }
}

/// The stream message of an engine event: a trade with its taker's side,
/// or the book's best prices and levels.
pub fn ws_message_of(event: &EngineEvent) -> (r: WsMessage)
    requires
        event_in_range(*event),
    ensures
        match *event {
            EngineEvent::Trade(t) => r matches WsMessage::Trade { price, quantity, side, timestamp } && price@
                == text_of(t.price) && quantity@ == text_of(t.quantity) && side@ == side_text(t.taker_side)
                && timestamp == t.timestamp,
            EngineEvent::OrderBookUpdate { best_bid, best_ask, bid_depth, ask_depth } => r matches WsMessage::OrderBook {
                best_bid: b,
                best_ask: a,
                bids,
                asks,
            } && option_view(b) == option_text(best_bid) && option_view(a) == option_text(best_ask) && pairs_text(
                bids@,
                bid_depth@,
            ) && pairs_text(asks@, ask_depth@),
        },
{
    match event {
        EngineEvent::Trade(trade) => WsMessage::Trade {
            price: trade.price.to_string(),
            quantity: trade.quantity.to_string(),
            side: trade.taker_side.to_string(),
            timestamp: trade.timestamp,
        },
        EngineEvent::OrderBookUpdate { best_bid, best_ask, bid_depth, ask_depth } => WsMessage::OrderBook {
            best_bid: Decimal::option_to_string(*best_bid),
            best_ask: Decimal::option_to_string(*best_ask),
            bids: Decimal::pairs_to_strings(bid_depth),
            asks: Decimal::pairs_to_strings(ask_depth),
        },
    }
}

} // verus!
