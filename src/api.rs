//! Boundary rules of the submit and depth endpoints: which submissions are
//! accepted, and the responses and payloads that the transport sends.

use vstd::prelude::*;
use crate::decimal::{option_text, option_view, pairs_text, Decimal};
use crate::engine::{event_in_range, EngineEvent};
use crate::order::{OrderRequest, Side};

verus! {

/// What `str::to_lowercase` gives for a text.
pub uninterp spec fn lower_of(s: Seq<char>) -> Seq<char>;

/// Relies on `str::to_lowercase`: the result depends on the text alone.
#[verifier::external_body]
fn lowercase(s: &str) -> (r: String)
    ensures
        r@ == lower_of(s@),
{
    s.to_lowercase()
}

/// HTTP status for an accepted submission.
pub const STATUS_ACCEPTED: u16 = 202;

/// HTTP status for a rejected submission.
pub const STATUS_BAD_REQUEST: u16 = 400;

/// HTTP status when the engine no longer takes requests.
pub const STATUS_SERVICE_UNAVAILABLE: u16 = 503;

/// A submission as the client sent it.
#[derive(Clone, Debug)]
pub struct SubmitOrderRequest {
    /// "buy" or "sell", in any case.
    pub side: String,
    /// Limit price.
    pub price: Decimal,
    /// Order quantity.
    pub quantity: Decimal,
}

/// The answer to a submission.
#[derive(Clone, Debug)]
pub struct SubmitOrderResponse {
    pub success: bool,
    pub message: String,
    pub order_id: Option<u128>,
}

/// Why a submission is rejected at the boundary.
#[derive(Clone, Copy, Debug, PartialEq, Eq, Structural)]
pub enum Rejection {
    /// The side is neither "buy" nor "sell".
    InvalidSide,
    /// The price is zero or negative.
    NonPositivePrice,
    /// The quantity is zero or negative.
    NonPositiveQuantity,
}

/// The side that a lower-cased side text names.
pub open spec fn side_named(folded: Seq<char>) -> Option<Side> {
    if folded == "buy"@ {
        Some(Side::Buy)
    } else if folded == "sell"@ {
        Some(Side::Sell)
    } else {
        None
    }
}

/// The side that an already lower-cased text names.
pub fn side_from_lowercase(folded: &String) -> (r: Option<Side>)
    ensures
        r == side_named(folded@),
{
    let buy = String::from_str("buy");
    let sell = String::from_str("sell");
    if *folded == buy {
        Some(Side::Buy)
    } else if *folded == sell {
        Some(Side::Sell)
    } else {
        None
    }
}

/// The side that a text names, ignoring case.
pub fn parse_side(side: &str) -> (r: Option<Side>)
    ensures
        r == side_named(lower_of(side@)),
{
    let folded = lowercase(side);
    side_from_lowercase(&folded)
}

/// The outcome of checking a submission whose side text lower-cases to `folded`.
pub open spec fn validation(folded: Seq<char>, price: Decimal, quantity: Decimal) -> Result<OrderRequest, Rejection> {
    match side_named(folded) {
        None => Err(Rejection::InvalidSide),
        Some(side) => if price@ <= 0 {
            Err(Rejection::NonPositivePrice)
        } else if quantity@ <= 0 {
            Err(Rejection::NonPositiveQuantity)
        } else {
            Ok(OrderRequest { side, price, quantity })
        },
    }
}

/// Checks a submission whose side text is already lower-cased: side first,
/// then price, then quantity.
pub fn validate_lowercase(folded: &String, price: Decimal, quantity: Decimal) -> (r: Result<OrderRequest, Rejection>)
    ensures
        r == validation(folded@, price, quantity),
{
    match side_from_lowercase(folded) {
        None => Err(Rejection::InvalidSide),
        Some(side) => {
            if price.units <= 0 {
                Err(Rejection::NonPositivePrice)
            } else if quantity.units <= 0 {
                Err(Rejection::NonPositiveQuantity)
            } else {
                Ok(OrderRequest { side, price, quantity })
            }
        },
    }
}

/// Checks a submission: the side ignoring case, then a positive price,
/// then a positive quantity.
pub fn validate_submission(req: &SubmitOrderRequest) -> (r: Result<OrderRequest, Rejection>)
    ensures
        r == validation(lower_of(req.side@), req.price, req.quantity),
{
    let folded = lowercase(req.side.as_str());
    validate_lowercase(&folded, req.price, req.quantity)
}

/// The message sent back for a rejection.
pub open spec fn rejection_text(r: Rejection) -> Seq<char> {
    match r {
        Rejection::InvalidSide => "Invalid side. Must be 'buy' or 'sell'"@,
        Rejection::NonPositivePrice => "Price must be positive"@,
        Rejection::NonPositiveQuantity => "Quantity must be positive"@,
    }
}

/// The response to a rejected submission: 400 with the reason.
pub fn rejection_response(reason: Rejection) -> (r: (u16, SubmitOrderResponse))
    ensures
        r.0 == STATUS_BAD_REQUEST,
        !r.1.success,
        r.1.message@ == rejection_text(reason),
        r.1.order_id.is_none(),
{
    let message = match reason {
        Rejection::InvalidSide => String::from_str("Invalid side. Must be 'buy' or 'sell'"),
        Rejection::NonPositivePrice => String::from_str("Price must be positive"),
        Rejection::NonPositiveQuantity => String::from_str("Quantity must be positive"),
    };
    (STATUS_BAD_REQUEST, SubmitOrderResponse { success: false, message, order_id: None })
}

/// The response to an accepted submission: 202 with its identifier.
pub fn accepted_response(order_id: u128) -> (r: (u16, SubmitOrderResponse))
    ensures
        r.0 == STATUS_ACCEPTED,
        r.1.success,
        r.1.message@ == "Order submitted successfully"@,
        r.1.order_id == Some(order_id),
{
    (
        STATUS_ACCEPTED,
        SubmitOrderResponse {
            success: true,
            message: String::from_str("Order submitted successfully"),
            order_id: Some(order_id),
        },
    )
}

/// The response when the engine no longer takes requests: 503.
pub fn unavailable_response() -> (r: (u16, SubmitOrderResponse))
    ensures
        r.0 == STATUS_SERVICE_UNAVAILABLE,
        !r.1.success,
        r.1.message@ == "Engine unavailable"@,
        r.1.order_id.is_none(),
{
    (
        STATUS_SERVICE_UNAVAILABLE,
        SubmitOrderResponse { success: false, message: String::from_str("Engine unavailable"), order_id: None },
    )
}

/// The depth read: best prices and the top levels of each side, as texts.
#[derive(Clone, Debug)]
pub struct DepthPayload {
    pub best_bid: Option<String>,
    pub best_ask: Option<String>,
    /// (price, quantity), highest price first.
    pub bids: Vec<(String, String)>,
    /// (price, quantity), lowest price first.
    pub asks: Vec<(String, String)>,
}

/// The depth payload of an event: the texts of a depth update, or an empty
/// payload (no best prices, no levels) for any other event.
pub fn depth_payload(event: &EngineEvent) -> (r: DepthPayload)
    requires
        event_in_range(*event),
    ensures
        match *event {
            EngineEvent::OrderBookUpdate { best_bid, best_ask, bid_depth, ask_depth } => {
                &&& option_view(r.best_bid) == option_text(best_bid)
                &&& option_view(r.best_ask) == option_text(best_ask)
                &&& pairs_text(r.bids@, bid_depth@)
                &&& pairs_text(r.asks@, ask_depth@)
            },
            EngineEvent::Trade(_) => r.best_bid.is_none() && r.best_ask.is_none() && r.bids@.len() == 0
                && r.asks@.len() == 0,
        },
{
    match event {
        EngineEvent::OrderBookUpdate { best_bid, best_ask, bid_depth, ask_depth } => DepthPayload {
            best_bid: Decimal::option_to_string(*best_bid),
            best_ask: Decimal::option_to_string(*best_ask),
            bids: Decimal::pairs_to_strings(bid_depth),
            asks: Decimal::pairs_to_strings(ask_depth),
        },
        EngineEvent::Trade(_) => empty_depth_payload(),
    }
}

/// The payload with no best prices and no levels.
pub fn empty_depth_payload() -> (r: DepthPayload)
    ensures
        r.best_bid.is_none(),
        r.best_ask.is_none(),
        r.bids@.len() == 0,
        r.asks@.len() == 0,
{
    DepthPayload { best_bid: None, best_ask: None, bids: Vec::new(), asks: Vec::new() }
}

} // verus!
