//! Orders, trades and order requests.

use vstd::prelude::*;
use crate::decimal::{Decimal, MAX_UNITS};

verus! {

/// Relies on `uuid::Uuid::new_v4` for a random identifier, read as its 128 bits.
/// Nothing is promised of the value.
#[verifier::external_body]
pub(crate) fn fresh_id() -> (r: u128) {
    uuid::Uuid::new_v4().as_u128()
}

/// Relies on `chrono::Utc::now` for the wall clock, read in Unix milliseconds.
/// Nothing is promised of the value.
#[verifier::external_body]
pub(crate) fn now_millis() -> (r: i64) {
    chrono::Utc::now().timestamp_millis()
}

/// The side of an order.
#[derive(Clone, Copy, Debug, PartialEq, Eq, Structural)]
pub enum Side {
    Buy,
    Sell,
}

/// The lower-case name of a side.
pub open spec fn side_text(side: Side) -> Seq<char> {
    match side {
        Side::Buy => "buy"@,
        Side::Sell => "sell"@,
    }
}

impl Side {
    /// The other side.
    pub open spec fn opposite(self) -> Side {
        match self {
            Side::Buy => Side::Sell,
            Side::Sell => Side::Buy,
        }
    }

    /// The lower-case name: "buy" or "sell".
    pub fn to_string(&self) -> (r: String)
        ensures
            r@ == side_text(*self),
    {
        match self {
            Side::Buy => String::from_str("buy"),
            Side::Sell => String::from_str("sell"),
        }
    }
}

/// Where an order stands.
#[derive(Clone, Copy, Debug, PartialEq, Eq, Structural)]
pub enum OrderStatus {
    Open,
    PartiallyFilled,
    Filled,
    Cancelled,
}

/// The status that a remaining quantity implies.
pub open spec fn status_for(remaining: int, quantity: int) -> OrderStatus {
    if remaining == 0 {
        OrderStatus::Filled
    } else if remaining < quantity {
        OrderStatus::PartiallyFilled
    } else {
        OrderStatus::Open
    }
}

/// Whether a limit price `limit` on `side` reaches the opposing price `other`.
pub open spec fn crosses(side: Side, limit: int, other: int) -> bool {
    match side {
        Side::Buy => limit >= other,
        Side::Sell => limit <= other,
    }
}

/// A limit order.
#[derive(Clone, Copy, Debug)]
pub struct Order {
    /// Unique identifier.
    pub id: u128,
    /// Buy or sell.
    pub side: Side,
    /// Limit price.
    pub price: Decimal,
    /// Quantity as placed.
    pub quantity: Decimal,
    /// Quantity not yet filled.
    pub remaining_quantity: Decimal,
    /// Creation time in Unix milliseconds.
    pub timestamp: i64,
    /// Current status.
    pub status: OrderStatus,
}

impl Order {
    /// Positive price and quantity in range, remaining quantity between zero
    /// and the placed quantity, and the status that the remaining quantity implies.
    pub open spec fn wf(self) -> bool {
        &&& 0 < self.price@ <= MAX_UNITS
        &&& 0 < self.quantity@ <= MAX_UNITS
        &&& 0 <= self.remaining_quantity@ <= self.quantity@
        &&& self.status == status_for(self.remaining_quantity@, self.quantity@)
    }

    /// A fresh order: well formed and nothing filled yet.
    pub open spec fn is_fresh(self) -> bool {
        &&& self.wf()
        &&& self.remaining_quantity == self.quantity
        &&& self.status == OrderStatus::Open
    }

    /// The order after `qty` more of it is filled.
    pub open spec fn filled_by(self, qty: int) -> Order {
        Order {
            remaining_quantity: Decimal { units: (self.remaining_quantity@ - qty) as i128 },
            status: status_for(self.remaining_quantity@ - qty, self.quantity@),
            ..self
        }
    }

    /// The open order with the given identifier and creation time.
    pub open spec fn with_id_spec(id: u128, side: Side, price: Decimal, quantity: Decimal, timestamp: i64) -> Order {
        Order { id, side, price, quantity, remaining_quantity: quantity, timestamp, status: OrderStatus::Open }
    }

    /// An order with the given identifier and creation time.
    pub fn with_id(id: u128, side: Side, price: Decimal, quantity: Decimal, timestamp: i64) -> (r: Order)
        ensures
            r == Order::with_id_spec(id, side, price, quantity, timestamp),
    {
        Order {
            id,
            side,
            price,
            quantity,
            remaining_quantity: quantity,
            timestamp,
            status: OrderStatus::Open,
        }
    }

    /// A new open order with a fresh identifier, stamped with the current time.
    pub fn new(side: Side, price: Decimal, quantity: Decimal) -> (r: Order)
        ensures
            r.side == side,
            r.price == price,
            r.quantity == quantity,
            r.remaining_quantity == quantity,
            r.status == OrderStatus::Open,
    {
        let id = fresh_id();
        let timestamp = now_millis();
        Order::with_id(id, side, price, quantity, timestamp)
    }

    /// Whether this order's price reaches an order of the other side.
    pub fn can_match(&self, other: &Order) -> (r: bool)
        ensures
            r == (other.side == self.side.opposite() && crosses(self.side, self.price@, other.price@)),
    {
        match (self.side, other.side) {
            (Side::Buy, Side::Sell) => self.price.units >= other.price.units,
            (Side::Sell, Side::Buy) => self.price.units <= other.price.units,
            _ => false,
        }
    }

    /// Fills `qty` more of the order.
    pub fn fill(&mut self, qty: Decimal)
        requires
            old(self).wf(),
            0 < qty@ <= old(self).remaining_quantity@,
        ensures
            *final(self) == old(self).filled_by(qty@),
            final(self).wf(),
    {
        self.remaining_quantity = Decimal { units: self.remaining_quantity.units - qty.units };
        if self.remaining_quantity.units == 0 {
            self.status = OrderStatus::Filled;
        } else {
            self.status = OrderStatus::PartiallyFilled;
        }
    }

    /// Whether nothing of the order remains.
    pub fn is_filled(&self) -> (r: bool)
        ensures
            r == (self.remaining_quantity@ == 0),
    {
        self.remaining_quantity.units == 0
    }
}

/// An execution between an incoming (taker) order and a resting (maker) order.
#[derive(Clone, Copy, Debug)]
pub struct Trade {
    /// Unique identifier.
    pub id: u128,
    /// The incoming order.
    pub taker_order_id: u128,
    /// The resting order.
    pub maker_order_id: u128,
    /// Execution price: the maker's price.
    pub price: Decimal,
    /// Executed quantity.
    pub quantity: Decimal,
    /// Side of the incoming order.
    pub taker_side: Side,
    /// Execution time in Unix milliseconds.
    pub timestamp: i64,
}

impl Trade {
    /// A trade with a fresh identifier, stamped with the current time.
    pub fn new(
        taker_order_id: u128,
        maker_order_id: u128,
        price: Decimal,
        quantity: Decimal,
        taker_side: Side,
    ) -> (r: Trade)
        ensures
            r.taker_order_id == taker_order_id,
            r.maker_order_id == maker_order_id,
            r.price == price,
            r.quantity == quantity,
            r.taker_side == taker_side,
    {
        let id = fresh_id();
        let timestamp = now_millis();
        Trade { id, taker_order_id, maker_order_id, price, quantity, taker_side, timestamp }
    }
}

/// A request to place a limit order.
#[derive(Clone, Copy, Debug)]
pub struct OrderRequest {
    pub side: Side,
    pub price: Decimal,
    pub quantity: Decimal,
}

} // verus!
