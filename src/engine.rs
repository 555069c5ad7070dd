//! The single-writer matching engine: for each request, match it, then
//! publish its trades followed by one depth update.
//!
//! The engine here makes every decision; the task that owns it dequeues
//! requests and publishes the events that it returns, in order.

use vstd::prelude::*;
use crate::decimal::{pairs_in_range, Decimal, MAX_UNITS};
use crate::order::{fresh_id, now_millis, Order, OrderRequest, Side, Trade};
use crate::order_book::{
    depth_of, fills_of, flatten, lemma_flatten_orders, lemma_sweep_priority, match_outcome, orders_at, side_wf,
    sum_remaining, sweep, OrderBook, PriceLevel,
};

verus! {

/// Price levels per side in a depth update, unless configured otherwise.
pub const DEFAULT_DEPTH_LEVELS: usize = 10;

/// Capacity of the inbound request queue, unless configured otherwise.
pub const DEFAULT_ORDER_BUFFER_SIZE: usize = 10_000;

/// Capacity of each subscriber's event ring, unless configured otherwise.
pub const DEFAULT_EVENT_BUFFER_SIZE: usize = 1_000;

/// What the engine publishes.
#[derive(Clone, Debug)]
pub enum EngineEvent {
    /// A trade was executed.
    Trade(Trade),
    /// The book after a request: best prices and the top levels of each side.
    OrderBookUpdate {
        best_bid: Option<Decimal>,
        best_ask: Option<Decimal>,
        bid_depth: Vec<(Decimal, Decimal)>,
        ask_depth: Vec<(Decimal, Decimal)>,
    },
}

/// Why the engine refuses a request.
#[derive(Clone, Copy, Debug, PartialEq, Eq, Structural)]
pub enum EngineError {
    /// The price or the quantity is zero or negative.
    NotPositive,
    /// The price or the quantity, or the total it would make at its price
    /// level, is beyond the representable range.
    OutOfRange,
}

/// Whether every amount that an event carries can be written as text, and
/// so can the spread of its best prices.
pub open spec fn event_in_range(e: EngineEvent) -> bool {
    match e {
        EngineEvent::Trade(t) => t.price.in_range() && t.quantity.in_range(),
        EngineEvent::OrderBookUpdate { best_bid, best_ask, bid_depth, ask_depth } => {
            &&& best_bid matches Some(b) ==> b.in_range()
            &&& best_ask matches Some(a) ==> a.in_range()
            &&& best_bid is Some && best_ask is Some ==> (Decimal {
                units: (best_ask.unwrap()@ - best_bid.unwrap()@) as i128,
            }).in_range() && -0x8000_0000_0000_0000_0000_0000_0000_0000 <= best_ask.unwrap()@
                - best_bid.unwrap()@ < 0x8000_0000_0000_0000_0000_0000_0000_0000
            &&& pairs_in_range(bid_depth@)
            &&& pairs_in_range(ask_depth@)
        },
    }
}

/// Whether an event's amounts can all be written as text.
pub fn event_is_in_range(e: &EngineEvent) -> (r: bool)
    ensures
        r == event_in_range(*e),
{
    match e {
        EngineEvent::Trade(t) => t.price.is_in_range() && t.quantity.is_in_range(),
        EngineEvent::OrderBookUpdate { best_bid, best_ask, bid_depth, ask_depth } => {
            let bid_ok = match best_bid {
                Some(b) => b.is_in_range(),
                None => true,
            };
            let ask_ok = match best_ask {
                Some(a) => a.is_in_range(),
                None => true,
            };
            let spread_ok = match (best_bid, best_ask) {
                (Some(b), Some(a)) => {
                    if bid_ok && ask_ok {
                        let d = Decimal { units: a.units - b.units };
                        d.is_in_range()
                    } else {
                        false
                    }
                },
                _ => true,
            };
            bid_ok && ask_ok && spread_ok && pairs_are_in_range(bid_depth) && pairs_are_in_range(ask_depth)
        },
    }
}

/// Whether every amount of the pairs is in range.
fn pairs_are_in_range(pairs: &Vec<(Decimal, Decimal)>) -> (r: bool)
    ensures
        r == pairs_in_range(pairs@),
{
    let mut i: usize = 0;
    while i < pairs.len()
        invariant
            0 <= i <= pairs@.len(),
            forall|j: int| 0 <= j < i ==> (#[trigger] pairs@[j]).0.in_range() && pairs@[j].1.in_range(),
        decreases pairs@.len() - i,
    {
        if !pairs[i].0.is_in_range() || !pairs[i].1.is_in_range() {
            return false;
        }
        i = i + 1;
    }
    true
}

/// Whether `e` is the depth update of `book` with `k` levels per side.
pub open spec fn is_depth_update(e: EngineEvent, book: OrderBook, k: usize) -> bool {
    &&& e matches EngineEvent::OrderBookUpdate { best_bid, best_ask, bid_depth, ask_depth }
    &&& e->best_bid == book.best(Side::Buy)
    &&& e->best_ask == book.best(Side::Sell)
    &&& e->bid_depth@ == depth_of(book.levels(Side::Buy), k as int)
    &&& e->ask_depth@ == depth_of(book.levels(Side::Sell), k as int)
}

/// The outcome of a request, as the engine decides it: refused with the
/// book unchanged, or matched as `order` with one trade event per trade in
/// matching order followed by one depth update of the new book.
pub open spec fn request_outcome(
    before: OrderBook,
    after: OrderBook,
    depth: usize,
    request: OrderRequest,
    order: Order,
    r: Result<Vec<EngineEvent>, EngineError>,
) -> bool {
    if !(request.price@ > 0 && request.quantity@ > 0) {
        r == Err::<Vec<EngineEvent>, EngineError>(EngineError::NotPositive) && after == before
    } else if request.price@ > MAX_UNITS || request.quantity@ > MAX_UNITS || sum_remaining(
        orders_at(before.levels(request.side), request.price@),
    ) + request.quantity@ > MAX_UNITS {
        r == Err::<Vec<EngineEvent>, EngineError>(EngineError::OutOfRange) && after == before
    } else {
        &&& order.side == request.side
        &&& order.price == request.price
        &&& order.quantity == request.quantity
        &&& order.is_fresh()
        &&& r matches Ok(events) && exists|trades: Seq<Trade>|
            {
                &&& match_outcome(before, after, order, trades)
                &&& events@.len() == trades.len() + 1
                &&& forall|i: int| 0 <= i < trades.len() ==> events@[i] == EngineEvent::Trade(#[trigger] trades[i])
                &&& is_depth_update(events@.last(), after, depth)
            }
        &&& r matches Ok(events) && forall|i: int| 0 <= i < events@.len() ==> event_in_range(#[trigger] events@[i])
    }
}

/// The trades of a match carry amounts in range: maker prices and fills no
/// larger than the makers' remaining quantities.
proof fn lemma_trades_in_range(before: OrderBook, incoming: Order, trades: Seq<Trade>)
    requires
        before.wf(),
        fills_of(trades) == sweep(
            flatten(before.levels(incoming.side.opposite())),
            incoming.side,
            incoming.price@,
            incoming.remaining_quantity@,
        ).0,
    ensures
        forall|i: int| 0 <= i < trades.len() ==> event_in_range(EngineEvent::Trade(#[trigger] trades[i])),
{
    let opp = incoming.side.opposite();
    let queue = flatten(before.levels(opp));
    lemma_flatten_orders(before.levels(opp), opp);
    lemma_sweep_priority(queue, incoming.side, incoming.price@, incoming.remaining_quantity@);
    assert forall|i: int| 0 <= i < trades.len() implies event_in_range(EngineEvent::Trade(#[trigger] trades[i])) by {
        assert(fills_of(trades)[i] == (trades[i].maker_order_id, trades[i].price@, trades[i].quantity@));
        assert(queue[i].wf());
    }
}

/// The depth update of a well-formed book carries amounts in range, and so
/// does its spread.
proof fn lemma_depth_update_in_range(book: OrderBook, k: usize, e: EngineEvent)
    requires
        book.wf(),
        is_depth_update(e, book, k),
    ensures
        event_in_range(e),
{
    lemma_side_depth_in_range(book.levels(Side::Buy), Side::Buy, k as int);
    lemma_side_depth_in_range(book.levels(Side::Sell), Side::Sell, k as int);
    if book.levels(Side::Buy).len() > 0 {
        assert(book.levels(Side::Buy)[0].wf());
    }
    if book.levels(Side::Sell).len() > 0 {
        assert(book.levels(Side::Sell)[0].wf());
    }
}

/// The depth of a well-formed side carries amounts in range.
proof fn lemma_side_depth_in_range(levels: Seq<PriceLevel>, side: Side, k: int)
    requires
        side_wf(levels, side),
        k >= 0,
    ensures
        pairs_in_range(depth_of(levels, k)),
{
    let d = depth_of(levels, k);
    assert(d.len() <= levels.len());
    assert forall|i: int| 0 <= i < d.len() implies (#[trigger] d[i]).0.in_range() && d[i].1.in_range() by {
        assert(d[i] == (levels[i].price, levels[i].total_quantity));
        assert(levels[i].wf());
        crate::order_book::lemma_sum_nonneg(levels[i].orders@);
    }
}

/// A snapshot of the book's headline figures.
#[derive(Clone, Debug)]
pub struct EngineStats {
    pub symbol: String,
    pub best_bid: Option<Decimal>,
    pub best_ask: Option<Decimal>,
    pub spread: Option<Decimal>,
    pub order_count: usize,
}

/// The matching engine: it owns the order book.
pub struct MatchingEngine {
    order_book: OrderBook,
    depth_levels: usize,
}

impl MatchingEngine {
    /// The book.
    pub closed spec fn book(&self) -> OrderBook {
        self.order_book
    }

    /// Price levels per side in a depth update.
    pub closed spec fn depth(&self) -> usize {
        self.depth_levels
    }

    /// An engine with an empty book for `symbol`.
    pub fn new(symbol: &str) -> (r: MatchingEngine)
        ensures
            r.book().wf(),
            r.book().levels(Side::Buy).len() == 0,
            r.book().levels(Side::Sell).len() == 0,
            r.book().symbol_text() == symbol@,
            r.depth() == DEFAULT_DEPTH_LEVELS,
    {
        MatchingEngine { order_book: OrderBook::new(symbol), depth_levels: DEFAULT_DEPTH_LEVELS }
    }

    /// The depth update of the current book.
    pub fn book_update(&self) -> (e: EngineEvent)
        ensures
            is_depth_update(e, self.book(), self.depth()),
    {
        EngineEvent::OrderBookUpdate {
            best_bid: self.order_book.best_bid(),
            best_ask: self.order_book.best_ask(),
            bid_depth: self.order_book.bid_depth(self.depth_levels),
            ask_depth: self.order_book.ask_depth(self.depth_levels),
        }
    }

    /// Handles one request as an order with identifier `id` created at
    /// `timestamp`: the events to publish, in order, or why it is refused.
    pub fn process_order_at(&mut self, request: OrderRequest, id: u128, timestamp: i64) -> (r: Result<
        Vec<EngineEvent>,
        EngineError,
    >)
        requires
            old(self).book().wf(),
        ensures
            final(self).book().wf(),
            final(self).depth() == old(self).depth(),
            request_outcome(
                old(self).book(),
                final(self).book(),
                old(self).depth(),
                request,
                Order::with_id_spec(id, request.side, request.price, request.quantity, timestamp),
                r,
            ),
    {
        if request.price.units <= 0 || request.quantity.units <= 0 {
            return Err(EngineError::NotPositive);
        }
        if request.price.units > MAX_UNITS || request.quantity.units > MAX_UNITS {
            return Err(EngineError::OutOfRange);
        }
        let resting = self.order_book.quantity_at(request.side, request.price);
        if resting.units > MAX_UNITS - request.quantity.units {
            return Err(EngineError::OutOfRange);
        }
        let order = Order::with_id(id, request.side, request.price, request.quantity, timestamp);
        let trades = self.order_book.match_order(order);
        let mut events: Vec<EngineEvent> = Vec::new();
        let mut i: usize = 0;
        while i < trades.len()
            invariant
                0 <= i <= trades@.len(),
                events@.len() == i,
                forall|j: int| 0 <= j < i ==> events@[j] == EngineEvent::Trade(#[trigger] trades@[j]),
            decreases trades@.len() - i,
        {
            events.push(EngineEvent::Trade(trades[i]));
            i = i + 1;
        }
        let update = self.book_update();
        proof {
            lemma_trades_in_range(old(self).book(), order, trades@);
            lemma_depth_update_in_range(self.book(), self.depth(), update);
        }
        events.push(update);
        proof {
            assert forall|j: int| 0 <= j < events@.len() implies event_in_range(#[trigger] events@[j]) by {
                if j < trades@.len() {
                    assert(events@[j] == EngineEvent::Trade(trades@[j]));
                }
            }
            assert(events@.last() == update);
            assert(forall|j: int| 0 <= j < trades@.len() ==> events@[j] == EngineEvent::Trade(#[trigger] trades@[j]));
        }
        Ok(events)
    }

    /// Handles one request as a new order with a fresh identifier, stamped
    /// with the current time.
    pub fn process_order(&mut self, request: OrderRequest) -> (r: Result<Vec<EngineEvent>, EngineError>)
        requires
            old(self).book().wf(),
        ensures
            final(self).book().wf(),
            final(self).depth() == old(self).depth(),
            exists|id: u128, timestamp: i64|
                request_outcome(
                    old(self).book(),
                    final(self).book(),
                    old(self).depth(),
                    request,
                    Order::with_id_spec(id, request.side, request.price, request.quantity, timestamp),
                    r,
                ),
    {
        let id = fresh_id();
        let timestamp = now_millis();
        self.process_order_at(request, id, timestamp)
    }

    /// The symbol, best prices, spread and number of resting orders.
    pub fn stats(&self) -> (r: EngineStats)
        requires
            self.book().wf(),
            flatten(self.book().levels(Side::Buy)).len() + flatten(self.book().levels(Side::Sell)).len()
                <= usize::MAX,
        ensures
            r.symbol@ == self.book().symbol_text(),
            r.best_bid == self.book().best(Side::Buy),
            r.best_ask == self.book().best(Side::Sell),
            r.spread == (match (self.book().best(Side::Buy), self.book().best(Side::Sell)) {
                (Some(bid), Some(ask)) => Some(Decimal { units: (ask@ - bid@) as i128 }),
                _ => None::<Decimal>,
            }),
            r.order_count == flatten(self.book().levels(Side::Buy)).len() + flatten(
                self.book().levels(Side::Sell),
            ).len(),
    {
        EngineStats {
            symbol: self.order_book.symbol_clone(),
            best_bid: self.order_book.best_bid(),
            best_ask: self.order_book.best_ask(),
            spread: self.order_book.spread(),
            order_count: self.order_book.order_count(),
        }
    }
}

/// Settings for an engine and its two queues.
pub struct EngineBuilder {
    /// The traded symbol.
    pub symbol: String,
    /// Capacity of the inbound request queue.
    pub order_buffer_size: usize,
    /// Capacity of each subscriber's event ring.
    pub event_buffer_size: usize,
}

impl EngineBuilder {
    /// Settings for `symbol` with the default capacities.
    pub fn new(symbol: &str) -> (r: EngineBuilder)
        ensures
            r.symbol@ == symbol@,
            r.order_buffer_size == DEFAULT_ORDER_BUFFER_SIZE,
            r.event_buffer_size == DEFAULT_EVENT_BUFFER_SIZE,
    {
        EngineBuilder {
            symbol: String::from_str(symbol),
            order_buffer_size: DEFAULT_ORDER_BUFFER_SIZE,
            event_buffer_size: DEFAULT_EVENT_BUFFER_SIZE,
        }
    }

    /// The same settings with another request queue capacity.
    pub fn order_buffer_size(self, size: usize) -> (r: EngineBuilder)
        ensures
            r.symbol == self.symbol,
            r.order_buffer_size == size,
            r.event_buffer_size == self.event_buffer_size,
    {
        EngineBuilder { order_buffer_size: size, ..self }
    }

    /// The same settings with another event ring capacity.
    pub fn event_buffer_size(self, size: usize) -> (r: EngineBuilder)
        ensures
            r.symbol == self.symbol,
            r.order_buffer_size == self.order_buffer_size,
            r.event_buffer_size == size,
    {
        EngineBuilder { event_buffer_size: size, ..self }
    }

    /// The engine these settings describe, with an empty book.
    pub fn engine(&self) -> (r: MatchingEngine)
        ensures
            r.book().wf(),
            r.book().levels(Side::Buy).len() == 0,
            r.book().levels(Side::Sell).len() == 0,
            r.book().symbol_text() == self.symbol@,
            r.depth() == DEFAULT_DEPTH_LEVELS,
    {
        MatchingEngine::new(self.symbol.as_str())
    }
}

} // verus!
