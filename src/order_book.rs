//! The two-sided order book and price/time-priority matching.
//!
//! Each side is a vector of price levels, best price first: bids by falling
//! price, asks by rising price. A level holds its orders oldest first.

use vstd::prelude::*;
use std::collections::VecDeque;
use crate::decimal::{Decimal, MAX_UNITS};
use crate::order::{crosses, Order, Side, Trade};

verus! {

/// The sum of the remaining quantities of a sequence of orders.
pub open spec fn sum_remaining(orders: Seq<Order>) -> int
    decreases orders.len(),
{
    if orders.len() == 0 {
        0
    } else {
        orders[0].remaining_quantity@ + sum_remaining(orders.drop_first())
    }
}

/// Whether price `a` is strictly better than price `b` for a resting order of `side`.
pub open spec fn better(side: Side, a: int, b: int) -> bool {
    match side {
        Side::Buy => a > b,
        Side::Sell => a < b,
    }
}

/// All orders of a side in priority order: best level first, oldest first.
pub open spec fn flatten(levels: Seq<PriceLevel>) -> Seq<Order>
    decreases levels.len(),
{
    if levels.len() == 0 {
        Seq::empty()
    } else {
        levels[0].orders@ + flatten(levels.drop_first())
    }
}

/// The queue of orders resting at `price`; empty where no level has that price.
pub open spec fn orders_at(levels: Seq<PriceLevel>, price: int) -> Seq<Order> {
    if exists|i: int| 0 <= i < levels.len() && levels[i].price@ == price {
        levels[choose|i: int| 0 <= i < levels.len() && levels[i].price@ == price].orders@
    } else {
        Seq::empty()
    }
}

/// What resting `order` on a side turns `before` into: the order joins the
/// back of the queue at its price; in priority order it stands behind every
/// order at an equal or better price and ahead of every order at a worse one;
/// the best price becomes the order's price if that is better.
pub open spec fn rested(before: Seq<PriceLevel>, after: Seq<PriceLevel>, order: Order) -> bool {
    &&& forall|p: int|
        #[trigger] orders_at(after, p) == if p == order.price@ {
            orders_at(before, p).push(order)
        } else {
            orders_at(before, p)
        }
    &&& exists|k: int|
        {
            &&& 0 <= k <= flatten(before).len()
            &&& flatten(after) == flatten(before).insert(k, order)
            &&& forall|j: int| 0 <= j < k ==> !better(order.side, order.price@, (#[trigger] flatten(before)[j]).price@)
            &&& forall|j: int|
                k <= j < flatten(before).len() ==> better(order.side, order.price@, (#[trigger] flatten(before)[j]).price@)
        }
    &&& after.len() > 0
    &&& after[0].price == if before.len() == 0 || better(order.side, order.price@, before[0].price@) {
        order.price
    } else {
        before[0].price
    }
}

/// A well-formed side: nonempty well-formed levels of orders of `side`, with
/// strictly worsening prices.
pub open spec fn side_wf(levels: Seq<PriceLevel>, side: Side) -> bool {
    &&& forall|i: int|
        0 <= i < levels.len() ==> {
            &&& (#[trigger] levels[i]).wf()
            &&& levels[i].orders@.len() > 0
            &&& levels[i].holds_side(side)
        }
    &&& forall|i: int, j: int|
        0 <= i < j < levels.len() ==> better(side, #[trigger] levels[i].price@, #[trigger] levels[j].price@)
}

/// What a trade records of its maker: identifier, price and quantity.
pub open spec fn fill_of(t: Trade) -> (u128, int, int) {
    (t.maker_order_id, t.price@, t.quantity@)
}

/// The fills recorded by a sequence of trades.
pub open spec fn fills_of(trades: Seq<Trade>) -> Seq<(u128, int, int)> {
    trades.map_values(|t: Trade| fill_of(t))
}

/// The sum of the quantities of a sequence of fills.
pub open spec fn sum_fills(fills: Seq<(u128, int, int)>) -> int
    decreases fills.len(),
{
    if fills.len() == 0 {
        0
    } else {
        fills[0].2 + sum_fills(fills.drop_first())
    }
}

/// Matching of an incoming order of `side` with limit `limit` and `qty` left
/// against an opposing queue in priority order: the fills (maker identifier,
/// maker price, quantity) in order, the queue left, and the quantity left.
pub open spec fn sweep(queue: Seq<Order>, side: Side, limit: int, qty: int) -> (
    Seq<(u128, int, int)>,
    Seq<Order>,
    int,
)
    decreases queue.len(),
{
    if qty <= 0 || queue.len() == 0 || !crosses(side, limit, queue[0].price@) {
        (Seq::empty(), queue, qty)
    } else {
        let maker = queue[0];
        if qty < maker.remaining_quantity@ {
            (seq![(maker.id, maker.price@, qty)], seq![maker.filled_by(qty)] + queue.drop_first(), 0)
        } else {
            let rest = sweep(queue.drop_first(), side, limit, qty - maker.remaining_quantity@);
            (seq![(maker.id, maker.price@, maker.remaining_quantity@)] + rest.0, rest.1, rest.2)
        }
    }
}

/// Relies on `VecDeque::front_mut`: the first element, if any, borrowed for
/// update in place.
#[verifier::external_body]
fn deque_front_mut(queue: &mut VecDeque<Order>) -> (r: Option<&mut Order>)
    ensures
        (old(queue)@.len() == 0) == r.is_none(),
        r is None ==> final(queue)@ == old(queue)@,
        r matches Some(x) ==> *x == old(queue)@[0] && final(queue)@ == old(queue)@.update(0, *final(x)),
{
    queue.front_mut()
}

/// The orders resting at one price, oldest first.
#[derive(Debug)]
pub struct PriceLevel {
    /// The price of every order here.
    pub price: Decimal,
    /// The orders, oldest first.
    pub orders: VecDeque<Order>,
    /// The sum of the orders' remaining quantities.
    pub total_quantity: Decimal,
}

impl PriceLevel {
    /// A positive price, well-formed unfilled orders at that price, and a
    /// total in range equal to the sum of their remaining quantities.
    pub open spec fn wf(&self) -> bool {
        &&& 0 < self.price@ <= MAX_UNITS
        &&& self.total_quantity@ == sum_remaining(self.orders@)
        &&& self.total_quantity@ <= MAX_UNITS
        &&& forall|k: int|
            0 <= k < self.orders@.len() ==> {
                &&& (#[trigger] self.orders@[k]).wf()
                &&& self.orders@[k].price == self.price
                &&& self.orders@[k].remaining_quantity@ > 0
            }
    }

    /// Every order here is of `side`.
    pub open spec fn holds_side(&self, side: Side) -> bool {
        forall|k: int| 0 <= k < self.orders@.len() ==> (#[trigger] self.orders@[k]).side == side
    }

    /// An empty level at `price`.
    pub fn new(price: Decimal) -> (r: PriceLevel)
        ensures
            r.price == price,
            r.orders@ == Seq::<Order>::empty(),
            r.total_quantity@ == 0,
    {
        PriceLevel { price, orders: VecDeque::new(), total_quantity: Decimal::zero() }
    }

    /// Appends an order at the back of the queue.
    pub fn add_order(&mut self, order: Order)
        requires
            old(self).wf(),
            order.wf(),
            order.price == old(self).price,
            order.remaining_quantity@ > 0,
            old(self).total_quantity@ + order.remaining_quantity@ <= MAX_UNITS,
        ensures
            final(self).wf(),
            final(self).price == old(self).price,
            final(self).orders@ == old(self).orders@.push(order),
            final(self).total_quantity@ == old(self).total_quantity@ + order.remaining_quantity@,
    {
        proof {
            lemma_sum_push(self.orders@, order);
        }
        self.total_quantity = Decimal {
            units: self.total_quantity.units + order.remaining_quantity.units,
        };
        self.orders.push_back(order);
    }

    /// Removes and returns the oldest order.
    pub fn pop_front(&mut self) -> (r: Option<Order>)
        requires
            old(self).wf(),
        ensures
            final(self).wf(),
            final(self).price == old(self).price,
            old(self).orders@.len() == 0 ==> r.is_none() && final(self).orders@ == old(self).orders@,
            old(self).orders@.len() > 0 ==> {
                &&& r == Some(old(self).orders@[0])
                &&& final(self).orders@ == old(self).orders@.drop_first()
                &&& final(self).total_quantity@ == old(self).total_quantity@
                    - old(self).orders@[0].remaining_quantity@
            },
    {
        if self.orders.len() == 0 {
            return None;
        }
        let first = self.orders[0];
        proof {
            lemma_sum_nonneg(self.orders@.drop_first());
        }
        self.orders.pop_front();
        self.total_quantity = Decimal {
            units: self.total_quantity.units - first.remaining_quantity.units,
        };
        proof {
            assert forall|k: int| 0 <= k < self.orders@.len() implies {
                &&& (#[trigger] self.orders@[k]).wf()
                &&& self.orders@[k].price == self.price
                &&& self.orders@[k].remaining_quantity@ > 0
            } by {
                assert(self.orders@[k] == old(self).orders@[k + 1]);
            }
        }
        Some(first)
    }

    /// The oldest order, for update in place. The level's total is not
    /// adjusted: a caller that changes the order's remaining quantity adjusts
    /// `total_quantity` itself.
    pub fn front_mut(&mut self) -> (r: Option<&mut Order>)
        ensures
            (old(self).orders@.len() == 0) == r.is_none(),
            final(self).price == old(self).price,
            final(self).total_quantity == old(self).total_quantity,
            r is None ==> final(self).orders@ == old(self).orders@,
            r matches Some(x) ==> *x == old(self).orders@[0] && final(self).orders@ == old(self).orders@.update(
                0,
                *final(x),
            ),
    {
        deque_front_mut(&mut self.orders)
    }

    /// Whether no order rests here.
    pub fn is_empty(&self) -> (r: bool)
        ensures
            r == (self.orders@.len() == 0),
    {
        self.orders.len() == 0
    }

    /// The number of orders here.
    pub fn len(&self) -> (r: usize)
        ensures
            r == self.orders@.len(),
    {
        self.orders.len()
    }
}

/// Appending an order adds its remaining quantity to the sum.
pub proof fn lemma_sum_push(orders: Seq<Order>, order: Order)
    ensures
        sum_remaining(orders.push(order)) == sum_remaining(orders) + order.remaining_quantity@,
    decreases orders.len(),
{
    if orders.len() > 0 {
        lemma_sum_push(orders.drop_first(), order);
        assert(orders.push(order).drop_first() =~= orders.drop_first().push(order));
    } else {
        assert(orders.push(order).drop_first() =~= orders);
    }
}

/// Orders with nonnegative remaining quantities have a nonnegative sum.
pub proof fn lemma_sum_nonneg(orders: Seq<Order>)
    requires
        forall|k: int| 0 <= k < orders.len() ==> (#[trigger] orders[k]).remaining_quantity@ >= 0,
    ensures
        sum_remaining(orders) >= 0,
    decreases orders.len(),
{
    if orders.len() > 0 {
        assert forall|k: int| 0 <= k < orders.drop_first().len() implies
            (#[trigger] orders.drop_first()[k]).remaining_quantity@ >= 0 by {
            assert(orders.drop_first()[k] == orders[k + 1]);
        }
        lemma_sum_nonneg(orders.drop_first());
    }
}

/// Fills the oldest order of `level` against `incoming` by the smaller of
/// their remaining quantities, at the level's price.
fn fill_front(level: &mut PriceLevel, incoming: &mut Order) -> (t: Trade)
    requires
        old(level).wf(),
        old(level).orders@.len() > 0,
        old(level).holds_side(old(incoming).side.opposite()),
        old(incoming).wf(),
        old(incoming).remaining_quantity@ > 0,
    ensures
        ({
            let maker = old(level).orders@[0];
            let qty = old(incoming).remaining_quantity@;
            let filled = if qty < maker.remaining_quantity@ { qty } else { maker.remaining_quantity@ };
            &&& fill_of(t) == (maker.id, old(level).price@, filled)
            &&& *final(incoming) == old(incoming).filled_by(filled)
            &&& qty < maker.remaining_quantity@ ==> final(level).orders@ == seq![maker.filled_by(qty)]
                + old(level).orders@.drop_first()
            &&& qty >= maker.remaining_quantity@ ==> final(level).orders@ == old(level).orders@.drop_first()
        }),
        t.taker_order_id == old(incoming).id,
        t.taker_side == old(incoming).side,
        final(level).price == old(level).price,
        final(level).wf(),
        final(level).holds_side(old(incoming).side.opposite()),
{
    let ghost before = level.orders@;
    let mut maker = level.orders[0];
    let filled = if incoming.remaining_quantity.units < maker.remaining_quantity.units {
        incoming.remaining_quantity
    } else {
        maker.remaining_quantity
    };
    let trade = Trade::new(incoming.id, maker.id, level.price, filled, incoming.side);
    incoming.fill(filled);
    maker.fill(filled);
    proof {
        lemma_sum_nonneg(before.drop_first());
        assert(sum_remaining(before) == before[0].remaining_quantity@ + sum_remaining(before.drop_first()));
    }
    level.orders.pop_front();
    level.total_quantity = Decimal { units: level.total_quantity.units - filled.units };
    if !maker.is_filled() {
        level.orders.push_front(maker);
        proof {
            assert((seq![maker] + before.drop_first()).drop_first() =~= before.drop_first());
            assert forall|k: int| 0 <= k < level.orders@.len() implies {
                &&& (#[trigger] level.orders@[k]).wf()
                &&& level.orders@[k].price == level.price
                &&& level.orders@[k].remaining_quantity@ > 0
                &&& level.orders@[k].side == old(incoming).side.opposite()
            } by {
                if k > 0 {
                    assert(level.orders@[k] == before[k]);
                }
            }
        }
    } else {
        proof {
            assert forall|k: int| 0 <= k < level.orders@.len() implies {
                &&& (#[trigger] level.orders@[k]).wf()
                &&& level.orders@[k].price == level.price
                &&& level.orders@[k].remaining_quantity@ > 0
                &&& level.orders@[k].side == old(incoming).side.opposite()
            } by {
                assert(level.orders@[k] == before[k + 1]);
            }
        }
    }
    trade
}

/// A side stays well formed when its best level is replaced by another
/// nonempty well-formed level at the same price.
proof fn lemma_side_replace_front(levels: Seq<PriceLevel>, level: PriceLevel, side: Side)
    requires
        side_wf(levels, side),
        levels.len() > 0,
        level.wf(),
        level.orders@.len() > 0,
        level.holds_side(side),
        level.price == levels[0].price,
    ensures
        side_wf(seq![level] + levels.drop_first(), side),
        flatten(seq![level] + levels.drop_first()) == level.orders@ + flatten(levels.drop_first()),
{
    let n = seq![level] + levels.drop_first();
    assert(n.drop_first() =~= levels.drop_first());
    assert forall|i: int, j: int| 0 <= i < j < n.len() implies better(side, #[trigger] n[i].price@, #[trigger] n[j].price@) by {
        assert(n[j] == levels[j]);
        if i > 0 {
            assert(n[i] == levels[i]);
        } else {
            assert(better(side, levels[0].price@, levels[j].price@));
        }
    }
    assert forall|i: int| 0 <= i < n.len() implies {
        &&& #[trigger] n[i].wf()
        &&& n[i].orders@.len() > 0
        &&& n[i].holds_side(side)
    } by {
        if i > 0 {
            assert(n[i] == levels[i]);
        }
    }
}

/// A side stays well formed without its best level.
proof fn lemma_side_drop_front(levels: Seq<PriceLevel>, side: Side)
    requires
        side_wf(levels, side),
        levels.len() > 0,
    ensures
        side_wf(levels.drop_first(), side),
{
    let n = levels.drop_first();
    assert forall|i: int, j: int| 0 <= i < j < n.len() implies better(side, #[trigger] n[i].price@, #[trigger] n[j].price@) by {
        assert(n[i] == levels[i + 1]);
        assert(n[j] == levels[j + 1]);
    }
    assert forall|i: int| 0 <= i < n.len() implies {
        &&& #[trigger] n[i].wf()
        &&& n[i].orders@.len() > 0
        &&& n[i].holds_side(side)
    } by {
        assert(n[i] == levels[i + 1]);
    }
}

/// The appended trade adds its fill at the end.
proof fn lemma_fills_push(trades: Seq<Trade>, t: Trade)
    ensures
        fills_of(trades.push(t)) == fills_of(trades).push(fill_of(t)),
{
    assert(fills_of(trades.push(t)) =~= fills_of(trades).push(fill_of(t)));
}

/// Matches `incoming` against the opposing side `opp`, best level first and
/// oldest order first, until it is filled or the prices no longer cross.
fn sweep_levels(opp: &mut Vec<PriceLevel>, incoming: &mut Order, trades: &mut Vec<Trade>)
    requires
        side_wf(old(opp)@, old(incoming).side.opposite()),
        old(incoming).wf(),
        old(trades)@.len() == 0,
    ensures
        ({
            let sw = sweep(
                flatten(old(opp)@),
                old(incoming).side,
                old(incoming).price@,
                old(incoming).remaining_quantity@,
            );
            &&& fills_of(final(trades)@) == sw.0
            &&& flatten(final(opp)@) == sw.1
            &&& *final(incoming) == old(incoming).filled_by(old(incoming).remaining_quantity@ - sw.2)
        }),
        forall|i: int|
            0 <= i < final(trades)@.len() ==> (#[trigger] final(trades)@[i]).taker_order_id == old(incoming).id
                && final(trades)@[i].taker_side == old(incoming).side,
        side_wf(final(opp)@, old(incoming).side.opposite()),
        final(opp)@.len() > 0 ==> old(opp)@.len() > 0 && !better(
            old(incoming).side.opposite(),
            final(opp)@[0].price@,
            old(opp)@[0].price@,
        ),
        final(incoming).remaining_quantity@ > 0 ==> final(opp)@.len() == 0 || !crosses(
            old(incoming).side,
            old(incoming).price@,
            final(opp)@[0].price@,
        ),
        final(incoming).wf(),
{
    let ghost start = *incoming;
    let ghost side = start.side;
    let ghost limit = start.price@;
    let ghost queue0 = flatten(opp@);
    let ghost opp0 = opp@;
    loop
        invariant
            side_wf(opp@, side.opposite()),
            incoming.wf(),
            *incoming == start.filled_by(start.remaining_quantity@ - incoming.remaining_quantity@),
            start.wf(),
            side == start.side,
            limit == start.price@,
            sweep(queue0, side, limit, start.remaining_quantity@).0 == fills_of(trades@) + sweep(
                flatten(opp@),
                side,
                limit,
                incoming.remaining_quantity@,
            ).0,
            sweep(queue0, side, limit, start.remaining_quantity@).1 == sweep(
                flatten(opp@),
                side,
                limit,
                incoming.remaining_quantity@,
            ).1,
            sweep(queue0, side, limit, start.remaining_quantity@).2 == sweep(
                flatten(opp@),
                side,
                limit,
                incoming.remaining_quantity@,
            ).2,
            forall|i: int|
                0 <= i < trades@.len() ==> (#[trigger] trades@[i]).taker_order_id == start.id
                    && trades@[i].taker_side == side,
            opp@.len() > 0 ==> opp0.len() > 0 && !better(side.opposite(), opp@[0].price@, opp0[0].price@),
        ensures
            incoming.remaining_quantity@ == 0 || opp@.len() == 0 || !crosses(
                side,
                limit,
                opp@[0].price@,
            ),
        decreases flatten(opp@).len() * 2 + (if incoming.remaining_quantity@ > 0 { 1int } else { 0int }),
    {
        if incoming.is_filled() {
            proof {
                assert(fills_of(trades@) + Seq::empty() =~= fills_of(trades@));
            }
            break;
        }
        if opp.len() == 0 {
            proof {
                assert(fills_of(trades@) + Seq::empty() =~= fills_of(trades@));
            }
            break;
        }
        let level_price = opp[0].price;
        let crossing = match incoming.side {
            Side::Buy => incoming.price.units >= level_price.units,
            Side::Sell => incoming.price.units <= level_price.units,
        };
        let ghost levels = opp@;
        let ghost queue = flatten(levels);
        proof {
            assert(levels.len() > 0);
            assert(levels[0].wf());
            assert(levels[0].orders@.len() > 0);
            assert(queue == levels[0].orders@ + flatten(levels.drop_first()));
            assert(queue[0] == levels[0].orders@[0]);
        }
        if !crossing {
            proof {
                assert(fills_of(trades@) + Seq::empty() =~= fills_of(trades@));
            }
            break;
        }
        let mut level = opp.remove(0);
        proof {
            assert(opp@ =~= levels.drop_first());
            lemma_side_drop_front(levels, side.opposite());
        }
        let ghost qty = incoming.remaining_quantity@;
        let ghost maker = level.orders@[0];
        let trade = fill_front(&mut level, incoming);
        proof {
            lemma_fills_push(trades@, trade);
        }
        trades.push(trade);
        if level.orders.len() > 0 {
            opp.insert(0, level);
            proof {
                assert(opp@ =~= seq![level] + levels.drop_first());
                lemma_side_replace_front(levels, level, side.opposite());
                if qty < maker.remaining_quantity@ {
                    assert(flatten(opp@) =~= seq![maker.filled_by(qty)] + queue.drop_first());
                } else {
                    assert(flatten(opp@) =~= queue.drop_first());
                }
                if opp0.len() > 0 && levels.len() > 0 {
                    assert(!better(side.opposite(), opp@[0].price@, opp0[0].price@));
                }
            }
        } else {
            proof {
                assert(level.orders@ =~= Seq::<Order>::empty());
                assert(flatten(opp@) =~= queue.drop_first());
                if opp@.len() > 0 {
                    assert(opp@[0] == levels[1]);
                    assert(better(side.opposite(), levels[0].price@, levels[1].price@));
                }
            }
        }
        proof {
            if qty < maker.remaining_quantity@ {
                assert(incoming.remaining_quantity@ == 0);
            }
            assert(fill_of(trade) == (maker.id, maker.price@, if qty < maker.remaining_quantity@ { qty } else { maker.remaining_quantity@ }));
        }
    }
    proof {
        if opp@.len() > 0 {
            let levels = opp@;
            assert(levels[0].wf());
            assert(flatten(levels) == levels[0].orders@ + flatten(levels.drop_first()));
            assert(flatten(levels)[0] == levels[0].orders@[0]);
        }
        assert(fills_of(trades@) + Seq::empty() =~= fills_of(trades@));
    }
}

/// In a side with strictly ordered prices, the queue at a level's price is that level's queue.
pub proof fn lemma_orders_at_index(levels: Seq<PriceLevel>, side: Side, i: int)
    requires
        forall|a: int, b: int|
            0 <= a < b < levels.len() ==> better(side, #[trigger] levels[a].price@, #[trigger] levels[b].price@),
        0 <= i < levels.len(),
    ensures
        orders_at(levels, levels[i].price@) == levels[i].orders@,
{
    let p = levels[i].price@;
    let j = choose|j: int| 0 <= j < levels.len() && levels[j].price@ == p;
    if j < i {
        assert(better(side, levels[j].price@, levels[i].price@));
    } else if j > i {
        assert(better(side, levels[i].price@, levels[j].price@));
    }
}

/// No level at a price means an empty queue there.
pub proof fn lemma_orders_at_absent(levels: Seq<PriceLevel>, price: int)
    requires
        forall|i: int| 0 <= i < levels.len() ==> (#[trigger] levels[i]).price@ != price,
    ensures
        orders_at(levels, price) == Seq::<Order>::empty(),
{
}

/// Whether price `a` is strictly better than price `b` for a resting order of `side`.
fn price_better(side: Side, a: Decimal, b: Decimal) -> (r: bool)
    ensures
        r == better(side, a@, b@),
{
    match side {
        Side::Buy => a.units > b.units,
        Side::Sell => a.units < b.units,
    }
}

/// Replacing or inserting one well-formed nonempty level keeps every level
/// well formed, nonempty and of the side.
proof fn lemma_levels_after_insert(
    old_levels: Seq<PriceLevel>,
    n: Seq<PriceLevel>,
    new_level: PriceLevel,
    i: int,
    same: bool,
    side: Side,
)
    requires
        side_wf(old_levels, side),
        new_level.wf(),
        new_level.orders@.len() > 0,
        new_level.holds_side(side),
        0 <= i <= old_levels.len(),
        same ==> i < old_levels.len() && n == old_levels.update(i, new_level),
        !same ==> n == old_levels.insert(i, new_level),
    ensures
        forall|a: int|
            0 <= a < n.len() ==> #[trigger] n[a].wf() && n[a].orders@.len() > 0 && n[a].holds_side(side),
{
    assert forall|a: int| 0 <= a < n.len() implies #[trigger] n[a].wf() by {
        if a == i {
            assert(n[a] == new_level);
        } else if a < i || same {
            assert(n[a] == old_levels[a]);
        } else {
            assert(n[a] == old_levels[a - 1]);
        }
    }
    assert forall|a: int| 0 <= a < n.len() implies (#[trigger] n[a]).orders@.len() > 0 by {
        if a == i {
            assert(n[a] == new_level);
        } else if a < i || same {
            assert(n[a] == old_levels[a]);
        } else {
            assert(n[a] == old_levels[a - 1]);
        }
    }
    assert forall|a: int| 0 <= a < n.len() implies (#[trigger] n[a]).holds_side(side) by {
        if a == i {
            assert(n[a] == new_level);
        } else if a < i || same {
            assert(n[a] == old_levels[a]);
        } else {
            assert(n[a] == old_levels[a - 1]);
        }
    }
}

/// Flattening distributes over concatenation.
pub proof fn lemma_flatten_concat(a: Seq<PriceLevel>, b: Seq<PriceLevel>)
    ensures
        flatten(a + b) == flatten(a) + flatten(b),
    decreases a.len(),
{
    if a.len() == 0 {
        assert(a + b =~= b);
        assert(flatten(a) + flatten(b) =~= flatten(b));
    } else {
        lemma_flatten_concat(a.drop_first(), b);
        assert((a + b).drop_first() =~= a.drop_first() + b);
        assert(flatten(a + b) =~= flatten(a) + flatten(b));
    }
}

/// A property of every level's price holds of every order's price.
pub proof fn lemma_flatten_prices(levels: Seq<PriceLevel>, pred: spec_fn(int) -> bool)
    requires
        forall|a: int| 0 <= a < levels.len() ==> (#[trigger] levels[a]).wf() && pred(levels[a].price@),
    ensures
        forall|j: int| 0 <= j < flatten(levels).len() ==> pred((#[trigger] flatten(levels)[j]).price@),
    decreases levels.len(),
{
    if levels.len() > 0 {
        let rest = levels.drop_first();
        assert forall|a: int| 0 <= a < rest.len() implies (#[trigger] rest[a]).wf() && pred(rest[a].price@) by {
            assert(rest[a] == levels[a + 1]);
        }
        lemma_flatten_prices(rest, pred);
        let head = levels[0].orders@;
        assert(levels[0].wf() && pred(levels[0].price@));
        assert forall|j: int| 0 <= j < flatten(levels).len() implies pred((#[trigger] flatten(levels)[j]).price@) by {
            if j < head.len() {
                assert(flatten(levels)[j] == head[j]);
            } else {
                assert(flatten(levels)[j] == flatten(rest)[j - head.len()]);
            }
        }
    }
}

/// Where a rested order lands in priority order.
proof fn lemma_flatten_after_insert(
    old_levels: Seq<PriceLevel>,
    n: Seq<PriceLevel>,
    new_level: PriceLevel,
    i: int,
    same: bool,
    order: Order,
)
    requires
        side_wf(old_levels, order.side),
        0 <= i <= old_levels.len(),
        forall|j: int| 0 <= j < i ==> better(order.side, #[trigger] old_levels[j].price@, order.price@),
        same ==> i < old_levels.len() && old_levels[i].price@ == order.price@ && n == old_levels.update(i, new_level)
            && new_level.orders@ == old_levels[i].orders@.push(order),
        !same ==> n == old_levels.insert(i, new_level) && new_level.orders@ == seq![order] && (i
            < old_levels.len() ==> better(order.side, order.price@, old_levels[i].price@)),
    ensures
        exists|k: int|
            {
                &&& 0 <= k <= flatten(old_levels).len()
                &&& flatten(n) == flatten(old_levels).insert(k, order)
                &&& forall|j: int|
                    0 <= j < k ==> !better(order.side, order.price@, (#[trigger] flatten(old_levels)[j]).price@)
                &&& forall|j: int|
                    k <= j < flatten(old_levels).len() ==> better(
                        order.side,
                        order.price@,
                        (#[trigger] flatten(old_levels)[j]).price@,
                    )
            },
{
    let side = order.side;
    let p = order.price@;
    let front = old_levels.subrange(0, i);
    let back_start = if same { i + 1 } else { i };
    let back = old_levels.subrange(back_start, old_levels.len() as int);
    let mid: Seq<PriceLevel> = if same { seq![old_levels[i]] } else { Seq::empty() };
    assert(old_levels =~= front + mid + back);
    assert(n =~= front + seq![new_level] + back);
    lemma_flatten_concat(front + mid, back);
    lemma_flatten_concat(front, mid);
    lemma_flatten_concat(front + seq![new_level], back);
    lemma_flatten_concat(front, seq![new_level]);
    assert(seq![new_level].drop_first() =~= Seq::<PriceLevel>::empty());
    assert(flatten(Seq::<PriceLevel>::empty()) =~= Seq::<Order>::empty());
    assert(flatten(seq![new_level]) =~= new_level.orders@);
    let mid_orders: Seq<Order> = if same { old_levels[i].orders@ } else { Seq::empty() };
    if same {
        assert(mid.drop_first() =~= Seq::<PriceLevel>::empty());
        assert(flatten(mid) =~= mid_orders);
    } else {
        assert(flatten(mid) =~= mid_orders);
    }
    let fa = flatten(front);
    let fb = flatten(back);
    let k: int = fa.len() as int + mid_orders.len() as int;
    assert(flatten(old_levels) == fa + mid_orders + fb);
    assert(flatten(n) == fa + new_level.orders@ + fb);
    assert(flatten(n) =~= flatten(old_levels).insert(k, order));
    // Orders ahead: strictly better levels, or the level at the order's price.
    assert forall|a: int| 0 <= a < front.len() implies (#[trigger] front[a]).wf() && (|x: int|
        !better(side, p, x))(front[a].price@) by {
        assert(front[a] == old_levels[a]);
        assert(better(side, old_levels[a].price@, p));
    }
    lemma_flatten_prices(front, |x: int| !better(side, p, x));
    assert forall|a: int| 0 <= a < back.len() implies (#[trigger] back[a]).wf() && (|x: int| better(side, p, x))(
        back[a].price@,
    ) by {
        assert(back[a] == old_levels[a + back_start]);
        if !same && a > 0 {
            assert(better(side, old_levels[i].price@, old_levels[a + back_start].price@));
        } else if same {
            assert(better(side, old_levels[i].price@, old_levels[a + back_start].price@));
        }
    }
    lemma_flatten_prices(back, |x: int| better(side, p, x));
    assert forall|j: int| 0 <= j < k implies !better(side, p, (#[trigger] flatten(old_levels)[j]).price@) by {
        if j < fa.len() {
            assert(flatten(old_levels)[j] == fa[j]);
        } else {
            assert(flatten(old_levels)[j] == mid_orders[j - fa.len()]);
            assert(old_levels[i].wf());
        }
    }
    assert forall|j: int| k <= j < flatten(old_levels).len() implies better(
        side,
        p,
        (#[trigger] flatten(old_levels)[j]).price@,
    ) by {
        assert(flatten(old_levels)[j] == fb[j - k]);
    }
}

/// Rests `order` on its side `levels`, behind the orders already at its price.
fn insert_into_side(levels: &mut Vec<PriceLevel>, order: Order)
    requires
        side_wf(old(levels)@, order.side),
        order.wf(),
        order.remaining_quantity@ > 0,
        sum_remaining(orders_at(old(levels)@, order.price@)) + order.remaining_quantity@ <= MAX_UNITS,
    ensures
        side_wf(final(levels)@, order.side),
        rested(old(levels)@, final(levels)@, order),
{
    let side = order.side;
    let ghost old_levels = levels@;
    let mut i: usize = 0;
    while i < levels.len() && price_better(side, levels[i].price, order.price)
        invariant
            levels@ == old_levels,
            side == order.side,
            0 <= i <= levels@.len(),
            forall|j: int| 0 <= j < i ==> better(side, #[trigger] levels@[j].price@, order.price@),
        decreases levels@.len() - i,
    {
        i = i + 1;
    }
    let same = i < levels.len() && levels[i].price.units == order.price.units;
    let ghost new_level: PriceLevel;
    if same {
        let mut level = levels.remove(i);
        proof {
            assert(level.wf());
            lemma_orders_at_index(old_levels, side, i as int);
        }
        level.add_order(order);
        proof {
            new_level = level;
        }
        levels.insert(i, level);
        proof {
            assert(levels@ =~= old_levels.update(i as int, new_level));
        }
    } else {
        let mut level = PriceLevel::new(order.price);
        proof {
            assert(level.orders@ =~= Seq::<Order>::empty());
        }
        level.add_order(order);
        proof {
            new_level = level;
        }
        levels.insert(i, level);
        proof {
            assert(levels@ =~= old_levels.insert(i as int, new_level));
        }
    }
    let ghost n = levels@;
    proof {
        assert forall|k: int| 0 <= k < new_level.orders@.len() implies (#[trigger] new_level.orders@[k]).side
            == side by {
            if k < new_level.orders@.len() - 1 {
                assert(new_level.orders@[k] == old_levels[i as int].orders@[k]);
            }
        }
        lemma_levels_after_insert(old_levels, n, new_level, i as int, same, side);
        assert forall|a: int, b: int| 0 <= a < b < n.len() implies better(side, #[trigger] n[a].price@, #[trigger] n[b].price@) by {
            let oa = if a < i || same || a == i { a } else { a - 1 };
            let ob = if b < i || same || b == i { b } else { b - 1 };
            if a != i && b != i {
                assert(n[a] == old_levels[oa]);
                assert(n[b] == old_levels[ob]);
            } else if a == i {
                assert(n[b] == old_levels[ob]);
                if !same {
                    assert(ob >= i);
                    if ob > i {
                        assert(better(side, old_levels[i as int].price@, old_levels[ob].price@));
                    }
                }
            } else {
                assert(n[a] == old_levels[oa]);
            }
        }
        assert forall|p: int| #[trigger] orders_at(n, p) == if p == order.price@ {
            orders_at(old_levels, p).push(order)
        } else {
            orders_at(old_levels, p)
        } by {
            lemma_orders_at_index(n, side, i as int);
            if p == order.price@ {
                if !same {
                    assert forall|a: int| 0 <= a < old_levels.len() implies (#[trigger] old_levels[a]).price@ != p by {
                        if a >= i {
                            if a > i {
                                assert(better(side, old_levels[i as int].price@, old_levels[a].price@));
                            }
                        } else {
                            assert(better(side, old_levels[a].price@, order.price@));
                        }
                    }
                    lemma_orders_at_absent(old_levels, p);
                }
            } else {
                if exists|a: int| 0 <= a < n.len() && n[a].price@ == p {
                    let a = choose|a: int| 0 <= a < n.len() && n[a].price@ == p;
                    lemma_orders_at_index(n, side, a);
                    let oa = if a < i || same { a } else { a - 1 };
                    assert(n[a] == old_levels[oa]);
                    lemma_orders_at_index(old_levels, side, oa);
                } else {
                    assert forall|a: int| 0 <= a < old_levels.len() implies (#[trigger] old_levels[a]).price@ != p by {
                        if !(same && a == i) {
                            let na = if a < i || same { a } else { a + 1 };
                            assert(n[na] == old_levels[a]);
                        }
                    }
                    lemma_orders_at_absent(old_levels, p);
                    lemma_orders_at_absent(n, p);
                }
            }
        }
        lemma_flatten_after_insert(old_levels, n, new_level, i as int, same, order);
        if i > 0 {
            assert(n[0] == old_levels[0]);
            assert(better(side, old_levels[0].price@, order.price@));
        } else if old_levels.len() > 0 && !better(side, order.price@, old_levels[0].price@) {
            assert(same);
        }
    }
}

/// The (price, total quantity) pairs of the first `n` levels of a side.
pub open spec fn depth_of(levels: Seq<PriceLevel>, n: int) -> Seq<(Decimal, Decimal)> {
    let k = if n < levels.len() { n } else { levels.len() as int };
    Seq::new(k as nat, |i: int| (levels[i].price, levels[i].total_quantity))
}

/// The first `n` levels of a side as (price, total quantity) pairs.
fn side_depth(levels: &Vec<PriceLevel>, n: usize) -> (r: Vec<(Decimal, Decimal)>)
    ensures
        r@ == depth_of(levels@, n as int),
{
    let mut r: Vec<(Decimal, Decimal)> = Vec::new();
    let mut i: usize = 0;
    while i < n && i < levels.len()
        invariant
            0 <= i <= levels@.len(),
            i <= n,
            r@ == depth_of(levels@, i as int),
        decreases levels@.len() - i,
    {
        r.push((levels[i].price, levels[i].total_quantity));
        i = i + 1;
        proof {
            assert(r@ =~= depth_of(levels@, i as int));
        }
    }
    proof {
        assert(r@ =~= depth_of(levels@, n as int));
    }
    r
}

/// The number of orders resting on a side.
fn side_order_count(levels: &Vec<PriceLevel>) -> (r: usize)
    requires
        flatten(levels@).len() <= usize::MAX,
    ensures
        r == flatten(levels@).len(),
{
    let mut count: usize = 0;
    let mut i: usize = levels.len();
    proof {
        assert(levels@.subrange(0, i as int) =~= levels@);
    }
    while i > 0
        invariant
            0 <= i <= levels@.len(),
            flatten(levels@).len() <= usize::MAX,
            count as int + flatten(levels@.subrange(0, i as int)).len() == flatten(levels@).len(),
        decreases i,
    {
        i = i - 1;
        proof {
            lemma_flatten_split(levels@, i as int);
        }
        count = count + levels[i].orders.len();
    }
    proof {
        assert(levels@.subrange(0, 0) =~= Seq::<PriceLevel>::empty());
    }
    count
}

/// Splitting off the last level of a prefix splits off its orders.
proof fn lemma_flatten_split(levels: Seq<PriceLevel>, i: int)
    requires
        0 <= i < levels.len(),
    ensures
        flatten(levels.subrange(0, i + 1)).len() == flatten(levels.subrange(0, i)).len()
            + levels[i].orders@.len(),
        flatten(levels.subrange(0, i + 1)).len() <= flatten(levels).len(),
    decreases i,
{
    lemma_flatten_len(levels.subrange(0, i + 1));
    assert(levels.subrange(0, i + 1).drop_last() =~= levels.subrange(0, i));
    lemma_flatten_prefix_le(levels, i + 1);
}

/// The length of a flattened side, counted from its last level.
proof fn lemma_flatten_len(levels: Seq<PriceLevel>)
    ensures
        levels.len() > 0 ==> flatten(levels).len() == flatten(levels.drop_last()).len()
            + levels.last().orders@.len(),
    decreases levels.len(),
{
    if levels.len() > 1 {
        lemma_flatten_len(levels.drop_first());
        assert(levels.drop_first().drop_last() =~= levels.drop_last().drop_first());
    } else if levels.len() == 1 {
        assert(levels.drop_first() =~= Seq::<PriceLevel>::empty());
        assert(levels.drop_last() =~= Seq::<PriceLevel>::empty());
    }
}

/// A prefix of a side holds no more orders than the side.
proof fn lemma_flatten_prefix_le(levels: Seq<PriceLevel>, k: int)
    requires
        0 <= k <= levels.len(),
    ensures
        flatten(levels.subrange(0, k)).len() <= flatten(levels).len(),
    decreases levels.len() - k,
{
    if k < levels.len() {
        lemma_flatten_prefix_le(levels, k + 1);
        lemma_flatten_len(levels.subrange(0, k + 1));
        assert(levels.subrange(0, k + 1).drop_last() =~= levels.subrange(0, k));
    } else {
        assert(levels.subrange(0, k) =~= levels);
    }
}

/// What matching `incoming` against the book `before` yields: the book
/// `after` (well formed, same symbol) and the `trades`. The trades are the
/// fills of `sweep` over the opposing orders in priority order, each at the
/// maker's price, taken by `incoming`; the opposing side keeps what the
/// sweep leaves; what is left of `incoming`, if anything, rests on its own
/// side (see `rested`), which is otherwise unchanged.
pub open spec fn match_outcome(before: OrderBook, after: OrderBook, incoming: Order, trades: Seq<Trade>) -> bool {
    let sw = sweep(
        flatten(before.levels(incoming.side.opposite())),
        incoming.side,
        incoming.price@,
        incoming.remaining_quantity@,
    );
    let rest = incoming.filled_by(incoming.remaining_quantity@ - sw.2);
    &&& after.wf()
    &&& after.symbol_text() == before.symbol_text()
    &&& fills_of(trades) == sw.0
    &&& forall|i: int|
        0 <= i < trades.len() ==> (#[trigger] trades[i]).taker_order_id == incoming.id
            && trades[i].taker_side == incoming.side
    &&& flatten(after.levels(incoming.side.opposite())) == sw.1
    &&& sw.2 == 0 ==> after.levels(incoming.side) == before.levels(incoming.side)
    &&& sw.2 > 0 ==> rested(before.levels(incoming.side), after.levels(incoming.side), rest)
    &&& sw.2 > 0 ==> after.best(incoming.side) == Some(
        if before.best(incoming.side) matches Some(b) && !better(incoming.side, incoming.price@, b@) {
            before.best(incoming.side).unwrap()
        } else {
            incoming.price
        },
    )
}

/// The central limit order book of one symbol.
#[derive(Debug)]
pub struct OrderBook {
    /// Buy levels, highest price first.
    bids: Vec<PriceLevel>,
    /// Sell levels, lowest price first.
    asks: Vec<PriceLevel>,
    /// The traded symbol.
    pub symbol: String,
}

impl OrderBook {
    /// The levels of one side, best price first.
    pub closed spec fn levels(&self, side: Side) -> Seq<PriceLevel> {
        match side {
            Side::Buy => self.bids@,
            Side::Sell => self.asks@,
        }
    }

    /// The traded symbol.
    pub closed spec fn symbol_text(&self) -> Seq<char> {
        self.symbol@
    }

    /// Both sides well formed, and the book not crossed: the best bid is
    /// below the best ask.
    pub open spec fn wf(&self) -> bool {
        &&& side_wf(self.levels(Side::Buy), Side::Buy)
        &&& side_wf(self.levels(Side::Sell), Side::Sell)
        &&& self.levels(Side::Buy).len() > 0 && self.levels(Side::Sell).len() > 0
            ==> self.levels(Side::Buy)[0].price@ < self.levels(Side::Sell)[0].price@
    }

    /// The best price of a side, if any order rests there.
    pub open spec fn best(&self, side: Side) -> Option<Decimal> {
        if self.levels(side).len() > 0 {
            Some(self.levels(side)[0].price)
        } else {
            None
        }
    }

    /// An empty book for `symbol`.
    pub fn new(symbol: &str) -> (r: OrderBook)
        ensures
            r.wf(),
            r.levels(Side::Buy).len() == 0,
            r.levels(Side::Sell).len() == 0,
            r.symbol_text() == symbol@,
    {
        OrderBook { bids: Vec::new(), asks: Vec::new(), symbol: String::from_str(symbol) }
    }

    /// A copy of the symbol.
    pub fn symbol_clone(&self) -> (r: String)
        ensures
            r@ == self.symbol_text(),
    {
        self.symbol.clone()
    }

    /// The highest buy price.
    pub fn best_bid(&self) -> (r: Option<Decimal>)
        ensures
            r == self.best(Side::Buy),
    {
        if self.bids.len() > 0 {
            Some(self.bids[0].price)
        } else {
            None
        }
    }

    /// The lowest sell price.
    pub fn best_ask(&self) -> (r: Option<Decimal>)
        ensures
            r == self.best(Side::Sell),
    {
        if self.asks.len() > 0 {
            Some(self.asks[0].price)
        } else {
            None
        }
    }

    /// The best ask less the best bid, when both sides hold orders.
    pub fn spread(&self) -> (r: Option<Decimal>)
        requires
            self.wf(),
        ensures
            r == (match (self.best(Side::Buy), self.best(Side::Sell)) {
                (Some(bid), Some(ask)) => Some(Decimal { units: (ask@ - bid@) as i128 }),
                _ => None::<Decimal>,
            }),
    {
        match (self.best_bid(), self.best_ask()) {
            (Some(bid), Some(ask)) => {
                proof {
                    assert(self.levels(Side::Buy)[0].wf());
                    assert(self.levels(Side::Sell)[0].wf());
                }
                Some(Decimal { units: ask.units - bid.units })
            },
            _ => None,
        }
    }

    /// The first `levels` bid levels, highest price first, as (price, total quantity).
    pub fn bid_depth(&self, levels: usize) -> (r: Vec<(Decimal, Decimal)>)
        ensures
            r@ == depth_of(self.levels(Side::Buy), levels as int),
    {
        side_depth(&self.bids, levels)
    }

    /// The first `levels` ask levels, lowest price first, as (price, total quantity).
    pub fn ask_depth(&self, levels: usize) -> (r: Vec<(Decimal, Decimal)>)
        ensures
            r@ == depth_of(self.levels(Side::Sell), levels as int),
    {
        side_depth(&self.asks, levels)
    }

    /// Rests `order` on its side without matching, behind the orders already
    /// at its price. The order must not reach the opposing best price.
    pub fn add_order(&mut self, order: Order)
        requires
            old(self).wf(),
            order.wf(),
            order.remaining_quantity@ > 0,
            sum_remaining(orders_at(old(self).levels(order.side), order.price@))
                + order.remaining_quantity@ <= MAX_UNITS,
            old(self).levels(order.side.opposite()).len() > 0 ==> !crosses(
                order.side,
                order.price@,
                old(self).levels(order.side.opposite())[0].price@,
            ),
        ensures
            final(self).wf(),
            final(self).symbol_text() == old(self).symbol_text(),
            final(self).levels(order.side.opposite()) == old(self).levels(order.side.opposite()),
            rested(old(self).levels(order.side), final(self).levels(order.side), order),
            final(self).best(order.side) == Some(
                if old(self).best(order.side) matches Some(b) && !better(order.side, order.price@, b@) {
                    old(self).best(order.side).unwrap()
                } else {
                    order.price
                },
            ),
    {
        match order.side {
            Side::Buy => insert_into_side(&mut self.bids, order),
            Side::Sell => insert_into_side(&mut self.asks, order),
        }
    }

    /// Matches an incoming order against the opposing side under price/time
    /// priority, and rests what is left of it on its own side.
    ///
    /// The trades are the fills of `sweep` over the opposing orders in
    /// priority order, each at the maker's price; the opposing side keeps
    /// what the sweep leaves; the rest of the incoming order, if any, joins
    /// the back of the queue at its price.
    pub fn match_order(&mut self, incoming: Order) -> (trades: Vec<Trade>)
        requires
            old(self).wf(),
            incoming.wf(),
            sum_remaining(orders_at(old(self).levels(incoming.side), incoming.price@))
                + incoming.remaining_quantity@ <= MAX_UNITS,
        ensures
            match_outcome(*old(self), *final(self), incoming, trades@),
    {
        let mut taker = incoming;
        let mut trades: Vec<Trade> = Vec::new();
        match taker.side {
            Side::Buy => sweep_levels(&mut self.asks, &mut taker, &mut trades),
            Side::Sell => sweep_levels(&mut self.bids, &mut taker, &mut trades),
        }
        proof {
            let opp = incoming.side.opposite();
            if self.levels(Side::Buy).len() > 0 && self.levels(Side::Sell).len() > 0 {
                assert(old(self).levels(opp).len() > 0);
                let o0 = old(self).levels(opp)[0].price@;
                let n0 = self.levels(opp)[0].price@;
                assert(!better(opp, n0, o0));
            }
        }
        if !taker.is_filled() {
            proof {
                let opp = incoming.side.opposite();
                lemma_flatten_orders(old(self).levels(opp), opp);
                lemma_sweep_conserves(
                    flatten(old(self).levels(opp)),
                    incoming.side,
                    incoming.price@,
                    incoming.remaining_quantity@,
                );
            }
            self.add_order(taker);
        }
        trades
    }

    /// The total quantity resting at `price` on `side`; zero where no level has that price.
    pub fn quantity_at(&self, side: Side, price: Decimal) -> (r: Decimal)
        requires
            self.wf(),
        ensures
            r@ == sum_remaining(orders_at(self.levels(side), price@)),
    {
        let levels = match side {
            Side::Buy => &self.bids,
            Side::Sell => &self.asks,
        };
        let mut i: usize = 0;
        while i < levels.len()
            invariant
                levels@ == self.levels(side),
                side_wf(levels@, side),
                0 <= i <= levels@.len(),
                forall|j: int| 0 <= j < i ==> (#[trigger] levels@[j]).price@ != price@,
            decreases levels@.len() - i,
        {
            if levels[i].price.units == price.units {
                proof {
                    lemma_orders_at_index(levels@, side, i as int);
                    assert(levels@[i as int].wf());
                }
                return levels[i].total_quantity;
            }
            i = i + 1;
        }
        proof {
            lemma_orders_at_absent(levels@, price@);
        }
        Decimal::zero()
    }

    /// The number of orders resting in the book.
    pub fn order_count(&self) -> (r: usize)
        requires
            flatten(self.levels(Side::Buy)).len() + flatten(self.levels(Side::Sell)).len() <= usize::MAX,
        ensures
            r == flatten(self.levels(Side::Buy)).len() + flatten(self.levels(Side::Sell)).len(),
    {
        side_order_count(&self.bids) + side_order_count(&self.asks)
    }
}

/// Every order of a well-formed side is well formed, unfilled, of the side,
/// and at a price of one of its levels.
pub proof fn lemma_flatten_orders(levels: Seq<PriceLevel>, side: Side)
    requires
        side_wf(levels, side),
    ensures
        forall|k: int|
            0 <= k < flatten(levels).len() ==> {
                &&& (#[trigger] flatten(levels)[k]).wf()
                &&& flatten(levels)[k].remaining_quantity@ > 0
                &&& flatten(levels)[k].side == side
            },
    decreases levels.len(),
{
    if levels.len() > 0 {
        lemma_side_drop_front(levels, side);
        lemma_flatten_orders(levels.drop_first(), side);
        let head = levels[0].orders@;
        let tail = flatten(levels.drop_first());
        assert forall|k: int| 0 <= k < flatten(levels).len() implies {
            &&& (#[trigger] flatten(levels)[k]).wf()
            &&& flatten(levels)[k].remaining_quantity@ > 0
            &&& flatten(levels)[k].side == side
        } by {
            assert(levels[0].wf());
            if k < head.len() {
                assert(flatten(levels)[k] == head[k]);
            } else {
                assert(flatten(levels)[k] == tail[k - head.len()]);
            }
        }
    }
}

/// Conservation of quantity: what the fills take plus what is left is the
/// quantity the incoming order brought, and what is left is between zero and
/// that quantity.
pub proof fn lemma_sweep_conserves(queue: Seq<Order>, side: Side, limit: int, qty: int)
    requires
        qty >= 0,
        forall|k: int| 0 <= k < queue.len() ==> (#[trigger] queue[k]).remaining_quantity@ > 0,
    ensures
        sum_fills(sweep(queue, side, limit, qty).0) + sweep(queue, side, limit, qty).2 == qty,
        0 <= sweep(queue, side, limit, qty).2 <= qty,
    decreases queue.len(),
{
    if qty <= 0 || queue.len() == 0 || !crosses(side, limit, queue[0].price@) {
    } else {
        let maker = queue[0];
        if qty < maker.remaining_quantity@ {
            let f = seq![(maker.id, maker.price@, qty)];
            assert(f.drop_first() =~= Seq::<(u128, int, int)>::empty());
            assert(sum_fills(Seq::<(u128, int, int)>::empty()) == 0);
            assert(sum_fills(f) == qty);
        } else {
            let rest_queue = queue.drop_first();
            assert forall|k: int| 0 <= k < rest_queue.len() implies (#[trigger] rest_queue[k]).remaining_quantity@ > 0 by {
                assert(rest_queue[k] == queue[k + 1]);
            }
            lemma_sweep_conserves(rest_queue, side, limit, qty - maker.remaining_quantity@);
            let rest = sweep(rest_queue, side, limit, qty - maker.remaining_quantity@);
            let all = seq![(maker.id, maker.price@, maker.remaining_quantity@)] + rest.0;
            assert(all.drop_first() =~= rest.0);
            assert(sum_fills(all) == maker.remaining_quantity@ + sum_fills(rest.0));
        }
    }
}

/// Price and time priority: the i-th fill is against the i-th opposing order
/// in priority order, at that order's own price, for a positive quantity.
pub proof fn lemma_sweep_priority(queue: Seq<Order>, side: Side, limit: int, qty: int)
    requires
        forall|k: int| 0 <= k < queue.len() ==> (#[trigger] queue[k]).remaining_quantity@ > 0,
    ensures
        sweep(queue, side, limit, qty).0.len() <= queue.len(),
        forall|i: int|
            0 <= i < sweep(queue, side, limit, qty).0.len() ==> {
                &&& (#[trigger] sweep(queue, side, limit, qty).0[i]).0 == queue[i].id
                &&& sweep(queue, side, limit, qty).0[i].1 == queue[i].price@
                &&& sweep(queue, side, limit, qty).0[i].2 > 0
                &&& sweep(queue, side, limit, qty).0[i].2 <= queue[i].remaining_quantity@
                &&& crosses(side, limit, queue[i].price@)
            },
    decreases queue.len(),
{
    if qty <= 0 || queue.len() == 0 || !crosses(side, limit, queue[0].price@) {
    } else {
        let maker = queue[0];
        if qty >= maker.remaining_quantity@ {
            let rest_queue = queue.drop_first();
            assert forall|k: int| 0 <= k < rest_queue.len() implies (#[trigger] rest_queue[k]).remaining_quantity@ > 0 by {
                assert(rest_queue[k] == queue[k + 1]);
            }
            lemma_sweep_priority(rest_queue, side, limit, qty - maker.remaining_quantity@);
            let rest = sweep(rest_queue, side, limit, qty - maker.remaining_quantity@);
            let all = sweep(queue, side, limit, qty).0;
            assert forall|i: int| 0 < i < all.len() implies all[i] == rest.0[i - 1] && queue[i] == rest_queue[i - 1] by {
            }
        }
    }
}

} // verus!
