//! Properties of the order book and of matching, proved over the
//! contracts that the book's operations are held to.

use vstd::prelude::*;
use crate::order::{crosses, Order, Side};
use crate::order_book::{
    better, flatten, lemma_flatten_orders, lemma_sum_nonneg, lemma_sweep_conserves, lemma_sweep_priority, rested,
    side_wf, sum_fills, sum_remaining, sweep, OrderBook, PriceLevel,
};

verus! {

/// A nonempty queue of unfilled orders has a positive total.
proof fn lemma_sum_positive(orders: Seq<Order>)
    requires
        orders.len() > 0,
        forall|k: int| 0 <= k < orders.len() ==> (#[trigger] orders[k]).remaining_quantity@ > 0,
    ensures
        sum_remaining(orders) > 0,
{
    assert forall|k: int| 0 <= k < orders.drop_first().len() implies
        (#[trigger] orders.drop_first()[k]).remaining_quantity@ >= 0 by {
        assert(orders.drop_first()[k] == orders[k + 1]);
    }
    lemma_sum_nonneg(orders.drop_first());
}

/// A well-formed side with no orders has no levels.
pub proof fn lemma_flatten_empty(levels: Seq<PriceLevel>, side: Side)
    requires
        side_wf(levels, side),
        flatten(levels).len() == 0,
    ensures
        levels.len() == 0,
{
    if levels.len() > 0 {
        assert(levels[0].orders@.len() > 0);
    }
}

/// The book invariants. In a well-formed book (which every operation of
/// `OrderBook` keeps): the best bid is below the best ask; every level's
/// total equals the sum of its orders' remaining quantities; every level
/// holds at least one order and a positive total.
pub proof fn law_book_invariants(book: &OrderBook)
    requires
        book.wf(),
    ensures
        book.best(Side::Buy) is Some && book.best(Side::Sell) is Some ==> book.best(Side::Buy).unwrap()@
            < book.best(Side::Sell).unwrap()@,
        forall|side: Side, i: int|
            0 <= i < book.levels(side).len() ==> {
                &&& (#[trigger] book.levels(side)[i]).total_quantity@ == sum_remaining(
                    book.levels(side)[i].orders@,
                )
                &&& book.levels(side)[i].orders@.len() >= 1
                &&& book.levels(side)[i].total_quantity@ > 0
            },
{
    assert forall|side: Side, i: int| 0 <= i < book.levels(side).len() implies {
        &&& (#[trigger] book.levels(side)[i]).total_quantity@ == sum_remaining(book.levels(side)[i].orders@)
        &&& book.levels(side)[i].orders@.len() >= 1
        &&& book.levels(side)[i].total_quantity@ > 0
    } by {
        let level = book.levels(side)[i];
        assert(level.wf());
        lemma_sum_positive(level.orders@);
    }
    if book.levels(Side::Buy).len() > 0 && book.levels(Side::Sell).len() > 0 {
        assert(book.best(Side::Buy) == Some(book.levels(Side::Buy)[0].price));
        assert(book.best(Side::Sell) == Some(book.levels(Side::Sell)[0].price));
    }
}

/// An empty book has no best bid and no best ask (so no spread), and an
/// incoming order meets nothing: no trade, and all of it rests.
pub proof fn law_empty_book(book: &OrderBook, incoming: Order)
    requires
        book.wf(),
        book.levels(Side::Buy).len() == 0,
        book.levels(Side::Sell).len() == 0,
    ensures
        book.best(Side::Buy) is None,
        book.best(Side::Sell) is None,
        sweep(
            flatten(book.levels(incoming.side.opposite())),
            incoming.side,
            incoming.price@,
            incoming.remaining_quantity@,
        ) == (Seq::<(u128, int, int)>::empty(), Seq::<Order>::empty(), incoming.remaining_quantity@),
{
    assert(flatten(book.levels(incoming.side.opposite())) =~= Seq::<Order>::empty());
}

/// Conservation of quantity: matching an incoming order against a
/// well-formed book, the quantities of the trades plus the quantity that
/// rests add up to the incoming quantity.
pub proof fn law_conservation(book: &OrderBook, incoming: Order)
    requires
        book.wf(),
        incoming.wf(),
    ensures
        ({
            let sw = sweep(
                flatten(book.levels(incoming.side.opposite())),
                incoming.side,
                incoming.price@,
                incoming.remaining_quantity@,
            );
            sum_fills(sw.0) + sw.2 == incoming.remaining_quantity@
        }),
{
    let opp = incoming.side.opposite();
    lemma_flatten_orders(book.levels(opp), opp);
    lemma_sweep_conserves(flatten(book.levels(opp)), incoming.side, incoming.price@, incoming.remaining_quantity@);
}

/// Price improvement and time priority: the i-th trade of a match is
/// against the i-th resting opposing order in price/time order, at that
/// maker's own price (which the incoming limit reaches), for a positive
/// quantity; so the first trade is against the oldest order of the best
/// opposing level.
pub proof fn law_price_time_priority(book: &OrderBook, incoming: Order)
    requires
        book.wf(),
        incoming.wf(),
    ensures
        ({
            let queue = flatten(book.levels(incoming.side.opposite()));
            let sw = sweep(queue, incoming.side, incoming.price@, incoming.remaining_quantity@);
            &&& forall|i: int|
                0 <= i < sw.0.len() ==> {
                    &&& (#[trigger] sw.0[i]).0 == queue[i].id
                    &&& sw.0[i].1 == queue[i].price@
                    &&& sw.0[i].2 > 0
                    &&& crosses(incoming.side, incoming.price@, queue[i].price@)
                }
            &&& sw.0.len() > 0 ==> sw.0[0].0 == book.levels(incoming.side.opposite())[0].orders@[0].id
        }),
{
    let opp = incoming.side.opposite();
    let levels = book.levels(opp);
    lemma_flatten_orders(levels, opp);
    lemma_sweep_priority(flatten(levels), incoming.side, incoming.price@, incoming.remaining_quantity@);
    if levels.len() > 0 {
        assert(levels[0].wf());
        assert(flatten(levels) == levels[0].orders@ + flatten(levels.drop_first()));
        assert(flatten(levels)[0] == levels[0].orders@[0]);
    } else {
        assert(flatten(levels).len() == 0);
    }
}

/// Resting an order and then matching it with an exact counter (the other
/// side, the same price, the same quantity) gives one trade for the whole
/// quantity at that price, takes the order out of the queue, and leaves
/// nothing to rest.
pub proof fn law_exact_counter(maker: Order, counter: Order, rest: Seq<Order>)
    requires
        maker.wf(),
        maker.remaining_quantity@ > 0,
        counter.side == maker.side.opposite(),
        counter.price == maker.price,
        counter.remaining_quantity@ == maker.remaining_quantity@,
    ensures
        sweep(seq![maker] + rest, counter.side, counter.price@, counter.remaining_quantity@) == (
            seq![(maker.id, maker.price@, maker.remaining_quantity@)],
            rest,
            0int,
        ),
{
    let queue = seq![maker] + rest;
    assert(queue[0] == maker);
    assert(queue.drop_first() =~= rest);
    assert(crosses(counter.side, counter.price@, maker.price@));
    let tail = sweep(rest, counter.side, counter.price@, 0);
    assert(tail == (Seq::<(u128, int, int)>::empty(), rest, 0int));
    assert(seq![(maker.id, maker.price@, maker.remaining_quantity@)] + tail.0 =~= seq![
        (maker.id, maker.price@, maker.remaining_quantity@),
    ]);
}

/// Resting an order where no order of its side stands at or ahead of its
/// price, then matching an exact counter against that side: one trade for
/// the whole quantity against the rested order, the side back as it was
/// before the order rested (the order's level gone again), and nothing of
/// the counter left to rest.
pub proof fn law_rest_then_exact_counter(
    before: Seq<PriceLevel>,
    after: Seq<PriceLevel>,
    maker: Order,
    counter: Order,
)
    requires
        rested(before, after, maker),
        maker.wf(),
        maker.remaining_quantity@ > 0,
        forall|j: int|
            0 <= j < flatten(before).len() ==> better(maker.side, maker.price@, (#[trigger] flatten(before)[j]).price@),
        counter.side == maker.side.opposite(),
        counter.price == maker.price,
        counter.remaining_quantity@ == maker.remaining_quantity@,
    ensures
        sweep(flatten(after), counter.side, counter.price@, counter.remaining_quantity@) == (
            seq![(maker.id, maker.price@, maker.remaining_quantity@)],
            flatten(before),
            0int,
        ),
{
    let k = choose|k: int|
        {
            &&& 0 <= k <= flatten(before).len()
            &&& flatten(after) == flatten(before).insert(k, maker)
            &&& forall|j: int| 0 <= j < k ==> !better(maker.side, maker.price@, (#[trigger] flatten(before)[j]).price@)
            &&& forall|j: int|
                k <= j < flatten(before).len() ==> better(maker.side, maker.price@, (#[trigger] flatten(before)[j]).price@)
        };
    if k > 0 {
        assert(!better(maker.side, maker.price@, flatten(before)[0].price@));
    }
    assert(flatten(after) =~= seq![maker] + flatten(before));
    law_exact_counter(maker, counter, flatten(before));
}

/// A side whose only order is matched by an identical counter: one trade
/// for the whole quantity, nothing of the counter left to rest, and the side
/// left with no level; with the counter's side empty too, the book is empty.
pub proof fn law_single_order_book(book: &OrderBook, maker: Order, counter: Order)
    requires
        book.wf(),
        flatten(book.levels(maker.side)) == seq![maker],
        counter.wf(),
        counter.side == maker.side.opposite(),
        counter.price == maker.price,
        counter.remaining_quantity@ == maker.remaining_quantity@,
    ensures
        ({
            let sw = sweep(
                flatten(book.levels(maker.side)),
                counter.side,
                counter.price@,
                counter.remaining_quantity@,
            );
            &&& sw.0 == seq![(maker.id, maker.price@, maker.remaining_quantity@)]
            &&& sw.2 == 0
            &&& forall|levels: Seq<PriceLevel>|
                side_wf(levels, maker.side) && flatten(levels) == sw.1 ==> levels.len() == 0
        }),
{
    lemma_flatten_orders(book.levels(maker.side), maker.side);
    assert(flatten(book.levels(maker.side))[0] == maker);
    assert(seq![maker] + Seq::<Order>::empty() =~= seq![maker]);
    law_exact_counter(maker, counter, Seq::empty());
    assert forall|levels: Seq<PriceLevel>| side_wf(levels, maker.side) && flatten(levels)
        == Seq::<Order>::empty() implies levels.len() == 0 by {
        lemma_flatten_empty(levels, maker.side);
    }
}

/// An incoming order that reaches every opposing order and brings more than
/// their total consumes them all and keeps the excess to rest at its limit.
pub proof fn law_sweep_exhausts(queue: Seq<Order>, side: Side, limit: int, qty: int)
    requires
        forall|k: int|
            0 <= k < queue.len() ==> (#[trigger] queue[k]).remaining_quantity@ > 0 && crosses(
                side,
                limit,
                queue[k].price@,
            ),
        qty > sum_remaining(queue),
    ensures
        sweep(queue, side, limit, qty).0.len() == queue.len(),
        sweep(queue, side, limit, qty).1 == Seq::<Order>::empty(),
        sweep(queue, side, limit, qty).2 == qty - sum_remaining(queue),
    decreases queue.len(),
{
    if queue.len() > 0 {
        let rest = queue.drop_first();
        assert forall|k: int| 0 <= k < rest.len() implies (#[trigger] rest[k]).remaining_quantity@ > 0
            && crosses(side, limit, rest[k].price@) by {
            assert(rest[k] == queue[k + 1]);
        }
        lemma_sum_nonneg(rest);
        law_sweep_exhausts(rest, side, limit, qty - queue[0].remaining_quantity@);
    }
}

/// An incoming order that does not reach the best opposing price (or meets
/// an empty opposing side) trades nothing, leaves the opposing side as it
/// was and rests whole.
pub proof fn law_no_cross(book: &OrderBook, incoming: Order)
    requires
        book.wf(),
        incoming.wf(),
        book.best(incoming.side.opposite()) matches Some(p) ==> !crosses(incoming.side, incoming.price@, p@),
    ensures
        ({
            let queue = flatten(book.levels(incoming.side.opposite()));
            sweep(queue, incoming.side, incoming.price@, incoming.remaining_quantity@) == (
                Seq::<(u128, int, int)>::empty(),
                queue,
                incoming.remaining_quantity@,
            )
        }),
{
    let levels = book.levels(incoming.side.opposite());
    if levels.len() > 0 {
        assert(levels[0].wf());
        assert(flatten(levels) == levels[0].orders@ + flatten(levels.drop_first()));
        assert(flatten(levels)[0] == levels[0].orders@[0]);
    }
}

} // verus!
