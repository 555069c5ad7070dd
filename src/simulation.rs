//! Synthetic load: random limit orders around a base price, and the
//! summary of the submit latencies that a run measured.

use vstd::prelude::*;
use crate::decimal::{Decimal, MAX_UNITS};
use crate::order::{OrderRequest, Side};

verus! {

/// Orders in a simulation run, unless the request says otherwise.
pub const DEFAULT_NUM_ORDERS: u64 = 1000;

/// The most orders one simulation run submits.
pub const MAX_SIMULATED_ORDERS: u64 = 10_000;

/// Relies on `rand::random::<bool>` for a random side. Nothing is promised
/// of the value.
#[verifier::external_body]
fn random_bool() -> (r: bool) {
    rand::random::<bool>()
}

/// Relies on `rand::Rng::gen_range` over an inclusive range (which panics on
/// an empty one): a value within the bounds.
#[verifier::external_body]
fn random_in(lo: i128, hi: i128) -> (r: i128)
    requires
        lo <= hi,
    ensures
        lo <= r <= hi,
{
    rand::Rng::gen_range(&mut rand::thread_rng(), lo..=hi)
}

/// A request to run a simulation.
#[derive(Clone, Copy, Debug)]
pub struct SimulationRequest {
    pub num_orders: u64,
}

/// The number of orders of a request that names none.
pub fn default_num_orders() -> (r: u64)
    ensures
        r == DEFAULT_NUM_ORDERS,
{
    DEFAULT_NUM_ORDERS
}

/// The number of orders a run submits for a request: at most the cap.
pub fn capped_num_orders(requested: u64) -> (r: u64)
    ensures
        r == if requested < MAX_SIMULATED_ORDERS { requested } else { MAX_SIMULATED_ORDERS },
{
    if requested < MAX_SIMULATED_ORDERS {
        requested
    } else {
        MAX_SIMULATED_ORDERS
    }
}

/// The shape of the orders a run submits.
#[derive(Clone, Copy, Debug)]
pub struct SimulationConfig {
    pub num_orders: u64,
    /// Prices are drawn within `price_variance` of this.
    pub base_price: Decimal,
    pub price_variance: Decimal,
    /// Quantities are drawn between these two, inclusive.
    pub min_quantity: Decimal,
    pub max_quantity: Decimal,
    /// Pause between two submissions.
    pub delay_between_orders_us: u64,
}

impl SimulationConfig {
    /// Amounts in range, a nonnegative variance, and quantity bounds in order.
    pub open spec fn wf(self) -> bool {
        &&& self.base_price.in_range()
        &&& 0 <= self.price_variance@ <= MAX_UNITS
        &&& 0 < self.min_quantity@ <= self.max_quantity@ <= MAX_UNITS
    }
}

impl Default for SimulationConfig {
    /// 1000 orders around 100.00 within 5.00, quantities from 0.01 to 1,
    /// 100 microseconds apart.
    fn default() -> (r: SimulationConfig)
        ensures
            r.num_orders == DEFAULT_NUM_ORDERS,
            r.base_price@ == 1_000_000_000_000,
            r.price_variance@ == 50_000_000_000,
            r.min_quantity@ == 100_000_000,
            r.max_quantity@ == 10_000_000_000,
            r.delay_between_orders_us == 100,
            r.wf(),
    {
        SimulationConfig {
            num_orders: DEFAULT_NUM_ORDERS,
            base_price: Decimal::from_units(1_000_000_000_000),
            price_variance: Decimal::from_units(50_000_000_000),
            min_quantity: Decimal::from_units(100_000_000),
            max_quantity: Decimal::from_units(10_000_000_000),
            delay_between_orders_us: 100,
        }
    }
}

/// The order that a run submits for given draws: a buy when `buy`, priced at
/// the base price moved by `price_offset` units, for `quantity` units.
pub fn order_from_draws(config: &SimulationConfig, buy: bool, price_offset: i128, quantity: i128) -> (r: OrderRequest)
    requires
        config.wf(),
        -config.price_variance@ <= price_offset <= config.price_variance@,
        config.min_quantity@ <= quantity <= config.max_quantity@,
    ensures
        r.side == (if buy { Side::Buy } else { Side::Sell }),
        r.price@ == config.base_price@ + price_offset,
        r.quantity@ == quantity,
{
    let side = if buy { Side::Buy } else { Side::Sell };
    OrderRequest {
        side,
        price: Decimal { units: config.base_price.units + price_offset },
        quantity: Decimal { units: quantity },
    }
}

/// A random order of the run: either side, a price within the variance of
/// the base price, a quantity within the bounds.
pub fn random_order(config: &SimulationConfig) -> (r: OrderRequest)
    requires
        config.wf(),
    ensures
        config.base_price@ - config.price_variance@ <= r.price@ <= config.base_price@ + config.price_variance@,
        config.min_quantity@ <= r.quantity@ <= config.max_quantity@,
{
    let buy = random_bool();
    let offset = random_in(-config.price_variance.units, config.price_variance.units);
    let quantity = random_in(config.min_quantity.units, config.max_quantity.units);
    order_from_draws(config, buy, offset, quantity)
}

/// The sum of a sequence of latencies.
pub open spec fn sum_latencies(s: Seq<u64>) -> int
    decreases s.len(),
{
    if s.len() == 0 {
        0
    } else {
        sum_latencies(s.drop_last()) + s.last()
    }
}

/// Total, least and greatest of the measured submit latencies.
#[derive(Clone, Copy, Debug)]
pub struct LatencySummary {
    pub total_us: u128,
    pub min_us: u64,
    pub max_us: u64,
}

/// The total, least and greatest latency; least and greatest are 0 when
/// nothing was measured.
pub fn summarize_latencies(latencies: &Vec<u64>) -> (r: LatencySummary)
    requires
        latencies@.len() <= u64::MAX,
    ensures
        r.total_us == sum_latencies(latencies@),
        latencies@.len() == 0 ==> r.min_us == 0 && r.max_us == 0,
        latencies@.len() > 0 ==> {
            &&& exists|i: int| 0 <= i < latencies@.len() && latencies@[i] == r.min_us
            &&& exists|i: int| 0 <= i < latencies@.len() && latencies@[i] == r.max_us
            &&& forall|i: int| 0 <= i < latencies@.len() ==> r.min_us <= #[trigger] latencies@[i] <= r.max_us
        },
{
    if latencies.len() == 0 {
        return LatencySummary { total_us: 0, min_us: 0, max_us: 0 };
    }
    let mut total: u128 = 0;
    let mut lo: u64 = latencies[0];
    let mut hi: u64 = latencies[0];
    let mut i: usize = 0;
    while i < latencies.len()
        invariant
            0 <= i <= latencies@.len() <= u64::MAX,
            latencies@.len() > 0,
            total == sum_latencies(latencies@.subrange(0, i as int)),
            total <= i * 0xFFFF_FFFF_FFFF_FFFF,
            exists|k: int| 0 <= k < latencies@.len() && latencies@[k] == lo,
            exists|k: int| 0 <= k < latencies@.len() && latencies@[k] == hi,
            forall|k: int| 0 <= k < i ==> lo <= #[trigger] latencies@[k] <= hi,
            lo <= latencies@[0] <= hi,
        decreases latencies@.len() - i,
    {
        let x = latencies[i];
        proof {
            assert(latencies@.subrange(0, i + 1).drop_last() =~= latencies@.subrange(0, i as int));
            assert((i + 1) * 0xFFFF_FFFF_FFFF_FFFFint == i * 0xFFFF_FFFF_FFFF_FFFFint + 0xFFFF_FFFF_FFFF_FFFFint)
                by (nonlinear_arith);
            assert(i * 0xFFFF_FFFF_FFFF_FFFFint <= 0xFFFF_FFFF_FFFF_FFFFint * 0xFFFF_FFFF_FFFF_FFFFint)
                by (nonlinear_arith)
                requires
                    i <= 0xFFFF_FFFF_FFFF_FFFFint,
            ;
        }
        total = total + x as u128;
        if x < lo {
            lo = x;
        }
        if x > hi {
            hi = x;
        }
        i = i + 1;
    }
    proof {
        assert(latencies@.subrange(0, latencies@.len() as int) =~= latencies@);
    }
    LatencySummary { total_us: total, min_us: lo, max_us: hi }
}

} // verus!
