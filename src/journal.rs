//! Batching decisions of the trade journal: trades are buffered and written
//! out when the buffer reaches its batch size, on each timer tick, and once
//! more when the event stream closes.

use vstd::prelude::*;
use crate::order::Trade;

verus! {

/// Trades per batch, unless configured otherwise.
pub const DEFAULT_BATCH_SIZE: usize = 100;

/// Milliseconds between timed flushes, unless configured otherwise.
pub const DEFAULT_FLUSH_INTERVAL_MS: u64 = 100;

/// What the journal observes.
#[derive(Clone, Copy, Debug)]
pub enum JournalInput {
    /// A trade event.
    Trade(Trade),
    /// Any other engine event.
    Other,
    /// The flush timer fired.
    Tick,
    /// The subscription skipped this many events.
    Lagged(u64),
    /// The event stream ended.
    Closed,
}

/// What the journal does next.
#[derive(Clone, Debug)]
pub enum JournalAction {
    /// Nothing to write yet.
    Wait,
    /// Write these trades, then keep listening.
    Flush(Vec<Trade>),
    /// Write these trades, then stop.
    FlushAndStop(Vec<Trade>),
}

/// The trades waiting to be written.
pub struct TradeBuffer {
    trades: Vec<Trade>,
    batch_size: usize,
}

impl TradeBuffer {
    /// The trades waiting, oldest first.
    pub closed spec fn pending(&self) -> Seq<Trade> {
        self.trades@
    }

    /// Trades per batch.
    pub closed spec fn batch(&self) -> usize {
        self.batch_size
    }

    /// An empty buffer that writes batches of `batch_size`.
    pub fn new(batch_size: usize) -> (r: TradeBuffer)
        ensures
            r.pending() == Seq::<Trade>::empty(),
            r.batch() == batch_size,
    {
        TradeBuffer { trades: Vec::new(), batch_size }
    }

    /// Takes out everything waiting.
    fn drain(&mut self) -> (r: Vec<Trade>)
        ensures
            r@ == old(self).pending(),
            final(self).pending() == Seq::<Trade>::empty(),
            final(self).batch() == old(self).batch(),
    {
        let mut out: Vec<Trade> = Vec::new();
        std::mem::swap(&mut out, &mut self.trades);
        out
    }

    /// Decides what to do on one input: buffer a trade and flush at a full
    /// batch; flush what waits on a tick; flush and stop on close; ignore
    /// other events and lag.
    pub fn step(&mut self, input: JournalInput) -> (a: JournalAction)
        ensures
            final(self).batch() == old(self).batch(),
            match input {
                JournalInput::Trade(t) => if old(self).pending().len() + 1 >= old(self).batch() {
                    &&& a matches JournalAction::Flush(v) && v@ == old(self).pending().push(t)
                    &&& final(self).pending() == Seq::<Trade>::empty()
                } else {
                    &&& a is Wait
                    &&& final(self).pending() == old(self).pending().push(t)
                },
                JournalInput::Tick => if old(self).pending().len() > 0 {
                    &&& a matches JournalAction::Flush(v) && v@ == old(self).pending()
                    &&& final(self).pending() == Seq::<Trade>::empty()
                } else {
                    &&& a is Wait
                    &&& final(self).pending() == old(self).pending()
                },
                JournalInput::Closed => {
                    &&& a matches JournalAction::FlushAndStop(v) && v@ == old(self).pending()
                    &&& final(self).pending() == Seq::<Trade>::empty()
                },
                _ => a is Wait && final(self).pending() == old(self).pending(),
            },
    {
        match input {
            JournalInput::Trade(t) => {
                self.trades.push(t);
                if self.trades.len() >= self.batch_size {
                    JournalAction::Flush(self.drain())
                } else {
                    JournalAction::Wait
                }
            },
            JournalInput::Tick => {
                if self.trades.len() > 0 {
                    JournalAction::Flush(self.drain())
                } else {
                    JournalAction::Wait
                }
            },
            JournalInput::Closed => JournalAction::FlushAndStop(self.drain()),
            JournalInput::Other => JournalAction::Wait,
            JournalInput::Lagged(_) => JournalAction::Wait,
        }
    }
}

} // verus!
