//! Archived book states.
use vstd::prelude::*;

use crate::book_side::PriceLevelEntry;
use crate::engine::OrderbookState;

verus! {

/// A frozen copy of one instrument's book at a point in time.
#[derive(Clone, Debug)]
pub struct Snapshot {
    /// The instrument, such as `"BTC"`.
    pub ticker: String,
    /// Unix time in seconds.
    pub timestamp: i64,
    /// The last inferred trade price, if any trade was seen.
    pub last_price: Option<u64>,
    /// Bids, highest price first.
    pub bids: Vec<PriceLevelEntry>,
    /// Asks, lowest price first.
    pub asks: Vec<PriceLevelEntry>,
}

/// The value of a snapshot.
pub struct SnapshotView {
    pub ticker: Seq<char>,
    pub timestamp: i64,
    pub last_price: Option<u64>,
    pub bids: Seq<PriceLevelEntry>,
    pub asks: Seq<PriceLevelEntry>,
}

impl View for Snapshot {
    type V = SnapshotView;

    open spec fn view(&self) -> SnapshotView {
        SnapshotView {
            ticker: self.ticker@,
            timestamp: self.timestamp,
            last_price: self.last_price,
            bids: self.bids@,
            asks: self.asks@,
        }
    }
}

/// A copy of a list of levels.
pub fn copy_levels(v: &Vec<PriceLevelEntry>) -> (r: Vec<PriceLevelEntry>)
    ensures
        r@ == v@,
{
    let mut out: Vec<PriceLevelEntry> = Vec::new();
    let mut i: usize = 0;
    while i < v.len()
        invariant
            i <= v@.len(),
            out@ == v@.take(i as int),
        decreases v@.len() - i,
    {
        out.push(v[i]);
        i = i + 1;
        assert(out@ =~= v@.take(i as int));
    }
    assert(out@ =~= v@);
    out
}

impl Snapshot {
    pub fn new(
        ticker: String,
        timestamp: i64,
        last_price: Option<u64>,
        bids: Vec<PriceLevelEntry>,
        asks: Vec<PriceLevelEntry>,
    ) -> (r: Snapshot)
        ensures
            r@ == (SnapshotView {
                ticker: ticker@,
                timestamp,
                last_price,
                bids: bids@,
                asks: asks@,
            }),
    {
        Snapshot { ticker, timestamp, last_price, bids, asks }
    }

    /// Tags a book state with its instrument.
    pub fn from_orderbook_state(ticker: String, state: OrderbookState) -> (r: Snapshot)
        ensures
            r@ == (SnapshotView {
                ticker: ticker@,
                timestamp: state.timestamp,
                last_price: state.last_price,
                bids: state.bids@,
                asks: state.asks@,
            }),
    {
        Snapshot {
            ticker,
            timestamp: state.timestamp,
            last_price: state.last_price,
            bids: state.bids,
            asks: state.asks,
        }
    }

    /// A copy with the same value.
    pub fn duplicate(&self) -> (r: Snapshot)
        ensures
            r@ == self@,
    {
        Snapshot {
            ticker: self.ticker.clone(),
            timestamp: self.timestamp,
            last_price: self.last_price,
            bids: copy_levels(&self.bids),
            asks: copy_levels(&self.asks),
        }
    }
}

} // verus!
