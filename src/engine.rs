//! The order-book engine: rebuilds a full book from a snapshot and the deltas that
//! follow it, and infers trades from changes at the top of the book.
use vstd::prelude::*;

use crate::book_side::{
    highest_price, lists_levels, lowest_price, strictly_ascending, strictly_descending, BookSide,
    PriceLevelEntry,
};
use crate::level::{
    all_parse, parse_price_levels, parsed_levels, BookDelta, BookError, BookSnapshot, PriceLevel,
};

verus! {

/// A book as a value: the volume at each bid and ask price, and the last inferred trade.
pub struct BookView {
    pub bids: Map<u64, u64>,
    pub asks: Map<u64, u64>,
    pub last_price: Option<u64>,
}

/// The side that a snapshot's levels make: each level with a positive volume is stored,
/// a later one at the same price replacing an earlier one; levels of volume zero are dropped.
pub open spec fn snapshot_side(levels: Seq<PriceLevel>) -> Map<u64, u64>
    decreases levels.len(),
{
    if levels.len() == 0 {
        Map::empty()
    } else {
        let m = snapshot_side(levels.drop_last());
        let l = levels.last();
        if l.volume > 0 {
            m.insert(l.price, l.volume)
        } else {
            m
        }
    }
}

/// Whether a level is a trade: a volume cut, short of removal, exactly at the best price
/// that the side had before the delta.
pub open spec fn is_trade_at_best(best: Option<u64>, m: Map<u64, u64>, l: PriceLevel) -> bool {
    best == Some(l.price) && m.contains_key(l.price) && 0 < l.volume && l.volume < m[l.price]
}

/// One level of a delta applied to a side and the last trade price: the trade check
/// first, then removal (volume zero) or upsert.
pub open spec fn delta_step(best: Option<u64>, acc: (Map<u64, u64>, Option<u64>), l: PriceLevel) -> (
    Map<u64, u64>,
    Option<u64>,
) {
    let m = acc.0;
    let last = if is_trade_at_best(best, m, l) {
        Some(l.price)
    } else {
        acc.1
    };
    if l.volume == 0 {
        (m.remove(l.price), last)
    } else {
        (m.insert(l.price, l.volume), last)
    }
}

/// The levels of one side of a delta applied in the order received.
pub open spec fn delta_pass(
    best: Option<u64>,
    m: Map<u64, u64>,
    last: Option<u64>,
    levels: Seq<PriceLevel>,
) -> (Map<u64, u64>, Option<u64>)
    decreases levels.len(),
{
    if levels.len() == 0 {
        (m, last)
    } else {
        delta_step(best, delta_pass(best, m, last, levels.drop_last()), levels.last())
    }
}

/// A change of best price is taken as a trade at the new best price.
pub open spec fn after_best_change(
    before: Option<u64>,
    after: Option<u64>,
    last: Option<u64>,
) -> Option<u64> {
    if before != after && after is Some {
        after
    } else {
        last
    }
}

/// The book after a delta whose levels all read: bids then asks, then the top-of-book check
/// for bids and then for asks.
pub open spec fn delta_result(b: BookView, bids: Seq<PriceLevel>, asks: Seq<PriceLevel>) -> BookView {
    let best_bid = highest_price(b.bids);
    let best_ask = lowest_price(b.asks);
    let after_bids = delta_pass(best_bid, b.bids, b.last_price, bids);
    let after_asks = delta_pass(best_ask, b.asks, after_bids.1, asks);
    let last = after_best_change(best_bid, highest_price(after_bids.0), after_asks.1);
    BookView {
        bids: after_bids.0,
        asks: after_asks.0,
        last_price: after_best_change(best_ask, lowest_price(after_asks.0), last),
    }
}

/// The book after a delta whose bids read and whose asks do not: the bids stay applied.
pub open spec fn bids_only_result(b: BookView, bids: Seq<PriceLevel>) -> BookView {
    let after_bids = delta_pass(highest_price(b.bids), b.bids, b.last_price, bids);
    BookView { bids: after_bids.0, asks: b.asks, last_price: after_bids.1 }
}

/// A point-in-time copy of a book: bids highest price first, asks lowest price first.
pub struct OrderbookState {
    pub timestamp: i64,
    pub last_price: Option<u64>,
    pub bids: Vec<PriceLevelEntry>,
    pub asks: Vec<PriceLevelEntry>,
}

impl OrderbookState {
    /// Whether the state is a faithful copy of `b`, ordered as a book is read.
    pub open spec fn shows(&self, b: BookView) -> bool {
        &&& self.last_price == b.last_price
        &&& strictly_descending(self.bids@)
        &&& lists_levels(self.bids@, b.bids)
        &&& strictly_ascending(self.asks@)
        &&& lists_levels(self.asks@, b.asks)
    }
}

/// The book of one instrument: both sides and the last inferred trade price.
pub struct OrderbookEngine {
    bids: BookSide,
    asks: BookSide,
    last_price: Option<u64>,
}

impl View for OrderbookEngine {
    type V = BookView;

    closed spec fn view(&self) -> BookView {
        BookView { bids: self.bids@, asks: self.asks@, last_price: self.last_price }
    }
}

/// Applies the levels of one side of a delta; returns the last trade price after them.
fn apply_levels(
    side: &mut BookSide,
    levels: &Vec<PriceLevel>,
    best: Option<u64>,
    last_before: Option<u64>,
) -> (r: Option<u64>)
    requires
        old(side).wf(),
    ensures
        final(side).wf(),
        (final(side)@, r) == delta_pass(best, old(side)@, last_before, levels@),
{
    let mut last = last_before;
    let mut i: usize = 0;
    while i < levels.len()
        invariant
            side.wf(),
            i <= levels@.len(),
            (side@, last) == delta_pass(best, old(side)@, last_before, levels@.take(i as int)),
        decreases levels@.len() - i,
    {
        let l = levels[i];
        proof {
            assert(levels@.take(i + 1).drop_last() =~= levels@.take(i as int));
        }
        let at_best = match best {
            Some(b) => b == l.price,
            None => false,
        };
        if at_best {
            match side.get(l.price) {
                Some(old_volume) => {
                    if 0 < l.volume && l.volume < old_volume {
                        last = Some(l.price);
                    }
                },
                None => {},
            }
        }
        side.insert(l.price, l.volume);
        i = i + 1;
    }
    proof {
        assert(levels@.take(levels@.len() as int) =~= levels@);
    }
    last
}

impl OrderbookEngine {
    pub closed spec fn wf(&self) -> bool {
        self.bids.wf() && self.asks.wf()
    }

    /// No side of a well-formed book holds a level of volume zero.
    pub proof fn lemma_no_empty_levels(&self)
        requires
            self.wf(),
        ensures
            forall|p: u64| #[trigger] self@.bids.contains_key(p) ==> self@.bids[p] > 0,
            forall|p: u64| #[trigger] self@.asks.contains_key(p) ==> self@.asks[p] > 0,
    {
        self.bids.lemma_volumes_positive();
        self.asks.lemma_volumes_positive();
    }

    /// An empty book with no trade seen.
    pub fn new() -> (r: OrderbookEngine)
        ensures
            r.wf(),
            r@ == (BookView {
                bids: Map::empty(),
                asks: Map::empty(),
                last_price: None,
            }),
    {
        OrderbookEngine { bids: BookSide::new(), asks: BookSide::new(), last_price: None }
    }

    /// The last inferred trade price.
    pub fn last_price(&self) -> (r: Option<u64>)
        ensures
            r == self@.last_price,
    {
        self.last_price
    }

    /// Records a trade price.
    pub fn set_last_price(&mut self, price: u64)
        requires
            old(self).wf(),
        ensures
            final(self).wf(),
            final(self)@ == (BookView { last_price: Some(price), ..old(self)@ }),
    {
        self.last_price = Some(price);
    }

    /// The bid side.
    pub fn bids(&self) -> (r: &BookSide)
        requires
            self.wf(),
        ensures
            r.wf(),
            r@ == self@.bids,
    {
        &self.bids
    }

    /// The ask side.
    pub fn asks(&self) -> (r: &BookSide)
        requires
            self.wf(),
        ensures
            r.wf(),
            r@ == self@.asks,
    {
        &self.asks
    }

    /// The bid side, to change in place.
    pub fn bids_mut(&mut self) -> (r: &mut BookSide)
        requires
            old(self).wf(),
        ensures
            r.wf(),
            r@ == old(self)@.bids,
            final(self)@ == (BookView { bids: final(r)@, ..old(self)@ }),
            final(r).wf() ==> final(self).wf(),
    {
        &mut self.bids
    }

    /// The ask side, to change in place.
    pub fn asks_mut(&mut self) -> (r: &mut BookSide)
        requires
            old(self).wf(),
        ensures
            r.wf(),
            r@ == old(self)@.asks,
            final(self)@ == (BookView { asks: final(r)@, ..old(self)@ }),
            final(r).wf() ==> final(self).wf(),
    {
        &mut self.asks
    }

    /// Replaces the whole book with a snapshot's levels; levels of volume zero are dropped.
    /// The last trade price is kept. A malformed level refuses the whole snapshot, and the
    /// book is then left as it was.
    pub fn apply_snapshot(&mut self, snapshot: &BookSnapshot) -> (r: Result<(), BookError>)
        requires
            old(self).wf(),
        ensures
            final(self).wf(),
            r is Ok <==> all_parse(snapshot.bids@) && all_parse(snapshot.asks@),
            match r {
                Ok(_) => final(self)@ == (BookView {
                    bids: snapshot_side(parsed_levels(snapshot.bids@)),
                    asks: snapshot_side(parsed_levels(snapshot.asks@)),
                    last_price: old(self)@.last_price,
                }),
                Err(e) => e == BookError::MalformedLevel && final(self)@ == old(self)@,
            },
    {
        let bids = match parse_price_levels(&snapshot.bids) {
            Ok(v) => v,
            Err(e) => {
                return Err(e);
            },
        };
        let asks = match parse_price_levels(&snapshot.asks) {
            Ok(v) => v,
            Err(e) => {
                return Err(e);
            },
        };
        fill_side(&mut self.bids, &bids);
        fill_side(&mut self.asks, &asks);
        Ok(())
    }

    /// Merges a delta into the book. Bids are applied first, then asks; within a side the
    /// levels go in the order received: a volume cut at the side's earlier best price is
    /// a trade there; a volume of zero removes the level, any other volume upserts it.
    /// Then a change of best bid, and after it a change of best ask, is a trade at the new
    /// best price. A side whose levels do not all read is refused as a whole, and the
    /// check of best prices is skipped; bids applied before a refused ask side stay.
    pub fn apply_delta(&mut self, delta: &BookDelta) -> (r: Result<(), BookError>)
        requires
            old(self).wf(),
        ensures
            final(self).wf(),
            r is Ok <==> all_parse(delta.bids@) && all_parse(delta.asks@),
            r is Err ==> r == Err::<(), BookError>(BookError::MalformedLevel),
            !all_parse(delta.bids@) ==> final(self)@ == old(self)@,
            all_parse(delta.bids@) && !all_parse(delta.asks@) ==> final(self)@ == bids_only_result(
                old(self)@,
                parsed_levels(delta.bids@),
            ),
            r is Ok ==> final(self)@ == delta_result(
                old(self)@,
                parsed_levels(delta.bids@),
                parsed_levels(delta.asks@),
            ),
    {
        let best_bid_before = self.bids.highest();
        let best_ask_before = self.asks.lowest();
        let bids = match parse_price_levels(&delta.bids) {
            Ok(v) => v,
            Err(e) => {
                return Err(e);
            },
        };
        let last = apply_levels(&mut self.bids, &bids, best_bid_before, self.last_price);
        self.last_price = last;
        let asks = match parse_price_levels(&delta.asks) {
            Ok(v) => v,
            Err(e) => {
                return Err(e);
            },
        };
        let last = apply_levels(&mut self.asks, &asks, best_ask_before, self.last_price);
        self.last_price = last;
        let best_bid_after = self.bids.highest();
        let best_ask_after = self.asks.lowest();
        if best_bid_before != best_bid_after {
            if let Some(p) = best_bid_after {
                self.last_price = Some(p);
            }
        }
        if best_ask_before != best_ask_after {
            if let Some(p) = best_ask_after {
                self.last_price = Some(p);
            }
        }
        Ok(())
    }

    /// A copy of the book as it stands, stamped with `timestamp`: bids highest price
    /// first, asks lowest price first.
    pub fn get_current_state(&self, timestamp: i64) -> (r: OrderbookState)
        requires
            self.wf(),
        ensures
            r.timestamp == timestamp,
            r.shows(self@),
    {
        OrderbookState {
            timestamp,
            last_price: self.last_price,
            bids: self.bids.levels_descending(),
            asks: self.asks.levels_ascending(),
        }
    }
}

impl Default for OrderbookEngine {
    fn default() -> (r: OrderbookEngine)
        ensures
            r.wf(),
            r@ == (BookView {
                bids: Map::empty(),
                asks: Map::empty(),
                last_price: None,
            }),
    {
        OrderbookEngine::new()
    }
}

/// Replaces the contents of `side` with the side that `levels` make as a snapshot.
fn fill_side(side: &mut BookSide, levels: &Vec<PriceLevel>)
    requires
        old(side).wf(),
    ensures
        final(side).wf(),
        final(side)@ == snapshot_side(levels@),
{
    side.clear();
    let mut i: usize = 0;
    while i < levels.len()
        invariant
            side.wf(),
            i <= levels@.len(),
            side@ == snapshot_side(levels@.take(i as int)),
        decreases levels@.len() - i,
    {
        proof {
            assert(levels@.take(i + 1).drop_last() =~= levels@.take(i as int));
        }
        let l = levels[i];
        if l.volume > 0 {
            side.insert(l.price, l.volume);
        }
        i = i + 1;
    }
    proof {
        assert(levels@.take(levels@.len() as int) =~= levels@);
    }
}

/// Whether side `m` shows level `l`: its volume at that price, or no level there where
/// the volume is zero.
pub open spec fn shows_level(m: Map<u64, u64>, l: PriceLevel) -> bool {
    if l.volume == 0 {
        !m.contains_key(l.price)
    } else {
        m.contains_key(l.price) && m[l.price] == l.volume
    }
}

/// Whether no level of `levels` after position `i` has the price of the level at `i`.
pub open spec fn is_last_at_price(levels: Seq<PriceLevel>, i: int) -> bool {
    forall|k: int| i < k < levels.len() ==> #[trigger] levels[k].price != levels[i].price
}

/// Whether no two levels of `levels` share a price.
pub open spec fn distinct_prices(levels: Seq<PriceLevel>) -> bool {
    forall|i: int, j: int|
        0 <= i < j < levels.len() ==> #[trigger] levels[i].price != #[trigger] levels[j].price
}

/// A snapshot never stores a level of volume zero: a price is in the side it makes exactly
/// when some level at that price has a positive volume, and it then holds the volume of such
/// a level.
pub proof fn lemma_snapshot_drops_empty_levels(levels: Seq<PriceLevel>)
    ensures
        forall|p: u64| #[trigger]
            snapshot_side(levels).contains_key(p) ==> snapshot_side(levels)[p] > 0,
        forall|p: u64|
            #[trigger] snapshot_side(levels).contains_key(p) <==> exists|i: int|
                0 <= i < levels.len() && #[trigger] levels[i].price == p && levels[i].volume > 0,
        forall|p: u64|
            #[trigger] snapshot_side(levels).contains_key(p) ==> exists|i: int|
                0 <= i < levels.len() && #[trigger] levels[i].price == p && levels[i].volume
                    == snapshot_side(levels)[p],
    decreases levels.len(),
{
    if levels.len() > 0 {
        let init = levels.drop_last();
        let l = levels.last();
        let n = levels.len() - 1;
        lemma_snapshot_drops_empty_levels(init);
        let m = snapshot_side(levels);
        assert forall|p: u64| #[trigger] m.contains_key(p) implies m[p] > 0 && exists|i: int|
            0 <= i < levels.len() && #[trigger] levels[i].price == p && levels[i].volume == m[p] by {
            if l.volume > 0 && p == l.price {
                assert(levels[n].price == p);
            } else {
                let i = choose|i: int|
                    0 <= i < init.len() && #[trigger] init[i].price == p && init[i].volume
                        == snapshot_side(init)[p];
                assert(levels[i] == init[i]);
            }
        }
        assert forall|p: u64| #[trigger] m.contains_key(p) <==> exists|i: int|
            0 <= i < levels.len() && #[trigger] levels[i].price == p && levels[i].volume > 0 by {
            if m.contains_key(p) {
                let i = choose|i: int|
                    0 <= i < levels.len() && #[trigger] levels[i].price == p && levels[i].volume
                        == m[p];
                assert(levels[i].volume > 0);
            }
            if exists|i: int|
                0 <= i < levels.len() && #[trigger] levels[i].price == p && levels[i].volume > 0 {
                let i = choose|i: int|
                    0 <= i < levels.len() && #[trigger] levels[i].price == p && levels[i].volume
                        > 0;
                if i < n {
                    assert(init[i] == levels[i]);
                }
            }
        }
    }
}

/// After a delta pass, the side shows the last level that the delta gives at each price:
/// a volume of zero leaves no level there, any other volume is stored as given.
pub proof fn lemma_delta_last_level_shows(
    best: Option<u64>,
    m: Map<u64, u64>,
    last: Option<u64>,
    levels: Seq<PriceLevel>,
    i: int,
)
    requires
        0 <= i < levels.len(),
        is_last_at_price(levels, i),
    ensures
        shows_level(delta_pass(best, m, last, levels).0, levels[i]),
    decreases levels.len(),
{
    let n = levels.len() - 1;
    if i < n {
        assert(levels[n].price != levels[i].price);
        let init = levels.drop_last();
        assert forall|k: int| i < k < init.len() implies #[trigger] init[k].price != init[i].price by {
            assert(init[k] == levels[k]);
        }
        lemma_delta_last_level_shows(best, m, last, init, i);
    }
}

/// A delta pass leaves every price that none of its levels names as it was.
pub proof fn lemma_delta_untouched_price(
    best: Option<u64>,
    m: Map<u64, u64>,
    last: Option<u64>,
    levels: Seq<PriceLevel>,
    p: u64,
)
    requires
        forall|i: int| 0 <= i < levels.len() ==> #[trigger] levels[i].price != p,
    ensures
        delta_pass(best, m, last, levels).0.contains_key(p) == m.contains_key(p),
        m.contains_key(p) ==> delta_pass(best, m, last, levels).0[p] == m[p],
    decreases levels.len(),
{
    if levels.len() > 0 {
        let init = levels.drop_last();
        assert forall|i: int| 0 <= i < init.len() implies #[trigger] init[i].price != p by {
            assert(init[i] == levels[i]);
        }
        assert(levels[levels.len() - 1].price != p);
        lemma_delta_untouched_price(best, m, last, init, p);
    }
}

proof fn lemma_last_at_price_exists(levels: Seq<PriceLevel>, j: int) -> (i: int)
    requires
        0 <= j < levels.len(),
    ensures
        j <= i < levels.len(),
        levels[i].price == levels[j].price,
        is_last_at_price(levels, i),
    decreases levels.len() - j,
{
    if exists|k: int| j < k < levels.len() && #[trigger] levels[k].price == levels[j].price {
        let k = choose|k: int| j < k < levels.len() && #[trigger] levels[k].price == levels[j].price;
        lemma_last_at_price_exists(levels, k)
    } else {
        j
    }
}

/// A delta pass yields the same side from any two sides that agree off the prices it names.
proof fn lemma_delta_pass_same_side(
    b1: Option<u64>,
    m1: Map<u64, u64>,
    l1: Option<u64>,
    b2: Option<u64>,
    m2: Map<u64, u64>,
    l2: Option<u64>,
    levels: Seq<PriceLevel>,
)
    requires
        forall|p: u64|
            (forall|i: int| 0 <= i < levels.len() ==> #[trigger] levels[i].price != p) ==> (
            #[trigger] m1.contains_key(p) == m2.contains_key(p) && (m1.contains_key(p) ==> m1[p]
                == m2[p])),
    ensures
        delta_pass(b1, m1, l1, levels).0 == delta_pass(b2, m2, l2, levels).0,
{
    let r1 = delta_pass(b1, m1, l1, levels).0;
    let r2 = delta_pass(b2, m2, l2, levels).0;
    assert forall|p: u64| #[trigger] r1.contains_key(p) == r2.contains_key(p) && (r1.contains_key(p)
        ==> r1[p] == r2[p]) by {
        if exists|j: int| 0 <= j < levels.len() && #[trigger] levels[j].price == p {
            let j = choose|j: int| 0 <= j < levels.len() && #[trigger] levels[j].price == p;
            let i = lemma_last_at_price_exists(levels, j);
            lemma_delta_last_level_shows(b1, m1, l1, levels, i);
            lemma_delta_last_level_shows(b2, m2, l2, levels, i);
        } else {
            assert(m1.contains_key(p) == m2.contains_key(p));
            lemma_delta_untouched_price(b1, m1, l1, levels, p);
            lemma_delta_untouched_price(b2, m2, l2, levels, p);
        }
    }
    assert(r1 =~= r2);
}

/// A delta pass over a side that already shows each of its levels changes nothing.
proof fn lemma_delta_pass_settled(
    best: Option<u64>,
    m: Map<u64, u64>,
    last: Option<u64>,
    levels: Seq<PriceLevel>,
)
    requires
        forall|i: int| 0 <= i < levels.len() ==> shows_level(m, #[trigger] levels[i]),
    ensures
        delta_pass(best, m, last, levels) == (m, last),
    decreases levels.len(),
{
    if levels.len() > 0 {
        let init = levels.drop_last();
        assert forall|i: int| 0 <= i < init.len() implies shows_level(m, #[trigger] init[i]) by {
            assert(init[i] == levels[i]);
        }
        lemma_delta_pass_settled(best, m, last, init);
        let l = levels[levels.len() - 1];
        assert(shows_level(m, l));
        if l.volume == 0 {
            assert(m.remove(l.price) =~= m);
        } else {
            assert(m.insert(l.price, l.volume) =~= m);
        }
    }
}

/// Applying the same delta twice leaves the same bids and asks as applying it once. Where
/// no side of the delta names a price twice, the last trade price is the same as well.
pub proof fn lemma_delta_idempotent(b: BookView, bids: Seq<PriceLevel>, asks: Seq<PriceLevel>)
    ensures
        delta_result(delta_result(b, bids, asks), bids, asks).bids == delta_result(
            b,
            bids,
            asks,
        ).bids,
        delta_result(delta_result(b, bids, asks), bids, asks).asks == delta_result(
            b,
            bids,
            asks,
        ).asks,
        distinct_prices(bids) && distinct_prices(asks) ==> delta_result(
            delta_result(b, bids, asks),
            bids,
            asks,
        ) == delta_result(b, bids, asks),
{
    let once = delta_result(b, bids, asks);
    let twice = delta_result(once, bids, asks);
    let bb = highest_price(b.bids);
    let ab = lowest_price(b.asks);
    let bb1 = highest_price(once.bids);
    let ab1 = lowest_price(once.asks);
    let first_bids = delta_pass(bb, b.bids, b.last_price, bids);
    let first_asks = delta_pass(ab, b.asks, first_bids.1, asks);
    let second_bids = delta_pass(bb1, once.bids, once.last_price, bids);
    let second_asks = delta_pass(ab1, once.asks, second_bids.1, asks);
    lemma_delta_untouched_any(bb, b.bids, b.last_price, bids);
    lemma_delta_pass_same_side(bb1, once.bids, once.last_price, bb, b.bids, b.last_price, bids);
    lemma_delta_untouched_any(ab, b.asks, first_bids.1, asks);
    lemma_delta_pass_same_side(ab1, once.asks, second_bids.1, ab, b.asks, first_bids.1, asks);
    if distinct_prices(bids) && distinct_prices(asks) {
        assert forall|i: int| 0 <= i < bids.len() implies shows_level(
            once.bids,
            #[trigger] bids[i],
        ) by {
            lemma_delta_last_level_shows(bb, b.bids, b.last_price, bids, i);
        }
        assert forall|i: int| 0 <= i < asks.len() implies shows_level(
            once.asks,
            #[trigger] asks[i],
        ) by {
            lemma_delta_last_level_shows(ab, b.asks, first_bids.1, asks, i);
        }
        lemma_delta_pass_settled(bb1, once.bids, once.last_price, bids);
        lemma_delta_pass_settled(ab1, once.asks, once.last_price, asks);
    }
}

/// Off the prices that a pass names, its result agrees with the side it started from.
proof fn lemma_delta_untouched_any(
    best: Option<u64>,
    m: Map<u64, u64>,
    last: Option<u64>,
    levels: Seq<PriceLevel>,
)
    ensures
        forall|p: u64|
            (forall|i: int| 0 <= i < levels.len() ==> #[trigger] levels[i].price != p) ==> (
            #[trigger] delta_pass(best, m, last, levels).0.contains_key(p) == m.contains_key(p)
                && (m.contains_key(p) ==> delta_pass(best, m, last, levels).0[p] == m[p])),
{
    assert forall|p: u64|
        (forall|i: int| 0 <= i < levels.len() ==> #[trigger] levels[i].price != p) implies (
        #[trigger] delta_pass(best, m, last, levels).0.contains_key(p) == m.contains_key(p) && (
        m.contains_key(p) ==> delta_pass(best, m, last, levels).0[p] == m[p])) by {
        lemma_delta_untouched_price(best, m, last, levels, p);
    }
}

/// Applying twice a delta whose asks do not read leaves the same book as applying it once,
/// where its bids name no price twice; the bids alone agree in any case.
pub proof fn lemma_bids_only_idempotent(b: BookView, bids: Seq<PriceLevel>)
    ensures
        bids_only_result(bids_only_result(b, bids), bids).bids == bids_only_result(b, bids).bids,
        bids_only_result(bids_only_result(b, bids), bids).asks == b.asks,
        distinct_prices(bids) ==> bids_only_result(bids_only_result(b, bids), bids)
            == bids_only_result(b, bids),
{
    let once = bids_only_result(b, bids);
    let bb = highest_price(b.bids);
    let bb1 = highest_price(once.bids);
    lemma_delta_untouched_any(bb, b.bids, b.last_price, bids);
    lemma_delta_pass_same_side(bb1, once.bids, once.last_price, bb, b.bids, b.last_price, bids);
    if distinct_prices(bids) {
        assert forall|i: int| 0 <= i < bids.len() implies shows_level(
            once.bids,
            #[trigger] bids[i],
        ) by {
            lemma_delta_last_level_shows(bb, b.bids, b.last_price, bids, i);
        }
        lemma_delta_pass_settled(bb1, once.bids, once.last_price, bids);
    }
}

} // verus!
