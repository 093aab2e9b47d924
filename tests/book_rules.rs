use orderbook::book_side::PriceLevelEntry;
use orderbook::engine::{OrderbookEngine, OrderbookState};
use orderbook::level::{BookDelta, BookError, BookSnapshot, WireLevel};

const UNIT: u64 = 100_000_000;

fn lv(price: &str, volume: &str) -> WireLevel {
    WireLevel::from_strs(price, volume, "")
}

fn pairs(levels: &[PriceLevelEntry]) -> Vec<(u64, u64)> {
    levels.iter().map(|l| (l.price / UNIT, l.volume / UNIT)).collect()
}

fn book(engine: &OrderbookEngine) -> (Vec<(u64, u64)>, Vec<(u64, u64)>, Option<u64>) {
    let s: OrderbookState = engine.get_current_state(0);
    (pairs(&s.bids), pairs(&s.asks), s.last_price)
}

fn engine_with(bids: Vec<WireLevel>, asks: Vec<WireLevel>) -> OrderbookEngine {
    let mut engine = OrderbookEngine::new();
    engine.apply_snapshot(&BookSnapshot { bids, asks }).unwrap();
    engine
}

#[test]
fn snapshot_drops_zero_volume_levels() {
    let engine = engine_with(
        vec![lv("100", "0"), lv("99", "2"), lv("98", "0.0")],
        vec![lv("101", "0"), lv("102", "1")],
    );
    assert_eq!(book(&engine), (vec![(99, 2)], vec![(102, 1)], None));
}

#[test]
fn snapshot_zero_level_does_not_remove_earlier_level_at_same_price() {
    let engine = engine_with(vec![lv("100", "5"), lv("100", "0")], vec![]);
    assert_eq!(book(&engine).0, vec![(100, 5)]);
}

#[test]
fn snapshot_keeps_last_trade_price() {
    let mut engine = OrderbookEngine::new();
    engine.set_last_price(50 * UNIT);
    engine.apply_snapshot(&BookSnapshot { bids: vec![lv("100", "1")], asks: vec![] }).unwrap();
    assert_eq!(engine.last_price(), Some(50 * UNIT));
}

#[test]
fn malformed_snapshot_leaves_book_unchanged() {
    let mut engine = engine_with(vec![lv("100", "5")], vec![lv("101", "3")]);
    let before = book(&engine);
    let bad = BookSnapshot { bids: vec![lv("90", "1")], asks: vec![lv("oops", "1")] };
    assert_eq!(engine.apply_snapshot(&bad), Err(BookError::MalformedLevel));
    assert_eq!(book(&engine), before);
}

#[test]
fn delta_zero_removes_and_positive_upserts() {
    let mut engine = engine_with(vec![lv("100", "5"), lv("99", "2")], vec![lv("101", "3")]);
    let delta = BookDelta { bids: vec![lv("99", "0"), lv("97", "4"), lv("95", "0")], asks: vec![lv("101", "7")] };
    engine.apply_delta(&delta).unwrap();
    assert_eq!(book(&engine).0, vec![(100, 5), (97, 4)]);
    assert_eq!(book(&engine).1, vec![(101, 7)]);
}

#[test]
fn delta_reapplied_gives_same_state() {
    let mut engine = engine_with(vec![lv("100", "5"), lv("99", "2")], vec![lv("101", "3"), lv("102", "1")]);
    let delta = BookDelta {
        bids: vec![lv("100", "0"), lv("98", "6")],
        asks: vec![lv("101", "2"), lv("103", "9")],
    };
    engine.apply_delta(&delta).unwrap();
    let once = book(&engine);
    engine.apply_delta(&delta).unwrap();
    assert_eq!(book(&engine), once);
}

#[test]
fn delta_with_repeated_price_reapplied_keeps_levels() {
    // A side that names a price twice may infer a trade on the second pass only.
    let mut engine = engine_with(vec![lv("100", "5")], vec![]);
    let delta = BookDelta { bids: vec![lv("100", "6"), lv("100", "7")], asks: vec![] };
    engine.apply_delta(&delta).unwrap();
    let once = book(&engine);
    assert_eq!(once.2, None);
    engine.apply_delta(&delta).unwrap();
    let twice = book(&engine);
    assert_eq!(twice.0, once.0);
    assert_eq!(twice.1, once.1);
    assert_eq!(twice.2, Some(100 * UNIT));
}

#[test]
fn sides_stay_ordered_over_applies() {
    let mut engine = engine_with(vec![lv("10", "1"), lv("30", "1"), lv("20", "1")], vec![lv("50", "1"), lv("40", "1")]);
    engine.apply_delta(&BookDelta { bids: vec![lv("25", "2"), lv("5", "1")], asks: vec![lv("45", "3"), lv("60", "1")] }).unwrap();
    engine.apply_delta(&BookDelta { bids: vec![lv("30", "0")], asks: vec![lv("40", "0"), lv("41", "1")] }).unwrap();
    let s = engine.get_current_state(9);
    let bid_prices: Vec<u64> = s.bids.iter().map(|l| l.price / UNIT).collect();
    let ask_prices: Vec<u64> = s.asks.iter().map(|l| l.price / UNIT).collect();
    assert_eq!(bid_prices, vec![25, 20, 10, 5]);
    assert_eq!(ask_prices, vec![41, 45, 50, 60]);
    assert_eq!(s.timestamp, 9);
}

#[test]
fn trade_at_best_bid_volume_cut() {
    let mut engine = engine_with(vec![lv("100", "5")], vec![]);
    engine.apply_delta(&BookDelta { bids: vec![lv("100", "3")], asks: vec![] }).unwrap();
    assert_eq!(engine.last_price(), Some(100 * UNIT));
}

#[test]
fn trade_when_best_bid_consumed() {
    let mut engine = engine_with(vec![lv("100", "5"), lv("99", "2")], vec![]);
    engine.apply_delta(&BookDelta { bids: vec![lv("100", "0")], asks: vec![] }).unwrap();
    assert_eq!(engine.last_price(), Some(99 * UNIT));
}

#[test]
fn new_level_below_best_is_no_trade() {
    let mut engine = engine_with(vec![lv("100", "5")], vec![lv("101", "3")]);
    engine.set_last_price(50 * UNIT);
    engine.apply_delta(&BookDelta { bids: vec![lv("98", "1")], asks: vec![] }).unwrap();
    assert_eq!(engine.last_price(), Some(50 * UNIT));
}

#[test]
fn volume_increase_at_best_is_no_trade() {
    let mut engine = engine_with(vec![lv("100", "5")], vec![]);
    engine.apply_delta(&BookDelta { bids: vec![lv("100", "8")], asks: vec![] }).unwrap();
    assert_eq!(engine.last_price(), None);
}

#[test]
fn new_best_ask_overrides_bid_trade() {
    let mut engine = engine_with(vec![lv("100", "5")], vec![lv("101", "3")]);
    engine
        .apply_delta(&BookDelta { bids: vec![lv("100", "4")], asks: vec![lv("100.5", "1")] })
        .unwrap();
    assert_eq!(engine.last_price(), Some(10_050_000_000));
}

#[test]
fn emptied_side_sets_no_trade() {
    let mut engine = engine_with(vec![lv("100", "5")], vec![]);
    engine.apply_delta(&BookDelta { bids: vec![lv("100", "0")], asks: vec![] }).unwrap();
    assert_eq!(engine.last_price(), None);
    assert!(engine.bids().is_empty());
}

#[test]
fn malformed_bid_side_changes_nothing() {
    let mut engine = engine_with(vec![lv("100", "5")], vec![lv("101", "3")]);
    let before = book(&engine);
    let delta = BookDelta { bids: vec![lv("99", "1"), lv("x", "1")], asks: vec![lv("102", "1")] };
    assert_eq!(engine.apply_delta(&delta), Err(BookError::MalformedLevel));
    assert_eq!(book(&engine), before);
}

#[test]
fn malformed_ask_side_keeps_applied_bids() {
    let mut engine = engine_with(vec![lv("100", "5")], vec![lv("101", "3")]);
    let delta = BookDelta { bids: vec![lv("100", "4"), lv("99", "1")], asks: vec![lv("102", "-1")] };
    assert_eq!(engine.apply_delta(&delta), Err(BookError::MalformedLevel));
    let (bids, asks, last) = book(&engine);
    assert_eq!(bids, vec![(100, 4), (99, 1)]);
    assert_eq!(asks, vec![(101, 3)]);
    assert_eq!(last, Some(100 * UNIT));
}

#[test]
fn side_insert_zero_removes_level() {
    let mut engine = OrderbookEngine::new();
    engine.bids_mut().insert(7, 3);
    engine.bids_mut().insert(7, 0);
    assert_eq!(engine.bids_mut().get(7), None);
    assert!(engine.bids_mut().is_empty());
    engine.asks_mut().insert(9, 1);
    engine.asks_mut().remove(9);
    assert_eq!(engine.asks().len(), 0);
}

#[test]
fn side_best_prices() {
    let mut engine = OrderbookEngine::new();
    assert_eq!(engine.bids().highest(), None);
    engine.bids_mut().insert(5, 1);
    engine.bids_mut().insert(9, 1);
    engine.bids_mut().insert(7, 1);
    assert_eq!(engine.bids().highest(), Some(9));
    assert_eq!(engine.bids().lowest(), Some(5));
}

#[test]
fn default_engine_is_empty() {
    let engine = OrderbookEngine::default();
    assert_eq!(book(&engine), (vec![], vec![], None));
}
