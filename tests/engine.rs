use orderbook::book_side::PriceLevelEntry;
use orderbook::engine::OrderbookEngine;
use orderbook::level::{BookDelta, BookSnapshot, WireLevel};

/// Amounts are in units of 10^-8: 41990.0 is 4_199_000_000_000, 2.5 is 250_000_000.
const P41970: u64 = 4_197_000_000_000;
const P41980: u64 = 4_198_000_000_000;
const P41990: u64 = 4_199_000_000_000;
const P42000: u64 = 4_200_000_000_000;
const P42010: u64 = 4_201_000_000_000;
const P42020: u64 = 4_202_000_000_000;
const P42030: u64 = 4_203_000_000_000;

fn level(price: &str, volume: &str, timestamp: &str) -> WireLevel {
    WireLevel::from_strs(price, volume, timestamp)
}

fn prices(levels: &[PriceLevelEntry]) -> Vec<u64> {
    levels.iter().map(|l| l.price).collect()
}

#[test]
fn test_new_orderbook() {
    let engine = OrderbookEngine::new();
    assert_eq!(engine.last_price(), None);
    let mut engine = engine;
    assert_eq!(engine.bids_mut().len(), 0);
    assert_eq!(engine.asks_mut().len(), 0);
}

#[test]
fn test_set_last_price() {
    let mut engine = OrderbookEngine::new();
    engine.set_last_price(P42000);
    assert_eq!(engine.last_price(), Some(P42000));
}

#[test]
fn test_bids_ordering() {
    let mut engine = OrderbookEngine::new();
    engine.bids_mut().insert(P41980, 120_000_000);
    engine.bids_mut().insert(P41990, 250_000_000);
    engine.bids_mut().insert(P41970, 80_000_000);
    let got = prices(&engine.bids_mut().levels_descending());
    assert_eq!(got, vec![P41990, P41980, P41970]);
}

#[test]
fn test_asks_ordering() {
    let mut engine = OrderbookEngine::new();
    engine.asks_mut().insert(P42020, 80_000_000);
    engine.asks_mut().insert(P42010, 310_000_000);
    engine.asks_mut().insert(P42030, 150_000_000);
    let got = prices(&engine.asks_mut().levels_ascending());
    assert_eq!(got, vec![P42010, P42020, P42030]);
}

#[test]
fn test_apply_snapshot() {
    let mut engine = OrderbookEngine::new();
    let snapshot = BookSnapshot {
        bids: vec![
            level("41990.0", "2.5", "1234567890.0"),
            level("41980.0", "1.2", "1234567890.0"),
        ],
        asks: vec![
            level("42010.0", "3.1", "1234567890.0"),
            level("42020.0", "0.8", "1234567890.0"),
        ],
    };
    engine.apply_snapshot(&snapshot).unwrap();

    assert_eq!(engine.bids_mut().len(), 2);
    assert_eq!(prices(&engine.bids_mut().levels_descending()), vec![P41990, P41980]);
    assert_eq!(engine.bids_mut().get(P41990), Some(250_000_000));
    assert_eq!(engine.bids_mut().get(P41980), Some(120_000_000));

    assert_eq!(engine.asks_mut().len(), 2);
    assert_eq!(prices(&engine.asks_mut().levels_ascending()), vec![P42010, P42020]);
    assert_eq!(engine.asks_mut().get(P42010), Some(310_000_000));
    assert_eq!(engine.asks_mut().get(P42020), Some(80_000_000));
}

#[test]
fn test_apply_snapshot_clears_existing() {
    let mut engine = OrderbookEngine::new();
    engine.bids_mut().insert(5_000_000_000_000, 1_000_000_000);
    engine.asks_mut().insert(3_000_000_000_000, 500_000_000);
    let snapshot = BookSnapshot {
        bids: vec![level("41990.0", "2.5", "1234567890.0")],
        asks: vec![level("42010.0", "3.1", "1234567890.0")],
    };
    engine.apply_snapshot(&snapshot).unwrap();

    assert_eq!(engine.bids_mut().get(5_000_000_000_000), None);
    assert_eq!(engine.asks_mut().get(3_000_000_000_000), None);
    assert_eq!(engine.bids_mut().get(P41990), Some(250_000_000));
    assert_eq!(engine.asks_mut().get(P42010), Some(310_000_000));
}

#[test]
fn test_apply_snapshot_filters_zero_volume() {
    let mut engine = OrderbookEngine::new();
    let snapshot = BookSnapshot {
        bids: vec![
            level("41990.0", "2.5", "1234567890.0"),
            level("41980.0", "0.0", "1234567890.0"),
        ],
        asks: vec![
            level("42010.0", "3.1", "1234567890.0"),
            level("42020.0", "0.0", "1234567890.0"),
        ],
    };
    engine.apply_snapshot(&snapshot).unwrap();

    assert_eq!(engine.bids_mut().len(), 1);
    assert_eq!(engine.bids_mut().get(P41990), Some(250_000_000));
    assert_eq!(engine.bids_mut().get(P41980), None);

    assert_eq!(engine.asks_mut().len(), 1);
    assert_eq!(engine.asks_mut().get(P42010), Some(310_000_000));
    assert_eq!(engine.asks_mut().get(P42020), None);
}

fn base_snapshot(bids: Vec<WireLevel>, asks: Vec<WireLevel>) -> OrderbookEngine {
    let mut engine = OrderbookEngine::new();
    engine.apply_snapshot(&BookSnapshot { bids, asks }).unwrap();
    engine
}

#[test]
fn test_apply_delta_updates_existing() {
    let mut engine = base_snapshot(
        vec![level("41990.0", "2.5", "1234567890.0")],
        vec![level("42010.0", "3.1", "1234567890.0")],
    );
    let delta = BookDelta {
        bids: vec![level("41990.0", "5.0", "1234567891.0")],
        asks: vec![level("42010.0", "1.5", "1234567891.0")],
    };
    engine.apply_delta(&delta).unwrap();
    assert_eq!(engine.bids_mut().get(P41990), Some(500_000_000));
    assert_eq!(engine.asks_mut().get(P42010), Some(150_000_000));
}

#[test]
fn test_apply_delta_inserts_new() {
    let mut engine = base_snapshot(
        vec![level("41990.0", "2.5", "1234567890.0")],
        vec![level("42010.0", "3.1", "1234567890.0")],
    );
    let delta = BookDelta {
        bids: vec![level("41980.0", "1.2", "1234567891.0")],
        asks: vec![level("42020.0", "0.8", "1234567891.0")],
    };
    engine.apply_delta(&delta).unwrap();

    assert_eq!(engine.bids_mut().len(), 2);
    assert_eq!(engine.bids_mut().get(P41980), Some(120_000_000));
    assert_eq!(engine.bids_mut().get(P41990), Some(250_000_000));

    assert_eq!(engine.asks_mut().len(), 2);
    assert_eq!(engine.asks_mut().get(P42010), Some(310_000_000));
    assert_eq!(engine.asks_mut().get(P42020), Some(80_000_000));
}

#[test]
fn test_apply_delta_removes_zero_volume() {
    let mut engine = base_snapshot(
        vec![
            level("41990.0", "2.5", "1234567890.0"),
            level("41980.0", "1.2", "1234567890.0"),
        ],
        vec![
            level("42010.0", "3.1", "1234567890.0"),
            level("42020.0", "0.8", "1234567890.0"),
        ],
    );
    let delta = BookDelta {
        bids: vec![level("41980.0", "0.0", "1234567891.0")],
        asks: vec![level("42020.0", "0.0", "1234567891.0")],
    };
    engine.apply_delta(&delta).unwrap();

    assert_eq!(engine.bids_mut().len(), 1);
    assert_eq!(engine.bids_mut().get(P41980), None);
    assert_eq!(engine.bids_mut().get(P41990), Some(250_000_000));

    assert_eq!(engine.asks_mut().len(), 1);
    assert_eq!(engine.asks_mut().get(P42020), None);
    assert_eq!(engine.asks_mut().get(P42010), Some(310_000_000));
}

#[test]
fn test_apply_delta_mixed_operations() {
    let mut engine = base_snapshot(
        vec![
            level("41990.0", "2.5", "1234567890.0"),
            level("41980.0", "1.2", "1234567890.0"),
        ],
        vec![level("42010.0", "3.1", "1234567890.0")],
    );
    let delta = BookDelta {
        bids: vec![
            level("41990.0", "5.0", "1234567891.0"),
            level("41980.0", "0.0", "1234567891.0"),
            level("41970.0", "0.5", "1234567891.0"),
        ],
        asks: vec![
            level("42010.0", "1.5", "1234567891.0"),
            level("42020.0", "2.0", "1234567891.0"),
        ],
    };
    engine.apply_delta(&delta).unwrap();

    assert_eq!(engine.bids_mut().len(), 2);
    assert_eq!(engine.bids_mut().get(P41990), Some(500_000_000));
    assert_eq!(engine.bids_mut().get(P41980), None);
    assert_eq!(engine.bids_mut().get(P41970), Some(50_000_000));

    assert_eq!(engine.asks_mut().len(), 2);
    assert_eq!(engine.asks_mut().get(P42010), Some(150_000_000));
    assert_eq!(engine.asks_mut().get(P42020), Some(200_000_000));
}

#[test]
fn test_apply_delta_updates_last_price_on_bid_trade() {
    let mut engine = base_snapshot(
        vec![
            level("41990.0", "2.5", "1234567890.0"),
            level("41980.0", "1.2", "1234567890.0"),
        ],
        vec![level("42010.0", "3.1", "1234567890.0")],
    );
    let delta = BookDelta { bids: vec![level("41990.0", "1.5", "1234567891.0")], asks: vec![] };
    engine.apply_delta(&delta).unwrap();
    assert_eq!(engine.last_price(), Some(P41990));
}

#[test]
fn test_apply_delta_updates_last_price_on_ask_trade() {
    let mut engine = base_snapshot(
        vec![level("41990.0", "2.5", "1234567890.0")],
        vec![
            level("42010.0", "3.1", "1234567890.0"),
            level("42020.0", "1.2", "1234567890.0"),
        ],
    );
    let delta = BookDelta { bids: vec![], asks: vec![level("42010.0", "2.0", "1234567891.0")] };
    engine.apply_delta(&delta).unwrap();
    assert_eq!(engine.last_price(), Some(P42010));
}

#[test]
fn test_apply_delta_updates_last_price_when_best_bid_consumed() {
    let mut engine = base_snapshot(
        vec![
            level("41990.0", "2.5", "1234567890.0"),
            level("41980.0", "1.2", "1234567890.0"),
        ],
        vec![level("42010.0", "3.1", "1234567890.0")],
    );
    let delta = BookDelta { bids: vec![level("41990.0", "0.0", "1234567891.0")], asks: vec![] };
    engine.apply_delta(&delta).unwrap();
    assert_eq!(engine.last_price(), Some(P41980));
}

#[test]
fn test_apply_delta_updates_last_price_when_best_ask_consumed() {
    let mut engine = base_snapshot(
        vec![level("41990.0", "2.5", "1234567890.0")],
        vec![
            level("42010.0", "3.1", "1234567890.0"),
            level("42020.0", "1.2", "1234567890.0"),
        ],
    );
    let delta = BookDelta { bids: vec![], asks: vec![level("42010.0", "0.0", "1234567891.0")] };
    engine.apply_delta(&delta).unwrap();
    assert_eq!(engine.last_price(), Some(P42020));
}

#[test]
fn test_apply_delta_does_not_update_last_price_for_non_trade_updates() {
    let mut engine = base_snapshot(
        vec![level("41990.0", "2.5", "1234567890.0")],
        vec![level("42010.0", "3.1", "1234567890.0")],
    );
    engine.set_last_price(P42000);
    let delta = BookDelta {
        bids: vec![level("41980.0", "1.2", "1234567891.0")],
        asks: vec![level("42020.0", "0.8", "1234567891.0")],
    };
    engine.apply_delta(&delta).unwrap();
    assert_eq!(engine.last_price(), Some(P42000));
}
