use orderbook::api::{history_range_of, parse_timestamp, snapshot_at, ApiError};
use orderbook::engine::OrderbookEngine;
use orderbook::feed::{
    book_subscription, check_subscription_status, feed_step, retry_after_failure, ticker_to_pair,
    FeedAction, FeedEvent, FeedState, KrakenClient, RetryDecision, SubscriptionRefusal,
    SubscriptionStatus, DEFAULT_BOOK_DEPTH, DEFAULT_TRADING_PAIR, KRAKEN_WS_URL,
};
use orderbook::session::{
    default_ticker, sends_initial_state, session_step, SessionAction, SessionEvent, SessionState,
    WebSocketQuery,
};
use orderbook::snapshot::Snapshot;
use orderbook::store::{cutoff_for, SnapshotStore};

#[test]
fn api_errors_map_to_statuses() {
    let e = ApiError::bad_request("bad");
    assert_eq!(e.status(), 400);
    assert_eq!(e.message(), "bad");
    assert_eq!(ApiError::not_found("gone").status(), 404);
    assert_eq!(ApiError::internal("boom").status(), 500);
    assert_eq!(ApiError::internal("boom").message(), "boom");
}

#[test]
fn timestamps_read_as_integers() {
    assert_eq!(parse_timestamp("1234567890"), Some(1234567890));
    assert_eq!(parse_timestamp("-5"), Some(-5));
    assert_eq!(parse_timestamp("+7"), Some(7));
    assert_eq!(parse_timestamp("0009"), Some(9));
    assert_eq!(parse_timestamp("9223372036854775807"), Some(i64::MAX));
    assert_eq!(parse_timestamp("-9223372036854775808"), Some(i64::MIN));
    assert_eq!(parse_timestamp("9223372036854775808"), None);
    assert_eq!(parse_timestamp("123456789012345678901"), None);
    assert_eq!(parse_timestamp(""), None);
    assert_eq!(parse_timestamp("-"), None);
    assert_eq!(parse_timestamp("12a"), None);
    assert_eq!(parse_timestamp("1.5"), None);
}

#[test]
fn snapshot_query_answers() {
    let mut store = SnapshotStore::new();
    store.store_snapshot(Snapshot::new("BTC".to_string(), 1000, Some(5), vec![], vec![]));
    let found = snapshot_at(&store, "BTC", "1000").unwrap();
    assert_eq!(found.last_price, Some(5));
    match snapshot_at(&store, "BTC", "later") {
        Err(ApiError::BadRequest(_)) => {}
        _ => panic!("expected a bad request"),
    }
    match snapshot_at(&store, "BTC", "999") {
        Err(e) => {
            assert_eq!(e.status(), 404);
            assert_eq!(e.message(), "No snapshot found for ticker BTC at timestamp: 999");
        }
        Ok(_) => panic!("expected not found"),
    }
}

#[test]
fn history_query_answers() {
    let mut store = SnapshotStore::new();
    match history_range_of(&store, "ETH") {
        Err(ApiError::NotFound(m)) => {
            assert_eq!(m, "No history available for ticker ETH. No snapshots have been stored yet.")
        }
        _ => panic!("expected not found"),
    }
    store.store_snapshot(Snapshot::new("ETH".to_string(), 30, None, vec![], vec![]));
    store.store_snapshot(Snapshot::new("ETH".to_string(), 10, None, vec![], vec![]));
    assert_eq!(history_range_of(&store, "ETH").unwrap(), (10, 30));
}

#[test]
fn retention_cutoff_saturates() {
    assert_eq!(cutoff_for(5000, 3600), 1400);
    assert_eq!(cutoff_for(i64::MIN + 10, 3600), i64::MIN);
    assert_eq!(cutoff_for(i64::MAX - 1, -5), i64::MAX);
    assert_eq!(cutoff_for(10, -5), 15);
}

#[test]
fn subscription_request_for_book() {
    let r = book_subscription("ZEC/USD", Some(25));
    assert_eq!(r.event, "subscribe");
    assert_eq!(r.pair, vec!["ZEC/USD".to_string()]);
    assert_eq!(r.subscription.name, "book");
    assert_eq!(r.subscription.depth, Some(25));
}

fn status(status: &str, error: Option<&str>) -> SubscriptionStatus {
    SubscriptionStatus {
        event: "subscriptionStatus".to_string(),
        status: status.to_string(),
        channel_id: None,
        pair: None,
        subscription: None,
        error_message: error.map(|e| e.to_string()),
    }
}

#[test]
fn subscription_answers_are_checked() {
    assert!(check_subscription_status(&status("subscribed", None)).is_ok());
    match check_subscription_status(&status("error", Some("Invalid trading pair"))) {
        Err(SubscriptionRefusal::ErrorMessage(m)) => assert_eq!(m, "Invalid trading pair"),
        _ => panic!("expected an error message"),
    }
    assert!(matches!(
        check_subscription_status(&status("error", None)),
        Err(SubscriptionRefusal::Rejected)
    ));
}

#[test]
fn tickers_map_to_usd_pairs() {
    assert_eq!(ticker_to_pair("BTC"), "BTC/USD");
    assert_eq!(ticker_to_pair("ZEC"), "ZEC/USD");
    assert_eq!(ticker_to_pair("SOL"), "SOL/USD");
}

#[test]
fn client_endpoints() {
    assert_eq!(KrakenClient::new().url(), KRAKEN_WS_URL);
    assert_eq!(KrakenClient::with_url("ws://localhost:1".to_string()).url(), "ws://localhost:1");
    assert_eq!(DEFAULT_TRADING_PAIR, "ZEC/USD");
    assert_eq!(DEFAULT_BOOK_DEPTH, 1000);
}

#[test]
fn feed_first_book_message_is_snapshot() {
    let (s, a) = feed_step(FeedState::Disconnected, FeedEvent::Connected);
    assert_eq!(a, FeedAction::Subscribe);
    let (s, a) = feed_step(s, FeedEvent::Subscribed);
    assert_eq!((s, a), (FeedState::AwaitingSnapshot, FeedAction::Continue));
    let (s, a) = feed_step(s, FeedEvent::StatusAccepted);
    assert_eq!(a, FeedAction::Continue);
    let (s, a) = feed_step(s, FeedEvent::BookMessage);
    assert_eq!((s, a), (FeedState::Live, FeedAction::ApplySnapshot));
    let (s, a) = feed_step(s, FeedEvent::BookMessage);
    assert_eq!((s, a), (FeedState::Live, FeedAction::ApplyDelta));
    let (s, a) = feed_step(s, FeedEvent::ConnectionLost);
    assert_eq!((s, a), (FeedState::Disconnected, FeedAction::ReconnectAfter(5)));
    let (_, a) = feed_step(FeedState::Disconnected, FeedEvent::ConnectFailed);
    assert_eq!(a, FeedAction::ReconnectAfter(5));
}

#[test]
fn backoff_doubles_then_gives_up() {
    assert_eq!(
        retry_after_failure(0, 1, 3),
        RetryDecision::RetryAfter { delay_secs: 1, attempt: 1, next_delay_secs: 2 }
    );
    assert_eq!(
        retry_after_failure(2, 4, 3),
        RetryDecision::RetryAfter { delay_secs: 4, attempt: 3, next_delay_secs: 8 }
    );
    assert_eq!(retry_after_failure(3, 8, 3), RetryDecision::GiveUp);
    assert_eq!(
        retry_after_failure(0, u64::MAX, 1),
        RetryDecision::RetryAfter { delay_secs: u64::MAX, attempt: 1, next_delay_secs: u64::MAX }
    );
}

#[test]
fn session_initial_push_needs_both_sides() {
    let mut engine = OrderbookEngine::new();
    assert!(!sends_initial_state(&engine.get_current_state(0)));
    engine.bids_mut().insert(1, 1);
    assert!(!sends_initial_state(&engine.get_current_state(0)));
    engine.asks_mut().insert(2, 1);
    assert!(sends_initial_state(&engine.get_current_state(0)));
}

#[test]
fn session_streams_until_closed() {
    let (s, a) = session_step(SessionState::Connected, SessionEvent::Opened { book_ready: true });
    assert_eq!((s, a), (SessionState::Streaming, SessionAction::SendInitial));
    let (s2, a2) = session_step(SessionState::Connected, SessionEvent::Opened { book_ready: false });
    assert_eq!((s2, a2), (SessionState::Streaming, SessionAction::Wait));
    assert_eq!(session_step(s, SessionEvent::Update), (SessionState::Streaming, SessionAction::Forward));
    assert_eq!(session_step(s, SessionEvent::Lagged), (SessionState::Streaming, SessionAction::Wait));
    assert_eq!(session_step(s, SessionEvent::Ping), (SessionState::Streaming, SessionAction::Pong));
    assert_eq!(session_step(s, SessionEvent::ChannelClosed), (SessionState::Closed, SessionAction::Close));
    assert_eq!(session_step(s, SessionEvent::SendFailed), (SessionState::Closed, SessionAction::Close));
    assert_eq!(session_step(SessionState::Closed, SessionEvent::Update), (SessionState::Closed, SessionAction::Wait));
}

#[test]
fn session_query_defaults_to_zec() {
    assert_eq!(default_ticker(), "ZEC");
    assert_eq!(WebSocketQuery::for_ticker(None).ticker, "ZEC");
    assert_eq!(WebSocketQuery::for_ticker(Some("BTC".to_string())).ticker, "BTC");
}
