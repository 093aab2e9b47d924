use orderbook::config::Config;

#[test]
fn test_default_config() {
    let config = Config::new();
    assert_eq!(config.snapshot_interval_secs, 5);
    assert_eq!(config.port, 8080);
    assert_eq!(config.trading_pair, "ZEC/USD");
    assert_eq!(config.book_depth, 25);
    assert_eq!(config.snapshot_retention_secs, 3600);
}

#[test]
fn test_config_builder() {
    let config = Config::new()
        .with_snapshot_interval(10)
        .with_port(9000)
        .with_trading_pair("BTC/USD".to_string())
        .with_book_depth(50)
        .with_snapshot_retention(7200);

    assert_eq!(config.snapshot_interval_secs, 10);
    assert_eq!(config.port, 9000);
    assert_eq!(config.trading_pair, "BTC/USD");
    assert_eq!(config.book_depth, 50);
    assert_eq!(config.snapshot_retention_secs, 7200);
}

#[test]
fn default_matches_new() {
    let config = Config::default();
    assert_eq!(config.book_depth, 25);
    assert_eq!(config.trading_pair, "ZEC/USD");
}
