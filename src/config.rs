//! Settings of the service.
use vstd::prelude::*;

verus! {

/// Settings of the service.
#[derive(Clone, Debug)]
pub struct Config {
    /// Seconds between two archived snapshots.
    pub snapshot_interval_secs: u64,
    /// Port of the HTTP and streaming endpoints.
    pub port: u16,
    /// Trading pair that the feed is asked for.
    pub trading_pair: String,
    /// Book depth that the feed is asked for.
    pub book_depth: u32,
    /// How long, in seconds, archived snapshots are kept.
    pub snapshot_retention_secs: i64,
}

impl Config {
    /// The defaults: a snapshot every 5 seconds, port 8080, "ZEC/USD", depth 25, an hour of
    /// retention.
    pub fn new() -> (r: Config)
        ensures
            r.snapshot_interval_secs == 5,
            r.port == 8080,
            r.trading_pair@ == "ZEC/USD"@,
            r.book_depth == 25,
            r.snapshot_retention_secs == 3600,
    {
        Config {
            snapshot_interval_secs: 5,
            port: 8080,
            trading_pair: "ZEC/USD".to_owned(),
            book_depth: 25,
            snapshot_retention_secs: 3600,
        }
    }

    pub fn with_snapshot_interval(self, interval_secs: u64) -> (r: Config)
        ensures
            r == (Config { snapshot_interval_secs: interval_secs, ..self }),
    {
        Config { snapshot_interval_secs: interval_secs, ..self }
    }

    pub fn with_port(self, port: u16) -> (r: Config)
        ensures
            r == (Config { port, ..self }),
    {
        Config { port, ..self }
    }

    pub fn with_trading_pair(self, pair: String) -> (r: Config)
        ensures
            r == (Config { trading_pair: pair, ..self }),
    {
        Config { trading_pair: pair, ..self }
    }

    pub fn with_book_depth(self, depth: u32) -> (r: Config)
        ensures
            r == (Config { book_depth: depth, ..self }),
    {
        Config { book_depth: depth, ..self }
    }

    pub fn with_snapshot_retention(self, retention_secs: i64) -> (r: Config)
        ensures
            r == (Config { snapshot_retention_secs: retention_secs, ..self }),
    {
        Config { snapshot_retention_secs: retention_secs, ..self }
    }
}

impl Default for Config {
    fn default() -> (r: Config)
        ensures
            r.snapshot_interval_secs == 5,
            r.port == 8080,
            r.trading_pair@ == "ZEC/USD"@,
            r.book_depth == 25,
            r.snapshot_retention_secs == 3600,
    {
        Config::new()
    }
}

} // verus!
