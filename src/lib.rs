//! Order-book reconstruction from an exchange's snapshot and delta feed, trade
//! inference from top-of-book changes, and a time-indexed archive of book states.
pub mod decimal;
pub mod level;
pub mod book_side;
pub mod engine;
pub mod snapshot;
pub mod store;
pub mod config;
pub mod api;
pub mod feed;
pub mod session;
