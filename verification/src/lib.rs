//! A limit order book: price levels on both sides of the market, order
//! placement, cancellation, modification and price-time matching.

use vstd::prelude::*;

pub mod book;
pub mod cache;
pub mod error;
pub mod execution;
pub mod matching;
pub mod laws;
pub mod modifications;
pub mod operations;
mod foreign;
pub mod orders;
pub mod outside;
pub mod pool;
pub mod prices;
pub mod queries;
pub mod snapshot;
pub mod updates;

verus! {

/// The current time in milliseconds since the Unix epoch, read from the
/// system clock (`std::time::SystemTime`); nothing is said of the value.
/// A clock set before the epoch reads as zero.
#[verifier::external_body]
pub fn current_time_millis() -> (r: u64) {
    std::time::SystemTime::now().duration_since(std::time::UNIX_EPOCH).map(|d| d.as_millis() as u64).unwrap_or(0)
}

} // verus!
