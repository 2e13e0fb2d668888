//! A local replica of an exchange-maintained level-2 order book.
//!
//! A point-in-time REST snapshot and a stream of sequenced incremental
//! diffs are decoded from their wire form, merged by update-id ranges,
//! and kept as a consistent price-level view. The synchronization
//! protocol — buffering, the snapshot/diff join, gap detection and
//! resync — lives in `sync`; the replica itself in `replica`; the wire
//! decoders in `binance_increment` and `binance_snapshot`. Prices and
//! sizes are fixed-point integers (see `decimal`), so every step of the
//! pipeline is verified.

use vstd::prelude::*;

pub mod base;
pub mod binance_increment;
pub mod binance_snapshot;
pub mod binance_utils;
pub mod currencies;
pub mod decoder;
pub mod decimal;
pub mod errors;
pub mod json;
pub mod registry;
pub mod replica;
pub mod sync;

pub use currencies::Currency;
pub use currencies::CurrencyPair;

verus! {

} // verus!
