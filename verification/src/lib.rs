//! A verified podcast-feed synchronization core.
//!
//! The library covers the pure logic of a feed synchronizer: normalizing a
//! fetched feed into channel and episode records, deciding which episodes are
//! due under a release policy, the resumable-download bookkeeping, the
//! filename/id templating language, and the append-only completion ledger.
//! Network and file-system work is left to the surrounding application, which
//! feeds plain values in and out of these functions.

pub mod download;
pub mod episode;
pub mod feed;
pub mod ledger;
pub mod pattern;
pub mod pipeline;
pub mod podcast;
pub mod policy;
pub mod text;
pub mod time;

use vstd::prelude::*;

verus! {

/// A fatal configuration fault: the whole run must stop before any
/// file-system effect.
#[derive(Debug, Clone, PartialEq, Eq)]
pub enum ConfigError {
    /// A template pattern contains a token outside the recognized set.
    UnknownToken(String),
}

/// A per-subscription fault while obtaining or reading the feed.
#[derive(Debug, Clone, PartialEq, Eq)]
pub enum ParseError {
    /// The feed text could not be converted, or its root/channel is missing.
    MalformedFeed,
    /// The channel holds no item list.
    MissingItems,
}

} // verus!
