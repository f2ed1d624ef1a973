//! Feed enclosure selection and retrieval, verified.
//!
//! The crate parses a small query language (`field:value`, `field:[a:b]`
//! ranges, `field:{...}` sets) into predicates over feed items, merges
//! overlapping ranges, filters a feed's item list, and models the chunked,
//! retry-tolerant download process as state machines whose behaviour is
//! stated in contracts.

pub mod config;
pub mod date;
pub mod download;
pub mod equality;
pub mod error;
pub mod ext;
pub mod feed;
pub mod merge;
pub mod options;
pub mod parser;
pub mod rangeset;
pub mod text;
pub mod utils;

use vstd::prelude::*;

verus! {

/// Character that separates the two bounds of a bracketed range.
pub const RANGE_DELIMITER: char = ':';

} // verus!
