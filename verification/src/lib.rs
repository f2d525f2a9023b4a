//! A crawl frontier: the durable, politeness-aware state that decides which
//! domains and which URLs a web crawler fetches next.
//!
//! The frontier keeps three stores: per-domain scheduling state, per-domain
//! sharded URL sets, and a redirect map.  Domains and URLs carry weights that
//! count cross-domain links; scheduling draws weighted samples without
//! replacement from those weights.

use vstd::prelude::*;

pub mod frontier;
pub mod model;
pub mod sampler;
pub mod states;
pub mod stores;
pub mod strmap;
pub mod urls;
pub mod webgraph_api;

verus! {

/// Number of URLs a single shard may hold; inserting into a full shard opens
/// the next shard and advances the domain's `max_shard_id`.
pub const URLS_PER_SHARD: usize = 5000;

} // verus!
