//! An in-memory associative cache engine with pluggable eviction policies
//! over a segmented, bucketed hash layout.
//!
//! Two topologies are built from the same bucket primitive:
//! a flat single-level cache ([`associative_cache::AssociativeCache`]) and a
//! two-level segmented cache with overflow "stash" buckets and neighbor
//! probing ([`dash::Dash`]).

pub mod associative_cache;
pub mod associative_cache_bucket;
pub mod bucket;
pub mod dash;
pub mod dash_segment;
pub mod eviction_policy;
pub mod item;
pub mod settings;
pub mod utils;
