//! Core logic of a meta-search request pipeline: pagination
//! canonicalization, cache-key construction, cache hit/miss branching,
//! engine-selection resolution, result enrichment and cache population.
//!
//! Network I/O (the cache store, the upstream aggregator, the template
//! renderer, the HTTP transport) stays outside; this crate holds the
//! decisions between those calls, each with a verified contract.

pub mod codec;
pub mod engines;
pub mod orchestrator;
pub mod pagination;
pub mod results;
pub mod text;
