//! An in-memory HTTP mock registry with a verified matching engine.
//!
//! Tests register mock definitions (expected request shapes plus canned
//! responses); incoming requests are routed to the lowest-id registered mock
//! whose every set facet matches. When nothing matches, every candidate is
//! scored by edit distance and a structured explanation names the closest one.

pub mod data;
pub mod matchers;
pub mod matching;
pub mod state;
pub mod laws;
pub mod adapter;
