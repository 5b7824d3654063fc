//! Streaming grouped aggregation over simulation logs: interned region
//! names, sparse per-location accumulators, closed-form sample statistics
//! and the replay of movement logs into per-step occupancy.

pub mod sparse;
pub mod stats;
pub mod interner;
pub mod attempts;
pub mod movement;
