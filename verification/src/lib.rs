//! Telemetry-reconciliation library: builds per-trace span graphs, resolves
//! candidate identity and pipeline stage by bounded traversal, deduplicates
//! candidates by identity hash, and maintains per-stage metrics.

pub mod api;
pub mod cli;
pub mod daemon;
pub mod graph;
pub mod primitives;
pub mod prom;
