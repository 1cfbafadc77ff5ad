//! Continuous build/test orchestrator core.
//!
//! The library holds the verified run-decision engine of a file watcher that
//! rebuilds and retests a source tree on relevant changes: event
//! classification, the step tracker for the run in flight, the decision logic
//! over event batches, the bounded result channel, and the reporting
//! aggregator with its historical statistics.

pub mod event;
pub mod filters;
pub mod reporter;
pub mod watcher;
