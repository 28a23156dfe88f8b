//! A dynamic metrics registry with a collection scheduler.
//!
//! The registry accepts a config-driven set of metric definitions at runtime,
//! registers each as a metric family exactly once, and routes fresh values to
//! the correct label-qualified series on every collection cycle. The
//! exposition module serializes the registry's state into the metrics
//! backend's text format.

pub mod laws;
pub mod measurement;
pub mod registry;
pub mod render;
pub mod scheduler;
pub mod text;
