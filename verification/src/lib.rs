//! Core of a digital/analog logic-circuit simulation: the signal value
//! algebra, the built-in gate behaviours, the wiring graph with its
//! evaluation-order compiler, and the fixed-step tick scheduler.
pub mod analog;
pub mod signal;
pub mod gates;
pub mod utils;
pub mod graph;
pub mod circuit;
pub mod schedule;
