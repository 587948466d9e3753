//! Threshold-consensus oracle: an operator registry with fixed voting power,
//! a vote aggregation and slashing engine, and a task lifecycle state machine.
//!
//! Decimal quantities (vote results, spreads, thresholds) are fixed-point
//! numbers held as their atomics: the value times 10^18.
pub mod consensus;
pub mod decimal;
pub mod engine;
pub mod registry;
pub mod task_queue;
