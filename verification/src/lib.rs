//! Verified building blocks: a stack and a queue kept as linked lists, an
//! append-only text log, an account ledger driven by text commands, and a few
//! small patterns (a chain of steps, a greeting decorator, a two-state switch).

pub mod stack;
pub mod fifth;
pub mod log_store;
pub mod log_snapshot;
pub mod text;
pub mod ledger;
pub mod waterfall;
pub mod decorator_pattern;
pub mod state_machines;
