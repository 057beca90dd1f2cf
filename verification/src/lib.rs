//! A small task tracker library: a task entity with priority, status, tags,
//! dependencies and subtasks; a recursive status-aggregation algorithm over
//! the task forest; and an in-memory task store with monotonic identifier
//! allocation.

pub mod agg;
mod clock;
pub mod generate;
pub mod laws;
pub mod parse;
pub mod store;
pub mod task;
