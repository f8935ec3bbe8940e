//! Combines WIT worlds into one output world and lays the resulting
//! packages out on disk under collision-free directory names.

pub mod compose;
pub mod distinct;
pub mod graph;
pub mod naming;
