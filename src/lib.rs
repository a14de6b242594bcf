//! A live process-tree monitor: snapshots of the process forest, a
//! single-slot exchange, the sampler's control decisions and the sync engine
//! that turns one tree into another with row-level edits.
pub mod cpu;
pub mod tree;
pub mod sync;
pub mod snapshot;
pub mod sampler;
pub mod live;
pub mod builder;
