//! A single-threaded cooperative scheduler paced by external ticks.
//!
//! The [`executor`] keeps the lifecycle of every task and a bounded ready
//! queue; the [`frame_sequencer`] is a rendezvous barrier that hands a
//! per-tick payload exactly once to every registered participant and wakes
//! the task waiting on it. [`data_model`] holds the sample grids of the
//! offline data pipeline and [`mesh`] the vertex-layout descriptors of the
//! renderer.
pub mod data_model;
pub mod executor;
pub mod frame_sequencer;
pub mod mesh;
mod ready_queue;
pub mod shader;
