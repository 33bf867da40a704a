//! A dataflow-graph runtime for real-time, multi-stage pipelines.
//!
//! Independently clocked producers feed processing stages that must receive
//! temporally consistent combined inputs despite differing production rates.
//! The crate models packets with logical timestamps, bounded channel slots,
//! synchronization policies that decide which packets combine into one input,
//! and a graph that owns nodes, links and the start/stop lifecycle.

pub mod channel;
pub mod error;
pub mod graph;
pub mod node;
pub mod packet;
pub mod sync;
pub mod utils;
pub mod version;
