//! A quorum-based agreement node library: authenticated message envelopes,
//! a byte-level wire codec, the per-node broadcast/echo protocol engine, and
//! the synchronizer that drives an experiment across a fixed replica set.

pub mod codec;
pub mod config;
pub mod context;
pub mod crypto;
pub mod median;
pub mod msg;
pub mod sync;
pub mod syncer;
pub mod traits;
