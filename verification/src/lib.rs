//! Core of a UDP packet-capture pipeline: fixed-size payload records with a
//! binary wire codec, a reusable-buffer pool with a reset-on-reuse policy, a
//! gap-aware sequence-reconstruction state machine that keeps the emitted
//! counter sequence contiguous, multicast membership lifecycle tracking, and
//! the sink-side segmentation and budget decisions.

pub mod maybe_multicast_socket;
pub mod payload;
pub mod pipeline;
pub mod pool;
pub mod sink;

use vstd::prelude::*;

verus! {

} // verus!
