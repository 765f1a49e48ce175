//! Bounded single-producer/single-consumer ring buffers that move batches of
//! elements, in three storage strategies, with a small owning stack alongside.
use vstd::prelude::*;

pub mod model;
pub mod ringbuffer;
pub mod ringbuffer_ts;
pub mod ringbuffer_ts_g;
pub mod stack;

verus! {

} // verus!
