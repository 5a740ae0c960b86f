//! A verified model of a validator node's availability store: full available
//! data and erasure chunks, their pruning queues, and the lifetime rules that
//! move each record from stored to included to finalized and finally prune it.
use vstd::prelude::*;

pub mod delay;
pub mod error;
pub mod record;
pub mod queue;
pub mod column;
pub mod store;
pub mod codec;
pub mod laws;

verus! {

} // verus!
