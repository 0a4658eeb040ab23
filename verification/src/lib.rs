//! A reactor core for batched asynchronous I/O over a submission ring and a
//! completion ring: a correlation table maps numeric tags to per-operation
//! life-cycle entries, a driver submits operations under a single-retry
//! backpressure policy and dispatches drained completions, and a two-phase
//! operation adapter (build, then submit) yields a pollable in-flight handle
//! that is safe to abandon at any point before it resolves.

use vstd::prelude::*;

pub mod driver;
pub mod notify;
pub mod ops;
pub mod record;
pub mod ring;
pub mod table;

verus! {

pub use crate::record::CompletionRecord;

} // verus!
