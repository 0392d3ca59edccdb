//! Watch policy, event normalization and dispatch decisions for a live
//! documentation rebuild: which paths to watch, which filesystem events count
//! as a change, and what the blocking dispatch loop does with each message.
use vstd::prelude::*;

pub mod dispatch;
pub mod event;
pub mod target;

verus! {

} // verus!
