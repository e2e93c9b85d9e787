//! Approximate location of DNA windows: symbol encoding, a seed index,
//! pigeonhole seed-and-verify matching and the counters of a sampling run.
use vstd::prelude::*;

pub mod encoding;
pub mod index;
pub mod matcher;
pub mod comparison;
pub mod simulation;
pub mod cache;

verus! {

} // verus!
