//! Forecast brief contract logic: input validation, deterministic seeds,
//! text cleanup of model replies, probability extraction and brief assembly.

pub mod brief;
pub mod forecast;
pub mod hash;
pub mod json;
pub mod number;
pub mod openrouter;
pub mod reply;
pub mod scan;
pub mod text;

use vstd::prelude::*;

verus! {

/// Version string reported in every brief's metadata.
pub const CONTRACT_VERSION: &'static str = "0.1.1";

} // verus!
