//! What the circuit breakers of the providers are told.
//!
//! The breakers themselves belong to the caller. It asks them whether a provider
//! may be called, and passes on to them, in order, the notes that it is given.
use crate::error::LlmError;
use vstd::prelude::*;

verus! {

/// The reason that is given for a call that an open circuit forbids.
pub const CIRCUIT_OPEN_REASON: &'static str = "circuit breaker ouvert";

/// How a call to a provider went: well, or with a failure.
#[derive(Debug)]
pub struct BreakerNote {
    pub provider: String,
    pub failure: Option<LlmError>,
}

} // verus!
