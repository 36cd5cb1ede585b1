//! The Host process protocol: identity, framing of the JSON-lines stream,
//! the checks every decoded frame passes, and the supervisor's states.
use vstd::prelude::*;

pub mod ledger;
pub mod protocol;
pub mod streams;
pub mod supervisor;

verus! {
} // verus!
