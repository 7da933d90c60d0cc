//! Correlation vectors: compact identifiers that track the causal ordering of
//! events across service boundaries.
//!
//! A correlation vector is a randomly generated base identity followed by a
//! dot-separated list of 32-bit counters, for example `wC71fJEqSPuHrPQ9ZoXrKg.0.3`.
//! The wire form is capped at 128 bytes; once a mutation would push the string
//! past the budget, the vector becomes immutable (marked by a trailing `!`) and
//! further mutations are dropped.

use vstd::prelude::*;

pub mod correlationvector;
pub mod correlationvectorparsererror;
pub mod decimal;
pub mod model;
pub mod parsing;
pub mod spinparams;
pub mod trusted;

pub use correlationvector::CorrelationVector;
pub use correlationvectorparsererror::{CorrelationVectorParseError, CounterParseError};
pub use spinparams::{SpinCounterInterval, SpinCounterPeriodicity, SpinEntropy, SpinParams};

verus! {

} // verus!
