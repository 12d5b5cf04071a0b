//! Validation of values built from user input.
use vstd::prelude::*;

verus! {

#[verifier::external_type_specification]
#[verifier::external_body]
pub struct ExAnyhowError(anyhow::Error);

/// A value that can check itself and hand back a valid copy.
pub trait Validation {
    fn validate(&self) -> Result<Self, anyhow::Error> where Self: Sized;
}

} // verus!
