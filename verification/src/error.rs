//! What can go wrong when a value is sampled.

use vstd::prelude::*;
use vstd::string::StringExecFns;

verus! {

/// A sample was asked of a domain that holds nothing.
#[derive(Debug, Clone, Copy, PartialEq, Eq, Structural)]
pub enum SampleError {
    /// The alphabet or the word list is empty.
    EmptyDomain,
    /// The range of integers holds no value.
    EmptyRange,
}

/// What an error says.
pub open spec fn sample_error_text(error: SampleError) -> Seq<char> {
    match error {
        SampleError::EmptyDomain => "nothing can be drawn from an empty alphabet or word list"@,
        SampleError::EmptyRange => "nothing can be drawn from a range that holds no integer"@,
    }
}

impl SampleError {
    /// What the error says.
    pub fn message(&self) -> (text: String)
        ensures
            text@ == sample_error_text(*self),
    {
        match self {
            SampleError::EmptyDomain => String::from_str(
                "nothing can be drawn from an empty alphabet or word list",
            ),
            SampleError::EmptyRange => String::from_str(
                "nothing can be drawn from a range that holds no integer",
            ),
        }
    }
}

} // verus!
