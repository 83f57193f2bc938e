//! Random integers within a range.

use crate::decimal::{decimal_text, format_decimal};
use crate::entropy::EntropySource;
use crate::error::SampleError;
use crate::parse::BoundedRange;
use vstd::prelude::*;

verus! {

/// One integer of `range` drawn from `source`, each with the same chance. A
/// range that holds no integer has nothing to give, and the source is then left
/// as it was.
pub fn sample_integer(source: &mut EntropySource, range: &BoundedRange) -> (outcome: Result<
    i128,
    SampleError,
>)
    ensures
        outcome is Ok <==> !range.is_empty(),
        outcome matches Ok(value) ==> range.holds(value as int),
        outcome matches Err(error) ==> error == SampleError::EmptyRange && *final(source) == *old(
            source,
        ),
{
    match range {
        BoundedRange::HalfOpen(range) => source.uniform_integer(range.start, range.end, false),
        BoundedRange::Closed(range) => source.uniform_integer(range.start, range.end, true),
    }
}

/// The decimal text of a random integer of `range`: no leading zeros, and a
/// minus sign only in front of a value below zero. A range that holds no
/// integer gives an error, never a value next to it.
pub fn random_integer(range: &BoundedRange) -> (outcome: Result<Vec<u8>, SampleError>)
    ensures
        outcome is Ok <==> !range.is_empty(),
        outcome matches Ok(text) ==> exists|value: int|
            range.holds(value) && text@ == #[trigger] decimal_text(value),
        outcome matches Err(error) ==> error == SampleError::EmptyRange,
{
    let mut source = EntropySource::new_stream();
    match sample_integer(&mut source, range) {
        Ok(value) => {
            let text = format_decimal(value);
            assert(range.holds(value as int) && text@ == decimal_text(value as int));
            Ok(text)
        },
        Err(error) => Err(error),
    }
}

} // verus!
