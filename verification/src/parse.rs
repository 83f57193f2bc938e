//! Reading a range of either kind: first as a half-open range, then as a
//! closed one; where the text is neither, both refusals are kept.

use crate::range::{
    bounds_error, error_text, is_parse_of, written_in, Grammar, ParseRangeError, Range,
    RangeInclusive,
};
use crate::text::trimmed;
use crate::width::Width;
use vstd::prelude::*;
use vstd::string::StringExecFns;

verus! {

/// A range of 128-bit integers, half-open or closed.
#[derive(Debug, Clone, PartialEq, Eq, Hash)]
pub enum BoundedRange {
    /// From `start` up to `end`, which is not part of the range.
    HalfOpen(Range<i128>),
    /// From `start` up to `end`, which is part of the range.
    Closed(RangeInclusive<i128>),
}

/// A text that is a range in neither grammar: first why it is no half-open
/// range, then why it is no closed one.
#[derive(Debug, Clone, PartialEq, Eq)]
pub struct ParseError(pub ParseRangeError, pub ParseRangeError);

impl BoundedRange {
    /// The least value that the range can hold.
    pub open spec fn low(&self) -> int {
        match self {
            BoundedRange::HalfOpen(range) => range.start as int,
            BoundedRange::Closed(range) => range.start as int,
        }
    }

    /// Whether `value` is part of the range.
    pub open spec fn holds(&self, value: int) -> bool {
        match self {
            BoundedRange::HalfOpen(range) => range.start <= value < range.end,
            BoundedRange::Closed(range) => range.start <= value <= range.end,
        }
    }

    /// Whether the range holds no value. A range whose end is below its start is
    /// empty, and so is a half-open range whose end is its start.
    pub open spec fn is_empty(&self) -> bool {
        match self {
            BoundedRange::HalfOpen(range) => range.start >= range.end,
            BoundedRange::Closed(range) => range.start > range.end,
        }
    }
}

/// What the error says: both refusals, each on a line of its own.
pub open spec fn both_texts(error: ParseError) -> Seq<char> {
    "The following errors occurred during parsing:\n\t"@ + error_text(error.0) + "\n\t"@
        + error_text(error.1)
}

impl ParseError {
    /// What the error says.
    pub fn message(&self) -> (text: String)
        ensures
            text@ == both_texts(*self),
    {
        let mut text = String::from_str("The following errors occurred during parsing:\n\t");
        text.append(self.0.message().as_str());
        text.append("\n\t");
        text.append(self.1.message().as_str());
        text
    }
}

/// Whether `text` is written in `grammar` with bounds that are values of `Idx`.
pub open spec fn readable<Idx: Width>(text: Seq<char>, grammar: Grammar) -> bool {
    written_in(trimmed(text), grammar) && bounds_error::<Idx>(trimmed(text), grammar) is None
}

/// The range that `value` stands for: the half-open range where it is one, else
/// the closed range where it is one, else both reasons why it is neither.
pub fn parse_range(value: &str) -> (outcome: Result<BoundedRange, ParseError>)
    ensures
        match outcome {
            Ok(BoundedRange::HalfOpen(range)) => is_parse_of(
                Ok((range.start, range.end)),
                value@,
                Grammar::HalfOpen,
            ),
            Ok(BoundedRange::Closed(range)) => !readable::<i128>(value@, Grammar::HalfOpen)
                && is_parse_of(Ok((range.start, range.end)), value@, Grammar::Closed),
            Err(ParseError(first, second)) => is_parse_of::<i128>(
                Err(first),
                value@,
                Grammar::HalfOpen,
            ) && is_parse_of::<i128>(Err(second), value@, Grammar::Closed),
        },
{
    let half_open = Range::<i128>::from_str(value);
    let closed = RangeInclusive::<i128>::from_str(value);
    match half_open {
        Ok(range) => Ok(BoundedRange::HalfOpen(range)),
        Err(first) => match closed {
            Ok(range) => Ok(BoundedRange::Closed(range)),
            Err(second) => Err(ParseError(first, second)),
        },
    }
}

} // verus!
