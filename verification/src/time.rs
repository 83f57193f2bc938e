//! Which timestamp is asked for. The clock is read, and the text is made,
//! outside this library.

use crate::command::{TimestampCommand, TimestampFormat};
use vstd::prelude::*;

verus! {

/// How the current time is written.
#[derive(Debug, Clone, Copy, PartialEq, Eq, Structural)]
pub enum TimestampEncoding {
    /// Date and time of day as `YYYY-MM-DD HH:MM:SS`.
    Civil,
    /// The date and time format of RFC 3339.
    Rfc3339,
    /// The date and time format of RFC 2822.
    Rfc2822,
}

/// The time zone that is meant: the local one where none is named.
pub open spec fn zone_of(command: Option<TimestampCommand>) -> TimestampCommand {
    match command {
        Some(TimestampCommand::Utc) => TimestampCommand::Utc,
        Some(TimestampCommand::Local) => TimestampCommand::Local,
        None => TimestampCommand::Local,
    }
}

/// The encoding that is meant: the civil form where no format is named. ISO
/// 8601 is written in its RFC 3339 profile.
pub open spec fn encoding_of(format: Option<TimestampFormat>) -> TimestampEncoding {
    match format {
        Some(TimestampFormat::ISO8601) => TimestampEncoding::Rfc3339,
        Some(TimestampFormat::RFC2822) => TimestampEncoding::Rfc2822,
        Some(TimestampFormat::RFC3339) => TimestampEncoding::Rfc3339,
        None => TimestampEncoding::Civil,
    }
}

/// The time zone that is meant.
pub fn zone(command: Option<TimestampCommand>) -> (zone: TimestampCommand)
    ensures
        zone == zone_of(command),
{
    match command {
        Some(TimestampCommand::Utc) => TimestampCommand::Utc,
        Some(TimestampCommand::Local) => TimestampCommand::Local,
        None => TimestampCommand::Local,
    }
}

/// The encoding that is meant.
pub fn encoding(format: Option<TimestampFormat>) -> (encoding: TimestampEncoding)
    ensures
        encoding == encoding_of(format),
{
    match format {
        Some(TimestampFormat::ISO8601) => TimestampEncoding::Rfc3339,
        Some(TimestampFormat::RFC2822) => TimestampEncoding::Rfc2822,
        Some(TimestampFormat::RFC3339) => TimestampEncoding::Rfc3339,
        None => TimestampEncoding::Civil,
    }
}

} // verus!
