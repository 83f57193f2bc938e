//! How much the program reports of its own work.

use vstd::prelude::*;

verus! {

/// The switches that choose what the program reports. At most one is meant to
/// be set; where more are, the quieter one wins.
#[derive(Debug, Clone, Copy, PartialEq, Eq, PartialOrd, Ord, Structural)]
pub struct Verbosity {
    /// Report nothing, not even errors.
    pub silent: bool,
    /// Report errors only.
    pub quiet: bool,
    /// Report what is of general interest, besides warnings and errors.
    pub verbose: bool,
    /// Report what helps to find a fault.
    pub debug: bool,
    /// Report every step.
    pub trace: bool,
}

/// The levels of a report, from none to all.
#[derive(Debug, Clone, Copy, PartialEq, Eq, Structural)]
pub enum LevelFilter {
    Off,
    Error,
    Warn,
    Info,
    Debug,
    Trace,
}

/// The level that the switches choose: nothing where `silent` is set; errors
/// where `quiet` is; warnings where no switch is set; else the level of the
/// first of `verbose`, `debug` and `trace` that is set.
pub open spec fn level_of(value: Verbosity) -> LevelFilter {
    if value.silent {
        LevelFilter::Off
    } else if value.quiet {
        LevelFilter::Error
    } else if value.verbose {
        LevelFilter::Info
    } else if value.debug {
        LevelFilter::Debug
    } else if value.trace {
        LevelFilter::Trace
    } else {
        LevelFilter::Warn
    }
}

impl LevelFilter {
    /// The place of the level, counted from `Off`.
    pub open spec fn rank(&self) -> int {
        match self {
            LevelFilter::Off => 0,
            LevelFilter::Error => 1,
            LevelFilter::Warn => 2,
            LevelFilter::Info => 3,
            LevelFilter::Debug => 4,
            LevelFilter::Trace => 5,
        }
    }

    /// The place of the level, counted from `Off`.
    pub fn place(&self) -> (rank: u8)
        ensures
            rank == self.rank(),
    {
        match self {
            LevelFilter::Off => 0,
            LevelFilter::Error => 1,
            LevelFilter::Warn => 2,
            LevelFilter::Info => 3,
            LevelFilter::Debug => 4,
            LevelFilter::Trace => 5,
        }
    }
}

impl Verbosity {
    /// The level that the switches choose.
    pub fn level(&self) -> (level: LevelFilter)
        ensures
            level == level_of(*self),
    {
        if self.silent {
            LevelFilter::Off
        } else if self.quiet {
            LevelFilter::Error
        } else if self.verbose {
            LevelFilter::Info
        } else if self.debug {
            LevelFilter::Debug
        } else if self.trace {
            LevelFilter::Trace
        } else {
            LevelFilter::Warn
        }
    }
}

impl From<Verbosity> for LevelFilter {
    fn from(value: Verbosity) -> (level: LevelFilter) {
        value.level()
    }
}

impl vstd::std_specs::convert::FromSpecImpl<Verbosity> for LevelFilter {
    open spec fn obeys_from_spec() -> bool {
        true
    }

    open spec fn from_spec(value: Verbosity) -> LevelFilter {
        level_of(value)
    }
}

impl From<&Verbosity> for LevelFilter {
    fn from(value: &Verbosity) -> (level: LevelFilter) {
        value.level()
    }
}

impl vstd::std_specs::convert::FromSpecImpl<&Verbosity> for LevelFilter {
    open spec fn obeys_from_spec() -> bool {
        true
    }

    open spec fn from_spec(value: &Verbosity) -> LevelFilter {
        level_of(*value)
    }
}

/// Whether a message of level `event` is reported plainly under `chosen`: it
/// is, where it is no more detailed than the chosen level, and no step of a
/// trace.
pub fn reported_plainly(chosen: LevelFilter, event: LevelFilter) -> (yes: bool)
    ensures
        yes == (event.rank() <= chosen.rank() && event.rank() <= LevelFilter::Debug.rank()),
{
    event.place() <= chosen.place() && event.place() <= 4
}

/// Whether a message of level `event` is reported in full under `chosen`: it
/// is, where every step is asked for and the message is more detailed than
/// what is of general interest.
pub fn reported_in_full(chosen: LevelFilter, event: LevelFilter) -> (yes: bool)
    ensures
        yes == (chosen == LevelFilter::Trace && event.rank() > LevelFilter::Info.rank()),
{
    chosen.place() == 5 && event.place() > 3
}

} // verus!
