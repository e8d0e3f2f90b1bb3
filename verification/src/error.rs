//! The ways in which a resolution pass can fail.

use vstd::prelude::*;

verus! {

/// Why a schedule could not be turned into a cycle, or solar times could not
/// be had. The three faults of the schedule text name the line they were
/// found on, counted from zero.
#[derive(Clone, Copy, Debug, PartialEq, Eq, Structural, Hash)]
pub enum CycleError {
    /// A line has no `=` between anchor and paths, or nothing after it.
    MalformedSchedule { line: usize },
    /// An anchor's hour and minute are not two numbers within 0-23 and 0-59.
    InvalidTimeLiteral { line: usize },
    /// A symbolic anchor names a shortcut that stands for no solar event.
    UnknownSolarShortcut { line: usize },
    /// The schedule holds no entry.
    EmptySchedule,
    /// Two entries share one time of day, so the span between them is empty.
    DegenerateCycle,
    /// The solar readings are incomplete or unreadable; the caller is meant
    /// to go on with the fallback times written in the schedule.
    SolarDataUnavailable,
}

} // verus!
