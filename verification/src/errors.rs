//! Error kinds shared by the parsing and scheduling functions.

use vstd::prelude::*;

verus! {

/// What can go wrong when parsing a schedule or searching for its next firing
/// instant.
#[derive(Clone, Copy, PartialEq, Eq, Structural, Debug)]
pub enum CronError {
    /// A field does not follow the cron field grammar.
    InvalidFieldSyntax,
    /// A field parsed, but one of its values lies outside the slot's range.
    ValueOutOfRange,
    /// The bounded next-occurrence search exhausted its probe budget.
    ScheduleUnsatisfiable,
    /// An instant falls outside the representable calendar range.
    TimeOutOfRange,
}

impl CronError {
    /// A short token naming the error, for reports and logs.
    pub fn as_text(&self) -> (r: &'static str)
        ensures
            r@ == match self {
                CronError::InvalidFieldSyntax => "invalid field syntax"@,
                CronError::ValueOutOfRange => "value out of range"@,
                CronError::ScheduleUnsatisfiable => "schedule unsatisfiable"@,
                CronError::TimeOutOfRange => "time out of range"@,
            },
    {
        match self {
            CronError::InvalidFieldSyntax => "invalid field syntax",
            CronError::ValueOutOfRange => "value out of range",
            CronError::ScheduleUnsatisfiable => "schedule unsatisfiable",
            CronError::TimeOutOfRange => "time out of range",
        }
    }
}

} // verus!
