use vstd::prelude::*;

verus! {

/// The local wall-clock instant broken into the plain components the
/// snapshot filename is built from.
#[derive(Clone, Copy, PartialEq, Eq, Structural, Debug)]
pub struct LocalTimeParts {
    pub day: u32,
    pub month: u32,
    pub year: i32,
    pub pm: bool,
    pub hour12: u32,
    pub minute: u32,
}

impl LocalTimeParts {
    /// The component ranges of a civil local time, with the year limited to
    /// four decimal digits as the filename format writes it.
    pub open spec fn wf(self) -> bool {
        &&& 1 <= self.day <= 31
        &&& 1 <= self.month <= 12
        &&& 0 <= self.year <= 9999
        &&& 1 <= self.hour12 <= 12
        &&& self.minute <= 59
    }
}

/// Relies on chrono::Utc::now and chrono::DateTime::timestamp: the current
/// unix time in whole seconds. Depends on the wall clock, so nothing is
/// promised of the value.
#[verifier::external_body]
pub(crate) fn unix_now_seconds() -> i64 {
    chrono::Utc::now().timestamp()
}

/// Relies on chrono::Local::now and the chrono::Datelike / chrono::Timelike
/// accessors day, month, year, hour12 and minute, whose documented ranges are
/// day 1-31, month 1-12, hour12 1-12 and minute 0-59. The year depends on the
/// wall clock and carries no promise.
#[verifier::external_body]
pub(crate) fn local_now_parts() -> (r: LocalTimeParts)
    ensures
        1 <= r.day <= 31,
        1 <= r.month <= 12,
        1 <= r.hour12 <= 12,
        r.minute <= 59,
{
    let now = chrono::Local::now();
    let (pm, hour12) = chrono::Timelike::hour12(&now);
    LocalTimeParts {
        day: chrono::Datelike::day(&now),
        month: chrono::Datelike::month(&now),
        year: chrono::Datelike::year(&now),
        pm,
        hour12,
        minute: chrono::Timelike::minute(&now),
    }
}

} // verus!
