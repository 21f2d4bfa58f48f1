//! What the machine said of local time: the day that it gave a moment, and the moment at which it
//! said that a day has a time of day.
//!
//! Local time is a matter of the machine, and may be another one tomorrow. A value of these types
//! stands for one answer, together with the question. What it holds is known from the machine alone:
//! other modules read it and cannot make one up.

use crate::clock::Moment;
use vstd::prelude::*;

verus! {

/// The local day that the machine gave a moment.
#[derive(Debug, Clone, Copy)]
pub struct LocalDay {
    at: Moment,
    day: i64,
}

impl LocalDay {
    /// The moment that was asked about.
    pub closed spec fn moment(&self) -> Moment {
        self.at
    }

    /// The day that the machine gave it.
    pub closed spec fn number(&self) -> int {
        self.day as int
    }

    /// Notes what the machine answered. Nothing is stated here: that it is the machine's answer is
    /// for the caller to vouch for.
    pub(crate) fn note(at: Moment, day: i64) -> LocalDay {
        LocalDay { at, day }
    }

    /// The day that the machine gave the moment.
    pub fn day(&self) -> (r: i64)
        ensures
            r == self.number(),
    {
        self.day
    }
}

/// The moment at which the machine said that a day has a time of day, where it named one.
#[derive(Debug, Clone, Copy)]
pub struct LocalTime {
    day: i64,
    secs: u32,
    nanos: u32,
    moment: Option<Moment>,
}

impl LocalTime {
    /// Whether this is what the machine was asked: a day, and a time of day.
    pub closed spec fn asks(&self, day: int, secs: int, nanos: int) -> bool {
        self.day == day && self.secs == secs && self.nanos == nanos
    }

    /// The moment that it named.
    pub closed spec fn found(&self) -> Option<Moment> {
        self.moment
    }

    /// Notes what the machine answered. Nothing is stated here: that it is the machine's answer is
    /// for the caller to vouch for.
    pub(crate) fn note(day: i64, secs: u32, nanos: u32, moment: Option<Moment>) -> LocalTime {
        LocalTime { day, secs, nanos, moment }
    }

    /// The moment that the machine named.
    pub fn moment(&self) -> (r: Option<Moment>)
        ensures
            r == self.found(),
    {
        self.moment
    }
}

/// The moments that answers name.
pub open spec fn found_in(times: Seq<LocalTime>) -> Seq<Option<Moment>> {
    Seq::new(times.len(), |i: int| times[i].found())
}

/// Whether answers are to questions for a time of day on days, one for each day.
pub open spec fn asked(times: Seq<LocalTime>, days: Seq<int>, secs: int, nanos: int) -> bool {
    &&& times.len() == days.len()
    &&& forall|i: int| 0 <= i < times.len() ==> (#[trigger] times[i]).asks(days[i], secs, nanos)
}

} // verus!
