//! Instants on the UTC time line and the time between them.
use chrono::{DateTime, Utc};
use vstd::prelude::*;

verus! {

/// The first second that a calendar date can be given for.
pub const FIRST_SECOND: i64 = -8_334_601_228_800;

/// The last second that a calendar date can be given for.
pub const LAST_SECOND: i64 = 8_210_266_876_799;

pub const NANOS_PER_SECOND: u32 = 1_000_000_000;

/// An instant: whole seconds since the start of 1970 and the nanoseconds after that.
#[derive(Clone, Copy, Debug, PartialEq, Eq)]
pub struct Timestamp {
    seconds: i64,
    subsec_nanos: u32,
}

impl Timestamp {
    /// The instant lies in the range of calendar dates.
    #[verifier::type_invariant]
    closed spec fn wf(self) -> bool {
        &&& FIRST_SECOND <= self.seconds <= LAST_SECOND
        &&& self.subsec_nanos < NANOS_PER_SECOND
    }

    /// Whole seconds since the start of 1970.
    pub closed spec fn second(self) -> int {
        self.seconds as int
    }

    /// Nanoseconds since the start of 1970.
    pub closed spec fn nanos(self) -> int {
        self.seconds * NANOS_PER_SECOND + self.subsec_nanos
    }

    /// The instant at a second and a nanosecond within it, if a calendar date can be
    /// given for it.
    pub fn at(seconds: i64, subsec_nanos: u32) -> (r: Option<Timestamp>)
        ensures
            match r {
                Some(t) => t.nanos() == seconds * 1_000_000_000 + subsec_nanos && t.second() == seconds,
                None => !(FIRST_SECOND <= seconds <= LAST_SECOND) || subsec_nanos >= 1_000_000_000,
            },
    {
        if FIRST_SECOND <= seconds && seconds <= LAST_SECOND && subsec_nanos < NANOS_PER_SECOND {
            Some(Timestamp { seconds, subsec_nanos })
        } else {
            None
        }
    }

    /// Whole seconds since the start of 1970.
    pub fn seconds(&self) -> (r: i64)
        ensures
            r == self.second(),
    {
        self.seconds
    }
}

/// `n / d` without its fraction.
pub open spec fn whole(n: int, d: int) -> int {
    if n < 0 {
        -((-n) / d)
    } else {
        n / d
    }
}

/// The whole seconds from `earlier` to `later`; negative where `later` comes first.
pub open spec fn seconds_between(later: Timestamp, earlier: Timestamp) -> int {
    whole(later.nanos() - earlier.nanos(), 1_000_000_000)
}

/// The whole milliseconds from `earlier` to `later`.
pub open spec fn millis_between(later: Timestamp, earlier: Timestamp) -> int {
    whole(later.nanos() - earlier.nanos(), 1_000_000)
}

/// `Utc::now` of the `chrono` crate reads the system clock. Nothing is said of the
/// instant that it gives.
#[verifier::external_body]
pub(crate) fn utc_now() -> (t: Timestamp) {
    let now = Utc::now();
    Timestamp { seconds: now.timestamp(), subsec_nanos: now.timestamp_subsec_nanos() }
}

/// `DateTime::signed_duration_since` of the `chrono` crate gives the time from one
/// instant to another, and `TimeDelta::num_seconds` its whole seconds.
#[verifier::external_body]
pub(crate) fn elapsed_seconds(later: Timestamp, earlier: Timestamp) -> (r: i64)
    ensures
        r == seconds_between(later, earlier),
{
    let to = DateTime::from_timestamp(later.seconds, later.subsec_nanos).unwrap();
    let from = DateTime::from_timestamp(earlier.seconds, earlier.subsec_nanos).unwrap();
    to.signed_duration_since(from).num_seconds()
}

/// `DateTime::signed_duration_since` of the `chrono` crate gives the time from one
/// instant to another, and `TimeDelta::num_milliseconds` its whole milliseconds.
#[verifier::external_body]
pub(crate) fn elapsed_millis(later: Timestamp, earlier: Timestamp) -> (r: i64)
    ensures
        r == millis_between(later, earlier),
{
    let to = DateTime::from_timestamp(later.seconds, later.subsec_nanos).unwrap();
    let from = DateTime::from_timestamp(earlier.seconds, earlier.subsec_nanos).unwrap();
    to.signed_duration_since(from).num_milliseconds()
}

/// The calendar date of a second, as year, month and day with dots between.
pub uninterp spec fn dotted_date(second: int) -> Seq<char>;

/// `DateTime::format` of the `chrono` crate with the pattern `%Y.%m.%d` writes the
/// calendar date, which the second alone decides.
#[verifier::external_body]
pub(crate) fn date_label(t: Timestamp) -> (r: String)
    ensures
        r@ == dotted_date(t.second()),
{
    DateTime::from_timestamp(t.seconds, t.subsec_nanos).unwrap().format("%Y.%m.%d").to_string()
}

/// So many whole seconds lie between two instants as fit into the time between them, and
/// so many whole milliseconds; the other way round they count as negative.
pub proof fn law_whole_units_fit_between(later: Timestamp, earlier: Timestamp)
    ensures
        ({
            let nanos = later.nanos() - earlier.nanos();
            let seconds = seconds_between(later, earlier);
            let millis = millis_between(later, earlier);
            &&& nanos >= 0 ==> seconds * 1_000_000_000 <= nanos < (seconds + 1) * 1_000_000_000
            &&& nanos >= 0 ==> millis * 1_000_000 <= nanos < (millis + 1) * 1_000_000
            &&& seconds_between(earlier, later) == -seconds
            &&& millis_between(earlier, later) == -millis
        }),
{
}

} // verus!
