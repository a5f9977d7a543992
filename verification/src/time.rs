//! Points in time and spans between them.

use vstd::prelude::*;

verus! {

/// A point in time: whole seconds since the Unix epoch and nanoseconds past them.
#[derive(Debug, Clone, Copy, PartialEq, Eq, Hash, Structural)]
pub struct Timestamp {
    /// Seconds since 1970-01-01T00:00:00Z, negative before it.
    pub seconds: i64,
    /// Nanoseconds into the second.
    pub nanos: u32,
}

/// A span of time: whole seconds and nanoseconds past them.
#[derive(Debug, Clone, Copy, PartialEq, Eq, Hash, Structural)]
pub struct Duration {
    /// Whole seconds, rounded down when the span is negative.
    pub seconds: i64,
    /// Nanoseconds past the whole seconds.
    pub nanos: u32,
}

/// Nanoseconds in a second.
pub const NANOS_PER_SECOND: i64 = 1_000_000_000;

/// Seconds in a day.
pub const SECONDS_PER_DAY: i64 = 86_400;

/// The first second of the calendar: the start of the year -262143.
pub const FIRST_SECOND: i64 = -8_334_601_228_800;

/// The last second of the calendar: the end of the year 262142.
pub const LAST_SECOND: i64 = 8_210_266_876_799;

impl Duration {
    /// A span of days.
    pub fn days(days: i32) -> (span: Duration)
        ensures
            span.seconds == days * SECONDS_PER_DAY,
            span.nanos == 0,
    {
        Duration { seconds: days as i64 * SECONDS_PER_DAY, nanos: 0 }
    }

    /// The length in nanoseconds.
    pub open spec fn length(self) -> int {
        self.seconds * NANOS_PER_SECOND + self.nanos
    }
}

impl Timestamp {
    /// Whether the instant lies within the calendar.
    pub open spec fn in_calendar(self) -> bool {
        FIRST_SECOND <= self.seconds <= LAST_SECOND
    }

    /// Whether `self` comes before `other`.
    pub open spec fn before(self, other: Timestamp) -> bool {
        self.seconds < other.seconds || (self.seconds == other.seconds && self.nanos < other.nanos)
    }

    /// The instant `span` later, or `None` when that is outside the calendar.
    pub open spec fn later(self, span: Duration) -> Option<Timestamp> {
        let nanos = self.nanos + span.nanos;
        let carry = if span.nanos == 0 {
            0
        } else {
            nanos / NANOS_PER_SECOND as int
        };
        let seconds = self.seconds + span.seconds + carry;
        if FIRST_SECOND <= seconds <= LAST_SECOND {
            Some(
                Timestamp {
                    seconds: seconds as i64,
                    nanos: (nanos - carry * NANOS_PER_SECOND) as u32,
                },
            )
        } else {
            None
        }
    }

    /// The instant in nanoseconds since the Unix epoch.
    pub open spec fn instant(self) -> int {
        self.seconds * NANOS_PER_SECOND + self.nanos
    }

    /// Whether the nanoseconds stay within the second: the instant is no leap second.
    pub open spec fn normal(self) -> bool {
        self.nanos < NANOS_PER_SECOND
    }

    /// The time from `earlier` to `self`, negative when `self` comes first.
    pub fn since(self, earlier: Timestamp) -> (span: Duration)
        requires
            self.in_calendar(),
            earlier.in_calendar(),
        ensures
            span.length() == self.instant() - earlier.instant(),
            span.nanos < NANOS_PER_SECOND,
    {
        // Five seconds more keep the nanoseconds from going below zero.
        let nanos: u64 = ((self.nanos as i64 - earlier.nanos as i64) + 5 * NANOS_PER_SECOND)
            as u64;
        let whole: u64 = nanos / NANOS_PER_SECOND as u64;
        let seconds: i64 = (self.seconds - earlier.seconds) + (whole as i64 - 5);
        Duration { seconds, nanos: (nanos % NANOS_PER_SECOND as u64) as u32 }
    }

    /// The instant at a number of seconds since the Unix epoch, or `None` when it
    /// is outside the calendar.
    pub open spec fn at_second(seconds: int) -> Option<Timestamp> {
        if FIRST_SECOND <= seconds <= LAST_SECOND {
            Some(Timestamp { seconds: seconds as i64, nanos: 0 })
        } else {
            None
        }
    }

    /// The instant at a number of seconds since the Unix epoch.
    pub fn from_seconds(seconds: i64) -> (at: Option<Timestamp>)
        ensures
            at == Timestamp::at_second(seconds as int),
    {
        if FIRST_SECOND <= seconds && seconds <= LAST_SECOND {
            Some(Timestamp { seconds, nanos: 0 })
        } else {
            None
        }
    }

    /// Whether `self` comes before `other`.
    pub fn is_before(self, other: Timestamp) -> (before: bool)
        ensures
            before == self.before(other),
    {
        self.seconds < other.seconds || (self.seconds == other.seconds && self.nanos < other.nanos)
    }

    /// The instant `span` later, or `None` when that is outside the calendar.
    pub fn plus(self, span: Duration) -> (at: Option<Timestamp>)
        ensures
            at == self.later(span),
    {
        let nanos: i64 = self.nanos as i64 + span.nanos as i64;
        let carry: i64 = if span.nanos == 0 {
            0
        } else {
            nanos / NANOS_PER_SECOND
        };
        let seconds: i128 = self.seconds as i128 + span.seconds as i128 + carry as i128;
        if FIRST_SECOND as i128 <= seconds && seconds <= LAST_SECOND as i128 {
            Some(
                Timestamp {
                    seconds: seconds as i64,
                    nanos: (nanos - carry * NANOS_PER_SECOND) as u32,
                },
            )
        } else {
            None
        }
    }

    /// The current time.
    pub fn now() -> (at: Timestamp)
        ensures
            at.in_calendar(),
    {
        clock()
    }
}

/// Reads the system clock with `chrono::Utc::now`. Whatever the clock says lies
/// within chrono's calendar; which instant it is depends on the machine.
#[verifier::external_body]
fn clock() -> (at: Timestamp)
    ensures
        at.in_calendar(),
{
    let now = chrono::Utc::now();
    Timestamp { seconds: now.timestamp(), nanos: now.timestamp_subsec_nanos() }
}

/// The seconds since the Unix epoch, and the nanoseconds past them, that an RFC 3339 text
/// names.
pub uninterp spec fn rfc3339_instant(text: Seq<char>) -> Option<(i64, u32)>;

/// Reads an RFC 3339 text with `chrono::DateTime::parse_from_rfc3339`: which instant it
/// names, if any, is a function of the text.
#[verifier::external_body]
pub(crate) fn parse_rfc3339(text: &str) -> (instant: Option<(i64, u32)>)
    ensures
        instant == rfc3339_instant(text@),
{
    match chrono::DateTime::parse_from_rfc3339(text) {
        Ok(at) => Some((at.timestamp(), at.timestamp_subsec_nanos())),
        Err(_) => None,
    }
}

/// Instants are ordered by the time since the epoch, and a span later is the span further
/// on, as far as the calendar goes.
pub proof fn law_time_goes_forward(at: Timestamp, other: Timestamp, span: Duration)
    requires
        at.normal(),
        other.normal(),
        span.nanos < NANOS_PER_SECOND,
    ensures
        at.before(other) <==> at.instant() < other.instant(),
        at.later(span) is Some ==> {
            &&& at.later(span)->Some_0.instant() == at.instant() + span.length()
            &&& at.later(span)->Some_0.normal()
            &&& at.later(span)->Some_0.in_calendar()
        },
        at.later(span) is None <==> !(FIRST_SECOND * NANOS_PER_SECOND <= at.instant()
            + span.length() < (LAST_SECOND + 1) * NANOS_PER_SECOND),
{
}

/// A number of seconds since the epoch names the instant that many seconds after it, when
/// the calendar has it.
pub proof fn law_seconds_count_from_the_epoch(seconds: int)
    ensures
        Timestamp::at_second(seconds) is Some <==> FIRST_SECOND <= seconds <= LAST_SECOND,
        Timestamp::at_second(seconds) is Some ==> Timestamp::at_second(seconds)->Some_0.instant()
            == seconds * NANOS_PER_SECOND,
{
}

} // verus!
