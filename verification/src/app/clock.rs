//! Points in time.

use vstd::prelude::*;

verus! {

/// A point in time: seconds since the Unix epoch, and nanoseconds behind them. A
/// leap second counts as a billion nanoseconds behind the second before it.
#[derive(Debug, Clone, Copy, PartialEq, Eq, Structural)]
pub struct Instant {
    pub secs: i64,
    pub nanos: u32,
}

/// No calendar date lies farther from the epoch, in seconds.
pub const SECS_LIMIT: i64 = 9_000_000_000_000;

pub const NANOS_PER_SEC: u32 = 1_000_000_000;

impl Instant {
    /// Whether the instant is one of the calendar.
    pub open spec fn wf(self) -> bool {
        -SECS_LIMIT <= self.secs <= SECS_LIMIT && self.nanos < 2 * NANOS_PER_SEC
    }

    pub open spec fn before(self, other: Instant) -> bool {
        self.secs < other.secs || (self.secs == other.secs && self.nanos < other.nanos)
    }

    pub fn is_before(self, other: Instant) -> (r: bool)
        ensures
            r == self.before(other),
    {
        self.secs < other.secs || (self.secs == other.secs && self.nanos < other.nanos)
    }

    /// Seconds that the leap second of one of the two instants adds to their distance.
    pub open spec fn leap_adjustment(self, earlier: Instant) -> int {
        let a = self.secs as int % 86400;
        let b = earlier.secs as int % 86400;
        if a > b && earlier.nanos >= NANOS_PER_SEC {
            1
        } else if a < b && self.nanos >= NANOS_PER_SEC {
            -1
        } else {
            0
        }
    }

    /// Whole seconds from `earlier` to this instant; a fraction is dropped.
    pub open spec fn secs_after(self, earlier: Instant) -> int {
        let fraction = self.nanos - earlier.nanos;
        let whole = self.secs - earlier.secs + self.leap_adjustment(earlier) + fraction
            / NANOS_PER_SEC as int;
        if whole < 0 && fraction % (NANOS_PER_SEC as int) > 0 {
            whole + 1
        } else {
            whole
        }
    }

    /// Whole seconds from `earlier` to this instant.
    pub fn seconds_since(self, earlier: Instant) -> (r: i64)
        requires
            self.wf(),
            earlier.wf(),
        ensures
            r == self.secs_after(earlier),
            -2 * SECS_LIMIT - 4 <= r <= 2 * SECS_LIMIT + 4,
    {
        let a: i64 = second_of_day(self.secs);
        let b: i64 = second_of_day(earlier.secs);
        let adjustment: i64 = if a > b && earlier.nanos >= NANOS_PER_SEC {
            1
        } else if a < b && self.nanos >= NANOS_PER_SEC {
            -1
        } else {
            0
        };
        let fraction: i64 = self.nanos as i64 - earlier.nanos as i64;
        // Floor of the fraction in seconds, and what is left of it.
        let shifted: i64 = fraction + 2_000_000_000;
        let carry: i64 = shifted / 1_000_000_000 - 2;
        let left: i64 = shifted % 1_000_000_000;
        proof {
            assert(shifted as int / 1_000_000_000 == fraction as int / 1_000_000_000 + 2);
            assert(shifted as int % 1_000_000_000 == fraction as int % 1_000_000_000);
        }
        let whole: i64 = self.secs - earlier.secs + adjustment + carry;
        if whole < 0 && left > 0 {
            whole + 1
        } else {
            whole
        }
    }
}

/// The second of the day of a time in seconds since the epoch.
pub fn second_of_day(secs: i64) -> (r: i64)
    ensures
        r == secs as int % 86400,
{
    if secs >= 0 {
        secs % 86400
    } else {
        // -1 - secs is not negative, and its remainder counts down where that of
        // secs counts up.
        let mirrored: i64 = -1 - secs;
        86399 - mirrored % 86400
    }
}

/// What `chrono::DateTime::parse_from_rfc3339` reads from a text, as seconds since
/// the epoch and nanoseconds behind them; `None` where it returns an error.
pub uninterp spec fn rfc3339_parsed(text: Seq<char>) -> Option<(i64, u32)>;

/// Calls `chrono::DateTime::parse_from_rfc3339`, and takes the result's timestamp
/// and nanoseconds. The result is named; chrono's calendar bounds it, and
/// nanoseconds stay below two billion, a leap second included.
#[verifier::external_body]
fn parse_rfc3339(text: &str) -> (r: Option<(i64, u32)>)
    ensures
        r == rfc3339_parsed(text@),
        r matches Some(t) ==> -SECS_LIMIT <= t.0 <= SECS_LIMIT && t.1 < 2 * NANOS_PER_SEC,
{
    chrono::DateTime::parse_from_rfc3339(text).ok().map(|t| {
        (t.timestamp(), t.timestamp_subsec_nanos())
    })
}

/// The instant that an RFC 3339 text denotes.
pub open spec fn instant_of(text: Seq<char>) -> Option<Instant> {
    match rfc3339_parsed(text) {
        Some(t) => Some(Instant { secs: t.0, nanos: t.1 }),
        None => None,
    }
}

/// Reads an RFC 3339 time.
pub fn parse_instant(text: &str) -> (r: Option<Instant>)
    ensures
        r == instant_of(text@),
        r matches Some(t) ==> t.wf(),
{
    match parse_rfc3339(text) {
        Some(t) => Some(Instant { secs: t.0, nanos: t.1 }),
        None => None,
    }
}

/// The distance of two instants is the time between them in whole seconds, a fraction
/// dropped: it never exceeds that time, and falls short of it by less than a second.
pub proof fn law_seconds_between(later: Instant, earlier: Instant)
    requires
        later.nanos < NANOS_PER_SEC,
        earlier.nanos < NANOS_PER_SEC,
    ensures
        ({
            let nanos = (later.secs - earlier.secs) * 1_000_000_000 + later.nanos - earlier.nanos;
            let secs = later.secs_after(earlier);
            &&& nanos >= 0 ==> secs * 1_000_000_000 <= nanos < (secs + 1) * 1_000_000_000
            &&& nanos <= 0 ==> (secs - 1) * 1_000_000_000 < nanos <= secs * 1_000_000_000
        }),
{
    let fraction = later.nanos - earlier.nanos;
    assert(fraction == (fraction / 1_000_000_000) * 1_000_000_000 + fraction % 1_000_000_000);
}

/// An instant comes before another where less time has passed until it.
pub proof fn law_earlier_means_less_time(a: Instant, b: Instant)
    requires
        a.nanos < NANOS_PER_SEC,
        b.nanos < NANOS_PER_SEC,
    ensures
        a.before(b) <==> a.secs * 1_000_000_000 + a.nanos < b.secs * 1_000_000_000 + b.nanos,
{
}

} // verus!
