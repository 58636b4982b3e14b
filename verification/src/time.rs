//! Points in time as the protocol records and compares them.
use vstd::prelude::*;

verus! {

/// The first second that a calendar date is known for.
pub const FIRST_SECOND: i64 = -8334601228800;

/// The last second that a calendar date is known for.
pub const LAST_SECOND: i64 = 8210266876799;

/// The longest span, in seconds, that a timeout can have.
pub const LONGEST_SPAN: u64 = 9223372036854775;

/// A point in time: whole seconds since the start of 1970 in UTC, and nanoseconds on top of them.
/// A leap second counts as up to a billion further nanoseconds behind the last second of its
/// minute.
#[derive(Clone, Copy, Debug, PartialEq, Eq, PartialOrd, Ord, Hash, Structural)]
pub struct Timestamp {
    pub secs: i64,
    pub nanos: u32,
}

/// What `chrono::DateTime::parse_from_rfc3339` reads from a text, as seconds and nanoseconds of
/// UTC; nothing where it refuses the text.
pub uninterp spec fn rfc3339_reading(s: Seq<char>) -> Option<(i64, u32)>;

/// What `chrono::DateTime::to_rfc3339` writes for a point in time in UTC.
pub uninterp spec fn rfc3339_text(secs: i64, nanos: u32) -> Seq<char>;

/// A character of which written timestamps are made.
pub open spec fn is_stamp_char(c: char) -> bool {
    ('0' <= c <= '9') || c == '-' || c == '+' || c == ':' || c == '.' || c == 'T'
}

impl Timestamp {
    /// The calendar knows a date and a time of day for this point.
    pub open spec fn on_calendar(self) -> bool {
        &&& FIRST_SECOND <= self.secs <= LAST_SECOND
        &&& self.nanos < 1_000_000_000 || (self.nanos < 2_000_000_000 && self.secs as int % 60
            == 59)
    }

    /// The calendar knows a date and a time of day for this point, and it lies in no leap second:
    /// what a clock shows.
    pub open spec fn on_clock(self) -> bool {
        FIRST_SECOND <= self.secs <= LAST_SECOND && self.nanos < 1_000_000_000
    }

    /// The year has four digits and no sign.
    pub open spec fn in_plain_years(self) -> bool {
        -62167219200 <= self.secs <= 253402300799
    }

    /// This point lies before the other one.
    pub open spec fn earlier(self, other: Timestamp) -> bool {
        self.secs < other.secs || (self.secs == other.secs && self.nanos < other.nanos)
    }

    /// The seconds and nanoseconds that a span later shows. From within a leap second the clock
    /// goes on at the second that follows it.
    pub open spec fn moved(self, span: int) -> (int, int) {
        if self.nanos >= 1_000_000_000 && span > 0 {
            (self.secs + span, self.nanos - 1_000_000_000)
        } else {
            (self.secs + span, self.nanos as int)
        }
    }

    /// The span that starts here is over at `now`.
    pub open spec fn over_by(self, span: int, now: Timestamp) -> bool {
        let end = self.moved(span);
        end.0 < now.secs || (end.0 == now.secs && end.1 < now.nanos)
    }

    /// The nanoseconds from the other point to this one. A leap second counts where it lies
    /// between the times of day of the two points.
    pub open spec fn nanos_since(self, other: Timestamp) -> int {
        let here = self.secs as int % 86_400;
        let there = other.secs as int % 86_400;
        let leap: int = if here > there && other.nanos >= 1_000_000_000 {
            1
        } else if here < there && self.nanos >= 1_000_000_000 {
            -1
        } else {
            0
        };
        (self.secs - other.secs + leap) * 1_000_000_000 + self.nanos - other.nanos
    }

    /// The whole minutes from the other point to this one; none where it lies behind this one.
    pub open spec fn minutes_since(self, other: Timestamp) -> int {
        if self.nanos_since(other) < 0 {
            0
        } else {
            self.nanos_since(other) / 60_000_000_000
        }
    }

    /// The nanoseconds from the other point to this one.
    pub fn since(&self, other: &Timestamp) -> (r: i128)
        ensures
            r == self.nanos_since(*other),
    {
        let here: i128 = day_second(self.secs);
        let there: i128 = day_second(other.secs);
        let leap: i128 = if here > there && other.nanos >= 1_000_000_000 {
            1
        } else if here < there && self.nanos >= 1_000_000_000 {
            -1
        } else {
            0
        };
        (self.secs as i128 - other.secs as i128 + leap) * 1_000_000_000 + self.nanos as i128
            - other.nanos as i128
    }

    /// The whole minutes from the other point to this one; none where it lies behind this one.
    pub fn minutes(&self, other: &Timestamp) -> (r: i64)
        ensures
            r == self.minutes_since(*other),
    {
        let nanos: i128 = self.since(other);
        if nanos < 0 {
            0
        } else {
            (nanos / 60_000_000_000) as i64
        }
    }

    /// The second of the day.
    pub fn second_of_day(&self) -> (r: u32)
        ensures
            r == self.secs as int % 86_400,
            r < 86_400,
    {
        day_second(self.secs) as u32
    }

    /// The later of two points.
    pub open spec fn latest(self, other: Timestamp) -> Timestamp {
        if self.earlier(other) {
            other
        } else {
            self
        }
    }

    /// Whether this point lies before the other one.
    pub fn before(&self, other: &Timestamp) -> (r: bool)
        ensures
            r == self.earlier(*other),
    {
        self.secs < other.secs || (self.secs == other.secs && self.nanos < other.nanos)
    }

    /// Whether the span that starts here is over at `now`.
    pub fn expired(&self, span: u64, now: &Timestamp) -> (r: bool)
        ensures
            r == self.over_by(span as int, *now),
    {
        let end: i128 = self.secs as i128 + span as i128;
        let nanos: u32 = if self.nanos >= 1_000_000_000 && span > 0 {
            self.nanos - 1_000_000_000
        } else {
            self.nanos
        };
        end < now.secs as i128 || (end == now.secs as i128 && nanos < now.nanos)
    }
}

/// The second of the day.
fn day_second(secs: i64) -> (r: i128)
    ensures
        r == secs as int % 86_400,
{
    let wide: i128 = secs as i128 + 9_223_372_036_854_806_400;
    wide % 86_400
}

/// Whole seconds of a timeout; a span that is too long to be added to a date counts as none.
pub open spec fn usable_span(secs: u64) -> u64 {
    if secs > LONGEST_SPAN {
        0
    } else {
        secs
    }
}

/// Reads a timestamp in the form that RFC 3339 gives, by
/// `chrono::DateTime::parse_from_rfc3339`, and converts it to UTC. What it reads is a point
/// that the calendar knows.
#[verifier::external_body]
pub(crate) fn read_rfc3339(s: &str) -> (r: Option<Timestamp>)
    ensures
        match r {
            Some(t) => rfc3339_reading(s@) == Some((t.secs, t.nanos)) && t.on_calendar(),
            None => rfc3339_reading(s@) is None,
        },
{
    let read = chrono::DateTime::parse_from_rfc3339(s).ok()?;
    Some(Timestamp { secs: read.timestamp(), nanos: read.timestamp_subsec_nanos() })
}

/// Writes a timestamp in UTC by `chrono::DateTime::to_rfc3339`. The text holds digits, `-`, `+`,
/// `:`, `.` and `T` only, and reading it gives the same point back where the year has four
/// digits and no sign.
#[verifier::external_body]
pub(crate) fn write_rfc3339(t: &Timestamp) -> (r: String)
    requires
        t.on_calendar(),
    ensures
        r@ == rfc3339_text(t.secs, t.nanos),
        r@.len() > 0,
        forall|i: int| 0 <= i < r@.len() ==> is_stamp_char(#[trigger] r@[i]),
        t.in_plain_years() ==> rfc3339_reading(r@) == Some((t.secs, t.nanos)),
{
    let date = chrono::DateTime::<chrono::Utc>::from_timestamp(t.secs, t.nanos);
    date.expect("a point that the calendar knows").to_rfc3339()
}

/// A span of time to wait for.
#[derive(Clone, Copy, Debug, PartialEq, Eq, PartialOrd, Ord, Hash, Structural)]
pub struct Delay {
    pub secs: u64,
    /// Nanoseconds on top of the seconds, fewer than a billion.
    pub nanos: u32,
}

impl Delay {
    /// Whole milliseconds.
    pub open spec fn millis(self) -> int {
        self.secs * 1000 + self.nanos / 1_000_000
    }

    /// Nanoseconds in all.
    pub open spec fn total(self) -> int {
        self.secs * 1_000_000_000 + self.nanos
    }

    /// A delay that is given as milliseconds.
    pub open spec fn of_millis(millis: u64) -> Delay {
        Delay { secs: millis / 1000, nanos: ((millis % 1000) * 1_000_000) as u32 }
    }

    /// A delay of whole seconds.
    pub fn from_secs(secs: u64) -> (r: Delay)
        ensures
            r == (Delay { secs, nanos: 0 }),
    {
        Delay { secs, nanos: 0 }
    }

    /// A delay of whole milliseconds.
    pub fn from_millis(millis: u64) -> (r: Delay)
        ensures
            r == Delay::of_millis(millis),
            r.millis() == millis,
            r.nanos < 1_000_000_000,
    {
        Delay { secs: millis / 1000, nanos: ((millis % 1000) * 1_000_000) as u32 }
    }

    /// Whole milliseconds.
    pub fn as_millis(&self) -> (r: u128)
        ensures
            r == self.millis(),
    {
        self.secs as u128 * 1000 + (self.nanos / 1_000_000) as u128
    }

    /// Whether this delay is longer than the other one.
    pub fn longer(&self, other: &Delay) -> (r: bool)
        requires
            self.nanos < 1_000_000_000,
            other.nanos < 1_000_000_000,
        ensures
            r == (self.total() > other.total()),
    {
        self.secs > other.secs || (self.secs == other.secs && self.nanos > other.nanos)
    }
}

} // verus!
