//! Keeps requests to the host apart.
use crate::paths;
use crate::text;
use crate::time::{Delay, Timestamp};
use vstd::prelude::*;
use vstd::string::*;

verus! {

/// The name of the file that holds the time of the last request.
pub const THROTTLE_FILE_NAME: &'static str = ".polyresearch-throttle";

/// How far requests are kept apart, and where the time of the last one is kept.
#[derive(Debug)]
pub struct RequestThrottle {
    pub request_delay: Delay,
    pub state_path: String,
}

/// Where the time of the last request is kept: in the home directory where there is one, else
/// among temporary files.
pub open spec fn state_path(home: Option<&str>, temp_dir: Seq<char>) -> Seq<char> {
    match home {
        Some(h) if h@.len() > 0 => paths::joined(h@, THROTTLE_FILE_NAME@),
        _ => paths::joined(temp_dir, THROTTLE_FILE_NAME@),
    }
}

/// Where the time of the last request is kept.
pub fn default_state_path(home: Option<&str>, temp_dir: &str) -> (r: String)
    ensures
        r@ == state_path(home, temp_dir@),
{
    match home {
        Some(h) => {
            if h.unicode_len() > 0 {
                return paths::join(h, THROTTLE_FILE_NAME);
            }
        },
        None => {},
    }
    paths::join(temp_dir, THROTTLE_FILE_NAME)
}

/// Sets up how far requests are kept apart.
pub fn init(request_delay_ms: u64, home: Option<&str>, temp_dir: &str) -> (r: RequestThrottle)
    ensures
        r.request_delay == Delay::of_millis(request_delay_ms),
        r.state_path@ == state_path(home, temp_dir@),
{
    RequestThrottle {
        request_delay: Delay::from_millis(request_delay_ms),
        state_path: default_state_path(home, temp_dir),
    }
}

/// Milliseconds since the start of 1970 as a point in time.
pub open spec fn at_millis(millis: nat) -> Timestamp {
    Timestamp { secs: (millis / 1000) as i64, nanos: ((millis % 1000) * 1_000_000) as u32 }
}

/// The time of the last request, where the file's contents tell it.
pub open spec fn last_request(contents: Seq<char>) -> Option<Timestamp> {
    match text::read_number(text::trimmed(contents), u64::MAX as nat) {
        Some(millis) => Some(at_millis(millis)),
        None => None,
    }
}

/// The time of the last request, where the file's contents tell it.
pub fn read_last_request(contents: &str) -> (r: Option<Timestamp>)
    ensures
        r == last_request(contents@),
{
    match text::parse_number(text::trim(contents), u64::MAX) {
        Some(millis) => Some(
            Timestamp { secs: (millis / 1000) as i64, nanos: ((millis % 1000) * 1_000_000) as u32 },
        ),
        None => None,
    }
}

/// The nanoseconds from one point of a clock to another.
pub open spec fn elapsed(last: Timestamp, now: Timestamp) -> int {
    (now.secs - last.secs) * 1_000_000_000 + now.nanos - last.nanos
}

/// How long is still to be waited until the delay is over. A request that seems to lie ahead is not
/// waited for.
pub fn remaining_delay(last: Timestamp, delay: Delay, now: Timestamp) -> (r: Option<Delay>)
    requires
        last.nanos < 1_000_000_000,
        now.nanos < 1_000_000_000,
        delay.nanos < 1_000_000_000,
    ensures
        if 0 <= elapsed(last, now) < delay.total() {
            r matches Some(d) && d.total() == delay.total() - elapsed(last, now) && d.nanos
                < 1_000_000_000
        } else {
            r is None
        },
{
    let gone: i128 = (now.secs as i128 - last.secs as i128) * 1_000_000_000 + now.nanos as i128
        - last.nanos as i128;
    let whole: i128 = delay.secs as i128 * 1_000_000_000 + delay.nanos as i128;
    if gone < 0 || gone >= whole {
        return None;
    }
    let left: i128 = whole - gone;
    Some(Delay { secs: (left / 1_000_000_000) as u64, nanos: (left % 1_000_000_000) as u32 })
}

/// How long to wait before the next request; nothing where requests are not kept apart.
pub fn wait_before(throttle: &RequestThrottle, contents: &str, now: Timestamp) -> (r: Option<Delay>)
    requires
        now.nanos < 1_000_000_000,
        throttle.request_delay.nanos < 1_000_000_000,
    ensures
        match last_request(contents@) {
            Some(last) => if 0 <= elapsed(last, now) < throttle.request_delay.total() {
                r matches Some(d) && d.total() == throttle.request_delay.total() - elapsed(
                    last,
                    now,
                )
            } else {
                r is None
            },
            None => r is None,
        },
{
    match read_last_request(contents) {
        Some(last) => remaining_delay(last, throttle.request_delay, now),
        None => None,
    }
}

/// The milliseconds since the start of 1970; none before it.
pub open spec fn millis_of(t: Timestamp) -> nat {
    if t.secs < 0 {
        0
    } else {
        (t.secs * 1000 + t.nanos / 1_000_000) as nat
    }
}

/// What the file holds after a request.
pub fn write_last_request(now: Timestamp) -> (r: String)
    requires
        now.on_clock(),
    ensures
        r@ == text::decimal(millis_of(now)),
{
    let millis: u64 = if now.secs < 0 {
        0
    } else {
        now.secs as u64 * 1000 + (now.nanos / 1_000_000) as u64
    };
    text::number(millis)
}

/// What was written after a request is read back, to the millisecond.
pub proof fn written_time_is_read_back(now: Timestamp)
    requires
        now.on_clock(),
        now.secs >= 0,
    ensures
        ({
            let read = last_request(text::decimal(millis_of(now)));
            read matches Some(t) && t.secs == now.secs && t.nanos == now.nanos / 1_000_000
                * 1_000_000
        }),
{
    let millis = millis_of(now);
    text::lemma_number_read_back(millis, u64::MAX as nat);
    text::lemma_decimal(millis);
    text::lemma_trimmed_already(text::decimal(millis));
}

/// A request that is made after the wait is as far from the last one as it is to be.
pub proof fn waiting_keeps_requests_apart(
    last: Timestamp,
    delay: Delay,
    now: Timestamp,
    left: Delay,
    next: Timestamp,
)
    requires
        0 <= elapsed(last, now) < delay.total(),
        left.total() == delay.total() - elapsed(last, now),
        elapsed(now, next) >= left.total(),
    ensures
        elapsed(last, next) >= delay.total(),
{
}

} // verus!
