//! What holds of numbers, times, delays and shares.
use crate::hardware;
use crate::hardware::{HardwareBudget, HardwareSnapshot};
use crate::metric;
use crate::throttle;
use crate::throttle::RequestThrottle;
use crate::time::{Delay, Timestamp};
use vstd::prelude::*;

verus! {

/// The bits are those of a number without a minus sign: they end at those of infinity.
pub open spec fn is_positive(a: u64) -> bool {
    a <= 0x7ff0_0000_0000_0000
}

/// The bits are those of a number with a minus sign.
pub open spec fn is_negative(a: u64) -> bool {
    0x8000_0000_0000_0000 <= a <= 0xfff0_0000_0000_0000
}

/// Numbers without a minus sign are ordered as their bits are, and those with one the other way
/// round; a number with a minus sign is less than one without, unless both are zero. What is no
/// number is neither less than anything nor more.
pub proof fn how_numbers_are_ordered(a: u64, b: u64, r: bool)
    requires
        call_ensures(metric::is_less, (a, b), r),
    ensures
        is_positive(a) && is_positive(b) ==> (r <==> a < b),
        is_negative(a) && is_negative(b) ==> (r <==> a > b),
        is_negative(a) && is_positive(b) ==> (r <==> !(a == 0x8000_0000_0000_0000 && b == 0)),
        is_positive(a) && is_negative(b) ==> !r,
        !(is_positive(a) || is_negative(a)) || !(is_positive(b) || is_negative(b)) ==> !r,
{
}

/// Of two numbers one is at most the other exactly where the other is not less; what is no number
/// is at most nothing.
pub proof fn at_most_is_not_more(a: u64, b: u64, r: bool, more: bool, n: bool, m: bool)
    requires
        call_ensures(metric::is_at_most, (a, b), r),
        call_ensures(metric::is_less, (b, a), more),
        call_ensures(metric::is_nan, (a,), n),
        call_ensures(metric::is_nan, (b,), m),
    ensures
        r <==> !more && !n && !m,
        n <==> !is_positive(a) && !is_negative(a),
{
}

/// A point of time lies before another one by its seconds, and within a second by its nanoseconds.
pub proof fn how_times_are_ordered(
    a: Timestamp,
    b: Timestamp,
    c: Timestamp,
    ab: bool,
    ba: bool,
    bc: bool,
    ac: bool,
)
    requires
        call_ensures(Timestamp::before, (&a, &b), ab),
        call_ensures(Timestamp::before, (&b, &a), ba),
        call_ensures(Timestamp::before, (&b, &c), bc),
        call_ensures(Timestamp::before, (&a, &c), ac),
    ensures
        a.secs < b.secs ==> ab,
        a.secs == b.secs ==> (ab <==> a.nanos < b.nanos),
        !(ab && ba),
        !ab && !ba ==> a == b,
        ab && bc ==> ac,
{
}

/// A span is over once more time than it has passed: not before its end, and at every later time
/// once it is. A span that starts outside a leap second is over exactly behind its end.
pub proof fn when_a_span_is_over(
    start: Timestamp,
    span: u64,
    now: Timestamp,
    later: Timestamp,
    r: bool,
    s: bool,
)
    requires
        call_ensures(Timestamp::expired, (&start, span, &now), r),
        call_ensures(Timestamp::expired, (&start, span, &later), s),
        now.secs < later.secs || (now.secs == later.secs && now.nanos <= later.nanos),
    ensures
        r ==> s,
        start.nanos < 1_000_000_000 ==> (r <==> start.secs + span < now.secs || (start.secs + span
            == now.secs && start.nanos < now.nanos)),
{
}

/// The time from one point to another is what is to be added to the first to give the second, and
/// the same backwards with a minus sign. Neither point lies within a leap second.
pub proof fn time_between_two_points(a: Timestamp, b: Timestamp, r: i128, s: i128, m: i64)
    requires
        a.nanos < 1_000_000_000,
        b.nanos < 1_000_000_000,
        call_ensures(Timestamp::since, (&b, &a), r),
        call_ensures(Timestamp::since, (&a, &b), s),
        call_ensures(Timestamp::minutes, (&b, &a), m),
    ensures
        a.secs * 1_000_000_000 + a.nanos + r == b.secs * 1_000_000_000 + b.nanos,
        s == -r,
        r < 0 ==> m == 0,
        r >= 0 ==> m * 60_000_000_000 <= r < (m + 1) * 60_000_000_000,
{
}

/// A share is between one and a hundred percent: what is asked for, where that lies between.
pub proof fn a_share_is_a_percentage(asked: u8, r: u8)
    requires
        call_ensures(hardware::capacity_percent, (asked,), r),
    ensures
        1 <= r <= 100,
        1 <= asked <= 100 ==> r == asked,
        asked < 1 ==> r == 1,
        asked > 100 ==> r == 100,
{
}

/// A node may use its share of the cores, rounded down, but at least one, and the same of graphics
/// processors where there are any.
pub proof fn a_node_stays_within_its_share(
    s: HardwareSnapshot,
    asked: u8,
    memory: String,
    pct: u8,
    r: HardwareBudget,
)
    requires
        call_ensures(hardware::budget, (&s, asked, memory), r),
        call_ensures(hardware::capacity_percent, (asked,), pct),
    ensures
        r.capacity_pct == pct,
        r.memory_gb == memory,
        r.cores >= 1,
        r.cores * 100 <= s.physical_cores * pct || r.cores == 1,
        (r.cores + 1) * 100 > s.physical_cores * pct,
        s.physical_cores >= 1 ==> r.cores <= s.physical_cores,
        s.gpus@.len() == 0 <==> r.gpus == 0,
        r.gpus * 100 <= s.gpus@.len() * pct || r.gpus == 1,
        s.gpus@.len() > 0 ==> (r.gpus + 1) * 100 > s.gpus@.len() * pct,
{
    let c = s.physical_cores as nat;
    let g = s.gpus@.len();
    let p = pct as nat;
    if c >= 1 {
        hardware::share_stays_within(c, asked);
    }
    vstd::arithmetic::div_mod::lemma_fundamental_div_mod((c * p) as int, 100);
    vstd::arithmetic::div_mod::lemma_fundamental_div_mod((g * p) as int, 100);
}

/// Whoever waits as long as is left makes the next request exactly the delay after the last one; and
/// nothing is waited for once the delay has passed, or where the last request seems to lie ahead.
pub proof fn what_is_left_of_a_delay(
    last: Timestamp,
    delay: Delay,
    now: Timestamp,
    r: Option<Delay>,
)
    requires
        last.nanos < 1_000_000_000,
        now.nanos < 1_000_000_000,
        delay.nanos < 1_000_000_000,
        call_ensures(throttle::remaining_delay, (last, delay, now), r),
    ensures
        ({
            let then = last.secs * 1_000_000_000 + last.nanos;
            let here = now.secs * 1_000_000_000 + now.nanos;
            let whole = delay.secs * 1_000_000_000 + delay.nanos;
            &&& r is Some <==> then <= here < then + whole
            &&& r matches Some(d) ==> here + d.secs * 1_000_000_000 + d.nanos == then + whole
        }),
{
}

/// Before the next request the rest of the delay since the last one is waited for; where nothing tells
/// of a last one, nothing is.
pub proof fn what_is_waited_for(
    t: RequestThrottle,
    contents: &str,
    now: Timestamp,
    last: Option<Timestamp>,
    rest: Option<Delay>,
    r: Option<Delay>,
)
    requires
        now.nanos < 1_000_000_000,
        t.request_delay.nanos < 1_000_000_000,
        call_ensures(throttle::wait_before, (&t, contents, now), r),
        call_ensures(throttle::read_last_request, (contents,), last),
        last is Some && last->Some_0.nanos < 1_000_000_000 ==> call_ensures(
            throttle::remaining_delay,
            (last->Some_0, t.request_delay, now),
            rest,
        ),
    ensures
        last is None ==> r is None,
        last is Some && last->Some_0.nanos < 1_000_000_000 ==> (r is Some <==> rest is Some),
        last is Some && last->Some_0.nanos < 1_000_000_000 && r is Some ==> r->Some_0.secs
            * 1_000_000_000 + r->Some_0.nanos == rest->Some_0.secs * 1_000_000_000
            + rest->Some_0.nanos,
{
}

/// A delay of milliseconds is as long as it is said to be.
pub proof fn a_delay_of_milliseconds(millis: u64, r: Delay, back: u128)
    requires
        call_ensures(Delay::from_millis, (millis,), r),
        call_ensures(Delay::as_millis, (&r,), back),
    ensures
        r.secs * 1_000_000_000 + r.nanos == millis * 1_000_000,
        r.nanos < 1_000_000_000,
        back == millis,
{
}

} // verus!
