//! Times of day with nanosecond resolution, and arithmetic on the 24-hour ring.

use vstd::prelude::*;

verus! {

/// Nanoseconds in one second.
pub const NANOS_PER_SECOND: u64 = 1_000_000_000;

/// Nanoseconds in one minute.
pub const NANOS_PER_MINUTE: u64 = 60_000_000_000;

/// Nanoseconds in one hour.
pub const NANOS_PER_HOUR: u64 = 3_600_000_000_000;

/// Nanoseconds in one day: the length of the ring on which times of day live.
pub const NANOS_PER_DAY: u64 = 86_400_000_000_000;

/// Nanoseconds in half a day.
pub const NANOS_PER_HALF_DAY: u64 = 43_200_000_000_000;

/// Minutes in one day.
pub const MINUTES_PER_DAY: i64 = 1_440;

/// The instant on the 24-hour ring that lies `offset` nanoseconds after
/// `start`; `offset` may be negative or span several days.
pub open spec fn ring_add(start: int, offset: int) -> int {
    (start + offset) % (NANOS_PER_DAY as int)
}

/// Nanoseconds since midnight of the clock reading `hour:minute:second`.
pub open spec fn clock_nanos(hour: int, minute: int, second: int) -> int {
    (hour * 3600 + minute * 60 + second) * (NANOS_PER_SECOND as int)
}

/// Whether `hour:minute:second` is a reading of a 24-hour clock.
pub open spec fn clock_in_range(hour: int, minute: int, second: int) -> bool {
    0 <= hour < 24 && 0 <= minute < 60 && 0 <= second < 60
}

/// A time of day without a date: a whole number of nanoseconds since
/// midnight, below `NANOS_PER_DAY`.
#[derive(Clone, Copy, Debug, PartialEq, Eq, Structural, PartialOrd, Ord, Hash)]
pub struct TimeOfDay {
    nanos: u64,
}

impl View for TimeOfDay {
    type V = nat;

    /// Nanoseconds since midnight.
    closed spec fn view(&self) -> nat {
        self.nanos as nat
    }
}

impl TimeOfDay {
    /// Every time of day lies within one day.
    #[verifier::type_invariant]
    pub open spec fn wf(self) -> bool {
        self@ < NANOS_PER_DAY
    }

    /// Midnight, the start of the day.
    pub fn midnight() -> (t: TimeOfDay)
        ensures
            t@ == 0,
            t.wf(),
    {
        TimeOfDay { nanos: 0 }
    }

    /// The time of day `nanos` nanoseconds after midnight, if that is within
    /// the day.
    pub fn from_nanos(nanos: u64) -> (r: Option<TimeOfDay>)
        ensures
            r is Some <==> nanos < NANOS_PER_DAY,
            r matches Some(t) ==> t@ == nanos && t.wf(),
    {
        if nanos < NANOS_PER_DAY {
            Some(TimeOfDay { nanos })
        } else {
            None
        }
    }

    /// The time of day that a 24-hour clock shows as `hour:minute:second`,
    /// if there is such a reading.
    pub fn from_hms(hour: u32, minute: u32, second: u32) -> (r: Option<TimeOfDay>)
        ensures
            r is Some <==> clock_in_range(hour as int, minute as int, second as int),
            r matches Some(t) ==> t@ == clock_nanos(hour as int, minute as int, second as int)
                && t.wf(),
    {
        if hour < 24 && minute < 60 && second < 60 {
            let seconds: u64 = hour as u64 * 3600 + minute as u64 * 60 + second as u64;
            Some(TimeOfDay { nanos: seconds * NANOS_PER_SECOND })
        } else {
            None
        }
    }

    /// Nanoseconds since midnight.
    pub fn nanos(&self) -> (n: u64)
        ensures
            n == self@,
            n < NANOS_PER_DAY,
    {
        proof {
            use_type_invariant(self);
        }
        self.nanos
    }

    /// The hour on a 24-hour clock, from 0 to 23.
    pub fn hour(&self) -> (h: u32)
        ensures
            h == self@ / (NANOS_PER_HOUR as nat),
            h < 24,
    {
        proof {
            use_type_invariant(self);
        }
        (self.nanos / NANOS_PER_HOUR) as u32
    }

    /// The minute within the hour, from 0 to 59.
    pub fn minute(&self) -> (m: u32)
        ensures
            m == (self@ / (NANOS_PER_MINUTE as nat)) % 60,
            m < 60,
    {
        ((self.nanos / NANOS_PER_MINUTE) % 60) as u32
    }

    /// The second within the minute, from 0 to 59.
    pub fn second(&self) -> (s: u32)
        ensures
            s == (self@ / (NANOS_PER_SECOND as nat)) % 60,
            s < 60,
    {
        ((self.nanos / NANOS_PER_SECOND) % 60) as u32
    }

    /// The nanoseconds within the second.
    pub fn nanosecond(&self) -> (n: u32)
        ensures
            n == self@ % (NANOS_PER_SECOND as nat),
            n < NANOS_PER_SECOND,
    {
        (self.nanos % NANOS_PER_SECOND) as u32
    }

    /// The time `count` steps of `step` nanoseconds after this one, wrapped
    /// past midnight as often as needed.
    pub fn plus_steps(&self, step: u64, count: usize) -> (t: TimeOfDay)
        ensures
            t@ == ring_add(self@ as int, step * count),
            t.wf(),
    {
        proof {
            use_type_invariant(self);
        }
        let day: u128 = NANOS_PER_DAY as u128;
        let step_in_day: u128 = (step as u128) % day;
        let count_in_day: u128 = (count as u128) % day;
        assert(step_in_day * count_in_day < day * day) by (nonlinear_arith)
            requires
                0 <= step_in_day < day,
                0 <= count_in_day < day,
                day > 0,
        ;
        let total: u128 = self.nanos as u128 + step_in_day * count_in_day;
        let wrapped: u128 = total % day;
        proof {
            lemma_ring_product(self.nanos as int, step as int, count as int);
        }
        TimeOfDay { nanos: wrapped as u64 }
    }

    /// The time `minutes` minutes away from this one, later for a positive
    /// and earlier for a negative count, wrapped around midnight.
    pub fn plus_minutes(&self, minutes: i64) -> (t: TimeOfDay)
        ensures
            t@ == ring_add(self@ as int, minutes * (NANOS_PER_MINUTE as int)),
            t.wf(),
    {
        proof {
            use_type_invariant(self);
        }
        let in_day: i64 = if minutes >= 0 {
            minutes % MINUTES_PER_DAY
        } else {
            let back: i64 = (-(minutes + 1)) % MINUTES_PER_DAY;
            MINUTES_PER_DAY - 1 - back
        };
        proof {
            lemma_minutes_in_day(minutes as int, in_day as int);
        }
        let total: u64 = self.nanos + (in_day as u64) * NANOS_PER_MINUTE;
        proof {
            lemma_ring_minutes(self.nanos as int, minutes as int, in_day as int);
        }
        TimeOfDay { nanos: total % NANOS_PER_DAY }
    }
}

/// Reducing both factors of a product modulo the day leaves its place on the
/// ring unchanged.
proof fn lemma_ring_product(start: int, step: int, count: int)
    requires
        0 <= step,
        0 <= count,
    ensures
        (start + (step % (NANOS_PER_DAY as int)) * (count % (NANOS_PER_DAY as int))) % (
        NANOS_PER_DAY as int) == ring_add(start, step * count),
{
    let day = NANOS_PER_DAY as int;
    vstd::arithmetic::div_mod::lemma_mul_mod_noop_general(step, count, day);
    vstd::arithmetic::div_mod::lemma_add_mod_noop(start, step * count, day);
    vstd::arithmetic::div_mod::lemma_add_mod_noop(start, (step % day) * (count % day), day);
}

/// `in_day` is `minutes` reduced into one day.
proof fn lemma_minutes_in_day(minutes: int, in_day: int)
    requires
        minutes >= 0 ==> in_day == minutes % (MINUTES_PER_DAY as int),
        minutes < 0 ==> in_day == MINUTES_PER_DAY - 1 - (-(minutes + 1)) % (MINUTES_PER_DAY as int),
    ensures
        0 <= in_day < MINUTES_PER_DAY,
        in_day == minutes % (MINUTES_PER_DAY as int),
{
    let d = MINUTES_PER_DAY as int;
    if minutes < 0 {
        let p = -(minutes + 1);
        vstd::arithmetic::div_mod::lemma_fundamental_div_mod(p, d);
        let q = p / d;
        let r = p % d;
        assert(minutes == d * (-q - 1) + (d - 1 - r)) by (nonlinear_arith)
            requires
                p == d * q + r,
                p == -(minutes + 1),
        ;
        vstd::arithmetic::div_mod::lemma_fundamental_div_mod_converse(minutes, d, -q - 1, d - 1 - r);
    }
}

/// Shifting by whole minutes depends only on the minutes modulo one day.
proof fn lemma_ring_minutes(start: int, minutes: int, in_day: int)
    requires
        in_day == minutes % (MINUTES_PER_DAY as int),
    ensures
        (start + in_day * (NANOS_PER_MINUTE as int)) % (NANOS_PER_DAY as int) == ring_add(
            start,
            minutes * (NANOS_PER_MINUTE as int),
        ),
{
    let d = MINUTES_PER_DAY as int;
    let day = NANOS_PER_DAY as int;
    let unit = NANOS_PER_MINUTE as int;
    vstd::arithmetic::div_mod::lemma_fundamental_div_mod(minutes, d);
    let q = minutes / d;
    assert(minutes * unit == in_day * unit + q * day) by (nonlinear_arith)
        requires
            minutes == d * q + in_day,
            day == d * unit,
    ;
    vstd::arithmetic::div_mod::lemma_mod_multiples_vanish(q, start + in_day * unit, day);
}

} // verus!
