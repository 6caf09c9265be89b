//! Moments and spans of time, and when a device is asked to come back.

use vstd::prelude::*;

verus! {

/// Nanoseconds in a second.
pub const NANOS_PER_SEC: u32 = 1_000_000_000;

/// Seconds in a day.
pub const DAY_SECS: u64 = 86_400;

/// The first second of the year -262143, counted from the Unix epoch.
pub const MIN_SECS: i64 = -8_334_601_228_800;

/// The last but one second of the year 262142, counted from the Unix epoch: a
/// moment always has a following second within the calendar.
pub const MAX_SECS: i64 = 8_210_266_876_798;

/// The longest span that is added to a moment, in nanoseconds: `i64::MAX`
/// milliseconds.
pub open spec fn longest_span() -> int {
    i64::MAX * 1_000_000
}

/// The latest moment, in nanoseconds since the epoch.
pub open spec fn latest() -> int {
    MAX_SECS * NANOS_PER_SEC + NANOS_PER_SEC - 1
}

/// The moment `days` days of 24 hours after `from`.
pub open spec fn days_later(from: int, days: int) -> int {
    from + days * (DAY_SECS * NANOS_PER_SEC)
}

/// A moment in time, to the nanosecond.
#[derive(Debug, Clone, Copy, PartialEq, Eq, Structural)]
pub struct UtcTime {
    secs: i64,
    nanos: u32,
}

impl View for UtcTime {
    type V = int;

    /// Nanoseconds since the Unix epoch.
    closed spec fn view(&self) -> int {
        self.secs * NANOS_PER_SEC + self.nanos
    }
}

impl UtcTime {
    /// Within the calendar, with a proper fraction of a second.
    #[verifier::type_invariant]
    spec fn in_range(self) -> bool {
        MIN_SECS <= self.secs <= MAX_SECS && self.nanos < NANOS_PER_SEC
    }

    /// The whole seconds since the epoch, rounded down.
    pub closed spec fn whole_secs(self) -> i64 {
        self.secs
    }

    /// The nanoseconds since the last whole second.
    pub closed spec fn fraction(self) -> u32 {
        self.nanos
    }

    /// The moment `secs` seconds and `nanos` nanoseconds after the epoch; `None`
    /// outside the calendar or where `nanos` is a second or more.
    pub fn from_timestamp(secs: i64, nanos: u32) -> (r: Option<UtcTime>)
        ensures
            r is Some <==> MIN_SECS <= secs <= MAX_SECS && nanos < NANOS_PER_SEC,
            r matches Some(t) ==> t.whole_secs() == secs && t.fraction() == nanos && t@ == secs
                * NANOS_PER_SEC + nanos,
    {
        if MIN_SECS <= secs && secs <= MAX_SECS && nanos < NANOS_PER_SEC {
            Some(UtcTime { secs, nanos })
        } else {
            None
        }
    }

    /// The whole seconds since the epoch, rounded down.
    pub fn timestamp(&self) -> (r: i64)
        ensures
            r == self.whole_secs(),
            r == self@ / NANOS_PER_SEC as int,
            MIN_SECS <= r <= MAX_SECS,
    {
        proof {
            use_type_invariant(self);
            lemma_split(self.secs as int, self.nanos as int);
        }
        self.secs
    }

    /// The nanoseconds since the last whole second.
    pub fn subsec_nanos(&self) -> (r: u32)
        ensures
            r == self.fraction(),
            r == self@ % (NANOS_PER_SEC as int),
            r < NANOS_PER_SEC,
    {
        proof {
            use_type_invariant(self);
            lemma_split(self.secs as int, self.nanos as int);
        }
        self.nanos
    }

    /// Whether this moment is no earlier than `other`.
    pub fn at_or_after(&self, other: &UtcTime) -> (r: bool)
        ensures
            r == (self@ >= other@),
    {
        proof {
            use_type_invariant(self);
            use_type_invariant(other);
        }
        self.secs > other.secs || (self.secs == other.secs && self.nanos >= other.nanos)
    }

    /// The moment `span` later; `None` where that lies outside the calendar.
    pub fn plus(&self, span: Duration) -> (r: Option<UtcTime>)
        ensures
            r is Some <==> self@ + span@ <= latest(),
            r matches Some(t) ==> t@ == self@ + span@,
    {
        proof {
            use_type_invariant(self);
            use_type_invariant(&span);
        }
        if span.secs > 20_000_000_000_000 {
            return None;
        }
        let carry: bool = self.nanos + span.nanos >= NANOS_PER_SEC;
        let nanos: u32 = if carry {
            self.nanos + span.nanos - NANOS_PER_SEC
        } else {
            self.nanos + span.nanos
        };
        let secs: i64 = self.secs + span.secs as i64 + if carry {
            1
        } else {
            0
        };
        if secs > MAX_SECS {
            None
        } else {
            Some(UtcTime { secs, nanos })
        }
    }

    /// The moment `days` days of 24 hours later; `None` where that lies outside
    /// the calendar.
    pub fn plus_days(&self, days: u64) -> (r: Option<UtcTime>)
        ensures
            r is Some <==> days_later(self@, days as int) <= latest(),
            r matches Some(t) ==> t@ == days_later(self@, days as int),
    {
        proof {
            use_type_invariant(self);
        }
        if days > 200_000_000 {
            return None;
        }
        assert(days * DAY_SECS * NANOS_PER_SEC == days * (DAY_SECS * NANOS_PER_SEC))
            by (nonlinear_arith);
        self.plus(Duration::from_secs(days * DAY_SECS))
    }
}

proof fn lemma_split(secs: int, nanos: int)
    requires
        0 <= nanos < NANOS_PER_SEC,
    ensures
        (secs * NANOS_PER_SEC + nanos) / NANOS_PER_SEC as int == secs,
        (secs * NANOS_PER_SEC + nanos) % (NANOS_PER_SEC as int) == nanos,
{
    vstd::arithmetic::div_mod::lemma_fundamental_div_mod_converse(
        secs * NANOS_PER_SEC + nanos,
        NANOS_PER_SEC as int,
        secs,
        nanos,
    );
}

/// A span of time, to the nanosecond.
#[derive(Debug, Clone, Copy, PartialEq, Eq, Structural)]
pub struct Duration {
    secs: u64,
    nanos: u32,
}

impl View for Duration {
    type V = int;

    /// Nanoseconds.
    closed spec fn view(&self) -> int {
        self.secs * NANOS_PER_SEC + self.nanos
    }
}

impl Duration {
    #[verifier::type_invariant]
    spec fn in_range(self) -> bool {
        self.nanos < NANOS_PER_SEC
    }

    /// `secs` seconds and `nanos` nanoseconds; `None` where `nanos` is a second
    /// or more.
    pub fn new(secs: u64, nanos: u32) -> (r: Option<Duration>)
        ensures
            r is Some <==> nanos < NANOS_PER_SEC,
            r matches Some(d) ==> d@ == secs * NANOS_PER_SEC + nanos,
    {
        if nanos < NANOS_PER_SEC {
            Some(Duration { secs, nanos })
        } else {
            None
        }
    }

    /// `secs` whole seconds.
    pub fn from_secs(secs: u64) -> (r: Duration)
        ensures
            r@ == secs * NANOS_PER_SEC,
    {
        Duration { secs, nanos: 0 }
    }

    /// No time at all.
    pub fn zero() -> (r: Duration)
        ensures
            r@ == 0,
    {
        Duration { secs: 0, nanos: 0 }
    }

    /// Whole seconds, rounded down.
    pub fn as_secs(&self) -> (r: u64)
        ensures
            r == self@ / NANOS_PER_SEC as int,
    {
        proof {
            use_type_invariant(self);
            lemma_split(self.secs as int, self.nanos as int);
        }
        self.secs
    }

    /// The nanoseconds beyond the whole seconds.
    pub fn subsec_nanos(&self) -> (r: u32)
        ensures
            r == self@ % (NANOS_PER_SEC as int),
    {
        proof {
            use_type_invariant(self);
            lemma_split(self.secs as int, self.nanos as int);
        }
        self.nanos
    }

    /// This span, or none at all where it is longer than `i64::MAX` milliseconds.
    pub fn addable(&self) -> (r: Duration)
        ensures
            r@ == addable_span(self@),
    {
        proof {
            use_type_invariant(self);
        }
        if self.secs > 9_223_372_036_854_775 || (self.secs == 9_223_372_036_854_775 && self.nanos
            > 807_000_000) {
            Duration::zero()
        } else {
            *self
        }
    }
}

/// What is added for a span: the span itself, or nothing where it is longer than
/// `i64::MAX` milliseconds.
pub open spec fn addable_span(span: int) -> int {
    if span <= longest_span() {
        span
    } else {
        0
    }
}

/// The whole seconds from `now` to `target`, rounded up, and none where `target`
/// has passed.
pub open spec fn seconds_to(target: int, now: int) -> int {
    if target <= now {
        0
    } else {
        (target - now + NANOS_PER_SEC - 1) / NANOS_PER_SEC as int
    }
}

/// Seconds from `now` to `target`, rounded up, clamped at 0.
pub fn seconds_until(target: UtcTime, now: UtcTime) -> (r: i64)
    ensures
        r == seconds_to(target@, now@),
{
    proof {
        use_type_invariant(&target);
        use_type_invariant(&now);
    }
    let whole: i64 = target.secs - now.secs;
    let part: i64 = if target.nanos > now.nanos {
        1
    } else {
        0
    };
    proof {
        let d = target@ - now@;
        assert(d == whole * NANOS_PER_SEC + (target.nanos - now.nanos));
        if d > 0 {
            let q = whole + part;
            let r = d + NANOS_PER_SEC - 1 - q * NANOS_PER_SEC;
            assert(0 <= r < NANOS_PER_SEC);
            lemma_split(q, r);
        }
    }
    if whole < 0 || (whole == 0 && part == 0) {
        0
    } else {
        whole + part
    }
}

/// The moment an error response asks the device to retry at.
pub open spec fn retry_moment(
    error_refresh: int,
    wake_delay: int,
    next_rotation: Option<int>,
    now: int,
) -> int {
    let base = now + addable_span(error_refresh);
    match next_rotation {
        Some(n) => {
            let cap = n + addable_span(wake_delay);
            if base <= cap {
                base
            } else {
                cap
            }
        },
        None => base,
    }
}

/// The view of an optional moment.
pub open spec fn moment(t: Option<UtcTime>) -> Option<int> {
    match t {
        Some(t) => Some(t@),
        None => None,
    }
}

/// The absolute moment at which an error response should ask the device to
/// retry: `now + error_refresh`, but never later than the device's normal
/// next-fetch target (`next_rotation + wake_delay`) — pushing past that would
/// have the device skip a scheduled rotation. With no rotation schedule the cap
/// doesn't apply. A span too long to add counts as none.
pub fn error_refresh_target(
    error_refresh: Duration,
    wake_delay: Duration,
    next_rotation: Option<UtcTime>,
    now: UtcTime,
) -> (r: UtcTime)
    requires
        now@ + addable_span(error_refresh@) <= latest(),
        next_rotation matches Some(n) ==> n@ + addable_span(wake_delay@) <= latest(),
    ensures
        r@ == retry_moment(error_refresh@, wake_delay@, moment(next_rotation), now@),
{
    let base: UtcTime = now.plus(error_refresh.addable()).unwrap();
    match next_rotation {
        Some(n) => {
            let cap: UtcTime = n.plus(wake_delay.addable()).unwrap();
            if cap.at_or_after(&base) {
                base
            } else {
                cap
            }
        },
        None => base,
    }
}

/// The moment the device is asked to fetch the next image: some time past the
/// scheduled rotation, so that a clock that runs fast still lands after it.
/// `None` where that lies outside the calendar.
pub fn wake_target(next_rotation: UtcTime, wake_delay: Duration) -> (r: Option<UtcTime>)
    ensures
        r is Some <==> next_rotation@ + addable_span(wake_delay@) <= latest(),
        r matches Some(t) ==> t@ == next_rotation@ + addable_span(wake_delay@),
{
    next_rotation.plus(wake_delay.addable())
}

// ----- Laws --------------------------------------------------------------------------------

/// A device that waits the seconds it is told wakes at or after the target, and
/// less than a second too late.
pub proof fn law_waiting_reaches_target(target: int, now: int)
    ensures
        seconds_to(target, now) >= 0,
        now + seconds_to(target, now) * NANOS_PER_SEC >= target,
        target > now ==> now + seconds_to(target, now) * NANOS_PER_SEC < target + NANOS_PER_SEC,
        target <= now <==> seconds_to(target, now) == 0,
{
    if target > now {
        let x = target - now + NANOS_PER_SEC - 1;
        vstd::arithmetic::div_mod::lemma_fundamental_div_mod(x, NANOS_PER_SEC as int);
    }
}

/// A retry never comes later than the next scheduled fetch, nor later than the
/// configured pause, and is one of the two.
pub proof fn law_retry_skips_no_rotation(
    error_refresh: int,
    wake_delay: int,
    next_rotation: Option<int>,
    now: int,
)
    ensures
        retry_moment(error_refresh, wake_delay, next_rotation, now) <= now + addable_span(
            error_refresh,
        ),
        next_rotation matches Some(n) ==> retry_moment(
            error_refresh,
            wake_delay,
            next_rotation,
            now,
        ) <= n + addable_span(wake_delay),
        next_rotation is None ==> retry_moment(error_refresh, wake_delay, next_rotation, now) == now
            + addable_span(error_refresh),
{
}

/// A retry comes after exactly the configured pause or at exactly the next scheduled
/// fetch, whichever is earlier; spans that a clock can add are added in full.
pub proof fn law_retry_is_the_earlier_of_the_two(
    error_refresh: int,
    wake_delay: int,
    next_rotation: int,
    now: int,
)
    requires
        0 <= error_refresh <= 9_223_372_036_854_775_807_000_000,
        0 <= wake_delay <= 9_223_372_036_854_775_807_000_000,
    ensures
        now + error_refresh <= next_rotation + wake_delay ==> retry_moment(
            error_refresh,
            wake_delay,
            Some(next_rotation),
            now,
        ) == now + error_refresh,
        now + error_refresh >= next_rotation + wake_delay ==> retry_moment(
            error_refresh,
            wake_delay,
            Some(next_rotation),
            now,
        ) == next_rotation + wake_delay,
        retry_moment(error_refresh, wake_delay, None, now) == now + error_refresh,
{
}

/// A span is added in full up to `i64::MAX` milliseconds, and a longer one not at all.
pub proof fn law_long_spans_count_as_none(span: int)
    ensures
        span <= 9_223_372_036_854_775_807_000_000 ==> addable_span(span) == span,
        span > 9_223_372_036_854_775_807_000_000 ==> addable_span(span) == 0,
{
}

/// A day later is 24 hours later, and days add up.
pub proof fn law_days_add_up(from: int, a: int, b: int)
    ensures
        days_later(from, 1) == from + 24 * 3_600 * 1_000_000_000,
        days_later(from, 0) == from,
        days_later(days_later(from, a), b) == days_later(from, a + b),
{
    assert((a + b) * (DAY_SECS * NANOS_PER_SEC) == a * (DAY_SECS * NANOS_PER_SEC) + b * (DAY_SECS
        * NANOS_PER_SEC)) by (nonlinear_arith);
}

} // verus!
