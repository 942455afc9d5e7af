//! Clock readings and the time between them.

use vstd::prelude::*;

verus! {

/// Nanoseconds in a millisecond.
pub const NANOS_PER_MILLI: u128 = 1_000_000;

/// Nanoseconds in a second.
const NANOS_PER_SEC: i128 = 1_000_000_000;

/// One more than the largest 64-bit number.
const TWO_POW_64: u128 = 0x1_0000_0000_0000_0000;

/// The low 64 bits of `n`.
pub open spec fn low_64_bits(n: u128) -> u64 {
    (n % 0x1_0000_0000_0000_0000) as u64
}

/// Cuts `n` to 64 bits.
pub fn cut_to_64_bits(n: u128) -> (out: u64)
    ensures
        out == low_64_bits(n),
{
    (n % TWO_POW_64) as u64
}

/// Whole milliseconds from the steady clock's reading `then` to `now`, both in
/// nanoseconds; none when `now` is the earlier one.
pub open spec fn millis_between(then: u128, now: u128) -> u128 {
    (now.saturating_sub(then) / 1_000_000) as u128
}

/// The milliseconds from `then` to `now`.
pub fn elapsed_ms(then: u128, now: u128) -> (ms: u128)
    ensures
        ms == millis_between(then, now),
{
    now.saturating_sub(then) / NANOS_PER_MILLI
}

/// The moment of an event on the system clock, by its distance from the Unix
/// epoch.
#[derive(Debug, Clone, Copy, PartialEq, Eq, Structural)]
pub enum EventTime {
    SinceEpoch { secs: u64, nanos: u32 },
    BeforeEpoch { secs: u64, nanos: u32 },
}

impl EventTime {
    /// Nanoseconds since the epoch, negative before it.
    pub open spec fn nanos(self) -> int {
        match self {
            EventTime::SinceEpoch { secs, nanos } => secs * 1_000_000_000 + nanos,
            EventTime::BeforeEpoch { secs, nanos } => -(secs * 1_000_000_000 + nanos),
        }
    }

    fn as_nanos(&self) -> (out: i128)
        ensures
            out == self.nanos(),
            -0x1_0000_0000_0000_0000_0000_0000 < out < 0x1_0000_0000_0000_0000_0000_0000,
    {
        match *self {
            EventTime::SinceEpoch { secs, nanos } => secs as i128 * NANOS_PER_SEC + nanos as i128,
            EventTime::BeforeEpoch { secs, nanos } => -(secs as i128 * NANOS_PER_SEC
                + nanos as i128),
        }
    }

    /// Whole milliseconds from `earlier` to this moment, in 64 bits; none when
    /// the system clock was set back in between.
    pub open spec fn millis_since(self, earlier: EventTime) -> u64 {
        if self.nanos() < earlier.nanos() {
            0
        } else {
            low_64_bits(((self.nanos() - earlier.nanos()) / 1_000_000) as u128)
        }
    }

    /// The milliseconds from `earlier` to this moment.
    pub fn ms_since(&self, earlier: &EventTime) -> (ms: u64)
        ensures
            ms == self.millis_since(*earlier),
    {
        let now: i128 = self.as_nanos();
        let then: i128 = earlier.as_nanos();
        if now < then {
            0
        } else {
            cut_to_64_bits((now - then) as u128 / NANOS_PER_MILLI)
        }
    }
}

/// The low 64 bits are what is left when the largest multiple of two to the
/// power of 64 is taken away.
pub proof fn law_low_bits_are_the_remainder(n: u128, multiple: int, rest: int)
    requires
        n == multiple * 0x1_0000_0000_0000_0000 + rest,
        0 <= rest < 0x1_0000_0000_0000_0000,
    ensures
        low_64_bits(n) == rest,
{
}

/// The milliseconds between two readings are the most whole ones that fit in
/// between.
pub proof fn law_whole_milliseconds(then: u128, now: u128)
    ensures
        then <= now ==> millis_between(then, now) * 1_000_000 <= now - then < (millis_between(
            then,
            now,
        ) + 1) * 1_000_000,
        now < then ==> millis_between(then, now) == 0,
{
}

/// A moment lies its seconds and nanoseconds after the epoch, or before it.
pub proof fn law_moments(secs: u64, nanos: u32)
    ensures
        (EventTime::SinceEpoch { secs, nanos }).nanos() == 1_000_000_000 * secs + nanos,
        (EventTime::BeforeEpoch { secs, nanos }).nanos() == -1_000_000_000 * secs - nanos,
{
}

/// The delta between two moments is the most whole milliseconds that fit in
/// between, as far as 64 bits hold them; there is none backwards.
pub proof fn law_deltas(earlier: EventTime, now: EventTime)
    ensures
        ({
            let gap = now.nanos() - earlier.nanos();
            let ms = now.millis_since(earlier);
            &&& gap < 0 ==> ms == 0
            &&& 0 <= gap < 1_000_000 * 0x1_0000_0000_0000_0000 ==> ms * 1_000_000 <= gap < (ms
                + 1) * 1_000_000
            &&& gap >= 0 ==> ms as int == (gap / 1_000_000) % 0x1_0000_0000_0000_0000
        }),
{
}

/// A moment later by whole milliseconds has a delta larger by just these.
pub proof fn law_deltas_add_up(earlier: EventTime, now: EventTime, later: EventTime, ms: u64)
    requires
        earlier.nanos() <= now.nanos(),
        later.nanos() == now.nanos() + ms * 1_000_000,
        (later.nanos() - earlier.nanos()) / 1_000_000 <= u64::MAX,
    ensures
        later.millis_since(earlier) == now.millis_since(earlier) + ms,
{
}

} // verus!
