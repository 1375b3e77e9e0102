//! Wrapping tick-counter time.
//!
//! Instants and durations are 32-bit tick counts on a counter that
//! wraps.  Two instants are never compared directly: "how far is `b`
//! after `a`" is always the wrapping difference of their tick counts,
//! and a difference below half the counter range counts as "in the
//! future" while anything above counts as "already past".

use vstd::prelude::*;

verus! {

/// Ticks of the monotonic counter per second.
pub const TICK_HZ: u32 = 48_000_000;

/// Half the counter range: wrapping differences below this are "in the
/// future", the rest "already past".
pub const HALF_RANGE: u32 = 0x7fff_ffff;

/// Wrapping 32-bit addition.
pub open spec fn wrap_add(a: u32, b: u32) -> u32 {
    if a + b > u32::MAX {
        (a + b - 0x1_0000_0000) as u32
    } else {
        (a + b) as u32
    }
}

/// Wrapping 32-bit subtraction.
pub open spec fn wrap_sub(a: u32, b: u32) -> u32 {
    if a - b < 0 {
        (a - b + 0x1_0000_0000) as u32
    } else {
        (a - b) as u32
    }
}

/// Adding a distance and measuring it back returns the distance.
pub proof fn lemma_wrap_add_sub(a: u32, b: u32)
    ensures
        wrap_sub(wrap_add(a, b), a) == b,
{
}

/// Moving an instant by a nonzero distance below the counter range
/// never lands back on it.
pub proof fn lemma_wrap_add_changes(a: u32, b: u32)
    requires
        0 < b,
    ensures
        wrap_add(a, b) != a,
{
}

/// A point on the wrapping tick counter.
#[derive(Copy, Clone, PartialEq, Eq, Structural, Debug)]
pub struct Instant {
    pub ticks: u32,
}

/// A span of ticks.
#[derive(Copy, Clone, PartialEq, Eq, Structural, Debug)]
pub struct Duration {
    pub ticks: u32,
}

impl Instant {
    pub fn from_ticks(ticks: u32) -> (r: Instant)
        ensures
            r.ticks == ticks,
    {
        Instant { ticks }
    }

    pub fn ticks(self) -> (r: u32)
        ensures
            r == self.ticks,
    {
        self.ticks
    }

    /// The instant a duration later, wrapping around the counter.
    pub fn plus(self, d: Duration) -> (r: Instant)
        ensures
            r.ticks == wrap_add(self.ticks, d.ticks),
    {
        Instant { ticks: self.ticks.wrapping_add(d.ticks) }
    }

    /// How far this instant lies after another, on the wrapping counter.
    pub fn offset_from(self, earlier: Instant) -> (r: Duration)
        ensures
            r.ticks == wrap_sub(self.ticks, earlier.ticks),
    {
        Duration { ticks: self.ticks.wrapping_sub(earlier.ticks) }
    }
}

impl Duration {
    pub fn from_ticks(ticks: u32) -> (r: Duration)
        ensures
            r.ticks == ticks,
    {
        Duration { ticks }
    }

    pub fn ticks(self) -> (r: u32)
        ensures
            r == self.ticks,
    {
        self.ticks
    }
}

} // verus!
