//! Monotonic clock: a free-running, wrapping 32-bit hardware counter is
//! extended with an overflow word to a 64-bit logical time that never
//! regresses, and raw counter values are compared with wraparound-aware
//! half-range arithmetic.

use vstd::prelude::*;

verus! {

/// Ticks per second of the timer that drives the clock.
pub const TICK_HZ: u64 = 1000;

/// One full revolution of the 32-bit hardware counter.
pub const COUNTER_MODULUS: u64 = 0x1_0000_0000;

/// Half the counter range; the threshold of the wraparound-aware compare.
pub const HALF_RANGE: u32 = 0x8000_0000;

/// A monotonic clock. The hardware exposes only a 32-bit counter that wraps;
/// the clock widens it with an overflow-extension word so that the logical
/// time it reports never decreases.
pub struct Clock {
    /// Overflow-extension word: how many times the counter has wrapped.
    high: u32,
    /// The raw counter value seen at the most recent read.
    last: u32,
}

impl Clock {
    /// The 64-bit logical time the clock currently stands at.
    pub closed spec fn now_spec(self) -> u64 {
        (self.high * COUNTER_MODULUS + self.last) as u64
    }

    /// The raw counter value at the most recent read.
    pub closed spec fn last_read(self) -> u32 {
        self.last
    }

    /// Room left before the extension word itself would overflow.
    pub closed spec fn extendable(self) -> bool {
        self.high < u32::MAX
    }

    pub fn new() -> (c: Clock)
        ensures
            c.now_spec() == 0,
            c.last_read() == 0,
            c.extendable(),
    {
        Clock { high: 0, last: 0 }
    }

    /// Feed the clock a fresh raw counter read and get the extended time.
    /// A read below the previous one means the counter wrapped exactly once
    /// since then, so the extension word advances. Whatever the raw value,
    /// the reported time never regresses.
    pub fn observe(&mut self, raw: u32) -> (t: u64)
        requires
            old(self).extendable(),
        ensures
            t == final(self).now_spec(),
            t >= old(self).now_spec(),
            raw >= old(self).last_read()
                ==> t == old(self).now_spec() + (raw - old(self).last_read()),
            raw < old(self).last_read()
                ==> t == old(self).now_spec() + COUNTER_MODULUS - old(self).last_read() + raw,
            final(self).last_read() == raw,
    {
        if raw < self.last {
            self.high = self.high + 1;
        }
        self.last = raw;
        (self.high as u64) * 0x1_0000_0000u64 + (raw as u64)
    }
}

/// Wraparound-aware "deadline reached" on raw counter values: the deadline
/// counts as reached when it lies within the half range at or behind `now`,
/// modulo the counter width.
pub open spec fn wrap_reached_spec(now: u32, deadline: u32) -> bool {
    if now >= deadline {
        now - deadline < HALF_RANGE
    } else {
        now + COUNTER_MODULUS - deadline < HALF_RANGE
    }
}

/// Compare a raw counter value against a raw deadline with wraparound-aware
/// half-range arithmetic, as the compare-interrupt handler must.
pub fn wrap_reached(now: u32, deadline: u32) -> (r: bool)
    ensures
        r == wrap_reached_spec(now, deadline),
{
    now.wrapping_sub(deadline) < HALF_RANGE
}

/// The half-range compare agrees with the order of the extended 64-bit
/// times whenever the two times lie within half a counter range of each
/// other, which arming the compare interrupt for the nearest outstanding
/// deadline guarantees.
pub proof fn lemma_wrap_reached_correct(now_ext: u64, deadline_ext: u64)
    requires
        now_ext >= deadline_ext ==> now_ext - deadline_ext < HALF_RANGE,
        deadline_ext > now_ext ==> deadline_ext - now_ext < HALF_RANGE,
    ensures
        wrap_reached_spec((now_ext % COUNTER_MODULUS) as u32, (deadline_ext % COUNTER_MODULUS) as u32)
            == (now_ext >= deadline_ext),
{
    assert(
        ((now_ext >= deadline_ext ==> now_ext - deadline_ext < 0x8000_0000u64)
            && (deadline_ext > now_ext ==> deadline_ext - now_ext < 0x8000_0000u64))
        ==> ((if now_ext % 0x1_0000_0000u64 >= deadline_ext % 0x1_0000_0000u64 {
                now_ext % 0x1_0000_0000u64 - deadline_ext % 0x1_0000_0000u64
            } else {
                now_ext % 0x1_0000_0000u64 + 0x1_0000_0000u64 - deadline_ext % 0x1_0000_0000u64
            }) < 0x8000_0000u64
            <==> now_ext >= deadline_ext)
    ) by (bit_vector);
    assert((now_ext % COUNTER_MODULUS) as u32 == now_ext % 0x1_0000_0000u64);
    assert((deadline_ext % COUNTER_MODULUS) as u32 == deadline_ext % 0x1_0000_0000u64);
}

} // verus!
