//! Monotonic microsecond clock.
//!
//! The clock keeps three counters: the cumulative number of PIT ticks,
//! the time stamp counter value sampled at the last PIT interrupt, and a
//! smoothed estimate of TSC ticks per PIT tick.  Reading the TSC is a
//! hardware instruction, so the sampled value is handed in by the caller;
//! everything the clock computes from it is verified here.

use vstd::prelude::*;
use vstd::arithmetic::div_mod::{lemma_div_is_ordered, lemma_div_multiples_vanish};
use vstd::arithmetic::mul::lemma_mul_inequality;

verus! {

/// Number of PIT subticks per timer interrupt (the PIT reload value).
pub const PIT_TICKS_PER_INTERRUPT: u64 = 65536;

/// Fixed-point scale applied to the TSC fragment before division, so that
/// jitter in the calibration estimate cannot make long intervals step
/// backwards.
pub const TSC_SCALE: u64 = 32;

/// Clock state.  On hardware these are process-wide atomics; the model
/// carries them as one aggregate whose mutators run with interrupts
/// masked.
pub struct Clock {
    /// Cumulative PIT subticks since boot.
    pub pit_ticks: u64,
    /// TSC value sampled at the last PIT interrupt (0 before the first).
    pub last_tsc: u64,
    /// Smoothed estimate of TSC ticks per PIT subtick (0 before the
    /// first interrupt).
    pub tsc_per_pit: u64,
}

/// The scaled TSC fragment of a reading: `delta * TSC_SCALE / tsc_per_pit`,
/// clamped to 0 while the calibration estimate is still unset.
pub open spec fn scaled_tsc_term(tsc_delta: int, tsc_per_pit: int) -> int {
    if tsc_per_pit <= 0 {
        0
    } else {
        (tsc_delta * 32) / tsc_per_pit
    }
}

/// Microseconds from the PIT term and the scaled TSC fragment.  One PIT
/// subtick is 878807 / 2^20 us, and 878807 = 2011 * 437; the division is
/// split so the intermediate product stays small.
pub open spec fn micros_from_parts(pit_ticks: int, scaled_tsc: int) -> int {
    ((((pit_ticks * 32 + scaled_tsc) * 2011) / 1024) * 437) / (1024int * 32)
}

/// What a reader that samples the TSC at `tsc_now` computes.
pub open spec fn micros_of(c: Clock, tsc_now: int) -> int {
    micros_from_parts(
        c.pit_ticks as int,
        scaled_tsc_term(tsc_now - c.last_tsc, c.tsc_per_pit as int),
    )
}

/// The clock state after a PIT interrupt that sampled the TSC at
/// `new_tsc`: the tick count advances by one interrupt's worth of
/// subticks, the sample is recorded, and the calibration estimate is
/// averaged with the instantaneous one (a single-pole IIR filter).
pub open spec fn pit_notify_spec(c: Clock, new_tsc: u64) -> Clock {
    Clock {
        pit_ticks: (c.pit_ticks + 65536) as u64,
        last_tsc: new_tsc,
        tsc_per_pit: (((new_tsc - c.last_tsc) as int / 65536 + c.tsc_per_pit) / 2) as u64,
    }
}

impl Clock {
    /// The clock as it is at boot, before any PIT interrupt.
    pub fn boot() -> (c: Clock)
        ensures
            c.pit_ticks == 0,
            c.last_tsc == 0,
            c.tsc_per_pit == 0,
    {
        Clock { pit_ticks: 0, last_tsc: 0, tsc_per_pit: 0 }
    }
}

/// Called by the timer interrupt handler with a fresh TSC sample.
pub fn pit_interrupt_notify(c: &mut Clock, new_tsc: u64)
    requires
        old(c).last_tsc <= new_tsc,
        old(c).pit_ticks + 65536 <= u64::MAX,
        (new_tsc - old(c).last_tsc) / 65536 + old(c).tsc_per_pit <= u64::MAX,
    ensures
        *final(c) == pit_notify_spec(*old(c), new_tsc),
{
    c.pit_ticks = c.pit_ticks + PIT_TICKS_PER_INTERRUPT;

    let delta = new_tsc - c.last_tsc;
    c.last_tsc = new_tsc;
    let new_tsc_per_pit = delta / PIT_TICKS_PER_INTERRUPT;
    c.tsc_per_pit = (new_tsc_per_pit + c.tsc_per_pit) / 2;
}

/// Monotonic count of microseconds since boot, computed from the clock
/// state and a TSC sample taken by the caller after reading the state.
///
/// Before the first PIT interrupt the calibration estimate is 0 and the
/// TSC fragment is clamped to 0, so the reading is 0.
pub fn microseconds_monotonic(c: &Clock, tsc_now: u64) -> (r: u64)
    requires
        c.last_tsc <= tsc_now,
        micros_of(*c, tsc_now as int) <= u64::MAX,
    ensures
        r == micros_of(*c, tsc_now as int),
{
    let pit = c.pit_ticks as u128;
    let tsc = (tsc_now - c.last_tsc) as u128;
    let tsc_per_pit = c.tsc_per_pit as u128;

    let scale = TSC_SCALE as u128;
    let scaled_tsc: u128 = if tsc_per_pit == 0 {
        0
    } else {
        (tsc * scale) / tsc_per_pit
    };

    let r128: u128 = ((((pit * scale + scaled_tsc) * 2011) / 1024) * 437) / (1024 * scale);
    r128 as u64
}

/// The microsecond formula is monotone in both of its parts.
proof fn lemma_micros_from_parts_monotonic(p1: int, s1: int, p2: int, s2: int)
    requires
        0 <= p1 <= p2,
        0 <= s1 <= s2,
    ensures
        micros_from_parts(p1, s1) <= micros_from_parts(p2, s2),
{
    let x1 = p1 * 32 + s1;
    let x2 = p2 * 32 + s2;
    lemma_mul_inequality(p1, p2, 32);
    assert(x1 <= x2);
    lemma_mul_inequality(x1, x2, 2011);
    lemma_div_is_ordered(x1 * 2011, x2 * 2011, 1024);
    lemma_mul_inequality((x1 * 2011) / 1024, (x2 * 2011) / 1024, 437);
    lemma_div_is_ordered(((x1 * 2011) / 1024) * 437, ((x2 * 2011) / 1024) * 437, 1024int * 32);
}

/// A quotient of non-negatives is non-negative.
proof fn lemma_div_nonneg(x: int, d: int)
    requires
        0 <= x,
        0 < d,
    ensures
        0 <= x / d,
{
    lemma_div_multiples_vanish(0, d);
    assert(d * 0 == 0) by (nonlinear_arith);
    lemma_div_is_ordered(0, x, d);
}

/// Two readings taken from the same clock state never step backwards:
/// the later TSC sample gives the larger (or equal) reading.
pub proof fn lemma_micros_monotonic_same_state(c: Clock, t1: int, t2: int)
    requires
        c.last_tsc <= t1 <= t2,
    ensures
        micros_of(c, t1) <= micros_of(c, t2),
{
    let s1 = scaled_tsc_term(t1 - c.last_tsc, c.tsc_per_pit as int);
    let s2 = scaled_tsc_term(t2 - c.last_tsc, c.tsc_per_pit as int);
    if c.tsc_per_pit > 0 {
        lemma_mul_inequality(t1 - c.last_tsc, t2 - c.last_tsc, 32);
        lemma_div_is_ordered(
            (t1 - c.last_tsc) * 32,
            (t2 - c.last_tsc) * 32,
            c.tsc_per_pit as int,
        );
        lemma_div_nonneg((t1 - c.last_tsc) * 32, c.tsc_per_pit as int);
        lemma_mul_inequality(0, t1 - c.last_tsc, 32);
    }
    assert(0 <= s1 <= s2);
    lemma_micros_from_parts_monotonic(c.pit_ticks as int, s1, c.pit_ticks as int, s2);
}

/// A reading taken before a PIT interrupt never exceeds a reading taken
/// after it, provided the calibration estimate is set and does not
/// understate the interval: the TSC may not have advanced by more than
/// one full PIT interval's worth of the current estimate since the last
/// interrupt.  The first reading samples the TSC at `t1`, the interrupt
/// samples it at `ts`, the second reading at `t2`.
pub proof fn lemma_micros_monotonic_across_interrupt(c: Clock, ts: u64, t1: int, t2: int)
    requires
        c.last_tsc <= t1 <= ts <= t2,
        0 < c.tsc_per_pit,
        ts - c.last_tsc <= 65536 * (c.tsc_per_pit as int),
        c.pit_ticks + 65536 <= u64::MAX,
        (ts - c.last_tsc) / 65536 + c.tsc_per_pit <= u64::MAX,
    ensures
        micros_of(c, t1) <= micros_of(pit_notify_spec(c, ts), t2),
{
    let tpp = c.tsc_per_pit as int;
    let c2 = pit_notify_spec(c, ts);
    let s1 = scaled_tsc_term(t1 - c.last_tsc, tpp);
    let s2 = scaled_tsc_term(t2 - c2.last_tsc, c2.tsc_per_pit as int);

    // The first reading's TSC fragment is at most one interrupt's worth
    // of PIT subticks, scaled.
    lemma_mul_inequality(t1 - c.last_tsc, 65536 * tpp, 32);
    assert((65536 * tpp) * 32 == (65536 * 32) * tpp) by (nonlinear_arith);
    lemma_div_multiples_vanish(65536int * 32, tpp);
    assert(tpp * (65536 * 32) == (65536 * 32) * tpp) by (nonlinear_arith);
    lemma_div_is_ordered((t1 - c.last_tsc) * 32, (65536 * 32) * tpp, tpp);
    assert(s1 <= 65536 * 32);
    lemma_div_nonneg((t1 - c.last_tsc) * 32, tpp);
    assert(0 <= s1);

    // The second reading's fragment is non-negative.
    if c2.tsc_per_pit > 0 {
        lemma_div_nonneg((t2 - c2.last_tsc) * 32, c2.tsc_per_pit as int);
        lemma_mul_inequality(0, t2 - c2.last_tsc, 32);
    }
    assert(0 <= s2);

    // Trading the fragment bound for one more interrupt's worth of PIT
    // ticks only moves the reading forward.
    assert((c.pit_ticks as int) * 32 + s1 <= (c2.pit_ticks as int) * 32 + s2) by {
        assert((c2.pit_ticks as int) * 32 == (c.pit_ticks as int) * 32 + 65536 * 32)
            by (nonlinear_arith)
            requires c2.pit_ticks == c.pit_ticks + 65536;
    }
    let x1 = (c.pit_ticks as int) * 32 + s1;
    let x2 = (c2.pit_ticks as int) * 32 + s2;
    lemma_mul_inequality(x1, x2, 2011);
    lemma_div_is_ordered(x1 * 2011, x2 * 2011, 1024);
    lemma_mul_inequality((x1 * 2011) / 1024, (x2 * 2011) / 1024, 437);
    lemma_div_is_ordered(((x1 * 2011) / 1024) * 437, ((x2 * 2011) / 1024) * 437, 1024int * 32);
}

/// Before any PIT interrupt has fired, every reading is 0: the PIT term
/// is 0 and the TSC fragment is clamped to 0.
pub proof fn lemma_micros_before_first_interrupt(c: Clock, tsc_now: int)
    requires
        c.pit_ticks == 0,
        c.tsc_per_pit == 0,
    ensures
        micros_of(c, tsc_now) == 0,
{
    assert(micros_from_parts(0, 0) == 0);
}

} // verus!
