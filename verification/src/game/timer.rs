//! A repeating timer over integer time units.

use vstd::arithmetic::div_mod::lemma_fundamental_div_mod_converse;
use vstd::prelude::*;

verus! {

/// How often a timer with `accumulated` time carried over fires when
/// `delta` more arrives: once for every full period in the sum.
pub open spec fn fires(accumulated: int, delta: int, period: int) -> int {
    (accumulated + delta) / period
}

/// What such a timer carries over to the next tick: the part of the sum
/// that fills no period.
pub open spec fn carry(accumulated: int, delta: int, period: int) -> int {
    (accumulated + delta) % period
}

/// How many rounds of work a tick is owed on which its timer fired `fired`
/// times: one if the timer finished at all, however many periods the tick
/// brought, and none otherwise.
pub open spec fn rounds_due(fired: u64) -> nat {
    if fired > 0 {
        1
    } else {
        0
    }
}

/// The time that the ticks of `deltas` bring, all together.
pub open spec fn elapsed(deltas: Seq<u64>) -> int
    decreases deltas.len(),
{
    if deltas.len() == 0 {
        0
    } else {
        elapsed(deltas.drop_last()) + deltas.last()
    }
}

/// What a timer that started empty carries over after the ticks of `deltas`.
pub open spec fn carried(period: int, deltas: Seq<u64>) -> int
    decreases deltas.len(),
{
    if deltas.len() == 0 {
        0
    } else {
        carry(carried(period, deltas.drop_last()), deltas.last() as int, period)
    }
}

/// How often a timer that started empty has fired during the ticks of
/// `deltas`, all together.
pub open spec fn fired(period: int, deltas: Seq<u64>) -> int
    decreases deltas.len(),
{
    if deltas.len() == 0 {
        0
    } else {
        fired(period, deltas.drop_last()) + fires(
            carried(period, deltas.drop_last()),
            deltas.last() as int,
            period,
        )
    }
}

/// However the time is cut into ticks, a timer fires exactly once for
/// every full period of elapsed time, and carries the rest.
pub proof fn lemma_fires_once_per_period(period: int, deltas: Seq<u64>)
    requires
        period > 0,
    ensures
        fired(period, deltas) == elapsed(deltas) / period,
        carried(period, deltas) == elapsed(deltas) % period,
        0 <= carried(period, deltas) < period,
    decreases deltas.len(),
{
    if deltas.len() > 0 {
        let before = deltas.drop_last();
        lemma_fires_once_per_period(period, before);
        let q = elapsed(before) / period;
        let r = elapsed(before) % period;
        let x = r + deltas.last();
        assert(elapsed(before) == q * period + r) by (nonlinear_arith)
            requires
                q == elapsed(before) / period,
                r == elapsed(before) % period,
                period > 0,
        ;
        assert(x == (x / period) * period + x % period && 0 <= x % period < period)
            by (nonlinear_arith)
            requires
                period > 0,
        ;
        assert(elapsed(deltas) == (q + x / period) * period + x % period) by (nonlinear_arith)
            requires
                elapsed(deltas) == q * period + r + deltas.last(),
                x == r + deltas.last(),
                x == (x / period) * period + x % period,
        ;
        lemma_fundamental_div_mod_converse(elapsed(deltas), period, q + x / period, x % period);
    } else {
        assert(0int / period == 0 && 0int % period == 0) by (nonlinear_arith)
            requires
                period > 0,
        ;
    }
}

/// A tick fires more than once only if, with what was carried over, it
/// brings the time to two full periods or more. One that brings it to a
/// full period but not to two fires exactly once, and one that stays short
/// of a period does not fire.
pub proof fn lemma_fires_twice_needs_two_periods(accumulated: int, delta: int, period: int)
    requires
        period > 0,
        0 <= accumulated,
        0 <= delta,
    ensures
        fires(accumulated, delta, period) >= 2 <==> accumulated + delta >= 2 * period,
        fires(accumulated, delta, period) >= 1 <==> accumulated + delta >= period,
        fires(accumulated, delta, period) >= 0,
        fires(accumulated, delta, period) == 1 <==> period <= accumulated + delta < 2 * period,
        fires(accumulated, delta, period) == 0 <==> accumulated + delta < period,
{
    let x = accumulated + delta;
    assert(x == (x / period) * period + x % period && 0 <= x % period < period)
        by (nonlinear_arith)
        requires
            period > 0,
    ;
    assert((x / period >= 2 <==> x >= 2 * period) && (x / period >= 1 <==> x >= period) && x
        / period >= 0) by (nonlinear_arith)
        requires
            x == (x / period) * period + x % period,
            0 <= x % period < period,
            period > 0,
            x >= 0,
    ;
}

/// A timer that fires every `period` units of accumulated time and keeps the
/// remainder for the next round.
///
/// A tick that carries several periods' worth of time is counted as that
/// many fires: no period is lost and none is counted twice. What waits on
/// the timer still acts once on such a tick, see `rounds_due`.
#[derive(Clone, Copy, Debug)]
pub struct RepeatingTimer {
    period: u64,
    accumulated: u64,
    fired: u64,
}

impl RepeatingTimer {
    /// The timer's invariant: a positive period, and less than one period
    /// of time carried over.
    pub open spec fn wf(&self) -> bool {
        0 < self.period() && self.accumulated() < self.period()
    }

    pub closed spec fn spec_period(&self) -> u64 {
        self.period
    }

    pub closed spec fn spec_accumulated(&self) -> u64 {
        self.accumulated
    }

    pub closed spec fn spec_times_finished_this_tick(&self) -> u64 {
        self.fired
    }

    /// A fresh timer with nothing accumulated.
    pub fn new(period: u64) -> (t: RepeatingTimer)
        requires
            period > 0,
        ensures
            t.wf(),
            t.period() == period,
            t.accumulated() == 0,
            t.times_finished_this_tick() == 0,
    {
        RepeatingTimer { period, accumulated: 0, fired: 0 }
    }

    #[verifier::when_used_as_spec(spec_period)]
    pub fn period(&self) -> (p: u64)
        ensures
            p == self.spec_period(),
    {
        self.period
    }

    /// Time carried over from earlier ticks, always less than the period.
    #[verifier::when_used_as_spec(spec_accumulated)]
    pub fn accumulated(&self) -> (a: u64)
        ensures
            a == self.spec_accumulated(),
    {
        self.accumulated
    }

    /// How often the timer fired during the latest tick.
    #[verifier::when_used_as_spec(spec_times_finished_this_tick)]
    pub fn times_finished_this_tick(&self) -> (n: u64)
        ensures
            n == self.spec_times_finished_this_tick(),
    {
        self.fired
    }

    /// Whether the latest tick fired at all.
    pub fn finished(&self) -> (b: bool)
        ensures
            b == (self.times_finished_this_tick() > 0),
    {
        self.fired > 0
    }

    /// Adds `delta` to the accumulated time and counts one fire for each
    /// full period in it.
    pub fn tick(&mut self, delta: u64)
        requires
            old(self).wf(),
        ensures
            final(self).wf(),
            final(self).period() == old(self).period(),
            final(self).times_finished_this_tick() == fires(
                old(self).accumulated() as int,
                delta as int,
                old(self).period() as int,
            ),
            final(self).accumulated() == carry(
                old(self).accumulated() as int,
                delta as int,
                old(self).period() as int,
            ),
    {
        let total: u128 = self.accumulated as u128 + delta as u128;
        let period: u128 = self.period as u128;
        let fires: u128 = total / period;
        let rest: u128 = total % period;
        assert(fires <= u64::MAX) by (nonlinear_arith)
            requires
                fires == total / period,
                period >= 1,
                total < period + 0xffff_ffff_ffff_ffff,
                total >= 0,
        {
            if period == 1 {
            } else {
                assert(total / period <= total / 2) by (nonlinear_arith)
                    requires period >= 2, total >= 0;
            }
        }
        self.fired = fires as u64;
        self.accumulated = rest as u64;
    }
}

} // verus!
