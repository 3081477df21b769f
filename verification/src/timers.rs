//! Timer and edge-triggered blocks as state machines: each block keeps the
//! state it carries between cycles, and `step` takes one cycle's inputs and
//! clock reading (milliseconds) and gives the value to emit.
//!
//! Blocks that skip their cycle while their output is unconnected take a
//! `connected` flag and return `None` (nothing emitted, state unchanged) when
//! it is `false`.

use vstd::prelude::*;

verus! {

/// `current` is a rising edge after `previous`: a `false` → `true` change.
/// The very first reading (no previous one) is never an edge.
pub open spec fn is_rising_edge(previous: Option<bool>, current: bool) -> bool {
    previous == Some(false) && current
}

/// Rising-edge detection on a boolean input.
pub fn rising_edge(previous: Option<bool>, current: bool) -> (r: bool)
    ensures
        r == is_rising_edge(previous, current),
{
    match previous {
        Some(p) => !p && current,
        None => false,
    }
}

/// `a - b`, or `0` when `b > a` (`u64::saturating_sub`).
pub open spec fn elapsed_since(now: u64, since: u64) -> u64 {
    if now >= since {
        (now - since) as u64
    } else {
        0
    }
}

/// On-delay timer: the output goes true only after `in` has been
/// continuously true for at least `delay` milliseconds. When `in` goes false
/// the output drops immediately and the elapsed time is reset.
pub struct OnDelay {
    /// Clock reading at which `in` last became true, or `0` when idle.
    pub pending_since_ms: u64,
}

impl OnDelay {
    /// The state after one cycle and the value emitted (`None`: nothing,
    /// when the output is unconnected).
    pub open spec fn transition(self, connected: bool, input: bool, delay_ms: u64, now_ms: u64) -> (Self, Option<bool>) {
        if !connected {
            (self, None)
        } else if !input {
            (OnDelay { pending_since_ms: 0 }, Some(false))
        } else {
            let since = if self.pending_since_ms == 0 {
                now_ms
            } else {
                self.pending_since_ms
            };
            (OnDelay { pending_since_ms: since }, Some(elapsed_since(now_ms, since) >= delay_ms))
        }
    }

    /// A fresh, idle timer.
    pub fn new() -> (t: Self)
        ensures
            t.pending_since_ms == 0,
    {
        OnDelay { pending_since_ms: 0 }
    }

    /// One cycle: the output for input `input`, delay `delay_ms` and clock
    /// reading `now_ms`.
    pub fn step(&mut self, connected: bool, input: bool, delay_ms: u64, now_ms: u64) -> (out: Option<bool>)
        ensures
            (*final(self), out) == old(self).transition(connected, input, delay_ms, now_ms),
    {
        if !connected {
            return None;
        }
        if !input {
            self.pending_since_ms = 0;
            return Some(false);
        }
        if self.pending_since_ms == 0 {
            self.pending_since_ms = now_ms;
        }
        let elapsed = now_ms.saturating_sub(self.pending_since_ms);
        Some(elapsed >= delay_ms)
    }
}

/// Off-delay timer: the output goes true immediately when `in` becomes true,
/// and stays true for at least `delay` milliseconds after `in` goes false.
/// A new true on `in` during the delay window cancels the pending drop.
pub struct OffDelay {
    /// Clock reading at which the pending drop started, or `0` when none is
    /// pending.
    pub falling_since_ms: u64,
}

impl OffDelay {
    /// The state after one cycle and the value emitted (`None`: nothing,
    /// when the output is unconnected).
    pub open spec fn transition(self, connected: bool, input: bool, delay_ms: u64, now_ms: u64, output_on: bool) -> (Self, Option<bool>) {
        if !connected {
            (self, None)
        } else if input {
            (OffDelay { falling_since_ms: 0 }, Some(true))
        } else if self.falling_since_ms == 0 && !output_on {
            (OffDelay { falling_since_ms: 0 }, Some(false))
        } else {
            let since = if self.falling_since_ms == 0 {
                now_ms
            } else {
                self.falling_since_ms
            };
            let still_on = elapsed_since(now_ms, since) < delay_ms;
            (OffDelay { falling_since_ms: if still_on { since } else { 0 } }, Some(still_on))
        }
    }

    /// A fresh timer with no pending drop.
    pub fn new() -> (t: Self)
        ensures
            t.falling_since_ms == 0,
    {
        OffDelay { falling_since_ms: 0 }
    }

    /// One cycle: the output for input `input`, delay `delay_ms`, clock
    /// reading `now_ms`, given whether the output currently holds `true`
    /// (`output_on`).
    pub fn step(&mut self, connected: bool, input: bool, delay_ms: u64, now_ms: u64, output_on: bool) -> (out: Option<bool>)
        ensures
            (*final(self), out) == old(self).transition(connected, input, delay_ms, now_ms, output_on),
    {
        if !connected {
            return None;
        }
        if input {
            self.falling_since_ms = 0;
            return Some(true);
        }
        if self.falling_since_ms == 0 {
            if output_on {
                self.falling_since_ms = now_ms;
            } else {
                return Some(false);
            }
        }
        let elapsed = now_ms.saturating_sub(self.falling_since_ms);
        let still_on = elapsed < delay_ms;
        if !still_on {
            self.falling_since_ms = 0;
        }
        Some(still_on)
    }
}

/// One-shot pulse: on a rising edge of `in` the output goes true for `width`
/// milliseconds and then back to false. Rising edges while the pulse is
/// active are ignored (non-retriggerable).
pub struct OneShot {
    /// Clock reading at which the active pulse started, or `0` when none is
    /// active.
    pub pulse_started_ms: u64,
    /// The input seen on the previous cycle.
    pub prev: Option<bool>,
}

impl OneShot {
    /// The state after one cycle and the value emitted (`None`: nothing,
    /// when the output is unconnected).
    pub open spec fn transition(self, connected: bool, input: bool, width_ms: u64, now_ms: u64) -> (Self, Option<bool>) {
        if !connected {
            (self, None)
        } else {
            let started = if is_rising_edge(self.prev, input) && self.pulse_started_ms == 0 {
                now_ms
            } else {
                self.pulse_started_ms
            };
            let active = started > 0 && elapsed_since(now_ms, started) < width_ms;
            (
                OneShot { pulse_started_ms: if active { started } else { 0 }, prev: Some(input) },
                Some(active),
            )
        }
    }

    /// A fresh block: no pulse, no previous input.
    pub fn new() -> (t: Self)
        ensures
            t.pulse_started_ms == 0,
            t.prev is None,
    {
        OneShot { pulse_started_ms: 0, prev: None }
    }

    /// One cycle: the output for input `input`, pulse width `width_ms` and
    /// clock reading `now_ms`.
    pub fn step(&mut self, connected: bool, input: bool, width_ms: u64, now_ms: u64) -> (out: Option<bool>)
        ensures
            (*final(self), out) == old(self).transition(connected, input, width_ms, now_ms),
    {
        if !connected {
            return None;
        }
        let rising = rising_edge(self.prev, input);
        self.prev = Some(input);
        if rising && self.pulse_started_ms == 0 {
            self.pulse_started_ms = now_ms;
        }
        let active = if self.pulse_started_ms > 0 {
            let elapsed = now_ms.saturating_sub(self.pulse_started_ms);
            if elapsed >= width_ms {
                self.pulse_started_ms = 0;
                false
            } else {
                true
            }
        } else {
            false
        };
        Some(active)
    }
}

/// Counts rising edges on `in`; a rising edge on `reset` zeros the counter.
pub struct CycleCount {
    /// Rising edges counted since the last reset (saturating).
    pub count: u64,
    /// The `in` value seen on the previous cycle.
    pub prev_input: Option<bool>,
    /// The `reset` value seen on the previous cycle.
    pub prev_reset: Option<bool>,
}

impl CycleCount {
    /// The state after one cycle; the count it holds is the value emitted.
    pub open spec fn transition(self, input: bool, reset: bool) -> Self {
        let base = if is_rising_edge(self.prev_reset, reset) {
            0
        } else {
            self.count
        };
        CycleCount {
            count: if is_rising_edge(self.prev_input, input) {
                if base == u64::MAX {
                    u64::MAX
                } else {
                    (base + 1) as u64
                }
            } else {
                base
            },
            prev_input: Some(input),
            prev_reset: Some(reset),
        }
    }

    /// A fresh counter at zero.
    pub fn new() -> (t: Self)
        ensures
            t.count == 0,
            t.prev_input is None,
            t.prev_reset is None,
    {
        CycleCount { count: 0, prev_input: None, prev_reset: None }
    }

    /// One cycle: the count after reading `input` and `reset`.
    pub fn step(&mut self, input: bool, reset: bool) -> (count: u64)
        ensures
            *final(self) == old(self).transition(input, reset),
            count == final(self).count,
    {
        let rising_reset = rising_edge(self.prev_reset, reset);
        self.prev_reset = Some(reset);
        if rising_reset {
            self.count = 0;
        }
        let rising_input = rising_edge(self.prev_input, input);
        self.prev_input = Some(input);
        if rising_input {
            self.count = self.count.saturating_add(1);
        }
        self.count
    }
}

/// Runtime accumulator: integrates the time `in` is true. A rising edge on
/// `reset` zeros the accumulator. The block shows the total in hours; the
/// state keeps it in milliseconds.
pub struct Runtime {
    /// Clock reading of the previous cycle, or `0` before the first one.
    pub last_tick_ms: u64,
    /// Milliseconds `in` has been true since the last reset (saturating).
    pub accumulated_ms: u64,
    /// The `reset` value seen on the previous cycle.
    pub prev_reset: Option<bool>,
}

impl Runtime {
    /// The state after one cycle and the total emitted, in milliseconds
    /// (`None`: nothing, when the output is unconnected).
    pub open spec fn transition(self, connected: bool, on: bool, reset: bool, now_ms: u64) -> (Self, Option<u64>) {
        if !connected {
            (self, None)
        } else {
            let total: u64 = if is_rising_edge(self.prev_reset, reset) {
                0
            } else if on {
                let since = if self.last_tick_ms == 0 {
                    now_ms
                } else {
                    self.last_tick_ms
                };
                let sum = self.accumulated_ms + elapsed_since(now_ms, since);
                if sum > u64::MAX {
                    u64::MAX
                } else {
                    sum as u64
                }
            } else {
                self.accumulated_ms
            };
            (
                Runtime { last_tick_ms: now_ms, accumulated_ms: total, prev_reset: Some(reset) },
                Some(total),
            )
        }
    }

    /// A fresh accumulator at zero.
    pub fn new() -> (t: Self)
        ensures
            t.last_tick_ms == 0,
            t.accumulated_ms == 0,
            t.prev_reset is None,
    {
        Runtime { last_tick_ms: 0, accumulated_ms: 0, prev_reset: None }
    }

    /// One cycle: the accumulated milliseconds after reading `on` and
    /// `reset` at clock reading `now_ms`.
    pub fn step(&mut self, connected: bool, on: bool, reset: bool, now_ms: u64) -> (total_ms: Option<u64>)
        ensures
            (*final(self), total_ms) == old(self).transition(connected, on, reset, now_ms),
    {
        if !connected {
            return None;
        }
        let rising_reset = rising_edge(self.prev_reset, reset);
        self.prev_reset = Some(reset);
        if rising_reset {
            self.accumulated_ms = 0;
            self.last_tick_ms = now_ms;
            return Some(0);
        }
        if self.last_tick_ms == 0 {
            self.last_tick_ms = now_ms;
        }
        if on {
            let dt = now_ms.saturating_sub(self.last_tick_ms);
            self.accumulated_ms = self.accumulated_ms.saturating_add(dt);
        }
        self.last_tick_ms = now_ms;
        Some(self.accumulated_ms)
    }
}

/// Sample-and-hold: on a rising edge of `trigger` the output takes the
/// current input value.
pub struct SampleHold {
    /// The `trigger` value seen on the previous cycle.
    pub prev_trigger: Option<bool>,
}

impl SampleHold {
    /// A fresh block with no previous trigger.
    pub fn new() -> (t: Self)
        ensures
            t.prev_trigger is None,
    {
        SampleHold { prev_trigger: None }
    }

    /// One cycle: the value to emit, if any, for trigger `trigger` and the
    /// current input `input`.
    pub fn step<T>(&mut self, trigger: bool, input: Option<T>) -> (sample: Option<T>)
        ensures
            final(self).prev_trigger == Some(trigger),
            sample == if is_rising_edge(old(self).prev_trigger, trigger) {
                input
            } else {
                None
            },
    {
        let rising = rising_edge(self.prev_trigger, trigger);
        self.prev_trigger = Some(trigger);
        if rising {
            input
        } else {
            None
        }
    }
}

/// Next wait of the exponential back-off used while a block has no
/// readable input: twice the previous wait (saturating), capped at 2 s.
pub fn next_backoff(backoff_ms: u64) -> (next: u64)
    ensures
        next == if 2 * backoff_ms < 2000 {
            2 * backoff_ms
        } else {
            2000
        },
{
    if backoff_ms >= 1000 {
        2000
    } else {
        backoff_ms * 2
    }
}

/// What a rate-limiter cycle does with its output.
#[derive(Clone, Copy, Debug, PartialEq, Eq, Structural)]
pub enum RateLimitAction {
    /// Nothing this cycle (output unconnected, or the interval has not
    /// elapsed yet).
    Hold,
    /// First cycle: the output jumps to the target.
    Start,
    /// Move the output toward the target over `elapsed_ms` milliseconds.
    Advance { elapsed_ms: u64 },
}

/// Rate limiter's clock: the output moves toward the target at most once per
/// `interval` milliseconds, by at most the configured rate times the time
/// since the previous move. The arithmetic on values is done by the caller.
pub struct RateLimit {
    /// Clock reading of the previous move, or `0` before the first cycle.
    pub last_time_ms: u64,
}

impl RateLimit {
    /// The state after one cycle and what to do with the output.
    pub open spec fn transition(self, connected: bool, interval_ms: u64, now_ms: u64) -> (Self, RateLimitAction) {
        if !connected {
            (self, RateLimitAction::Hold)
        } else if self.last_time_ms == 0 {
            (RateLimit { last_time_ms: now_ms }, RateLimitAction::Start)
        } else if elapsed_since(now_ms, self.last_time_ms) < interval_ms {
            (self, RateLimitAction::Hold)
        } else {
            (
                RateLimit { last_time_ms: now_ms },
                RateLimitAction::Advance { elapsed_ms: elapsed_since(now_ms, self.last_time_ms) },
            )
        }
    }

    /// A rate limiter that has not run yet.
    pub fn new() -> (t: Self)
        ensures
            t.last_time_ms == 0,
    {
        RateLimit { last_time_ms: 0 }
    }

    /// One cycle at clock reading `now_ms`.
    pub fn step(&mut self, connected: bool, interval_ms: u64, now_ms: u64) -> (action: RateLimitAction)
        ensures
            (*final(self), action) == old(self).transition(connected, interval_ms, now_ms),
    {
        if !connected {
            return RateLimitAction::Hold;
        }
        if self.last_time_ms == 0 {
            self.last_time_ms = now_ms;
            return RateLimitAction::Start;
        }
        let elapsed = now_ms.saturating_sub(self.last_time_ms);
        if elapsed < interval_ms {
            return RateLimitAction::Hold;
        }
        self.last_time_ms = now_ms;
        RateLimitAction::Advance { elapsed_ms: elapsed }
    }
}

/// What an integrator cycle does with its accumulator.
#[derive(Clone, Copy, Debug, PartialEq, Eq, Structural)]
pub enum IntegratorAction {
    /// Nothing this cycle (output unconnected).
    Hold,
    /// Rising edge of reset: the accumulator goes back to zero.
    Reset,
    /// First cycle: the accumulator is emitted as it is.
    Start,
    /// Add the input times `elapsed_ms` milliseconds to the accumulator.
    Accumulate { elapsed_ms: u64 },
}

/// Integrator's clock: integrates its input over time; a rising edge on
/// `reset` zeroes the sum. The arithmetic on values is done by the caller.
pub struct IntegratorClock {
    /// Clock reading of the previous cycle, or `0` before the first one.
    pub last_time_ms: u64,
    /// The `reset` value seen on the previous cycle.
    pub prev_reset: Option<bool>,
}

impl IntegratorClock {
    /// The state after one cycle and what to do with the accumulator.
    pub open spec fn transition(self, connected: bool, reset: bool, now_ms: u64) -> (Self, IntegratorAction) {
        if !connected {
            (self, IntegratorAction::Hold)
        } else if is_rising_edge(self.prev_reset, reset) {
            (IntegratorClock { last_time_ms: now_ms, prev_reset: Some(reset) }, IntegratorAction::Reset)
        } else if self.last_time_ms == 0 {
            (IntegratorClock { last_time_ms: now_ms, prev_reset: Some(reset) }, IntegratorAction::Start)
        } else {
            (
                IntegratorClock { last_time_ms: now_ms, prev_reset: Some(reset) },
                IntegratorAction::Accumulate { elapsed_ms: elapsed_since(now_ms, self.last_time_ms) },
            )
        }
    }

    /// An integrator that has not run yet.
    pub fn new() -> (t: Self)
        ensures
            t.last_time_ms == 0,
            t.prev_reset is None,
    {
        IntegratorClock { last_time_ms: 0, prev_reset: None }
    }

    /// One cycle at clock reading `now_ms`.
    pub fn step(&mut self, connected: bool, reset: bool, now_ms: u64) -> (action: IntegratorAction)
        ensures
            (*final(self), action) == old(self).transition(connected, reset, now_ms),
    {
        if !connected {
            return IntegratorAction::Hold;
        }
        let rising_reset = rising_edge(self.prev_reset, reset);
        self.prev_reset = Some(reset);
        if rising_reset {
            self.last_time_ms = now_ms;
            return IntegratorAction::Reset;
        }
        if self.last_time_ms == 0 {
            self.last_time_ms = now_ms;
            return IntegratorAction::Start;
        }
        let elapsed = now_ms.saturating_sub(self.last_time_ms);
        self.last_time_ms = now_ms;
        IntegratorAction::Accumulate { elapsed_ms: elapsed }
    }
}

/// What a derivative cycle emits.
#[derive(Clone, Copy, Debug, PartialEq, Eq, Structural)]
pub enum DerivativeAction {
    /// Nothing this cycle (output unconnected, or no numeric input).
    Hold,
    /// First sample: the rate is zero and the sample is remembered.
    Start,
    /// The change since the previous sample, over `elapsed_ms`
    /// milliseconds (a zero span gives a zero rate).
    Rate { elapsed_ms: u64 },
}

/// Derivative's clock: the rate of change of the input per second between
/// successive samples. The arithmetic on values is done by the caller.
pub struct DerivativeClock {
    /// Clock reading of the previous sample.
    pub last_time_ms: u64,
    /// Whether a sample has been taken.
    pub initialized: bool,
}

impl DerivativeClock {
    /// The state after one cycle and what to emit.
    pub open spec fn transition(self, connected: bool, has_input: bool, now_ms: u64) -> (Self, DerivativeAction) {
        if !connected || !has_input {
            (self, DerivativeAction::Hold)
        } else if !self.initialized {
            (DerivativeClock { last_time_ms: now_ms, initialized: true }, DerivativeAction::Start)
        } else {
            (
                DerivativeClock { last_time_ms: now_ms, initialized: true },
                DerivativeAction::Rate { elapsed_ms: elapsed_since(now_ms, self.last_time_ms) },
            )
        }
    }

    /// A derivative block with no sample yet.
    pub fn new() -> (t: Self)
        ensures
            t.last_time_ms == 0,
            !t.initialized,
    {
        DerivativeClock { last_time_ms: 0, initialized: false }
    }

    /// One cycle at clock reading `now_ms`; `has_input` tells whether the
    /// input holds a number.
    pub fn step(&mut self, connected: bool, has_input: bool, now_ms: u64) -> (action: DerivativeAction)
        ensures
            (*final(self), action) == old(self).transition(connected, has_input, now_ms),
    {
        if !connected || !has_input {
            return DerivativeAction::Hold;
        }
        if !self.initialized {
            self.initialized = true;
            self.last_time_ms = now_ms;
            return DerivativeAction::Start;
        }
        let elapsed = now_ms.saturating_sub(self.last_time_ms);
        self.last_time_ms = now_ms;
        DerivativeAction::Rate { elapsed_ms: elapsed }
    }
}

} // verus!
