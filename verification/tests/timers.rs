use logic_mesh::timers::{
    next_backoff, rising_edge, CycleCount, DerivativeAction, DerivativeClock, IntegratorAction,
    IntegratorClock, OffDelay, OnDelay, OneShot, RateLimit, RateLimitAction, Runtime, SampleHold,
};

const NOW: u64 = 1_700_000_000_000;

#[test]
fn test_on_delay_zero_delay_passes_through() {
    let mut t = OnDelay::new();
    assert_eq!(t.step(true, true, 0, NOW), Some(true));
}

#[test]
fn test_on_delay_input_false_is_off() {
    let mut t = OnDelay::new();
    assert_eq!(t.step(true, false, 1000, NOW), Some(false));
}

#[test]
fn test_on_delay_long_delay_not_yet_elapsed() {
    let mut t = OnDelay::new();
    assert_eq!(t.step(true, true, 3_600_000, NOW), Some(false));
}

#[test]
fn test_on_delay_resets_when_input_drops() {
    let mut t = OnDelay::new();
    assert_eq!(t.step(true, true, 3_600_000, NOW), Some(false));
    assert!(t.pending_since_ms > 0);
    assert_eq!(t.step(true, false, 3_600_000, NOW + 10), Some(false));
    assert_eq!(t.pending_since_ms, 0);
}

#[test]
fn on_delay_turns_on_once_the_delay_has_elapsed() {
    let mut t = OnDelay::new();
    assert_eq!(t.step(true, true, 500, NOW), Some(false));
    assert_eq!(t.step(true, true, 500, NOW + 499), Some(false));
    assert_eq!(t.step(true, true, 500, NOW + 500), Some(true));
    assert_eq!(t.pending_since_ms, NOW);
}

#[test]
fn on_delay_unconnected_output_skips_the_cycle() {
    let mut t = OnDelay::new();
    assert_eq!(t.step(false, true, 0, NOW), None);
    assert_eq!(t.pending_since_ms, 0);
}

#[test]
fn test_off_delay_input_true_passes_through() {
    let mut t = OffDelay::new();
    assert_eq!(t.step(true, true, 1000, NOW, false), Some(true));
}

#[test]
fn test_off_delay_holds_output_after_input_drops() {
    let mut t = OffDelay::new();
    let on = t.step(true, true, 3_600_000, NOW, false);
    assert_eq!(on, Some(true));
    assert_eq!(t.step(true, false, 3_600_000, NOW + 1, true), Some(true));
    assert!(t.falling_since_ms > 0);
}

#[test]
fn test_off_delay_zero_delay_drops_immediately() {
    let mut t = OffDelay::new();
    assert_eq!(t.step(true, true, 0, NOW, false), Some(true));
    assert_eq!(t.step(true, false, 0, NOW + 1, true), Some(false));
}

#[test]
fn test_off_delay_initial_false_stays_false() {
    let mut t = OffDelay::new();
    assert_eq!(t.step(true, false, 3_600_000, NOW, false), Some(false));
    assert_eq!(t.falling_since_ms, 0);
}

#[test]
fn test_off_delay_retrigger_cancels_drop() {
    let mut t = OffDelay::new();
    assert_eq!(t.step(true, true, 3_600_000, NOW, false), Some(true));
    assert_eq!(t.step(true, false, 3_600_000, NOW + 1, true), Some(true));
    assert!(t.falling_since_ms > 0);
    assert_eq!(t.step(true, true, 3_600_000, NOW + 2, true), Some(true));
    assert_eq!(t.falling_since_ms, 0);
}

#[test]
fn off_delay_drops_when_the_delay_runs_out() {
    let mut t = OffDelay::new();
    assert_eq!(t.step(true, true, 100, NOW, false), Some(true));
    assert_eq!(t.step(true, false, 100, NOW + 10, true), Some(true));
    assert_eq!(t.step(true, false, 100, NOW + 109, true), Some(true));
    assert_eq!(t.step(true, false, 100, NOW + 110, true), Some(false));
    assert_eq!(t.falling_since_ms, 0);
}

#[test]
fn test_one_shot_first_cycle_no_pulse() {
    let mut t = OneShot::new();
    assert_eq!(t.step(true, true, 1000, NOW), Some(false));
}

#[test]
fn test_one_shot_fires_on_rising_edge() {
    let mut t = OneShot::new();
    assert_eq!(t.step(true, false, 3_600_000, NOW), Some(false));
    assert_eq!(t.step(true, true, 3_600_000, NOW + 1), Some(true));
}

#[test]
fn test_one_shot_zero_width_never_pulses() {
    let mut t = OneShot::new();
    assert_eq!(t.step(true, false, 0, NOW), Some(false));
    assert_eq!(t.step(true, true, 0, NOW + 1), Some(false));
}

#[test]
fn one_shot_pulse_ends_after_its_width_and_ignores_retrigger() {
    let mut t = OneShot::new();
    assert_eq!(t.step(true, false, 100, NOW), Some(false));
    assert_eq!(t.step(true, true, 100, NOW + 10), Some(true));
    assert_eq!(t.step(true, false, 100, NOW + 20), Some(true));
    // A new rising edge during the pulse does not restart it.
    assert_eq!(t.step(true, true, 100, NOW + 30), Some(true));
    assert_eq!(t.pulse_started_ms, NOW + 10);
    assert_eq!(t.step(true, true, 100, NOW + 110), Some(false));
    assert_eq!(t.pulse_started_ms, 0);
}

#[test]
fn test_cycle_count_increments_on_rising_edge() {
    let mut c = CycleCount::new();
    assert_eq!(c.step(false, false), 0);
    assert_eq!(c.step(true, false), 1);
    assert_eq!(c.step(true, false), 1);
    assert_eq!(c.step(false, false), 1);
    assert_eq!(c.step(true, false), 2);
}

#[test]
fn test_cycle_count_reset() {
    let mut c = CycleCount::new();
    c.count = 42;
    c.step(false, false);
    c.step(false, true);
    assert_eq!(c.count, 0);
}

#[test]
fn cycle_count_saturates() {
    let mut c = CycleCount { count: u64::MAX, prev_input: Some(false), prev_reset: None };
    assert_eq!(c.step(true, false), u64::MAX);
}

#[test]
fn test_runtime_starts_at_zero() {
    let mut r = Runtime::new();
    assert_eq!(r.step(true, false, false, NOW), Some(0));
}

#[test]
fn test_runtime_reset_clears_accumulator() {
    let mut r = Runtime::new();
    r.accumulated_ms = 3_600_000;
    r.step(true, true, false, NOW);
    assert_eq!(r.step(true, true, true, NOW + 5), Some(0));
    assert_eq!(r.accumulated_ms, 0);
}

#[test]
fn test_runtime_off_does_not_accumulate() {
    let mut r = Runtime::new();
    assert_eq!(r.step(true, false, false, NOW), Some(0));
    assert_eq!(r.step(true, false, false, NOW + 60_000), Some(0));
}

#[test]
fn runtime_accumulates_while_on() {
    let mut r = Runtime::new();
    assert_eq!(r.step(true, true, false, NOW), Some(0));
    assert_eq!(r.step(true, true, false, NOW + 1_000), Some(1_000));
    assert_eq!(r.step(true, false, false, NOW + 5_000), Some(1_000));
    assert_eq!(r.step(true, true, false, NOW + 6_000), Some(2_000));
    assert_eq!(r.step(false, true, false, NOW + 9_000), None);
}

#[test]
fn rate_limit_first_cycle_starts() {
    let mut r = RateLimit::new();
    assert_eq!(r.step(true, 1000, NOW), RateLimitAction::Start);
    assert_eq!(r.last_time_ms, NOW);
}

#[test]
fn rate_limit_waits_for_the_interval() {
    let mut r = RateLimit::new();
    r.step(true, 1000, NOW);
    assert_eq!(r.step(true, 1000, NOW + 999), RateLimitAction::Hold);
    assert_eq!(r.last_time_ms, NOW);
    assert_eq!(r.step(true, 1000, NOW + 1500), RateLimitAction::Advance { elapsed_ms: 1500 });
    assert_eq!(r.last_time_ms, NOW + 1500);
    assert_eq!(r.step(false, 1000, NOW + 9000), RateLimitAction::Hold);
}

#[test]
fn test_sample_hold_captures_on_rising_edge() {
    let mut s = SampleHold::new();
    let mut out: Option<f64> = None;
    let cycle = |s: &mut SampleHold, trigger: bool, input: f64, out: &mut Option<f64>| {
        if let Some(v) = s.step(trigger, Some(input)) {
            *out = Some(v);
        }
    };
    cycle(&mut s, false, 10.0, &mut out);
    assert_eq!(out, None);
    cycle(&mut s, true, 10.0, &mut out);
    assert_eq!(out, Some(10.0));
    cycle(&mut s, true, 99.0, &mut out);
    assert_eq!(out, Some(10.0));
    cycle(&mut s, false, 99.0, &mut out);
    cycle(&mut s, true, 99.0, &mut out);
    assert_eq!(out, Some(99.0));
}

#[test]
fn rising_edge_needs_a_previous_false() {
    assert!(!rising_edge(None, true));
    assert!(rising_edge(Some(false), true));
    assert!(!rising_edge(Some(true), true));
    assert!(!rising_edge(Some(false), false));
}

#[test]
fn backoff_doubles_up_to_two_seconds() {
    assert_eq!(next_backoff(10), 20);
    assert_eq!(next_backoff(999), 1998);
    assert_eq!(next_backoff(1000), 2000);
    assert_eq!(next_backoff(1500), 2000);
    assert_eq!(next_backoff(u64::MAX), 2000);
}

#[test]
fn integrator_first_cycle_starts() {
    let mut c = IntegratorClock::new();
    assert_eq!(c.step(true, false, NOW), IntegratorAction::Start);
    assert_eq!(c.last_time_ms, NOW);
}

#[test]
fn integrator_reset_restarts_the_clock() {
    let mut c = IntegratorClock::new();
    assert_eq!(c.step(true, false, NOW), IntegratorAction::Start);
    assert_eq!(c.step(true, false, NOW + 1000), IntegratorAction::Accumulate { elapsed_ms: 1000 });
    assert_eq!(c.step(true, true, NOW + 1500), IntegratorAction::Reset);
    assert_eq!(c.step(true, true, NOW + 2500), IntegratorAction::Accumulate { elapsed_ms: 1000 });
    assert_eq!(c.step(false, false, NOW + 9000), IntegratorAction::Hold);
}

#[test]
fn derivative_first_sample_starts() {
    let mut c = DerivativeClock::new();
    assert_eq!(c.step(true, true, NOW), DerivativeAction::Start);
    assert!(c.initialized);
}

#[test]
fn derivative_measures_between_samples() {
    let mut c = DerivativeClock::new();
    assert_eq!(c.step(true, false, NOW), DerivativeAction::Hold);
    assert_eq!(c.step(false, true, NOW), DerivativeAction::Hold);
    assert_eq!(c.step(true, true, NOW), DerivativeAction::Start);
    assert_eq!(c.step(true, true, NOW + 250), DerivativeAction::Rate { elapsed_ms: 250 });
    assert_eq!(c.step(true, true, NOW + 250), DerivativeAction::Rate { elapsed_ms: 0 });
}
