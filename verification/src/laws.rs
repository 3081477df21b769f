//! Properties of the library that hold across calls or of every state.

use vstd::prelude::*;

use crate::connectors::{distinct_names, first_position, handle_of, without_name};
use crate::registry::{BlockEntryView, entry_is, is_registered, lookup, unique_entries};
use crate::pins::{
    BlockPinsView, InputPinView, LinkView, OutputPinView, input_records, input_unlinked,
    link_records, output_linked, output_records, output_unlinked, records_with_id, first_named, input_counted, input_names, lemma_first_named_found, input_written, links_without,
    output_names, output_written,
};
use crate::schedule::{day_letter_bit, day_selected, parse_days_spec, window_occupied};
use crate::engine::{BlockHandleView, EngineErrorView, LinkEnd, link_fault};
use crate::desc::pins_have;
use crate::strings::replaced;
use crate::ids::uuid_parse;
use crate::misc::window_of;
use crate::program::{LoadErrorView, ProgramBlockRef, block_resolution};
use crate::timers::{CycleCount, DerivativeAction, DerivativeClock, IntegratorAction, IntegratorClock, OffDelay, OnDelay, OneShot, RateLimit, RateLimitAction, Runtime, elapsed_since, is_rising_edge};

verus! {

// ---- timers ---------------------------------------------------------------

/// With a zero delay the on-delay timer passes its input straight through.
pub proof fn law_on_delay_zero_delay_passes_through(t: OnDelay, input: bool, now_ms: u64)
    ensures
        t.transition(true, input, 0, now_ms).1 == Some(input),
{
}

/// The on-delay output is true only while the input is true, and only once
/// the input has been true for the whole delay.
pub proof fn law_on_delay_true_only_after_delay(t: OnDelay, input: bool, delay_ms: u64, now_ms: u64)
    ensures
        t.transition(true, input, delay_ms, now_ms).1 == Some(true) ==> input && elapsed_since(
            now_ms,
            t.transition(true, input, delay_ms, now_ms).0.pending_since_ms,
        ) >= delay_ms,
{
}

/// A false input turns the on-delay output off and resets the timer.
pub proof fn law_on_delay_false_input_resets(t: OnDelay, delay_ms: u64, now_ms: u64)
    ensures
        t.transition(true, false, delay_ms, now_ms) == (OnDelay { pending_since_ms: 0 }, Some(
            false,
        )),
{
}

/// The off-delay output follows a true input at once.
pub proof fn law_off_delay_true_input_passes_through(t: OffDelay, delay_ms: u64, now_ms: u64, output_on: bool)
    ensures
        t.transition(true, true, delay_ms, now_ms, output_on).1 == Some(true),
{
}

/// With a zero delay the off-delay output drops as soon as the input does.
pub proof fn law_off_delay_zero_delay_drops_at_once(t: OffDelay, now_ms: u64, output_on: bool)
    ensures
        t.transition(true, false, 0, now_ms, output_on).1 == Some(false),
{
}

/// An off-delay timer that is off, with no drop pending, stays off on a
/// false input.
pub proof fn law_off_delay_idle_stays_off(delay_ms: u64, now_ms: u64)
    ensures
        (OffDelay { falling_since_ms: 0 }).transition(true, false, delay_ms, now_ms, false) == (
        OffDelay { falling_since_ms: 0 }, Some(false)),
{
}

/// A one-shot with a zero width never pulses.
pub proof fn law_one_shot_zero_width_never_pulses(t: OneShot, input: bool, now_ms: u64)
    ensures
        t.transition(true, input, 0, now_ms).1 == Some(false),
{
}

/// The first reading of a fresh one-shot is never a pulse.
pub proof fn law_one_shot_first_cycle_no_pulse(input: bool, width_ms: u64, now_ms: u64)
    ensures
        (OneShot { pulse_started_ms: 0, prev: None }).transition(true, input, width_ms, now_ms).1
            == Some(false),
{
}

/// A pulse in progress is not restarted by another rising edge: the pulse
/// keeps its start or ends.
pub proof fn law_one_shot_not_retriggerable(t: OneShot, input: bool, width_ms: u64, now_ms: u64)
    requires
        t.pulse_started_ms != 0,
    ensures
        t.transition(true, input, width_ms, now_ms).0.pulse_started_ms == t.pulse_started_ms
            || t.transition(true, input, width_ms, now_ms).0.pulse_started_ms == 0,
{
}

/// Holding the input steady does not count again.
pub proof fn law_cycle_count_steady_input_does_not_count(t: CycleCount, input: bool, reset: bool)
    requires
        t.prev_input == Some(input),
        !is_rising_edge(t.prev_reset, reset),
    ensures
        t.transition(input, reset).count == t.count,
{
}

/// Each rising edge of the input counts one (short of saturation).
pub proof fn law_cycle_count_rising_edge_counts_one(t: CycleCount, reset: bool)
    requires
        t.prev_input == Some(false),
        !is_rising_edge(t.prev_reset, reset),
        t.count < u64::MAX,
    ensures
        t.transition(true, reset).count == t.count + 1,
{
}

/// A rising edge of reset zeroes the count (when the input does not rise in
/// the same cycle).
pub proof fn law_cycle_count_reset_zeroes(t: CycleCount, input: bool)
    requires
        t.prev_reset == Some(false),
        !is_rising_edge(t.prev_input, input),
    ensures
        t.transition(input, true).count == 0,
{
}

/// While the input is off the runtime does not grow.
pub proof fn law_runtime_off_does_not_accumulate(t: Runtime, reset: bool, now_ms: u64)
    requires
        !is_rising_edge(t.prev_reset, reset),
    ensures
        t.transition(true, false, reset, now_ms).1 == Some(t.accumulated_ms),
{
}

/// Without a reset the runtime never decreases.
pub proof fn law_runtime_never_decreases(t: Runtime, on: bool, reset: bool, now_ms: u64)
    requires
        !is_rising_edge(t.prev_reset, reset),
    ensures
        t.transition(true, on, reset, now_ms).0.accumulated_ms >= t.accumulated_ms,
{
}

/// A rising edge of reset clears the runtime.
pub proof fn law_runtime_reset_clears(t: Runtime, on: bool, now_ms: u64)
    requires
        t.prev_reset == Some(false),
    ensures
        t.transition(true, on, true, now_ms).1 == Some(0u64),
{
}

/// The first connected cycle of a rate limiter jumps to the target.
pub proof fn law_rate_limit_first_cycle_starts(interval_ms: u64, now_ms: u64)
    ensures
        (RateLimit { last_time_ms: 0 }).transition(true, interval_ms, now_ms).1
            == RateLimitAction::Start,
{
}

/// A rate limiter moves at most once per interval: a move reports at least
/// the interval since the previous one.
pub proof fn law_rate_limit_moves_after_interval(t: RateLimit, interval_ms: u64, now_ms: u64)
    ensures
        t.transition(true, interval_ms, now_ms).1 matches RateLimitAction::Advance { elapsed_ms }
            ==> elapsed_ms >= interval_ms,
{
}

/// A rising edge of reset restarts the integrator from zero.
pub proof fn law_integrator_reset_restarts(t: IntegratorClock, now_ms: u64)
    requires
        t.prev_reset == Some(false),
    ensures
        t.transition(true, true, now_ms).1 == IntegratorAction::Reset,
{
}

/// The derivative of the first sample is zero, and a later sample is
/// measured from the previous one.
pub proof fn law_derivative_measures_from_previous_sample(t: DerivativeClock, now_ms: u64)
    requires
        t.initialized,
    ensures
        t.transition(true, true, now_ms).1 == (DerivativeAction::Rate {
            elapsed_ms: elapsed_since(now_ms, t.last_time_ms),
        }),
        (DerivativeClock { last_time_ms: 0, initialized: false }).transition(true, true, now_ms).1
            == DerivativeAction::Start,
{
}

/// A moving-average window holds the newest sample and at most `window`
/// samples (at least one), the most recent ones, in order.
pub proof fn law_window_keeps_the_latest_samples<T>(samples: Seq<T>, value: T, window: usize)
    ensures
        ({
            let all = samples.push(value);
            let w = window_of(all, window);
            &&& 1 <= w.len() <= (if window == 0 {
                1
            } else {
                window as int
            })
            &&& w.last() == value
            &&& w == all.subrange(all.len() - w.len(), all.len() as int)
        }),
{
    let all = samples.push(value);
    let w = window_of(all, window);
    if w.len() == all.len() {
        assert(all.subrange(0, all.len() as int) =~= all);
    }
}

/// A one-shot starts a pulse only on a rising edge: with no pulse running,
/// the output is true only after a false reading followed by a true one.
/// In particular a false input (a falling edge included) never starts a
/// pulse: the output stays false and no pulse is recorded.
pub proof fn law_one_shot_fires_only_on_rising_edge(t: OneShot, input: bool, width_ms: u64, now_ms: u64)
    requires
        t.pulse_started_ms == 0,
    ensures
        t.transition(true, input, width_ms, now_ms).1 == Some(true) ==> t.prev == Some(false) && input,
        !input ==> t.transition(true, input, width_ms, now_ms) == (OneShot {
            pulse_started_ms: 0,
            prev: Some(false),
        }, Some(false)),
        t.transition(true, input, width_ms, now_ms).1 == Some(true) ==> t.transition(
            true,
            input,
            width_ms,
            now_ms,
        ).0.pulse_started_ms == now_ms,
{
}

/// A rising edge on an idle one-shot with a positive width starts a pulse at
/// once (the clock reading being positive).
pub proof fn law_one_shot_rising_edge_starts_pulse(width_ms: u64, now_ms: u64)
    requires
        width_ms > 0,
        now_ms > 0,
    ensures
        (OneShot { pulse_started_ms: 0, prev: Some(false) }).transition(true, true, width_ms, now_ms)
            == (OneShot { pulse_started_ms: now_ms, prev: Some(true) }, Some(true)),
{
}

/// A running pulse stays on, whatever the input, while less than its width
/// has passed since it started, and ends once the width has passed.
pub proof fn law_one_shot_pulse_lasts_its_width(t: OneShot, input: bool, width_ms: u64, now_ms: u64)
    requires
        t.pulse_started_ms != 0,
    ensures
        now_ms >= t.pulse_started_ms ==> t.transition(true, input, width_ms, now_ms).1 == Some(
            now_ms - t.pulse_started_ms < width_ms,
        ),
        now_ms < t.pulse_started_ms ==> t.transition(true, input, width_ms, now_ms).1 == Some(
            width_ms > 0,
        ),
{
}

// ---- connector registry ----------------------------------------------------

/// A handle registered under a free name is what a lookup of that name
/// gives.
pub proof fn law_registered_connector_is_found<H>(entries: Seq<(Seq<char>, H)>, name: Seq<char>, handle: H)
    requires
        distinct_names(entries),
        handle_of(entries, name) is None,
    ensures
        handle_of(entries.push((name, handle)), name) == Some(handle),
        distinct_names(entries.push((name, handle))),
{
    let s = entries.push((name, handle));
    assert(s[entries.len() as int].0 == name);
    assert(distinct_names(s)) by {
        assert forall|i: int, j: int| 0 <= i < j < s.len() implies (#[trigger] s[i]).0 != (
        #[trigger] s[j]).0 by {
            if j == entries.len() {
                assert(s[i] == entries[i]);
                assert(!(0 <= i < entries.len() && entries[i].0 == name));
            } else {
                assert(s[i] == entries[i] && s[j] == entries[j]);
            }
        }
    }
    let k = choose|k: int| 0 <= k < s.len() && (#[trigger] s[k]).0 == name;
    if k < entries.len() {
        assert(entries[k].0 == name);
    }
}

/// After unregistering a name, a lookup of it finds nothing.
pub proof fn law_unregistered_connector_is_gone<H>(entries: Seq<(Seq<char>, H)>, name: Seq<char>)
    ensures
        handle_of(without_name(entries, name), name) is None,
    decreases entries.len(),
{
    if entries.len() > 0 {
        law_unregistered_connector_is_gone(entries.drop_last(), name);
        let rest = without_name(entries.drop_last(), name);
        let s = without_name(entries, name);
        if entries.last().0 != name {
            assert forall|i: int| 0 <= i < s.len() implies (#[trigger] s[i]).0 != name by {
                if i < rest.len() {
                    assert(s[i] == rest[i]);
                    assert(!(0 <= i < rest.len() && rest[i].0 == name));
                }
            }
        }
    }
}

/// Unregistering one name leaves the handles of the other names as they
/// were.
pub proof fn law_unregister_keeps_other_connectors<H>(entries: Seq<(Seq<char>, H)>, name: Seq<char>, other: Seq<char>)
    requires
        distinct_names(entries),
        other != name,
    ensures
        handle_of(without_name(entries, name), other) == handle_of(entries, other),
    decreases entries.len(),
{
    if entries.len() > 0 {
        let init = entries.drop_last();
        assert(distinct_names(init)) by {
            assert forall|i: int, j: int| 0 <= i < j < init.len() implies (#[trigger] init[i]).0 != (
            #[trigger] init[j]).0 by {
                assert(init[i] == entries[i] && init[j] == entries[j]);
            }
        }
        law_unregister_keeps_other_connectors(init, name, other);
        lemma_without_keeps_distinct(init, name);
        let rest = without_name(init, name);
        let s = without_name(entries, name);
        let last = entries.last();
        assert(entries =~= init.push(last));
        if last.0 == other {
            // `other` is the last entry of both lists, and nowhere before it.
            assert forall|i: int| 0 <= i < init.len() implies (#[trigger] init[i]).0 != other by {
                assert(entries[i].0 != entries[entries.len() - 1].0);
            }
            assert(handle_of(init, other) is None);
            assert(handle_of(rest, other) is None);
            assert(s == rest.push(last));
            assert(s[rest.len() as int].0 == other);
            assert(entries[entries.len() - 1].0 == other);
            let k = choose|k: int| 0 <= k < s.len() && (#[trigger] s[k]).0 == other;
            if k < rest.len() {
                assert(s[k] == rest[k]);
                assert(!(0 <= k < rest.len() && rest[k].0 == other));
            }
            let k2 = choose|k: int| 0 <= k < entries.len() && (#[trigger] entries[k]).0 == other;
            if k2 < init.len() {
                assert(init[k2] == entries[k2]);
            }
        } else {
            lemma_handle_of_push_other(init, last, other);
            if last.0 == name {
                assert(s == rest);
            } else {
                assert(s == rest.push(last));
                lemma_handle_of_push_other(rest, last, other);
            }
        }
    }
}

proof fn lemma_handle_of_push_other<H>(entries: Seq<(Seq<char>, H)>, e: (Seq<char>, H), name: Seq<char>)
    requires
        distinct_names(entries),
        e.0 != name,
    ensures
        handle_of(entries.push(e), name) == handle_of(entries, name),
{
    let s = entries.push(e);
    if exists|i: int| 0 <= i < entries.len() && (#[trigger] entries[i]).0 == name {
        let i = choose|i: int| 0 <= i < entries.len() && (#[trigger] entries[i]).0 == name;
        assert(s[i] == entries[i]);
    }
    if exists|i: int| 0 <= i < s.len() && (#[trigger] s[i]).0 == name {
        let a = choose|i: int| 0 <= i < s.len() && (#[trigger] s[i]).0 == name;
        assert(a < entries.len());
        assert(s[a] == entries[a]);
        let b = choose|i: int| 0 <= i < entries.len() && (#[trigger] entries[i]).0 == name;
        if a < b {
            assert(entries[a].0 != entries[b].0);
        } else if b < a {
            assert(entries[b].0 != entries[a].0);
        }
    }
}

/// Removing a name keeps the names distinct, and keeps only entries that
/// were there.
proof fn lemma_without_keeps_distinct<H>(entries: Seq<(Seq<char>, H)>, name: Seq<char>)
    requires
        distinct_names(entries),
    ensures
        distinct_names(without_name(entries, name)),
        forall|i: int|
            0 <= i < without_name(entries, name).len() ==> exists|j: int|
                0 <= j < entries.len() && #[trigger] without_name(entries, name)[i] == entries[j],
    decreases entries.len(),
{
    if entries.len() > 0 {
        let init = entries.drop_last();
        assert(distinct_names(init)) by {
            assert forall|i: int, j: int| 0 <= i < j < init.len() implies (#[trigger] init[i]).0 != (
            #[trigger] init[j]).0 by {
                assert(init[i] == entries[i] && init[j] == entries[j]);
            }
        }
        lemma_without_keeps_distinct(init, name);
        let rest = without_name(init, name);
        let s = without_name(entries, name);
        let last = entries.last();
        assert forall|i: int| 0 <= i < rest.len() implies exists|j: int|
            0 <= j < entries.len() && #[trigger] rest[i] == entries[j] by {
            let j = choose|j: int| 0 <= j < init.len() && #[trigger] rest[i] == init[j];
            assert(init[j] == entries[j]);
        }
        if last.0 != name {
            assert(s == rest.push(last));
            assert forall|i: int, j: int| 0 <= i < j < s.len() implies (#[trigger] s[i]).0 != (
            #[trigger] s[j]).0 by {
                if j == rest.len() {
                    assert(s[i] == rest[i]);
                    let k = choose|k: int| 0 <= k < entries.len() && #[trigger] rest[i] == entries[k];
                    assert(k < init.len()) by {
                        if k == entries.len() - 1 {
                            assert(rest[i] == init[choose|m: int| 0 <= m < init.len() && #[trigger] rest[i] == init[m]]);
                            let m = choose|m: int| 0 <= m < init.len() && #[trigger] rest[i] == init[m];
                            assert(entries[m].0 != entries[k].0);
                        }
                    }
                    assert(entries[k].0 != entries[entries.len() - 1].0);
                } else {
                    assert(s[i] == rest[i] && s[j] == rest[j]);
                }
            }
            assert forall|i: int| 0 <= i < s.len() implies exists|j: int|
                0 <= j < entries.len() && #[trigger] s[i] == entries[j] by {
                if i == rest.len() {
                    assert(s[i] == entries[entries.len() - 1]);
                } else {
                    assert(s[i] == rest[i]);
                }
            }
        }
    }
}

/// Detaching a connector just attached (one the engine did not manage
/// before) gives the managed list back as it was.
pub proof fn law_detach_undoes_attach(names: Seq<Seq<char>>, name: Seq<char>)
    requires
        !names.contains(name),
    ensures
        names.push(name).contains(name),
        first_position(names.push(name), name) == names.len(),
        names.push(name).remove(first_position(names.push(name), name)) == names,
{
    let s = names.push(name);
    assert(s[names.len() as int] == name);
    assert forall|k: int| 0 <= k < names.len() implies #[trigger] s[k] != name by {
        assert(s[k] == names[k]);
    }
    let j = first_position(s, name);
    assert(0 <= j < s.len() && s[j] == name && forall|k: int| 0 <= k < j ==> #[trigger] s[k] != name) by {
        assert(0 <= names.len() as int && names.len() < s.len() && s[names.len() as int] == name
            && forall|k: int| 0 <= k < names.len() ==> #[trigger] s[k] != name);
    }
    if j < names.len() {
        assert(s[j] == names[j]);
    }
    assert(s.remove(names.len() as int) =~= names);
}

// ---- block registry ---------------------------------------------------------

/// A block registered under a free library and name is what a lookup of
/// that library and name gives, and the registry still holds no block
/// twice.
pub proof fn law_registered_block_is_found(entries: Seq<BlockEntryView>, e: BlockEntryView)
    requires
        unique_entries(entries),
        !is_registered(entries, e.desc.library, e.desc.name),
    ensures
        unique_entries(entries.push(e)),
        lookup(entries.push(e), e.desc.library, e.desc.name) == Some(e),
{
    let s = entries.push(e);
    lemma_push_unique(entries, e);
    assert(entry_is(s[entries.len() as int], e.desc.library, e.desc.name));
    crate::registry::lemma_lookup_at(s, e.desc.library, e.desc.name, entries.len() as int);
}

/// Registering a block leaves the lookup of every other block as it was.
pub proof fn law_registration_keeps_other_blocks(
    entries: Seq<BlockEntryView>,
    e: BlockEntryView,
    library: Seq<char>,
    name: Seq<char>,
)
    requires
        unique_entries(entries),
        !is_registered(entries, e.desc.library, e.desc.name),
        !entry_is(e, library, name),
    ensures
        lookup(entries.push(e), library, name) == lookup(entries, library, name),
{
    let s = entries.push(e);
    lemma_push_unique(entries, e);
    if is_registered(entries, library, name) {
        let i = choose|i: int| 0 <= i < entries.len() && entry_is(#[trigger] entries[i], library, name);
        assert(s[i] == entries[i]);
        crate::registry::lemma_lookup_at(entries, library, name, i);
        crate::registry::lemma_lookup_at(s, library, name, i);
    } else {
        assert forall|i: int| 0 <= i < s.len() implies !entry_is(#[trigger] s[i], library, name) by {
            if i < entries.len() {
                assert(s[i] == entries[i]);
            }
        }
    }
}

proof fn lemma_push_unique(entries: Seq<BlockEntryView>, e: BlockEntryView)
    requires
        unique_entries(entries),
        !is_registered(entries, e.desc.library, e.desc.name),
    ensures
        unique_entries(entries.push(e)),
{
    let s = entries.push(e);
    assert forall|i: int, j: int| 0 <= i < j < s.len() implies !entry_is(
        #[trigger] s[i],
        s[j].desc.library,
        #[trigger] s[j].desc.name,
    ) by {
        assert(s[i] == entries[i]);
        if j < entries.len() {
            assert(s[j] == entries[j]);
        } else {
            assert(!entry_is(entries[i], e.desc.library, e.desc.name));
        }
    }
}

// ---- block pins -----------------------------------------------------------

/// Writing an input and then reading it gives back the value written; the
/// input keeps its place and its name.
pub proof fn law_input_reads_back_write<V, W>(inputs: Seq<InputPinView<V, W>>, name: Seq<char>, value: V)
    requires
        first_named(input_names(inputs), name) is Some,
    ensures
        ({
            let i = first_named(input_names(inputs), name)->0;
            let t = inputs.update(i, input_written(inputs[i], value));
            &&& first_named(input_names(t), name) == Some(i)
            &&& t[i].value == Some(value)
        }),
{
    let names = input_names(inputs);
    let k = choose|k: int| 0 <= k < names.len() && names[k] == name;
    lemma_first_named_found(names, name, k);
    let i = first_named(names, name)->0;
    let t = inputs.update(i, input_written(inputs[i], value));
    assert(input_names(t) =~= names);
}

/// Writing an output and then reading it gives back the value written.
pub proof fn law_output_reads_back_write<V, W>(outputs: Seq<OutputPinView<V, W>>, name: Seq<char>, value: V)
    requires
        first_named(output_names(outputs), name) is Some,
    ensures
        ({
            let i = first_named(output_names(outputs), name)->0;
            let t = outputs.update(i, output_written(outputs[i], value));
            &&& first_named(output_names(t), name) == Some(i)
            &&& t[i].value == value
        }),
{
    let names = output_names(outputs);
    let k = choose|k: int| 0 <= k < names.len() && names[k] == name;
    lemma_first_named_found(names, name, k);
    let i = first_named(names, name)->0;
    let t = outputs.update(i, output_written(outputs[i], value));
    assert(output_names(t) =~= names);
}

/// Counting one link fewer after counting one more gives the input back as
/// it was (short of saturation).
pub proof fn law_decrement_undoes_increment<V, W>(inputs: Seq<InputPinView<V, W>>, name: Seq<char>)
    requires
        first_named(input_names(inputs), name) is Some,
        inputs[first_named(input_names(inputs), name)->0].connection_count < usize::MAX,
    ensures
        ({
            let i = first_named(input_names(inputs), name)->0;
            let c = inputs[i].connection_count;
            let t = inputs.update(i, input_counted(inputs[i], (c + 1) as usize));
            &&& first_named(input_names(t), name) == Some(i)
            &&& t[i].connection_count == c + 1
            &&& t.update(i, input_counted(t[i], c)) == inputs
        }),
{
    let names = input_names(inputs);
    let k = choose|k: int| 0 <= k < names.len() && names[k] == name;
    lemma_first_named_found(names, name, k);
    let i = first_named(names, name)->0;
    let c = inputs[i].connection_count;
    let t = inputs.update(i, input_counted(inputs[i], (c + 1) as usize));
    assert(input_names(t) =~= names);
    assert(t.update(i, input_counted(t[i], c)) =~= inputs);
}

/// Dropping the links of an id (or of a target block) leaves none of them
/// and keeps every other link.
pub proof fn law_dropped_links_are_exactly_the_matching_ones<W>(links: Seq<LinkView<W>>, by_id: bool, id: u128, l: LinkView<W>)
    ensures
        links_without(links, by_id, id).contains(l) <==> links.contains(l) && (if by_id {
            l.id
        } else {
            l.target_block_id
        }) != id,
    decreases links.len(),
{
    if links.len() > 0 {
        let init = links.drop_last();
        law_dropped_links_are_exactly_the_matching_ones(init, by_id, id, l);
        let rest = links_without(init, by_id, id);
        assert(links =~= init.push(links.last()));
        if links.contains(l) && l != links.last() {
            let k = choose|k: int| 0 <= k < links.len() && links[k] == l;
            assert(k < init.len());
            assert(init[k] == l);
        }
        if init.contains(l) {
            let k = choose|k: int| 0 <= k < init.len() && init[k] == l;
            assert(links[k] == l);
        }
        if rest.push(links.last()).contains(l) && l != links.last() {
            let k = choose|k: int| 0 <= k < rest.len() + 1 && rest.push(links.last())[k] == l;
            assert(k < rest.len());
            assert(rest[k] == l);
        }
        if rest.contains(l) {
            let k = choose|k: int| 0 <= k < rest.len() && rest[k] == l;
            assert(rest.push(links.last())[k] == l);
        }
        assert(links[links.len() - 1] == links.last());
        assert(rest.push(links.last())[rest.len() as int] == links.last());
    }
}

/// After removing the links of an id from every pin of a block, the block
/// has no link of that id left: collecting the targets of that id finds
/// none.
pub proof fn law_removed_link_is_gone<V, W>(b: BlockPinsView<V, W>, id: u128)
    ensures
        records_with_id(
            link_records(
                BlockPinsView {
                    outputs: b.outputs.map_values(|p: OutputPinView<V, W>| output_unlinked(p, true, id)),
                    inputs: b.inputs.map_values(|p: InputPinView<V, W>| input_unlinked(p, true, id)),
                    ..b
                },
            ),
            id,
        ) == Seq::<(Seq<char>, LinkView<W>)>::empty(),
{
    let outs = b.outputs.map_values(|p: OutputPinView<V, W>| output_unlinked(p, true, id));
    let ins = b.inputs.map_values(|p: InputPinView<V, W>| input_unlinked(p, true, id));
    lemma_output_records_without(b.outputs, true, id);
    lemma_input_records_without(b.inputs, true, id);
    let all = output_records(outs) + input_records(ins);
    assert forall|k: int| 0 <= k < all.len() implies (#[trigger] all[k]).1.id != id by {
        if k < output_records(outs).len() {
            assert(all[k] == output_records(outs)[k]);
        } else {
            assert(all[k] == input_records(ins)[k - output_records(outs).len()]);
        }
    }
    lemma_no_record_with_id(all, id);
}

/// After dropping from every pin of a block the links that target block
/// `target` (as the engine does to every other block when `target` is
/// removed), no link of the block targets it.
pub proof fn law_removed_block_is_unlinked<V, W>(b: BlockPinsView<V, W>, target: u128)
    ensures
        ({
            let after = BlockPinsView {
                outputs: b.outputs.map_values(|p: OutputPinView<V, W>| output_unlinked(p, false, target)),
                inputs: b.inputs.map_values(|p: InputPinView<V, W>| input_unlinked(p, false, target)),
                ..b
            };
            forall|k: int|
                0 <= k < link_records(after).len() ==> (#[trigger] link_records(after)[k]).1.target_block_id
                    != target
        }),
{
    let outs = b.outputs.map_values(|p: OutputPinView<V, W>| output_unlinked(p, false, target));
    let ins = b.inputs.map_values(|p: InputPinView<V, W>| input_unlinked(p, false, target));
    lemma_output_records_without(b.outputs, false, target);
    lemma_input_records_without(b.inputs, false, target);
    let all = output_records(outs) + input_records(ins);
    assert forall|k: int| 0 <= k < all.len() implies (#[trigger] all[k]).1.target_block_id != target by {
        if k < output_records(outs).len() {
            assert(all[k] == output_records(outs)[k]);
            assert(link_key(output_records(outs)[k].1, false) != target);
        } else {
            let j = k - output_records(outs).len();
            assert(all[k] == input_records(ins)[j]);
            assert(link_key(input_records(ins)[j].1, false) != target);
        }
    }
}

proof fn lemma_no_record_with_id<W>(records: Seq<(Seq<char>, LinkView<W>)>, id: u128)
    requires
        forall|k: int| 0 <= k < records.len() ==> (#[trigger] records[k]).1.id != id,
    ensures
        records_with_id(records, id) == Seq::<(Seq<char>, LinkView<W>)>::empty(),
    decreases records.len(),
{
    if records.len() > 0 {
        let init = records.drop_last();
        assert forall|k: int| 0 <= k < init.len() implies (#[trigger] init[k]).1.id != id by {
            assert(init[k] == records[k]);
        }
        lemma_no_record_with_id(init, id);
        assert(records[records.len() - 1] == records.last());
    }
}

/// The id of a link (`by_id`) or the block it targets.
pub open spec fn link_key<W>(l: LinkView<W>, by_id: bool) -> u128 {
    if by_id {
        l.id
    } else {
        l.target_block_id
    }
}

/// A link kept by `links_without` does not match what was dropped.
proof fn lemma_kept_link_not_of_id<W>(links: Seq<LinkView<W>>, by_id: bool, id: u128, j: int)
    requires
        0 <= j < links_without(links, by_id, id).len(),
    ensures
        link_key(links_without(links, by_id, id)[j], by_id) != id,
{
    let kept = links_without(links, by_id, id);
    assert(kept.contains(kept[j]));
    law_dropped_links_are_exactly_the_matching_ones(links, by_id, id, kept[j]);
}

proof fn lemma_output_records_without<V, W>(outputs: Seq<OutputPinView<V, W>>, by_id: bool, id: u128)
    ensures
        ({
            let r = output_records(
                outputs.map_values(|p: OutputPinView<V, W>| output_unlinked(p, by_id, id)),
            );
            forall|k: int| 0 <= k < r.len() ==> link_key((#[trigger] r[k]).1, by_id) != id
        }),
    decreases outputs.len(),
{
    let m = outputs.map_values(|p: OutputPinView<V, W>| output_unlinked(p, by_id, id));
    if outputs.len() > 0 {
        let init = outputs.drop_last();
        lemma_output_records_without(init, by_id, id);
        assert(m.drop_last() =~= init.map_values(
            |p: OutputPinView<V, W>| output_unlinked(p, by_id, id),
        ));
        let head = output_records(m.drop_last());
        let p = m.last();
        let tail = p.links.map_values(|l: LinkView<W>| (p.name, l));
        let r = output_records(m);
        assert(r == head + tail);
        assert(p == output_unlinked(outputs[outputs.len() - 1], by_id, id));
        assert forall|k: int| 0 <= k < r.len() implies link_key((#[trigger] r[k]).1, by_id) != id by {
            if k < head.len() {
                assert(r[k] == head[k]);
            } else {
                let j = k - head.len();
                assert(r[k] == tail[j]);
                lemma_kept_link_not_of_id(outputs[outputs.len() - 1].links, by_id, id, j);
            }
        }
    }
}

proof fn lemma_input_records_without<V, W>(inputs: Seq<InputPinView<V, W>>, by_id: bool, id: u128)
    ensures
        ({
            let r = input_records(
                inputs.map_values(|p: InputPinView<V, W>| input_unlinked(p, by_id, id)),
            );
            forall|k: int| 0 <= k < r.len() ==> link_key((#[trigger] r[k]).1, by_id) != id
        }),
    decreases inputs.len(),
{
    let m = inputs.map_values(|p: InputPinView<V, W>| input_unlinked(p, by_id, id));
    if inputs.len() > 0 {
        let init = inputs.drop_last();
        lemma_input_records_without(init, by_id, id);
        assert(m.drop_last() =~= init.map_values(
            |p: InputPinView<V, W>| input_unlinked(p, by_id, id),
        ));
        let head = input_records(m.drop_last());
        let p = m.last();
        let tail = p.links.map_values(|l: LinkView<W>| (p.name, l));
        let r = input_records(m);
        assert(r == head + tail);
        assert(p == input_unlinked(inputs[inputs.len() - 1], by_id, id));
        assert forall|k: int| 0 <= k < r.len() implies link_key((#[trigger] r[k]).1, by_id) != id by {
            if k < head.len() {
                assert(r[k] == head[k]);
            } else {
                let j = k - head.len();
                assert(r[k] == tail[j]);
                lemma_kept_link_not_of_id(inputs[inputs.len() - 1].links, by_id, id, j);
            }
        }
    }
}

/// A link added to an output, under an id no link of the block has, is
/// the one link that collecting the targets of that id finds.
pub proof fn law_added_link_is_found<V, W>(b: BlockPinsView<V, W>, i: int, l: LinkView<W>)
    requires
        0 <= i < b.outputs.len(),
        forall|k: int| 0 <= k < link_records(b).len() ==> (#[trigger] link_records(b)[k]).1.id != l.id,
    ensures
        records_with_id(
            link_records(
                BlockPinsView { outputs: b.outputs.update(i, output_linked(b.outputs[i], l)), ..b },
            ),
            l.id,
        ) == seq![(b.outputs[i].name, l)],
{
    let outs = b.outputs;
    let all = link_records(b);
    assert forall|k: int| 0 <= k < output_records(outs).len() implies (#[trigger] output_records(
        outs,
    )[k]).1.id != l.id by {
        assert(all[k] == output_records(outs)[k]);
    }
    assert forall|k: int| 0 <= k < input_records(b.inputs).len() implies (#[trigger] input_records(
        b.inputs,
    )[k]).1.id != l.id by {
        assert(all[k + output_records(outs).len()] == input_records(b.inputs)[k]);
    }
    lemma_added_output_record(outs, i, l);
    lemma_no_record_with_id(input_records(b.inputs), l.id);
    let new_outs = outs.update(i, output_linked(outs[i], l));
    lemma_records_with_id_concat(output_records(new_outs), input_records(b.inputs), l.id);
    assert(seq![(outs[i].name, l)] + Seq::<(Seq<char>, LinkView<W>)>::empty() =~= seq![(
        outs[i].name,
        l,
    )]);
}

proof fn lemma_records_with_id_concat<W>(a: Seq<(Seq<char>, LinkView<W>)>, b: Seq<(Seq<char>, LinkView<W>)>, id: u128)
    ensures
        records_with_id(a + b, id) == records_with_id(a, id) + records_with_id(b, id),
    decreases b.len(),
{
    if b.len() == 0 {
        assert(a + b =~= a);
        assert(records_with_id(a, id) + records_with_id(b, id) =~= records_with_id(a, id));
    } else {
        lemma_records_with_id_concat(a, b.drop_last(), id);
        assert((a + b).drop_last() =~= a + b.drop_last());
        assert((a + b).last() == b.last());
        if b.last().1.id == id {
            assert(records_with_id(a, id) + records_with_id(b.drop_last(), id).push(b.last())
                =~= (records_with_id(a, id) + records_with_id(b.drop_last(), id)).push(b.last()));
        }
    }
}

proof fn lemma_records_of_links<W>(name: Seq<char>, links: Seq<LinkView<W>>, id: u128)
    requires
        forall|k: int| 0 <= k < links.len() ==> (#[trigger] links[k]).id != id,
    ensures
        records_with_id(links.map_values(|l: LinkView<W>| (name, l)), id) == Seq::<
            (Seq<char>, LinkView<W>),
        >::empty(),
{
    let r = links.map_values(|l: LinkView<W>| (name, l));
    assert forall|k: int| 0 <= k < r.len() implies (#[trigger] r[k]).1.id != id by {
        assert(r[k] == (name, links[k]));
    }
    lemma_no_record_with_id(r, id);
}

proof fn lemma_added_output_record<V, W>(outs: Seq<OutputPinView<V, W>>, i: int, l: LinkView<W>)
    requires
        0 <= i < outs.len(),
        forall|k: int| 0 <= k < output_records(outs).len() ==> (#[trigger] output_records(outs)[k]).1.id != l.id,
    ensures
        records_with_id(output_records(outs.update(i, output_linked(outs[i], l))), l.id) == seq![(
            outs[i].name,
            l,
        )],
    decreases outs.len(),
{
    let new_outs = outs.update(i, output_linked(outs[i], l));
    let init = outs.drop_last();
    let last = outs.last();
    let head = output_records(init);
    let tail = last.links.map_values(|x: LinkView<W>| (last.name, x));
    assert(output_records(outs) == head + tail);
    assert forall|k: int| 0 <= k < head.len() implies (#[trigger] head[k]).1.id != l.id by {
        assert(output_records(outs)[k] == head[k]);
    }
    assert forall|k: int| 0 <= k < last.links.len() implies (#[trigger] last.links[k]).id != l.id by {
        assert(output_records(outs)[head.len() + k] == tail[k]);
        assert(tail[k] == (last.name, last.links[k]));
    }
    if i == outs.len() - 1 {
        assert(new_outs.drop_last() =~= init);
        let p = new_outs.last();
        assert(p == output_linked(last, l));
        let new_tail = p.links.map_values(|x: LinkView<W>| (p.name, x));
        assert(new_tail =~= tail.push((last.name, l)));
        assert(output_records(new_outs) == head + new_tail);
        lemma_no_record_with_id(head, l.id);
        lemma_records_of_links(last.name, last.links, l.id);
        lemma_records_with_id_concat(head, new_tail, l.id);
        assert(new_tail.drop_last() =~= tail);
        assert(records_with_id(new_tail, l.id) == records_with_id(tail, l.id).push((last.name, l)));
        assert(Seq::<(Seq<char>, LinkView<W>)>::empty() + Seq::<(Seq<char>, LinkView<W>)>::empty().push(
            (last.name, l),
        ) =~= seq![(last.name, l)]);
    } else {
        assert(new_outs.drop_last() =~= init.update(i, output_linked(init[i], l)));
        assert(new_outs.last() == last);
        lemma_added_output_record(init, i, l);
        assert(output_records(new_outs) == output_records(new_outs.drop_last()) + tail);
        lemma_records_with_id_concat(output_records(new_outs.drop_last()), tail, l.id);
        lemma_records_of_links(last.name, last.links, l.id);
        assert(seq![(outs[i].name, l)] + Seq::<(Seq<char>, LinkView<W>)>::empty() =~= seq![(
            outs[i].name,
            l,
        )]);
    }
}

// ---- engine links ------------------------------------------------------------

/// A link is accepted exactly when both ends are scheduled blocks, the
/// source has a pin of that name (output or input) and the target an input
/// of that name; a missing target block is refused as such once the source
/// block exists.
pub proof fn law_links_join_scheduled_blocks<P>(
    table: Map<u128, BlockHandleView<P>>,
    source: u128,
    target: u128,
    source_pin: Seq<char>,
    target_pin: Seq<char>,
)
    ensures
        link_fault(table, source, target, source_pin, target_pin) is None <==> {
            &&& table.dom().contains(source)
            &&& table.dom().contains(target)
            &&& (pins_have(table[source].desc.outputs, source_pin) || pins_have(
                table[source].desc.inputs,
                source_pin,
            ))
            &&& pins_have(table[target].desc.inputs, target_pin)
        },
        !table.dom().contains(source) ==> link_fault(table, source, target, source_pin, target_pin)
            == Some(EngineErrorView::BlockInstanceNotFound { id: source }),
        table.dom().contains(source) && !table.dom().contains(target) ==> link_fault(
            table,
            source,
            target,
            source_pin,
            target_pin,
        ) == Some(EngineErrorView::BlockInstanceNotFound { id: target }),
        table.dom().contains(source) && table.dom().contains(target) && !pins_have(
            table[source].desc.outputs,
            source_pin,
        ) && !pins_have(table[source].desc.inputs, source_pin) ==> link_fault(
            table,
            source,
            target,
            source_pin,
            target_pin,
        ) == Some(EngineErrorView::PinNotFound { end: LinkEnd::Source, block: source, pin: source_pin }),
        table.dom().contains(source) && table.dom().contains(target) && (pins_have(
            table[source].desc.outputs,
            source_pin,
        ) || pins_have(table[source].desc.inputs, source_pin)) && !pins_have(
            table[target].desc.inputs,
            target_pin,
        ) ==> link_fault(table, source, target, source_pin, target_pin) == Some(
            EngineErrorView::PinNotFound { end: LinkEnd::Target, block: target, pin: target_pin },
        ),
{
}

// ---- schedules ---------------------------------------------------------------

/// A schedule is occupied only inside its window: from `start` up to (not
/// including) `end` when `start < end`, and from `start` to midnight or from
/// midnight up to `end` when the window crosses midnight. An empty window
/// is never occupied.
pub proof fn law_schedule_occupied_only_inside_window(start: u32, end: u32, mask: u8, dow: u8, now_minutes: u32)
    ensures
        window_occupied(start, end, mask, dow, now_minutes) ==> if start < end {
            start <= now_minutes && now_minutes < end
        } else {
            start > end && (now_minutes >= start || now_minutes < end)
        },
{
}

/// Inside the window, a same-day window is occupied exactly on the selected
/// days; an overnight window's evening part belongs to the day it opens on
/// and its morning part to the day before.
pub proof fn law_schedule_window_belongs_to_its_opening_day(start: u32, end: u32, mask: u8, dow: u8, now_minutes: u32)
    requires
        dow < 7,
    ensures
        start < end && start <= now_minutes < end ==> window_occupied(start, end, mask, dow, now_minutes)
            == (mask & (1u8 << dow) != 0),
        start > end && now_minutes >= start ==> window_occupied(start, end, mask, dow, now_minutes)
            == (mask & (1u8 << dow) != 0),
        start > end && now_minutes < end ==> window_occupied(start, end, mask, dow, now_minutes)
            == (mask & (1u8 << (if dow == 0 {
            6u8
        } else {
            (dow - 1) as u8
        })) != 0),
{
    if start > end && now_minutes < start && now_minutes < end {
        assert(((dow + 6) % 7) as u8 == if dow == 0 {
            6u8
        } else {
            (dow - 1) as u8
        });
    }
}

proof fn lemma_day_bits(k: u8)
    by (bit_vector)
    requires
        k < 7,
    ensures
        (1u8 << k) == (if k == 0 {
            1u8
        } else if k == 1 {
            2u8
        } else if k == 2 {
            4u8
        } else if k == 3 {
            8u8
        } else if k == 4 {
            16u8
        } else if k == 5 {
            32u8
        } else {
            64u8
        }),
{
}

proof fn lemma_or_zero(b: u8)
    by (bit_vector)
    ensures
        0u8 | b == b,
{
}

/// The day letters `M T W R F S U`, upper or lower case, select Monday
/// through Sunday in that order: letter `k` alone gives the mask bit `k`.
pub proof fn law_day_letters_select_their_days(k: u8)
    requires
        k < 7,
    ensures
        parse_days_spec(seq!["MTWRFSU"@[k as int]]) == 1u8 << k,
        parse_days_spec(seq!["mtwrfsu"@[k as int]]) == 1u8 << k,
{
    reveal_strlit("MTWRFSU");
    reveal_strlit("mtwrfsu");
    lemma_day_bits(k);
    let up = seq!["MTWRFSU"@[k as int]];
    let low = seq!["mtwrfsu"@[k as int]];
    assert(up.drop_last() =~= Seq::<char>::empty());
    assert(low.drop_last() =~= Seq::<char>::empty());
    lemma_or_zero(day_letter_bit(up.last()));
    lemma_or_zero(day_letter_bit(low.last()));
    assert(up.last() == "MTWRFSU"@[k as int] && low.last() == "mtwrfsu"@[k as int]);
    assert(parse_days_spec(Seq::<char>::empty()) == 0u8);
    assert(parse_days_spec(up) == (parse_days_spec(up.drop_last()) | day_letter_bit(up.last())));
    assert(parse_days_spec(low) == (parse_days_spec(low.drop_last()) | day_letter_bit(low.last())));
    if k == 0 {
        assert("MTWRFSU"@[0] == 'M' && "mtwrfsu"@[0] == 'm');
        assert(day_letter_bit('M') == 1 && day_letter_bit('m') == 1);
    } else if k == 1 {
        assert("MTWRFSU"@[1] == 'T' && "mtwrfsu"@[1] == 't');
        assert(day_letter_bit('T') == 2 && day_letter_bit('t') == 2);
    } else if k == 2 {
        assert("MTWRFSU"@[2] == 'W' && "mtwrfsu"@[2] == 'w');
        assert(day_letter_bit('W') == 4 && day_letter_bit('w') == 4);
    } else if k == 3 {
        assert("MTWRFSU"@[3] == 'R' && "mtwrfsu"@[3] == 'r');
        assert(day_letter_bit('R') == 8 && day_letter_bit('r') == 8);
    } else if k == 4 {
        assert("MTWRFSU"@[4] == 'F' && "mtwrfsu"@[4] == 'f');
        assert(day_letter_bit('F') == 16 && day_letter_bit('f') == 16);
    } else if k == 5 {
        assert("MTWRFSU"@[5] == 'S' && "mtwrfsu"@[5] == 's');
        assert(day_letter_bit('S') == 32 && day_letter_bit('s') == 32);
    } else {
        assert("MTWRFSU"@[6] == 'U' && "mtwrfsu"@[6] == 'u');
        assert(day_letter_bit('U') == 64 && day_letter_bit('u') == 64);
    }
}

// ---- programs ----------------------------------------------------------------

/// A saved block, its id written as `format_id` writes it (which
/// `uuid::Uuid::parse_str` reads back) and its type still registered, loads
/// back as the same id and registry entry.
pub proof fn law_saved_block_loads_back(entries: Seq<BlockEntryView>, b: ProgramBlockRef, id: u128, e: BlockEntryView)
    requires
        uuid_parse(b.id@) == Some(id),
        lookup(entries, b.lib@, b.name@) == Some(e),
    ensures
        block_resolution(entries, b) == Ok::<(u128, BlockEntryView), LoadErrorView>((id, e)),
{
}

// ---- strings -----------------------------------------------------------------

/// Replacing a text by itself changes nothing.
pub proof fn law_replace_by_itself_changes_nothing(s: Seq<char>, from: Seq<char>)
    ensures
        replaced(s, from, from) == s,
    decreases s.len(),
{
    if from.len() == 0 {
        lemma_interleave_empty(s, from);
    } else if s.len() > 0 {
        if from.len() <= s.len() && s.subrange(0, from.len() as int) == from {
            law_replace_by_itself_changes_nothing(s.subrange(from.len() as int, s.len() as int), from);
            assert(from + s.subrange(from.len() as int, s.len() as int) =~= s);
        } else {
            law_replace_by_itself_changes_nothing(s.subrange(1, s.len() as int), from);
            assert(seq![s[0]] + s.subrange(1, s.len() as int) =~= s);
        }
    }
}

proof fn lemma_interleave_empty(s: Seq<char>, to: Seq<char>)
    requires
        to.len() == 0,
    ensures
        crate::strings::interleaved(s, to) == s,
    decreases s.len(),
{
    if s.len() > 0 {
        lemma_interleave_empty(s.subrange(1, s.len() as int), to);
        assert(to + seq![s[0]] + s.subrange(1, s.len() as int) =~= s);
    }
}

// ---- schedules ---------------------------------------------------------------

proof fn lemma_or_bit(p: u8, b: u8, dow: u8)
    by (bit_vector)
    requires
        dow < 7,
        b == 0 || b == 1 || b == 2 || b == 4 || b == 8 || b == 16 || b == 32 || b == 64,
    ensures
        ((p | b) & (1u8 << dow) != 0) <==> ((p & (1u8 << dow) != 0) || b == (1u8 << dow)),
{
}

proof fn lemma_empty_mask(dow: u8)
    by (bit_vector)
    requires
        dow < 7,
    ensures
        0u8 & (1u8 << dow) == 0,
{
}

/// A day-letter string selects a day exactly when one of its letters names
/// that day; other characters select nothing.
pub proof fn law_parse_days_selects_named_days(s: Seq<char>, dow: u8)
    requires
        dow < 7,
    ensures
        day_selected(parse_days_spec(s), dow) <==> exists|i: int|
            0 <= i < s.len() && day_letter_bit(#[trigger] s[i]) == (1u8 << dow),
    decreases s.len(),
{
    if s.len() == 0 {
        lemma_empty_mask(dow);
    } else {
        let init = s.drop_last();
        law_parse_days_selects_named_days(init, dow);
        let b = day_letter_bit(s.last());
        lemma_or_bit(parse_days_spec(init), b, dow);
        if exists|i: int| 0 <= i < init.len() && day_letter_bit(#[trigger] init[i]) == (1u8 << dow) {
            let i = choose|i: int| 0 <= i < init.len() && day_letter_bit(#[trigger] init[i]) == (1u8 << dow);
            assert(s[i] == init[i]);
        }
        if exists|i: int| 0 <= i < s.len() && day_letter_bit(#[trigger] s[i]) == (1u8 << dow) {
            let i = choose|i: int| 0 <= i < s.len() && day_letter_bit(#[trigger] s[i]) == (1u8 << dow);
            if i < init.len() {
                assert(init[i] == s[i]);
            } else {
                assert(s[i] == s.last());
            }
        }
        assert(s[s.len() - 1] == s.last());
    }
}

/// A character that is no day letter (`M T W R F S U`, either case) selects
/// no day.
pub proof fn law_other_characters_select_no_day(c: char)
    requires
        !"MTWRFSUmtwrfsu"@.contains(c),
    ensures
        parse_days_spec(seq![c]) == 0,
{
    reveal_strlit("MTWRFSUmtwrfsu");
    let one = seq![c];
    assert(one.drop_last() =~= Seq::<char>::empty());
    assert(one.last() == c);
    assert(parse_days_spec(Seq::<char>::empty()) == 0u8);
    assert("MTWRFSUmtwrfsu"@[0] == 'M');
    assert("MTWRFSUmtwrfsu"@[1] == 'T');
    assert("MTWRFSUmtwrfsu"@[2] == 'W');
    assert("MTWRFSUmtwrfsu"@[3] == 'R');
    assert("MTWRFSUmtwrfsu"@[4] == 'F');
    assert("MTWRFSUmtwrfsu"@[5] == 'S');
    assert("MTWRFSUmtwrfsu"@[6] == 'U');
    assert("MTWRFSUmtwrfsu"@[7] == 'm');
    assert("MTWRFSUmtwrfsu"@[8] == 't');
    assert("MTWRFSUmtwrfsu"@[9] == 'w');
    assert("MTWRFSUmtwrfsu"@[10] == 'r');
    assert("MTWRFSUmtwrfsu"@[11] == 'f');
    assert("MTWRFSUmtwrfsu"@[12] == 's');
    assert("MTWRFSUmtwrfsu"@[13] == 'u');
    assert(day_letter_bit(c) == 0);
    lemma_or_zero(0u8);
}

} // verus!
