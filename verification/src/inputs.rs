//! Reading a block's inputs: which inputs delivered a value this cycle, and
//! which fault (if any) the block enters because of what was read.

use vstd::prelude::*;

use crate::pins::Status;

verus! {

/// What happened to one input while draining a block's inputs.
pub enum InputEvent {
    /// Not connected, or no fresh value.
    Idle,
    /// A fresh value could not be converted to the input's kind.
    ConversionFailed { input: String, error: String },
    /// A fresh value was stored, carrying the producer's status.
    Delivered { input: String, status: Status },
}

pub enum InputEventView {
    Idle,
    ConversionFailed { input: Seq<char>, error: Seq<char> },
    Delivered { input: Seq<char>, status: Status },
}

impl View for InputEvent {
    type V = InputEventView;

    open spec fn view(&self) -> InputEventView {
        match self {
            InputEvent::Idle => InputEventView::Idle,
            InputEvent::ConversionFailed { input, error } => InputEventView::ConversionFailed {
                input: input@,
                error: error@,
            },
            InputEvent::Delivered { input, status } => InputEventView::Delivered {
                input: input@,
                status: *status,
            },
        }
    }
}

/// The result of a drain: the index of the last input that delivered a
/// value, and the fault reason the block takes on, if any.
pub struct DrainOutcome {
    pub last_index: Option<usize>,
    pub fault: Option<String>,
}

/// Index of the last delivering input among the first `n` events.
pub open spec fn last_delivered(events: Seq<InputEventView>) -> Option<int>
    decreases events.len(),
{
    if events.len() == 0 {
        None
    } else if events.last() is Delivered {
        Some(events.len() - 1)
    } else {
        last_delivered(events.drop_last())
    }
}

/// Reason of the first failed conversion, if any.
pub open spec fn first_conversion_fault(events: Seq<InputEventView>) -> Option<Seq<char>>
    decreases events.len(),
{
    if events.len() == 0 {
        None
    } else {
        match first_conversion_fault(events.drop_last()) {
            Some(r) => Some(r),
            None => match events.last() {
                InputEventView::ConversionFailed { input, error } => Some(
                    "type conversion failed on input "@ + input + ": "@ + error,
                ),
                _ => None,
            },
        }
    }
}

/// Reason of the first delivered value whose producer is faulted, if any.
pub open spec fn first_upstream_fault(events: Seq<InputEventView>) -> Option<Seq<char>>
    decreases events.len(),
{
    if events.len() == 0 {
        None
    } else {
        match first_upstream_fault(events.drop_last()) {
            Some(r) => Some(r),
            None => match events.last() {
                InputEventView::Delivered { input, status: Status::Fault } => Some(
                    "upstream fault on input "@ + input,
                ),
                _ => None,
            },
        }
    }
}

/// Sums up a drain. A failed conversion faults the block in preference to
/// a faulted producer, since it is the block's own problem.
pub fn drain_outcome(events: &Vec<InputEvent>) -> (r: DrainOutcome)
    ensures
        ({
            let ev = events@.map_values(|e: InputEvent| e@);
            &&& match last_delivered(ev) {
                Some(i) => r.last_index == Some(i as usize),
                None => r.last_index is None,
            }
            &&& match (first_conversion_fault(ev), first_upstream_fault(ev)) {
                (Some(c), _) => r.fault matches Some(f) && f@ == c,
                (None, Some(u)) => r.fault matches Some(f) && f@ == u,
                (None, None) => r.fault is None,
            }
        }),
{
    proof {
        reveal_strlit("type conversion failed on input ");
        reveal_strlit(": ");
        reveal_strlit("upstream fault on input ");
    }
    let ghost ev = events@.map_values(|e: InputEvent| e@);
    let mut last_index: Option<usize> = None;
    let mut conversion: Option<String> = None;
    let mut upstream: Option<String> = None;
    let mut i: usize = 0;
    while i < events.len()
        invariant
            i <= events@.len(),
            ev == events@.map_values(|e: InputEvent| e@),
            match last_delivered(ev.subrange(0, i as int)) {
                Some(k) => last_index == Some(k as usize),
                None => last_index is None,
            },
            match first_conversion_fault(ev.subrange(0, i as int)) {
                Some(c) => conversion matches Some(f) && f@ == c,
                None => conversion is None,
            },
            match first_upstream_fault(ev.subrange(0, i as int)) {
                Some(u) => upstream matches Some(f) && f@ == u,
                None => upstream is None,
            },
        decreases events.len() - i,
    {
        let ghost next = ev.subrange(0, i + 1);
        assert(next.drop_last() =~= ev.subrange(0, i as int));
        assert(next.last() == events@[i as int]@);
        match &events[i] {
            InputEvent::Idle => {},
            InputEvent::ConversionFailed { input, error } => {
                if conversion.is_none() {
                    let mut reason = String::from_str("type conversion failed on input ");
                    reason.append(input.as_str());
                    reason.append(": ");
                    reason.append(error.as_str());
                    conversion = Some(reason);
                }
            },
            InputEvent::Delivered { input, status } => {
                if *status == Status::Fault && upstream.is_none() {
                    let mut reason = String::from_str("upstream fault on input ");
                    reason.append(input.as_str());
                    upstream = Some(reason);
                }
                last_index = Some(i);
            },
        }
        i += 1;
    }
    assert(ev.subrange(0, i as int) =~= ev);
    let fault = match conversion {
        Some(c) => Some(c),
        None => upstream,
    };
    DrainOutcome { last_index, fault }
}

} // verus!
