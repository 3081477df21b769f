//! The random-number and boolean-parsing blocks.

use vstd::prelude::*;

verus! {

/// The message of the fault a random block raises for the range
/// `[min, max)`, or `None` when the range is usable.
pub open spec fn random_range_fault(min: i64, max: i64) -> Option<Seq<char>> {
    if min > max {
        Some("Random: min > max"@)
    } else if min == max {
        Some("Random: min == max"@)
    } else {
        None
    }
}

/// A number drawn uniformly from `[low, high)`.
///
/// Calls `rand::random_range` on the thread-local generator, which returns
/// a value of the range and panics only when the range is empty (ruled out
/// here). Which value comes out is left open.
#[verifier::external_body]
fn draw_in_range(low: i64, high: i64) -> (r: i64)
    requires
        low < high,
    ensures
        low <= r < high,
{
    rand::random_range(low..high)
}

/// One cycle of the random block: a number of `[min, max)`, or the fault
/// message when the range is empty or reversed.
pub fn random_in_range(min: i64, max: i64) -> (r: Result<i64, String>)
    ensures
        match random_range_fault(min, max) {
            Some(msg) => r matches Err(e) && e@ == msg,
            None => r matches Ok(v) && min <= v < max,
        },
{
    if min > max {
        Err(String::from_str("Random: min > max"))
    } else if min == max {
        Err(String::from_str("Random: min == max"))
    } else {
        Ok(draw_in_range(min, max))
    }
}

/// The boolean that Rust's `bool::from_str` reads: exactly `true` or
/// `false`.
pub open spec fn bool_keyword(text: Seq<char>) -> Option<bool> {
    if text == "true"@ {
        Some(true)
    } else if text == "false"@ {
        Some(false)
    } else {
        None
    }
}

/// The boolean that `libhaystack`'s Zinc decoder reads from `text` (such
/// as `T` or `F`), or `None` where it reads no value or a value of
/// another kind.
pub uninterp spec fn zinc_bool(text: Seq<char>) -> Option<bool>;

/// Decodes `text` as a Zinc value and keeps it when it is a boolean.
///
/// Calls `libhaystack::encoding::zinc::decode::from_str`, whose result is a
/// function of the text alone; the boolean it holds, if any, is named
/// `zinc_bool`.
#[verifier::external_body]
fn decode_zinc_bool(text: &str) -> (r: Option<bool>)
    ensures
        r == zinc_bool(text@),
{
    match libhaystack::encoding::zinc::decode::from_str(text) {
        Ok(libhaystack::val::Value::Bool(b)) => Some(b.value),
        _ => None,
    }
}

/// Whether `text` is exactly `true` or `false`.
pub fn parse_bool_keyword(text: &str) -> (r: Option<bool>)
    ensures
        r == bool_keyword(text@),
{
    proof {
        reveal_strlit("true");
        reveal_strlit("false");
    }
    if crate::text::str_equal(text, "true") {
        Some(true)
    } else if crate::text::str_equal(text, "false") {
        Some(false)
    } else {
        None
    }
}

/// The boolean-parsing block: `true` / `false`, else whatever boolean the
/// Zinc decoder reads (`T`, `F`); `None` when neither reads one.
pub fn parse_bool(text: &str) -> (r: Option<bool>)
    ensures
        bool_keyword(text@) is Some ==> r == bool_keyword(text@),
        bool_keyword(text@) is None ==> r == zinc_bool(text@),
{
    match parse_bool_keyword(text) {
        Some(b) => Some(b),
        None => decode_zinc_bool(text),
    }
}

/// The samples a moving average keeps: the last `max(window, 1)` of them.
pub open spec fn window_of<T>(samples: Seq<T>, window: usize) -> Seq<T> {
    let keep: int = if window == 0 {
        1
    } else {
        window as int
    };
    if samples.len() <= keep {
        samples
    } else {
        samples.subrange(samples.len() - keep, samples.len() as int)
    }
}

/// Adds a sample to a moving-average window and drops the oldest ones until
/// at most `window` remain (at least one is always kept).
pub fn push_sample<T>(samples: &mut Vec<T>, value: T, window: usize)
    ensures
        final(samples)@ == window_of(old(samples)@.push(value), window),
{
    let keep: usize = if window == 0 {
        1
    } else {
        window
    };
    let ghost all = old(samples)@.push(value);
    samples.push(value);
    let ghost dropped: int = 0;
    while samples.len() > keep
        invariant
            keep >= 1,
            0 <= dropped <= all.len(),
            samples@ == all.subrange(dropped, all.len() as int),
            dropped > 0 ==> samples@.len() >= keep,
        decreases samples.len(),
    {
        samples.remove(0);
        proof {
            dropped = dropped + 1;
        }
        assert(samples@ =~= all.subrange(dropped, all.len() as int));
    }
    proof {
        if all.len() > keep {
            assert(dropped == all.len() - keep);
        } else {
            assert(dropped == 0);
            assert(all.subrange(0, all.len() as int) =~= all);
        }
    }
}

} // verus!
