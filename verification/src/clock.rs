//! Time as plain numbers.
//!
//! A span is a number of nanoseconds. An instant is a span since some fixed
//! start, chosen by the program; the library only ever compares instants and
//! adds spans to them.
use vstd::prelude::*;

verus! {

/// One millisecond, in nanoseconds.
pub const MILLISECOND: u128 = 1_000_000;

/// One second, in nanoseconds.
pub const SECOND: u128 = 1_000_000_000;

/// The longest span: every whole number of seconds that 64 bits can hold, and
/// the fraction of one more.
pub const MAX_SPAN: u128 = 18_446_744_073_709_551_616_000_000_000 - 1;

/// Whether `t` is a span, or an instant, that a clock can show.
pub open spec fn in_range(t: u128) -> bool {
    t <= MAX_SPAN
}

/// A span of whole seconds.
pub fn from_secs(seconds: u64) -> (span: u128)
    ensures
        span == seconds * SECOND,
        span <= MAX_SPAN,
{
    seconds as u128 * SECOND
}

/// A span of whole milliseconds.
pub fn from_millis(millis: u64) -> (span: u128)
    ensures
        span == millis * MILLISECOND,
        span <= MAX_SPAN,
{
    millis as u128 * MILLISECOND
}

/// The whole seconds in a span.
pub fn as_secs(span: u128) -> (seconds: u64)
    requires
        span <= MAX_SPAN,
    ensures
        seconds == span / SECOND,
{
    (span / SECOND) as u64
}

} // verus!
