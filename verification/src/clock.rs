//! The wall clock.

use vstd::prelude::*;

verus! {

/// Earliest and latest instants, in microseconds since the Unix epoch,
/// that `chrono` can represent lie within this bound (its years run from
/// -262144 to 262143, about ±8.4e18 µs).
pub open spec fn clock_bound() -> int {
    9_000_000_000_000_000_000
}

/// The current time in microseconds since the Unix epoch, UTC
/// (`chrono::Utc::now`). Of the value the contract states only that it lies
/// within `chrono`'s range of dates.
#[verifier::external_body]
pub(crate) fn now_micros() -> (r: i64)
    ensures
        -clock_bound() <= r <= clock_bound(),
{
    chrono::Utc::now().timestamp_micros()
}

/// The layouts that instants are written in.
#[derive(Debug, Clone, Copy, PartialEq, Eq, Structural)]
pub enum TimeFormat {
    /// `%Y-%m-%dT%H:%M:%S%.3fZ`, as EVE records carry it.
    Eve,
    /// `%H:%M:%S%.3f`, time of day to the millisecond.
    ClockMillis,
    /// `%H:%M:%S%.6f`, time of day to the microsecond.
    ClockMicros,
}

/// The `chrono` pattern of a layout.
pub open spec fn pattern_of(f: TimeFormat) -> Seq<char> {
    match f {
        TimeFormat::Eve => "%Y-%m-%dT%H:%M:%S%.3fZ"@,
        TimeFormat::ClockMillis => "%H:%M:%S%.3f"@,
        TimeFormat::ClockMicros => "%H:%M:%S%.6f"@,
    }
}

/// `p` is the pattern of one of the layouts.
pub open spec fn is_layout_pattern(p: Seq<char>) -> bool {
    exists|f: TimeFormat| p == pattern_of(f)
}

/// The text `chrono` writes for the instant `micros` microseconds after the
/// Unix epoch, UTC, with the format pattern `pattern`; `None` where the
/// instant lies outside `chrono`'s range of dates.
pub uninterp spec fn time_text(micros: i64, pattern: Seq<char>) -> Option<Seq<char>>;

/// The `chrono` pattern of a layout.
pub fn time_pattern(f: TimeFormat) -> (r: &'static str)
    ensures
        r@ == pattern_of(f),
        is_layout_pattern(r@),
{
    assert(is_layout_pattern(pattern_of(f)));
    match f {
        TimeFormat::Eve => "%Y-%m-%dT%H:%M:%S%.3fZ",
        TimeFormat::ClockMillis => "%H:%M:%S%.3f",
        TimeFormat::ClockMicros => "%H:%M:%S%.6f",
    }
}

/// Writes an instant (`chrono::DateTime::<Utc>::from_timestamp_micros`, then
/// `format` with `pattern`). The contract names the text; it does not
/// restate the calendar. Only the layouts' patterns are admitted: `chrono`
/// fails to write a pattern it cannot read.
#[verifier::external_body]
pub(crate) fn format_time(micros: i64, pattern: &str) -> (r: Option<String>)
    requires
        is_layout_pattern(pattern@),
    ensures
        match r {
            Some(s) => time_text(micros, pattern@) == Some(s@),
            None => time_text(micros, pattern@) is None,
        },
{
    match chrono::DateTime::<chrono::Utc>::from_timestamp_micros(micros) {
        Some(t) => Some(t.format(pattern).to_string()),
        None => None,
    }
}

} // verus!
