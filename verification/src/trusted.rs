//! Calls into the identifier and clock crates, behind trusted contracts.

use vstd::prelude::*;

verus! {

/// The fixed civil rendering (`year-month-day hour:minute`, UTC) of a
/// millisecond timestamp; out-of-range values render empty.
pub uninterp spec fn civil_datetime(millis: int) -> Seq<char>;

/// Relies on `ulid::Ulid::generate` and its `to_string`: a fresh
/// time-ordered 128-bit token, rendered as exactly 26 Crockford base-32
/// characters. The value itself is random and nothing more is promised.
#[verifier::external_body]
pub fn fresh_id() -> (r: String)
    ensures
        r@.len() == 26,
{
    ulid::Ulid::generate().to_string()
}

/// Relies on `chrono::Utc::now`: the current wall-clock instant in Unix
/// milliseconds. Nothing is promised of the value.
#[verifier::external_body]
pub fn now_millis() -> (r: i64) {
    chrono::Utc::now().timestamp_millis()
}

/// Relies on `chrono::DateTime::<Utc>::from_timestamp_millis` and `format`
/// with a fixed UTC layout: the rendering depends on the millisecond value
/// alone (no locale, no time zone lookup).
#[verifier::external_body]
pub fn format_timestamp(millis: i64) -> (r: String)
    ensures
        r@ == civil_datetime(millis as int),
{
    match chrono::DateTime::<chrono::Utc>::from_timestamp_millis(millis) {
        Some(dt) => dt.format("%Y-%m-%d %H:%M").to_string(),
        None => String::new(),
    }
}

} // verus!
