//! The one place the library reads the wall clock.
//!
//! Timestamps are plain values throughout the library: milliseconds since the
//! Unix epoch, as a signed 64-bit integer. Nothing is promised about the
//! value the clock returns, so every contract that mentions a freshly read
//! timestamp leaves it unconstrained.

use vstd::prelude::*;

verus! {

/// Relies on `chrono::Utc::now`, read as `timestamp_millis()`: the current
/// time in milliseconds since the Unix epoch. The value depends on the wall
/// clock, so no contract constrains it.
#[verifier::external_body]
pub(crate) fn now_millis() -> i64 {
    chrono::Utc::now().timestamp_millis()
}

} // verus!
