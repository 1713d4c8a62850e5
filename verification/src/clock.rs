//! The current time and fresh identifiers: values that depend on the moment of the call,
//! of which only what holds of every outcome is stated.
use vstd::prelude::*;

use chrono::{Datelike, Utc};

verus! {

/// The characters of nanoid's URL-safe alphabet.
pub open spec fn is_id_char(c: char) -> bool {
    c == '_' || c == '-' || ('0' <= c <= '9') || ('a' <= c <= 'z') || ('A' <= c <= 'Z')
}

/// A fresh identifier: `nanoid::format` with the default random source, the URL-safe
/// alphabet and 21 characters, which is what `nanoid!()` expands to. The source returns
/// exactly 21 characters, each taken from the alphabet; which ones is chance.
#[verifier::external_body]
pub(crate) fn new_id() -> (r: String)
    ensures
        r@.len() == 21,
        forall|i: int| 0 <= i < 21 ==> is_id_char(#[trigger] r@[i]),
{
    nanoid::format(nanoid::rngs::default, &nanoid::alphabet::SAFE, 21)
}

/// `Utc::now().timestamp_micros()`: the current time in microseconds since the epoch.
/// Nothing is promised of it.
#[verifier::external_body]
pub(crate) fn now_micros() -> (r: i64) {
    Utc::now().timestamp_micros()
}

/// `Utc::now().year()`: the current year. `Utc::now` returns only for a system time at
/// or after the Unix epoch (it panics on an earlier one), so the year is 1970 or later;
/// which year it is depends on the clock.
#[verifier::external_body]
pub(crate) fn current_year() -> (r: i32)
    ensures
        r >= 1970,
{
    Utc::now().year()
}

} // verus!
