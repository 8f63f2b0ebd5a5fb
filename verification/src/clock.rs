//! Times as texts.
use chrono::DateTime;
use vstd::prelude::*;

verus! {

/// The RFC 3339 text of a time in UTC, given in milliseconds since 1970; `None`
/// for a time outside the calendar.
pub uninterp spec fn rfc3339_of(ms: i64) -> Option<Seq<char>>;

/// Calls chrono's `DateTime::from_timestamp_millis`, and `DateTime::to_rfc3339` on
/// the time that it gives.  The result is a function of the milliseconds alone:
/// no text where the first gives no time, else the text that the second writes.
#[verifier::external_body]
fn utc_text(ms: i64) -> (r: Option<String>)
    ensures
        r is Some <==> rfc3339_of(ms) is Some,
        r matches Some(text) ==> rfc3339_of(ms) == Some(text@),
{
    match DateTime::from_timestamp_millis(ms) {
        Some(time) => Some(time.to_rfc3339()),
        None => None,
    }
}

/// The RFC 3339 text of a time; empty for one outside the calendar.
pub open spec fn stamp_of(ms: i64) -> Seq<char> {
    stamp_or_empty(rfc3339_of(ms))
}

/// The text itself, or an empty one where there is none.
pub open spec fn stamp_or_empty(text: Option<Seq<char>>) -> Seq<char> {
    match text {
        Some(text) => text,
        None => Seq::empty(),
    }
}

/// The text that a record carries for a time: the one given, or an empty one.
pub fn text_or_empty(text: Option<String>) -> (r: String)
    ensures
        text matches Some(t) ==> r@ == t@,
        text is None ==> r@ == Seq::<char>::empty(),
{
    match text {
        Some(t) => t,
        None => String::new(),
    }
}

/// The RFC 3339 text of a time in milliseconds since 1970.
pub fn stamp(ms: i64) -> (r: String)
    ensures
        r@ == stamp_of(ms),
{
    text_or_empty(utc_text(ms))
}

/// A time that has an RFC 3339 text is written as it, and any other as nothing.
pub proof fn times_are_written_as_their_text(ms: i64)
    ensures
        rfc3339_of(ms) matches Some(text) ==> stamp_of(ms) == text,
        rfc3339_of(ms) is None ==> stamp_of(ms) == Seq::<char>::empty(),
{
}

} // verus!
