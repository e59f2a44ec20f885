//! The wall-clock capability: the current instant as an RFC 3339 timestamp,
//! and the whole minutes elapsed since a stored timestamp.

use vstd::prelude::*;

verus! {

/// Holds of a timestamp that can be embedded verbatim between the quotes of a
/// serialized string field: it contains no quote character.
pub open spec fn quote_free(s: Seq<char>) -> bool {
    forall|i: int| 0 <= i < s.len() ==> s[i] != '"'
}

/// Relies on chrono's `Local::now` and `DateTime::to_rfc3339`: the current
/// instant rendered in the fixed RFC 3339 shape (such as
/// `1996-12-19T16:39:57-08:00`), which is never empty and never contains a
/// quote character.
#[verifier::external_body]
pub fn now_rfc3339() -> (r: String)
    ensures
        r@.len() > 0,
        quote_free(r@),
{
    chrono::Local::now().to_rfc3339()
}

/// Relies on chrono's `DateTime::parse_from_rfc3339`, `Local::now`,
/// `TimeZone::signed_duration_since` and `TimeDelta::num_minutes`: the whole
/// minutes elapsed from the given timestamp to the current instant, or `None`
/// when the timestamp does not parse as RFC 3339 (in particular, when it is
/// empty). The result depends on the clock, so nothing more is promised of it.
#[verifier::external_body]
pub fn minutes_since(ts: &str) -> (r: Option<i64>)
    ensures
        ts@.len() == 0 ==> r is None,
{
    match chrono::DateTime::parse_from_rfc3339(ts) {
        Ok(t) => Some(chrono::Local::now().signed_duration_since(t).num_minutes()),
        Err(_) => None,
    }
}

} // verus!
