//! The calls this library makes into chrono and uuid.
use vstd::prelude::*;

verus! {

/// What chrono makes of a client date string written as
/// `YYYY-MM-DDTHH:MM:SS.fffZ`: milliseconds since the Unix epoch, or `None`
/// when the text does not have that shape.
pub uninterp spec fn parsed_date_millis(s: Seq<char>) -> Option<i64>;

/// Relies on `uuid::Uuid::new_v4` and its hyphenated `Display`: a fresh random
/// identifier, always 36 characters long.
#[verifier::external_body]
pub(crate) fn new_uuid() -> (r: String)
    ensures
        r@.len() == 36,
{
    uuid::Uuid::new_v4().to_string()
}

/// Relies on `chrono::Utc::now`: the current time in milliseconds since the
/// Unix epoch. Nothing is promised of its value.
#[verifier::external_body]
pub(crate) fn now_millis() -> (r: i64) {
    chrono::Utc::now().timestamp_millis()
}

/// Relies on `chrono::NaiveDateTime::parse_from_str` with the client date
/// format, read as UTC: the result depends on the text alone.
#[verifier::external_body]
pub(crate) fn parse_date(s: &str) -> (r: Option<i64>)
    ensures
        r == parsed_date_millis(s@),
{
    match chrono::NaiveDateTime::parse_from_str(s, "%Y-%m-%dT%H:%M:%S%.3fZ") {
        Ok(d) => Some(d.and_utc().timestamp_millis()),
        Err(_) => None,
    }
}

} // verus!
