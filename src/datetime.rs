//! Reading the instants of period records. Instants are held as UTC seconds
//! since the Unix epoch and the nanoseconds within the second.
use vstd::prelude::*;
use crate::model::UtcDateTime;

verus! {

/// The instant that chrono reads from `text` followed by ` +0000` in the
/// layout `%d/%m/%Y %H:%M:%S %z`, as (seconds, nanoseconds).
pub uninterp spec fn legacy_instant_of(text: Seq<char>) -> Option<(i64, u32)>;

/// The instant that chrono's RFC 3339 reader gives for `text`.
pub uninterp spec fn rfc3339_instant_of(text: Seq<char>) -> Option<(i64, u32)>;

/// The instant that chrono reads from `text` in the layout
/// `%Y-%m-%dT%H:%M:%S`, taken as UTC.
pub uninterp spec fn naive_instant_of(text: Seq<char>) -> Option<(i64, u32)>;

pub open spec fn instant(v: Option<(i64, u32)>) -> Option<UtcDateTime> {
    match v {
        Some((s, n)) => Some(UtcDateTime { seconds: s, nanos: n }),
        None => None,
    }
}

/// Relies on `chrono::DateTime::parse_from_str`: the legacy day-first layout,
/// read as UTC.
#[verifier::external_body]
pub(crate) fn legacy_instant(text: &str) -> (r: Option<UtcDateTime>)
    ensures
        r == instant(legacy_instant_of(text@)),
{
    chrono::DateTime::parse_from_str(&format!("{text} +0000"), "%d/%m/%Y %H:%M:%S %z")
        .ok()
        .map(|d| UtcDateTime { seconds: d.timestamp(), nanos: d.timestamp_subsec_nanos() })
}

/// Relies on `chrono::DateTime::parse_from_rfc3339`: an ISO-8601 instant with
/// its offset, taken to UTC.
#[verifier::external_body]
fn rfc3339_instant(text: &str) -> (r: Option<UtcDateTime>)
    ensures
        r == instant(rfc3339_instant_of(text@)),
{
    chrono::DateTime::parse_from_rfc3339(text)
        .ok()
        .map(|d| UtcDateTime { seconds: d.timestamp(), nanos: d.timestamp_subsec_nanos() })
}

/// Relies on `chrono::NaiveDateTime::parse_from_str`: an ISO-8601 instant
/// without offset, taken as UTC.
#[verifier::external_body]
fn naive_instant(text: &str) -> (r: Option<UtcDateTime>)
    ensures
        r == instant(naive_instant_of(text@)),
{
    chrono::NaiveDateTime::parse_from_str(text, "%Y-%m-%dT%H:%M:%S")
        .ok()
        .map(|d| {
            let u = d.and_utc();
            UtcDateTime { seconds: u.timestamp(), nanos: u.timestamp_subsec_nanos() }
        })
}

/// The instant of an ISO-8601 datetime: with an offset it is taken to UTC;
/// without one it is read as UTC.
pub open spec fn iso_instant_of(text: Seq<char>) -> Option<UtcDateTime> {
    match rfc3339_instant_of(text) {
        Some(v) => instant(Some(v)),
        None => instant(naive_instant_of(text)),
    }
}

pub fn parse_datetime_to_utc(text: &str) -> (r: Option<UtcDateTime>)
    ensures
        r == iso_instant_of(text@),
{
    match rfc3339_instant(text) {
        Some(d) => Some(d),
        None => naive_instant(text),
    }
}

} // verus!
