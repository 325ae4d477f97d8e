//! Points in time, as chrono reads and reports them.
use vstd::prelude::*;

verus! {

/// What chrono's RFC 3339 parser makes of `s`: the instant in UTC as
/// (seconds since the Unix epoch, nanoseconds into that second), or the
/// text of its error.
pub uninterp spec fn rfc3339_parse(s: Seq<char>) -> Result<(i64, u32), Seq<char>>;

/// Calls `chrono::DateTime::parse_from_rfc3339` on `s`. The instant it
/// reads is handed on as its Unix timestamp and sub-second nanoseconds, an
/// error as its display text. Parsing depends on `s` alone; the contract
/// names the result and states no more of it.
#[verifier::external_body]
pub(crate) fn parse_rfc3339(s: &str) -> (res: Result<(i64, u32), String>)
    ensures
        match rfc3339_parse(s@) {
            Ok(v) => res == Ok::<(i64, u32), String>(v),
            Err(t) => res matches Err(e) && e@ == t,
        },
{
    match chrono::DateTime::parse_from_rfc3339(s) {
        Ok(d) => Ok((d.timestamp(), d.timestamp_subsec_nanos())),
        Err(e) => Err(e.to_string()),
    }
}

/// Calls `chrono::Utc::now`: the current time as its Unix timestamp and
/// sub-second nanoseconds. Nothing is stated of it: it is the clock's.
#[verifier::external_body]
pub(crate) fn utc_now() -> (res: (i64, u32)) {
    let now = chrono::Utc::now();
    (now.timestamp(), now.timestamp_subsec_nanos())
}

/// `a` is no later than `b`, both as (seconds, nanoseconds).
pub open spec fn instant_le(a: (i64, u32), b: (i64, u32)) -> bool {
    a.0 < b.0 || (a.0 == b.0 && a.1 <= b.1)
}

/// Compares two instants given as (seconds, nanoseconds).
pub fn instant_at_or_before(a: (i64, u32), b: (i64, u32)) -> (res: bool)
    ensures
        res == instant_le(a, b),
{
    a.0 < b.0 || (a.0 == b.0 && a.1 <= b.1)
}

} // verus!
