//! Wall-clock access and timestamp validation, through chrono.

use vstd::prelude::*;

verus! {

/// Whether a string is a well-formed RFC 3339 timestamp. The grammar is
/// not restated here; chrono decides it, and the result depends on the
/// characters alone.
pub uninterp spec fn is_rfc3339(s: Seq<char>) -> bool;

/// Relies on chrono's `DateTime::parse_from_rfc3339`: accepts exactly the
/// well-formed RFC 3339 timestamps, a function of the characters alone.
#[verifier::external_body]
pub fn rfc3339_valid(s: &str) -> (r: bool)
    ensures
        r == is_rfc3339(s@),
{
    chrono::DateTime::parse_from_rfc3339(s).is_ok()
}

/// Relies on chrono's `From<SystemTime>` for `DateTime<Utc>`, with
/// `DateTime::timestamp` and `DateTime::to_rfc3339` converting the
/// reading to Unix seconds and to an RFC 3339 string. The `From`
/// conversion is defined for every instant an operating system clock
/// can report, pre-epoch times included (chrono's representable range
/// spans hundreds of millennia on each side), so the reading cannot
/// panic here. Nothing can be promised of the reading itself.
#[verifier::external_body]
pub fn now_parts() -> (i64, String) {
    let t = chrono::DateTime::<chrono::Utc>::from(std::time::SystemTime::now());
    (t.timestamp(), t.to_rfc3339())
}

} // verus!
