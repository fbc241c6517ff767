//! Wall-clock timestamps and their stored text form.
//!
//! The store keeps every `last_sync` timestamp as an RFC 3339 string, the
//! format the remote API itself uses. Formatting and parsing are done by
//! chrono behind the trusted items below; everything that decides anything
//! about a timestamp works on plain unix seconds.

use vstd::prelude::*;

verus! {

/// Latest unix second the store can represent as text: 9999-12-31T23:59:59Z.
pub const MAX_STORE_TS: i64 = 253402300799;

/// A unix-second value the store can format and later re-read.
pub open spec fn valid_ts(t: i64) -> bool {
    0 <= t <= MAX_STORE_TS
}

/// The unix second an RFC 3339 string denotes, or `None` for malformed text.
/// Named, not written out: the grammar takes pages, but the result depends on
/// the characters alone.
pub uninterp spec fn rfc3339_secs(s: Seq<char>) -> Option<i64>;

/// The RFC 3339 text for a unix second, as the formatter prints it.
pub uninterp spec fn rfc3339_of(t: i64) -> Seq<char>;

/// Relies on chrono's `DateTime::<Utc>::from_timestamp` and `to_rfc3339`:
/// formatting is a function of the second alone, and `parse_from_rfc3339`
/// reads the printed text back to the same instant.
#[verifier::external_body]
pub(crate) fn format_rfc3339(t: i64) -> (r: String)
    requires
        valid_ts(t),
    ensures
        r@ == rfc3339_of(t),
        rfc3339_secs(r@) == Some(t),
{
    chrono::DateTime::<chrono::Utc>::from_timestamp(t, 0)
        .expect("timestamp in range")
        .to_rfc3339()
}

/// Relies on chrono's `DateTime::parse_from_rfc3339` and `timestamp`: the
/// result depends on the characters alone, `None` exactly on malformed text.
#[verifier::external_body]
pub(crate) fn parse_rfc3339(s: &str) -> (r: Option<i64>)
    ensures
        r == rfc3339_secs(s@),
{
    match chrono::DateTime::parse_from_rfc3339(s) {
        Ok(dt) => Some(dt.timestamp()),
        Err(_) => None,
    }
}

/// The instant a stored `last_sync` text stands for when read at `now`:
/// malformed text degrades to `now` itself, so such a row is never stale.
pub open spec fn eff_time(ls: Seq<char>, now: i64) -> i64 {
    match rfc3339_secs(ls) {
        Some(t) => t,
        None => now,
    }
}

} // verus!
