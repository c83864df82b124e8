//! The time of day, written down.

use crate::text::{chars_of, string_of};
use std::time::{SystemTime, UNIX_EPOCH};
use vstd::prelude::*;

verus! {

/// The text that chrono writes for the moment `secs` seconds and `nanos`
/// nanoseconds after the start of 1970: date and time in UTC, to the second,
/// with `Z` for the zone. `None` where chrono knows no such moment.
pub uninterp spec fn stamp_text(secs: int, nanos: int) -> Option<Seq<char>>;

/// chrono's `DateTime::from_timestamp`, and on the moment it gives
/// `DateTime::to_rfc3339_opts` with `SecondsFormat::Secs` and `Z` for UTC.
/// Neither reads a clock or the environment; the text is named, not
/// described.
#[verifier::external_body]
fn stamp(secs: i64, nanos: u32) -> (out: Option<String>)
    ensures
        out.deep_view() == stamp_text(secs as int, nanos as int),
{
    match chrono::DateTime::from_timestamp(secs, nanos) {
        Some(moment) => Some(moment.to_rfc3339_opts(chrono::SecondsFormat::Secs, true)),
        None => None,
    }
}

/// `SystemTime::now` and `SystemTime::duration_since` the start of 1970, in
/// whole seconds and the nanoseconds beyond them; `None` for a clock that is
/// set before 1970. Nothing is claimed of the reading.
#[verifier::external_body]
fn since_epoch() -> (out: Option<(u64, u32)>) {
    match SystemTime::now().duration_since(UNIX_EPOCH) {
        Ok(since) => Some((since.as_secs(), since.subsec_nanos())),
        Err(_) => None,
    }
}

/// The start of 1970, written down.
pub open spec fn epoch_text() -> Seq<char> {
    "1970-01-01T00:00:00Z"@
}

/// The seconds of a clock reading as they are handed on: a reading beyond
/// what a signed number holds counts as the largest such number.
pub open spec fn clamped(secs: u64) -> int {
    if secs > i64::MAX {
        i64::MAX as int
    } else {
        secs as int
    }
}

/// How the moment `secs` seconds and `nanos` nanoseconds after the start of
/// 1970 is written: as chrono writes it, or as the start of 1970 where
/// chrono knows no such moment.
pub open spec fn written(secs: u64, nanos: u32) -> Seq<char> {
    match stamp_text(clamped(secs), nanos as int) {
        Some(text) => text,
        None => epoch_text(),
    }
}

/// Writes down the moment `secs` seconds and `nanos` nanoseconds after the
/// start of 1970.
pub fn timestamp(secs: u64, nanos: u32) -> (out: String)
    ensures
        out@ == written(secs, nanos),
{
    let signed: i64 = if secs > 0x7fff_ffff_ffff_ffffu64 {
        0x7fff_ffff_ffff_ffffi64
    } else {
        secs as i64
    };
    match stamp(signed, nanos) {
        Some(text) => text,
        None => string_of(&chars_of("1970-01-01T00:00:00Z")),
    }
}

/// Writes down the present moment as the clock tells it; a clock set before
/// 1970 counts as showing the start of 1970.
pub fn now_iso() -> (out: String)
    ensures
        exists|secs: u64, nanos: u32| out@ == written(secs, nanos),
{
    let (secs, nanos) = match since_epoch() {
        Some(reading) => reading,
        None => (0, 0),
    };
    let out = timestamp(secs, nanos);
    assert(out@ == written(secs, nanos));
    out
}

} // verus!
