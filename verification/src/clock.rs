//! Time stamps and identifiers: the calls into `chrono` and `uuid`.

use vstd::prelude::*;
use chrono::{DateTime, NaiveDate, SecondsFormat, Utc};
use uuid::Uuid;

verus! {

/// What `chrono::DateTime::parse_from_rfc3339` reads from a text: the instant
/// as whole seconds since the Unix epoch (UTC) and the nanoseconds past that second.
pub uninterp spec fn spec_rfc3339_instant(text: Seq<char>) -> Option<(i64, u32)>;

/// The text `chrono` writes for the UTC instant `secs` seconds and `nanos`
/// nanoseconds after the epoch, in RFC 3339 with milliseconds and a `Z`
/// suffix; `None` where `chrono::DateTime::from_timestamp` has no such instant.
pub uninterp spec fn spec_utc_millis_text(secs: i64, nanos: u32) -> Option<Seq<char>>;

/// Whether `chrono::NaiveDate::parse_from_str` accepts `text` under `format`.
pub uninterp spec fn spec_date_parses(text: Seq<char>, format: Seq<char>) -> bool;

/// Seconds since the epoch that fall in a year from 0 to 9999.
pub open spec fn four_digit_year(secs: i64) -> bool {
    -62_167_219_200 <= secs <= 253_402_300_799
}

/// Calls `chrono::DateTime::parse_from_rfc3339` and reads the parsed instant
/// with `timestamp` and `timestamp_subsec_nanos`. The result is `None` exactly
/// when parsing fails; what a text parses to is left to the name above.
#[verifier::external_body]
pub(crate) fn parse_rfc3339(text: &str) -> (r: Option<(i64, u32)>)
    ensures
        r == spec_rfc3339_instant(text@),
{
    match DateTime::parse_from_rfc3339(text) {
        Ok(time) => Some((time.timestamp(), time.timestamp_subsec_nanos())),
        Err(_) => None,
    }
}

/// Calls `chrono::DateTime::from_timestamp` and renders the instant with
/// `to_rfc3339_opts(SecondsFormat::Millis, true)`; `None` where there is no
/// such instant. Between the years 0 and 9999 (the four-digit years that
/// `write_rfc3339` writes and `parse_rfc3339` reads) and below a whole
/// second of nanoseconds there is such an instant, and parsing the text
/// gives back the instant with its nanoseconds cut to whole milliseconds.
#[verifier::external_body]
pub(crate) fn format_utc_millis(secs: i64, nanos: u32) -> (r: Option<String>)
    ensures
        match (r, spec_utc_millis_text(secs, nanos)) {
            (Some(text), Some(expected)) => text@ == expected,
            (None, None) => true,
            _ => false,
        },
        match r {
            Some(text) => four_digit_year(secs) && nanos < 1_000_000_000 ==> spec_rfc3339_instant(text@) == Some(
                (secs, (nanos - nanos % 1_000_000) as u32),
            ),
            None => !(four_digit_year(secs) && nanos < 1_000_000_000),
        },
{
    match DateTime::from_timestamp(secs, nanos) {
        Some(time) => Some(time.to_rfc3339_opts(SecondsFormat::Millis, true)),
        None => None,
    }
}

/// Calls `chrono::NaiveDate::parse_from_str` and reports whether it succeeded.
#[verifier::external_body]
pub(crate) fn date_parses(text: &str, format: &str) -> (r: bool)
    ensures
        r == spec_date_parses(text@, format@),
{
    NaiveDate::parse_from_str(text, format).is_ok()
}

/// The current time from `chrono::Utc::now`, rendered with
/// `to_rfc3339_opts(SecondsFormat::Millis, true)`. Nothing is promised of the
/// value: it is the clock's.
#[verifier::external_body]
pub fn now() -> (r: String) {
    Utc::now().to_rfc3339_opts(SecondsFormat::Millis, true)
}

/// A lower-case hexadecimal digit.
pub open spec fn lower_hex(c: char) -> bool {
    ('0' <= c && c <= '9') || ('a' <= c && c <= 'f')
}

/// The hyphenated text of a random (version 4) UUID: 32 lower-case hex
/// digits in groups of 8, 4, 4, 4 and 12, the version digit `4`, the variant
/// digit one of `8`, `9`, `a`, `b`.
pub open spec fn uuid_v4_text(s: Seq<char>) -> bool {
    &&& s.len() == 36
    &&& forall|i: int|
        0 <= i < 36 ==> if i == 8 || i == 13 || i == 18 || i == 23 {
            s[i] == '-'
        } else {
            lower_hex(#[trigger] s[i])
        }
    &&& s[14] == '4'
    &&& (s[19] == '8' || s[19] == '9' || s[19] == 'a' || s[19] == 'b')
}

/// A fresh random identifier from `uuid::Uuid::new_v4`, in its hyphenated
/// lower-case text form. Which identifier comes out is chance; its form is
/// what `new_v4` and the hyphenated formatting fix.
#[verifier::external_body]
pub(crate) fn new_id() -> (r: String)
    ensures
        uuid_v4_text(r@),
{
    Uuid::new_v4().to_string()
}

/// Nanoseconds since the epoch of a parsed instant.
pub open spec fn instant_nanos(parts: (i64, u32)) -> int {
    parts.0 * 1_000_000_000 + parts.1
}

/// The instant `text` names, in nanoseconds since the epoch; `None` when the
/// text is no RFC 3339 time stamp.
pub open spec fn text_instant(text: Seq<char>) -> Option<int> {
    match spec_rfc3339_instant(text) {
        Some(parts) => Some(instant_nanos(parts)),
        None => None,
    }
}

/// The time stamp `text` names, in nanoseconds since the epoch.
pub fn parse_instant(text: &str) -> (r: Option<i128>)
    ensures
        match r {
            Some(n) => text_instant(text@) == Some(n as int),
            None => text_instant(text@) is None,
        },
        r matches Some(n) ==> -0x1_0000_0000_0000_0000_0000_0000 <= n <= 0x1_0000_0000_0000_0000_0000_0000,
{
    match parse_rfc3339(text) {
        Some((secs, nanos)) => {
            let n = (secs as i128) * 1_000_000_000 + (nanos as i128);
            Some(n)
        },
        None => None,
    }
}

/// The text of an instant given in nanoseconds since the epoch.
pub open spec fn instant_text(n: int) -> Option<Seq<char>> {
    let secs = n / 1_000_000_000;
    let nanos = n % 1_000_000_000;
    if i64::MIN <= secs <= i64::MAX {
        spec_utc_millis_text(secs as i64, nanos as u32)
    } else {
        None
    }
}

/// An instant, in nanoseconds since the epoch, on a whole millisecond
/// between the years 0 and 9999: one that survives being written and read back.
pub open spec fn ms_instant(n: int) -> bool {
    n % 1_000_000 == 0 && -62_167_219_200_000_000_000 <= n < 253_402_300_800_000_000_000
}

/// The RFC 3339 text of an instant in nanoseconds since the epoch; an
/// instant on a whole millisecond between the years 0 and 9999 reads back
/// from it unchanged.
pub fn format_instant(n: i128) -> (r: Option<String>)
    requires
        -0x10_0000_0000_0000_0000_0000_0000 <= n <= 0x10_0000_0000_0000_0000_0000_0000,
    ensures
        match (r, instant_text(n as int)) {
            (Some(text), Some(expected)) => text@ == expected,
            (None, None) => true,
            _ => false,
        },
        ms_instant(n as int) ==> (r matches Some(text) && text_instant(text@) == Some(n as int)),
{
    let shifted = (n + 10_000_000_000_000_000_000_000_000_000_000) as u128;
    let q = shifted / 1_000_000_000;
    let nanos = shifted % 1_000_000_000;
    let secs = (q as i128) - 10_000_000_000_000_000_000_000;
    proof {
        assert(q * 1_000_000_000 + nanos == shifted) by (nonlinear_arith)
            requires
                q == shifted / 1_000_000_000,
                nanos == shifted % 1_000_000_000,
        ;
        assert(secs * 1_000_000_000 + nanos == n);
        assert(secs == n as int / 1_000_000_000 && nanos == n as int % 1_000_000_000) by (nonlinear_arith)
            requires
                secs * 1_000_000_000 + nanos == n,
                0 <= nanos < 1_000_000_000,
        ;
    }
    proof {
        if ms_instant(n as int) {
            assert(nanos % 1_000_000 == 0) by (nonlinear_arith)
                requires
                    secs * 1_000_000_000 + nanos == n,
                    n % 1_000_000 == 0,
                    0 <= nanos < 1_000_000_000,
            ;
            assert(-62_167_219_200 <= secs <= 253_402_300_799) by (nonlinear_arith)
                requires
                    secs * 1_000_000_000 + nanos == n,
                    0 <= nanos < 1_000_000_000,
                    -62_167_219_200_000_000_000 <= n < 253_402_300_800_000_000_000,
            ;
        }
    }
    if secs < i64::MIN as i128 || secs > i64::MAX as i128 {
        return None;
    }
    format_utc_millis(secs as i64, nanos as u32)
}

} // verus!
