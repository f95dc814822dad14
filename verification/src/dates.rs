//! Calendar dates in `YYYY-MM-DD` form, through the `time` crate, and the
//! day counts the audits compare against their thresholds.

use vstd::prelude::*;
use vstd::utf8::{encode_utf8, decode_utf8, is_char_boundary};

verus! {

/// The Julian day number of the date `s` spells in the `time` format
/// `[year]-[month]-[day]`, or `None` when `s` is not such a date.
pub uninterp spec fn ymd_day(s: Seq<char>) -> Option<i32>;

/// `time::Date::parse` with the format description `[year]-[month]-[day]`,
/// the parsed date taken as its Julian day number
/// (`time::Date::to_julian_day`). The contract names the answer as a
/// function of `s` alone; the calendar rules are not restated.
#[verifier::external_body]
pub(crate) fn parse_ymd_day(s: &str) -> (r: Option<i32>)
    ensures
        r == ymd_day(s@),
{
    let format = time::format_description::parse("[year]-[month]-[day]").ok()?;
    time::Date::parse(s, &format).ok().map(|d| d.to_julian_day())
}

/// The UTF-8 length of `s` in bytes (what `str::len` returns).
pub open spec fn byte_len(s: Seq<char>) -> nat {
    encode_utf8(s).len()
}

/// The characters of the first `n` bytes of `s`.
pub open spec fn byte_prefix(s: Seq<char>, n: int) -> Seq<char> {
    decode_utf8(encode_utf8(s).subrange(0, n))
}

/// `s` is a string a machine can hold (its byte length fits in `usize`)
/// and slicing its first ten bytes does not cut a character.
pub open spec fn ten_bytes_sliceable(s: Seq<char>) -> bool {
    &&& byte_len(s) <= usize::MAX
    &&& byte_len(s) >= 10 ==> is_char_boundary(encode_utf8(s), 10)
}

/// The first ten bytes of `s` (the `YYYY-MM-DD` part of a timestamp or a
/// dated filename), `None` when `s` is shorter.
pub fn date_prefix(s: &str) -> (r: Option<&str>)
    requires
        ten_bytes_sliceable(s@),
    ensures
        byte_len(s@) < 10 <==> r is None,
        r matches Some(p) ==> p@ == byte_prefix(s@, 10),
{
    if s.len() < 10 {
        return None;
    }
    let (head, _) = s.split_at(10);
    proof {
        vstd::utf8::encode_utf8_decode_utf8(head@);
    }
    Some(head)
}

/// Days from the date a timestamp starts with to the day `today`: `None`
/// when the timestamp does not start with a `YYYY-MM-DD` date.
pub open spec fn days_since(ts: Seq<char>, today: i32) -> Option<i64> {
    if byte_len(ts) < 10 {
        None
    } else {
        match ymd_day(byte_prefix(ts, 10)) {
            Some(d) => Some((today - d) as i64),
            None => None,
        }
    }
}

/// The number of days from the date `ts` starts with (RFC 3339 or plain
/// `YYYY-MM-DD`) to the day numbered `today` (a Julian day number); `None`
/// when `ts` does not start with a date.
pub fn days_since_iso(ts: &str, today: i32) -> (r: Option<i64>)
    requires
        ten_bytes_sliceable(ts@),
    ensures
        r == days_since(ts@, today),
{
    match date_prefix(ts) {
        None => None,
        Some(p) => match parse_ymd_day(p) {
            Some(d) => Some(today as i64 - d as i64),
            None => None,
        },
    }
}

} // verus!
