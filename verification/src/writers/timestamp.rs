//! UTC timestamps for EPUB's mandatory `dcterms:modified`, which must read
//! `YYYY-MM-DDThh:mm:ssZ`.
use vstd::prelude::*;

use crate::text::{decimal_of, decimal_padded, push_all, push_str, string_of, zero_padded};

verus! {

/// Seconds since the Unix epoch, as `std::time::SystemTime::now` reports them
/// (zero for a clock set before 1970). Nothing is stated of the value: it is
/// the time.
#[verifier::external_body]
pub(crate) fn unix_seconds() -> (r: i64) {
    std::time::SystemTime::now().duration_since(std::time::UNIX_EPOCH).map(|d| d.as_secs() as i64).unwrap_or(0)
}

/// Days since 1970-01-01 to a proleptic Gregorian (year, month, day), by
/// counting 400-year eras of 146 097 days from 0000-03-01.
pub open spec fn civil_of(days: int) -> (int, int, int) {
    let z = days + 719_468;
    let era = z / 146_097;
    let doe = z - era * 146_097;
    let yoe = (doe - doe / 1460 + doe / 36_524 - doe / 146_096) / 365;
    let y = yoe + era * 400;
    let doy = doe - (365 * yoe + yoe / 4 - yoe / 100);
    let mp = (5 * doy + 2) / 153;
    let d = doy - (153 * mp + 2) / 5 + 1;
    let m = if mp < 10 { mp + 3 } else { mp - 9 };
    (if m <= 2 { y + 1 } else { y }, m, d)
}

/// The days since 1970-01-01 of a proleptic Gregorian date.
pub open spec fn days_from_civil(y: int, m: int, d: int) -> int {
    let y1 = if m <= 2 { y - 1 } else { y };
    let era = y1 / 400;
    let yoe = y1 - era * 400;
    let mp = if m > 2 { m - 3 } else { m + 9 };
    let doy = (153 * mp + 2) / 5 + d - 1;
    let doe = yoe * 365 + yoe / 4 - yoe / 100 + doy;
    era * 146_097 + doe - 719_468
}

/// A year as `{:04}` prints it: zero-padded to four places, sign included.
pub open spec fn year_text(y: int) -> Seq<char> {
    if y < 0 {
        seq!['-'] + zero_padded(decimal_of((-y) as nat), 3)
    } else {
        zero_padded(decimal_of(y as nat), 4)
    }
}

/// Two-digit zero-padded field.
pub open spec fn two(n: int) -> Seq<char> {
    zero_padded(decimal_of(n as nat), 2)
}

/// `YYYY-MM-DDThh:mm:ssZ` for a count of Unix seconds.
pub open spec fn utc_text(secs: int) -> Seq<char> {
    let days = secs / 86_400;
    let rem = secs % 86_400;
    let (y, m, d) = civil_of(days);
    year_text(y) + "-"@ + two(m) + "-"@ + two(d) + "T"@ + two(rem / 3600) + ":"@ + two(
        (rem % 3600) / 60,
    ) + ":"@ + two(rem % 60) + "Z"@
}

/// Days since 1970-01-01 to a civil date.
pub fn civil_from_days(days: i64) -> (r: (i64, u32, u32))
    requires
        -200_000_000_000_000 <= days <= 200_000_000_000_000,
    ensures
        (r.0 as int, r.1 as int, r.2 as int) == civil_of(days as int),
        1 <= r.1 <= 12,
        1 <= r.2 <= 31,
{
    let z: i64 = days + 719_468;
    let era: i64 = if z >= 0 { z / 146_097 } else { (z - 146_096) / 146_097 };
    assert(era as int == (z as int) / 146_097) by (nonlinear_arith)
        requires
            z >= 0 ==> era as int == (z as int) / 146_097,
            z < 0 ==> era as int == -((146_096 - z as int) / 146_097),
    {
    }
    let doe: i64 = z - era * 146_097;
    assert(0 <= doe < 146_097) by (nonlinear_arith)
        requires
            era as int == (z as int) / 146_097,
            doe == z - era * 146_097,
    {
    }
    let yoe: i64 = (doe - doe / 1460 + doe / 36_524 - doe / 146_096) / 365;
    let y: i64 = yoe + era * 400;
    let doy: i64 = doe - (365 * yoe + yoe / 4 - yoe / 100);
    assert(0 <= yoe <= 399);
    assert(0 <= doy <= 365);
    let mp: i64 = (5 * doy + 2) / 153;
    assert(0 <= mp <= 11);
    let d: i64 = doy - (153 * mp + 2) / 5 + 1;
    let m: i64 = if mp < 10 { mp + 3 } else { mp - 9 };
    assert(1 <= d <= 31);
    let year = if m <= 2 { y + 1 } else { y };
    (year, m as u32, d as u32)
}

/// Format Unix seconds as `YYYY-MM-DDThh:mm:ssZ`.
pub fn format_utc(secs: i64) -> (r: String)
    ensures
        r@ == utc_text(secs as int),
{
    let days: i64 = if secs >= 0 { secs / 86_400 } else { 0 - (0 - (secs + 1)) / 86_400 - 1 };
    assert(days as int == (secs as int) / 86_400) by (nonlinear_arith)
        requires
            secs >= 0 ==> days as int == (secs as int) / 86_400,
            secs < 0 ==> days as int == -((-(secs as int + 1)) / 86_400) - 1,
    {
    }
    let rem: i64 = if secs >= 0 { secs % 86_400 } else { 86_399 - (0 - (secs + 1)) % 86_400 };
    assert(rem as int == (secs as int) % 86_400) by (nonlinear_arith)
        requires
            secs >= 0 ==> rem as int == (secs as int) % 86_400,
            secs < 0 ==> rem as int == 86_399 - (-(secs as int + 1)) % 86_400,
    {
    }
    assert(days >= -200_000_000_000_000 && days <= 200_000_000_000_000) by (nonlinear_arith)
        requires
            days as int == (secs as int) / 86_400,
            -9_223_372_036_854_775_808 <= secs <= 9_223_372_036_854_775_807,
    {
    }
    let (y, m, d) = civil_from_days(days);
    let mut out: Vec<char> = Vec::new();
    if y < 0 {
        out.push('-');
        let t = decimal_padded((0 - y) as u128, 3);
        push_all(&mut out, &t);
    } else {
        let t = decimal_padded(y as u128, 4);
        push_all(&mut out, &t);
    }
    push_str(&mut out, "-");
    push_all(&mut out, &decimal_padded(m as u128, 2));
    push_str(&mut out, "-");
    push_all(&mut out, &decimal_padded(d as u128, 2));
    push_str(&mut out, "T");
    push_all(&mut out, &decimal_padded((rem / 3600) as u128, 2));
    push_str(&mut out, ":");
    push_all(&mut out, &decimal_padded(((rem % 3600) / 60) as u128, 2));
    push_str(&mut out, ":");
    push_all(&mut out, &decimal_padded((rem % 60) as u128, 2));
    push_str(&mut out, "Z");
    string_of(out.as_slice())
}

/// The current time as an EPUB-legal UTC timestamp.
pub fn now_utc() -> (r: String)
    ensures
        exists|secs: i64| r@ == utc_text(secs as int),
{
    let secs = unix_seconds();
    format_utc(secs)
}

} // verus!
