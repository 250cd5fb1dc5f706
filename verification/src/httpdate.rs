//! RFC 1123 HTTP dates (`Last-Modified`, `Date`) from Unix
//! timestamps, up to the end of year 9999.

use vstd::prelude::*;
use vstd::string::{StrSliceExecFns, StringExecFns};

use crate::ascii::chars_of;
use crate::digits::{spec_digits, u64_to_string};

verus! {

/// A Gregorian leap year.
pub open spec fn is_leap(y: int) -> bool {
    (y % 4 == 0 && y % 100 != 0) || y % 400 == 0
}

pub open spec fn days_in_year(y: int) -> int {
    if is_leap(y) {
        366
    } else {
        365
    }
}

/// Days in month `m` (1 through 12).
pub open spec fn days_in_month(m: int, leap: bool) -> int {
    if m == 2 {
        if leap {
            29
        } else {
            28
        }
    } else if m == 4 || m == 6 || m == 9 || m == 11 {
        30
    } else {
        31
    }
}

/// Days from 1970-01-01 to the first day of year `y`.
pub open spec fn days_before_year(y: int) -> int
    decreases y - 1970,
{
    if y <= 1970 {
        0
    } else {
        days_before_year(y - 1) + days_in_year(y - 1)
    }
}

/// Days from the start of the year to the first day of month `m`.
pub open spec fn days_before_month(m: int, leap: bool) -> int
    decreases m,
{
    if m <= 1 {
        0
    } else {
        days_before_month(m - 1, leap) + days_in_month(m - 1, leap)
    }
}

/// Days since 1970-01-01 of the civil date `y-m-d`.
pub open spec fn days_from_civil(y: int, m: int, d: int) -> int {
    days_before_year(y) + days_before_month(m, is_leap(y)) + (d - 1)
}

/// A broken-down UTC time.
pub struct Tm {
    /// Full year, 1970 through 9999.
    pub year: u64,
    /// Month, 1 through 12.
    pub mon: u64,
    /// Day of month, 1 through 31.
    pub mday: u64,
    /// Day of week, 0 (Sunday) through 6.
    pub wday: u64,
    pub hour: u64,
    pub min: u64,
    pub sec: u64,
}

pub open spec fn tm_valid(t: Tm) -> bool {
    &&& 1970 <= t.year <= 9999
    &&& 1 <= t.mon <= 12
    &&& 1 <= t.mday <= days_in_month(t.mon as int, is_leap(t.year as int))
    &&& t.wday < 7
    &&& t.hour < 24
    &&& t.min < 60
    &&& t.sec < 60
}

proof fn lemma_days_before_month_nonneg(m: int, leap: bool)
    ensures
        days_before_month(m, leap) >= 0,
    decreases m,
{
    if m > 1 {
        lemma_days_before_month_nonneg(m - 1, leap);
    }
}

proof fn lemma_days_before_month_mono(a: int, b: int, leap: bool)
    requires
        1 <= a <= b,
    ensures
        days_before_month(a, leap) <= days_before_month(b, leap),
    decreases b - a,
{
    if a < b {
        lemma_days_before_month_mono(a, b - 1, leap);
    }
}

/// A valid date's day number falls inside its own year.
proof fn lemma_civil_day_bounds(t: Tm)
    requires
        tm_valid(t),
    ensures
        days_before_year(t.year as int) <= days_from_civil(
            t.year as int,
            t.mon as int,
            t.mday as int,
        ) < days_before_year(t.year as int + 1),
{
    let y = t.year as int;
    let m = t.mon as int;
    let leap = is_leap(y);
    lemma_days_before_month_nonneg(m, leap);
    assert(days_before_month(m + 1, leap) == days_before_month(m, leap) + days_in_month(m, leap));
    lemma_days_before_month_mono(m + 1, 13, leap);
    lemma_year_months(leap);
    assert(days_before_year(y + 1) == days_before_year(y) + days_in_year(y));
}

/// A day number determines its civil date: two valid dates with the
/// same day count are the same date. Together with `gmtime`'s
/// contract this pins the broken-down time of a timestamp completely.
pub proof fn lemma_civil_unique(a: Tm, b: Tm)
    requires
        tm_valid(a),
        tm_valid(b),
        days_from_civil(a.year as int, a.mon as int, a.mday as int) == days_from_civil(
            b.year as int,
            b.mon as int,
            b.mday as int,
        ),
    ensures
        a.year == b.year,
        a.mon == b.mon,
        a.mday == b.mday,
{
    lemma_civil_day_bounds(a);
    lemma_civil_day_bounds(b);
    if a.year < b.year {
        lemma_days_before_year_mono(a.year as int + 1, b.year as int);
        assert(false);
    }
    if b.year < a.year {
        lemma_days_before_year_mono(b.year as int + 1, a.year as int);
        assert(false);
    }
    let y = a.year as int;
    let leap = is_leap(y);
    if a.mon < b.mon {
        assert(days_before_month(a.mon as int + 1, leap) == days_before_month(a.mon as int, leap)
            + days_in_month(a.mon as int, leap));
        lemma_days_before_month_mono(a.mon as int + 1, b.mon as int, leap);
        assert(false);
    }
    if b.mon < a.mon {
        assert(days_before_month(b.mon as int + 1, leap) == days_before_month(b.mon as int, leap)
            + days_in_month(b.mon as int, leap));
        lemma_days_before_month_mono(b.mon as int + 1, a.mon as int, leap);
        assert(false);
    }
}

proof fn lemma_days_before_year_mono(a: int, b: int)
    requires
        1970 <= a <= b,
    ensures
        days_before_year(a) <= days_before_year(b),
    decreases b - a,
{
    if a < b {
        lemma_days_before_year_mono(a, b - 1);
    }
}

/// A year's months sum to its day count.
proof fn lemma_year_months(leap: bool)
    ensures
        days_before_month(13, leap) == if leap {
            366int
        } else {
            365int
        },
{
    reveal_with_fuel(days_before_month, 14);
}

fn leap_year(y: u64) -> (r: bool)
    ensures
        r == is_leap(y as int),
{
    (y % 4 == 0 && y % 100 != 0) || y % 400 == 0
}

fn year_days(y: u64) -> (r: u64)
    ensures
        r == days_in_year(y as int),
{
    if leap_year(y) {
        366
    } else {
        365
    }
}

fn month_days(m: u64, leap: bool) -> (r: u64)
    ensures
        r == days_in_month(m as int, leap),
{
    if m == 2 {
        if leap {
            29
        } else {
            28
        }
    } else if m == 4 || m == 6 || m == 9 || m == 11 {
        30
    } else {
        31
    }
}

/// Breaks a Unix timestamp into a UTC civil date and time of day.
/// Returns nothing for timestamps at or past year 10000.
pub fn gmtime(secs: u64) -> (r: Option<Tm>)
    ensures
        r is Some <==> (secs as int) / 86400 < days_before_year(10000),
        r matches Some(t) ==> {
            &&& tm_valid(t)
            &&& days_from_civil(t.year as int, t.mon as int, t.mday as int) == (secs as int)
                / 86400
            &&& t.wday == ((secs as int) / 86400 + 4) % 7
            &&& t.hour == ((secs as int) % 86400) / 3600
            &&& t.min == (((secs as int) % 86400) % 3600) / 60
            &&& t.sec == ((secs as int) % 86400) % 60
        },
{
    let days: u64 = secs / 86400;
    let rem: u64 = secs % 86400;
    let hour: u64 = rem / 3600;
    let min: u64 = (rem % 3600) / 60;
    let sec: u64 = rem % 60;
    proof {
        assert(days <= u64::MAX / 86400);
    }
    let wday: u64 = (days + 4) % 7;
    let mut y: u64 = 1970;
    let mut rd: u64 = days;
    while rd >= year_days(y)
        invariant
            1970 <= y <= 9999,
            days == (secs as int) / 86400,
            days_before_year(y as int) + rd == days,
        decreases rd,
    {
        if y == 9999 {
            proof {
                // the timestamp lies at or past year 10000
                assert(days_before_year(10000) == days_before_year(9999) + days_in_year(9999));
                assert(days >= days_before_year(10000));
            }
            return None;
        }
        rd = rd - year_days(y);
        y = y + 1;
    }
    let leap = leap_year(y);
    proof {
        assert(days_before_year(y as int + 1) == days_before_year(y as int) + days_in_year(
            y as int,
        ));
        lemma_days_before_year_mono(y as int + 1, 10000);
        assert(days < days_before_year(10000));
    }
    let ghost rd0 = rd;
    let mut m: u64 = 1;
    while rd >= month_days(m, leap)
        invariant
            1 <= m <= 12,
            leap == is_leap(y as int),
            days_before_month(m as int, leap) + rd == rd0,
            rd0 < days_in_year(y as int),
        decreases 12 - m,
    {
        proof {
            lemma_year_months(leap);
            assert(days_before_month(13, leap) == days_before_month(12, leap) + days_in_month(
                12,
                leap,
            ));
            if m == 12 {
                assert(false);
            }
        }
        rd = rd - month_days(m, leap);
        m = m + 1;
    }
    let mday: u64 = rd + 1;
    Some(Tm { year: y, mon: m, mday, wday, hour, min, sec })
}

pub open spec fn weekday_name(w: int) -> Seq<char> {
    if w == 0 {
        "Sun"@
    } else if w == 1 {
        "Mon"@
    } else if w == 2 {
        "Tue"@
    } else if w == 3 {
        "Wed"@
    } else if w == 4 {
        "Thu"@
    } else if w == 5 {
        "Fri"@
    } else {
        "Sat"@
    }
}

pub open spec fn month_name(m: int) -> Seq<char> {
    if m == 1 {
        "Jan"@
    } else if m == 2 {
        "Feb"@
    } else if m == 3 {
        "Mar"@
    } else if m == 4 {
        "Apr"@
    } else if m == 5 {
        "May"@
    } else if m == 6 {
        "Jun"@
    } else if m == 7 {
        "Jul"@
    } else if m == 8 {
        "Aug"@
    } else if m == 9 {
        "Sep"@
    } else if m == 10 {
        "Oct"@
    } else if m == 11 {
        "Nov"@
    } else {
        "Dec"@
    }
}

/// A value below 100 written with exactly two digits.
pub open spec fn pad2(n: nat) -> Seq<char> {
    if n < 10 {
        "0"@ + chars_of(spec_digits(n))
    } else {
        chars_of(spec_digits(n))
    }
}

fn weekday_str(w: u64) -> (r: &'static str)
    ensures
        r@ == weekday_name(w as int),
{
    match w {
        0 => "Sun",
        1 => "Mon",
        2 => "Tue",
        3 => "Wed",
        4 => "Thu",
        5 => "Fri",
        _ => "Sat",
    }
}

fn month_str(m: u64) -> (r: &'static str)
    ensures
        r@ == month_name(m as int),
{
    match m {
        1 => "Jan",
        2 => "Feb",
        3 => "Mar",
        4 => "Apr",
        5 => "May",
        6 => "Jun",
        7 => "Jul",
        8 => "Aug",
        9 => "Sep",
        10 => "Oct",
        11 => "Nov",
        _ => "Dec",
    }
}

fn pad2_str(n: u64) -> (r: String)
    ensures
        r@ == pad2(n as nat),
{
    let d = u64_to_string(n);
    if n < 10 {
        let mut s = String::from_str("0");
        s.append(d.as_str());
        s
    } else {
        d
    }
}

/// The RFC 1123 form of a broken-down time, for example
/// `Tue, 25 Feb 2025 21:05:51 GMT`.
pub open spec fn spec_httpdate(t: Tm) -> Seq<char> {
    weekday_name(t.wday as int) + ", "@ + chars_of(spec_digits(t.mday as nat)) + " "@ + month_name(
        t.mon as int,
    ) + " "@ + chars_of(spec_digits(t.year as nat)) + " "@ + pad2(t.hour as nat) + ":"@ + pad2(
        t.min as nat,
    ) + ":"@ + pad2(t.sec as nat) + " GMT"@
}

/// Formats a broken-down time as an RFC 1123 HTTP date.
pub fn httpdate(t: &Tm) -> (r: String)
    ensures
        r@ == spec_httpdate(*t),
{
    let mut s = String::new();
    s.append(weekday_str(t.wday));
    s.append(", ");
    let mday = u64_to_string(t.mday);
    s.append(mday.as_str());
    s.append(" ");
    s.append(month_str(t.mon));
    s.append(" ");
    let year = u64_to_string(t.year);
    s.append(year.as_str());
    s.append(" ");
    let hh = pad2_str(t.hour);
    s.append(hh.as_str());
    s.append(":");
    let mm = pad2_str(t.min);
    s.append(mm.as_str());
    s.append(":");
    let ss = pad2_str(t.sec);
    s.append(ss.as_str());
    s.append(" GMT");
    proof {
        assert(s@ =~= spec_httpdate(*t));
    }
    s
}

/// Formats a Unix timestamp as an RFC 1123 HTTP date; nothing comes
/// back for timestamps at or past year 10000, and the caller omits
/// the header then.
pub fn from_unix_secs(secs: u64) -> (r: Option<String>)
    ensures
        r is Some <==> (secs as int) / 86400 < days_before_year(10000),
        r matches Some(s) ==> exists|t: Tm|
            {
                &&& tm_valid(t)
                &&& days_from_civil(t.year as int, t.mon as int, t.mday as int) == (secs as int)
                    / 86400
                &&& t.wday == ((secs as int) / 86400 + 4) % 7
                &&& t.hour == ((secs as int) % 86400) / 3600
                &&& t.min == (((secs as int) % 86400) % 3600) / 60
                &&& t.sec == ((secs as int) % 86400) % 60
                &&& s@ == spec_httpdate(t)
            },
{
    match gmtime(secs) {
        Some(t) => {
            let s = httpdate(&t);
            proof {
                let witness = t;
                assert(s@ == spec_httpdate(witness));
            }
            Some(s)
        },
        None => None,
    }
}

} // verus!
