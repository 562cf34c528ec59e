//! `os.date`: a Unix time, moved by a time-zone offset, as a calendar date
//! and a time of day, given back as its fields or through a
//! `strftime`-like format (`%Y %m %d %H %M %S %c`).

use vstd::prelude::*;
use crate::text::{chars_of, string_of, push_chars, push_str, dec, dec_chars, chars_eq, find_from,
    occurs_at, split_once_seq, split_once_chars, int_dec, int_chars, lemma_find_from_bounds};

verus! {

/// A calendar date and time of day.
#[derive(Debug, Clone, Copy, PartialEq, Eq)]
pub struct DateParts {
    pub year: i32,
    pub month: i32,
    pub day: i32,
    pub hour: i32,
    pub min: i32,
    pub sec: i32,
}

/// Division that rounds toward zero, as Rust's `/` does.
pub open spec fn tdiv(a: int, b: int) -> int {
    if a >= 0 {
        a / b
    } else {
        -((-a) / b)
    }
}

/// The remainder that goes with `tdiv`, as Rust's `%` gives it.
pub open spec fn trem(a: int, b: int) -> int {
    a - b * tdiv(a, b)
}

/// Whether a year of the Gregorian calendar is a leap year.
pub open spec fn is_leap(y: int) -> bool {
    y % 4 == 0 && (y % 100 != 0 || y % 400 == 0)
}

/// The days of a year.
pub open spec fn year_len(y: int) -> int {
    if is_leap(y) {
        366
    } else {
        365
    }
}

/// The days of a month, counted from 0 for January.
pub open spec fn month_len(m: int, leap: bool) -> int {
    if m == 1 {
        if leap {
            29
        } else {
            28
        }
    } else if m == 3 || m == 5 || m == 8 || m == 10 {
        30
    } else {
        31
    }
}

/// Whole years walked from `y` while `days` covers them: the year reached
/// and the days left over.
pub open spec fn year_walk(days: int, y: int) -> (int, int)
    decreases days,
{
    if days < year_len(y) {
        (y, days)
    } else {
        year_walk(days - year_len(y), y + 1)
    }
}

/// Whole months walked from month `m` while `days` covers them: the month
/// reached (from 0) and the days left over.
pub open spec fn month_walk(days: int, leap: bool, m: int) -> (int, int)
    decreases 12 - m,
{
    if m >= 12 || days < month_len(m, leap) {
        (m, days)
    } else {
        month_walk(days - month_len(m, leap), leap, m + 1)
    }
}

/// The date and time of day of a count of seconds since 1970-01-01
/// 00:00:00: whole days (as an `i32`) walked through the years from 1970
/// and the months of the year reached, and the rest of the day split into
/// hours, minutes and seconds. Before 1970 the days stay in January 1970
/// and the fields go negative, as the arithmetic falls.
pub open spec fn parts_spec(secs: int) -> DateParts {
    let days = (tdiv(secs, 86400) as i32) as int;
    let tod = trem(secs, 86400);
    let (y, rest) = year_walk(days, 1970);
    let (m, d) = month_walk(rest, is_leap(y), 0);
    DateParts {
        year: y as i32,
        month: (m + 1) as i32,
        day: (d + 1) as i32,
        hour: tdiv(tod, 3600) as i32,
        min: tdiv(trem(tod, 3600), 60) as i32,
        sec: trem(tod, 60) as i32,
    }
}

proof fn lemma_year_walk(days: int, y: int)
    requires
        0 <= days,
    ensures
        year_walk(days, y).0 >= y,
        0 <= year_walk(days, y).1 < year_len(year_walk(days, y).0),
        (year_walk(days, y).0 - y) * 365 <= days,
    decreases days,
{
    if days >= year_len(y) {
        lemma_year_walk(days - year_len(y), y + 1);
    }
}

proof fn lemma_month_walk(days: int, leap: bool, m: int)
    requires
        0 <= m <= 12,
        0 <= days,
    ensures
        m <= month_walk(days, leap, m).0 <= 12,
        0 <= month_walk(days, leap, m).1,
        month_walk(days, leap, m).0 < 12 ==> month_walk(days, leap, m).1 < month_len(
            month_walk(days, leap, m).0,
            leap,
        ),
    decreases 12 - m,
{
    if m < 12 && days >= month_len(m, leap) {
        lemma_month_walk(days - month_len(m, leap), leap, m + 1);
    }
}

/// The days in the months of a year before month `m` (from 0).
pub open spec fn days_before_month(m: int, leap: bool) -> int
    decreases m,
{
    if m <= 0 {
        0
    } else {
        days_before_month(m - 1, leap) + month_len(m - 1, leap)
    }
}

/// The days in the years from 1970 up to year `y`.
pub open spec fn days_before_year(y: int) -> int
    decreases y - 1970,
{
    if y <= 1970 {
        0
    } else {
        days_before_year(y - 1) + year_len(y - 1)
    }
}

proof fn lemma_days_before_year_step(y: int)
    requires
        y >= 1970,
    ensures
        days_before_year(y + 1) == days_before_year(y) + year_len(y),
{
}

proof fn lemma_year_walk_sum(days: int, y: int)
    requires
        0 <= days,
        y >= 1970,
    ensures
        days_before_year(year_walk(days, y).0) + year_walk(days, y).1 == days_before_year(y) + days,
    decreases days,
{
    if days >= year_len(y) {
        lemma_year_walk_sum(days - year_len(y), y + 1);
        lemma_days_before_year_step(y);
    }
}

proof fn lemma_month_walk_sum(days: int, leap: bool, m: int)
    requires
        0 <= m <= 12,
        0 <= days,
    ensures
        days_before_month(month_walk(days, leap, m).0, leap) + month_walk(days, leap, m).1
            == days_before_month(m, leap) + days,
    decreases 12 - m,
{
    if m < 12 && days >= month_len(m, leap) {
        lemma_month_walk_sum(days - month_len(m, leap), leap, m + 1);
    }
}

/// The seconds since 1970-01-01 00:00:00 that a date and time of day
/// stand for.
pub open spec fn epoch_of(p: DateParts) -> int {
    (days_before_year(p.year as int) + days_before_month(p.month - 1, is_leap(p.year as int)) + p.day - 1)
        * 86400 + p.hour * 3600 + p.min * 60 + p.sec
}

/// A date of 1970 or later is a real one, and it stands for the time it
/// was read from: every field lies in its range, and putting the fields
/// back together gives the seconds again. (Past the day count an `i32`
/// can hold, the days wrap and this no longer holds.)
pub proof fn law_date_round_trip(secs: int)
    requires
        0 <= secs,
        secs / 86400 <= i32::MAX,
    ensures
        parts_spec(secs).year >= 1970,
        1 <= parts_spec(secs).month <= 12,
        1 <= parts_spec(secs).day <= month_len(parts_spec(secs).month - 1, is_leap(
            parts_spec(secs).year as int,
        )),
        0 <= parts_spec(secs).hour < 24,
        0 <= parts_spec(secs).min < 60,
        0 <= parts_spec(secs).sec < 60,
        epoch_of(parts_spec(secs)) == secs,
{
    let days = secs / 86400;
    assert(tdiv(secs, 86400) == days);
    assert((days as i32) as int == days);
    let tod = trem(secs, 86400);
    assert(tod == secs % 86400);
    lemma_year_walk(days, 1970);
    lemma_year_walk_sum(days, 1970);
    let (y, rest) = year_walk(days, 1970);
    assert(y <= 1970 + days / 365);
    lemma_month_walk(rest, is_leap(y), 0);
    lemma_month_walk_sum(rest, is_leap(y), 0);
    let (m, d) = month_walk(rest, is_leap(y), 0);
    if m >= 12 {
        lemma_days_before_month_full(is_leap(y));
        assert(false);
    }
    let p = parts_spec(secs);
    assert(p.year as int == y);
    assert(p.month as int == m + 1);
    assert(p.day as int == d + 1);
    assert(secs == days * 86400 + tod);
}

proof fn lemma_days_before_month_full(leap: bool)
    ensures
        days_before_month(12, leap) == (if leap {
            366int
        } else {
            365int
        }),
{
    reveal_with_fuel(days_before_month, 13);
}


fn year_len_exec(y: i32) -> (r: i32)
    ensures
        r == year_len(y as int),
{
    if y % 4 == 0 && (y % 100 != 0 || y % 400 == 0) {
        366
    } else {
        365
    }
}

fn month_len_exec(m: i32, leap: bool) -> (r: i32)
    ensures
        r == month_len(m as int, leap),
{
    if m == 1 {
        if leap {
            29
        } else {
            28
        }
    } else if m == 3 || m == 5 || m == 8 || m == 10 {
        30
    } else {
        31
    }
}

proof fn lemma_year_at_least(days: int, y: int)
    ensures
        year_walk(days, y).0 >= y,
    decreases days,
{
    if days >= year_len(y) {
        lemma_year_at_least(days - year_len(y), y + 1);
    }
}

/// The date and time of day of a count of seconds since 1970-01-01
/// 00:00:00.
pub fn civil_from_secs(secs: i64) -> (r: DateParts)
    ensures
        r == parts_spec(secs as int),
        r.year >= 1970,
{
    let mut days: i32 = (secs / 86400) as i32;
    let tod: i32 = (secs % 86400) as i32;
    assert(tod as int == trem(secs as int, 86400));
    let hour: i32 = tod / 3600;
    let min: i32 = (tod % 3600) / 60;
    let sec: i32 = tod % 60;
    let ghost d0 = days as int;
    assert(d0 == (tdiv(secs as int, 86400) as i32) as int);
    let mut year: i32 = 1970;
    proof {
        lemma_year_at_least(d0, 1970);
    }
    while days >= year_len_exec(year)
        invariant
            year >= 1970,
            (year - 1970) * 365 <= d0 - days,
            d0 <= i32::MAX,
            year_walk(d0, 1970) == year_walk(days as int, year as int),
        decreases days,
    {
        let yd = year_len_exec(year);
        days = days - yd;
        year = year + 1;
    }
    let leap = year % 4 == 0 && (year % 100 != 0 || year % 400 == 0);
    assert(leap == is_leap(year as int));
    let ghost r0 = days as int;
    let mut month: i32 = 0;
    while month < 12 && days >= month_len_exec(month, leap)
        invariant
            0 <= month <= 12,
            month_walk(r0, leap, 0) == month_walk(days as int, leap, month as int),
            days <= r0,
            r0 < 366,
        decreases 12 - month,
    {
        days = days - month_len_exec(month, leap);
        month = month + 1;
    }
    DateParts { year, month: month + 1, day: days + 1, hour, min, sec }
}

/// A year from 1970 on, as `{:04}` writes it: its four or more digits.
pub open spec fn year_text(y: int) -> Seq<char> {
    dec(y as nat)
}

/// A number as `{:02}` writes it: a leading zero below ten, a sign before
/// a negative one.
pub open spec fn pad2(n: int) -> Seq<char> {
    if 0 <= n < 10 {
        "0"@ + dec(n as nat)
    } else {
        int_dec(n)
    }
}

/// `%c`: `YYYY-MM-DD HH:MM:SS`.
pub open spec fn c_text(p: DateParts) -> Seq<char> {
    year_text(p.year as int) + "-"@ + pad2(p.month as int) + "-"@ + pad2(p.day as int) + " "@ + pad2(
        p.hour as int,
    ) + ":"@ + pad2(p.min as int) + ":"@ + pad2(p.sec as int)
}

/// Every occurrence of `p` in `s` replaced by `r`, left to right, as
/// `str::replace` does for a pattern that is not empty.
pub open spec fn replace_all(s: Seq<char>, p: Seq<char>, r: Seq<char>) -> Seq<char>
    decreases s.len(),
{
    if p.len() == 0 {
        s
    } else {
        match split_once_seq(s, p) {
            None => s,
            Some((a, b)) => {
                proof {
                    lemma_find_from_bounds(s, p, 0);
                }
                a + r + replace_all(b, p, r)
            },
        }
    }
}

/// A format with its fields filled in: `%Y`, `%m`, `%d`, `%H`, `%M` and
/// `%S` replaced in turn, then `%c`.
pub open spec fn format_text(fmt: Seq<char>, p: DateParts) -> Seq<char> {
    let a = replace_all(fmt, "%Y"@, year_text(p.year as int));
    let b = replace_all(a, "%m"@, pad2(p.month as int));
    let c = replace_all(b, "%d"@, pad2(p.day as int));
    let d = replace_all(c, "%H"@, pad2(p.hour as int));
    let e = replace_all(d, "%M"@, pad2(p.min as int));
    let f = replace_all(e, "%S"@, pad2(p.sec as int));
    replace_all(f, "%c"@, c_text(p))
}

fn copy_chars_all(s: &[char]) -> (r: Vec<char>)
    ensures
        r@ == s@,
{
    let mut r: Vec<char> = Vec::new();
    push_chars(&mut r, s);
    assert(r@ =~= s@);
    r
}

fn replace_chars(s: &[char], p: &str, r: &[char]) -> (out: Vec<char>)
    requires
        p@.len() > 0,
    ensures
        out@ == replace_all(s@, p@, r@),
{
    let pc = chars_of(p);
    let mut out: Vec<char> = Vec::new();
    let mut rest = copy_chars_all(s);
    loop
        invariant
            pc@ == p@,
            p@.len() > 0,
            out@ + replace_all(rest@, p@, r@) == replace_all(s@, p@, r@),
        decreases rest@.len(),
    {
        match split_once_chars(&rest, &pc) {
            Some((a, b)) => {
                proof {
                    lemma_find_from_bounds(rest@, p@, 0);
                    assert(replace_all(rest@, p@, r@) == a@ + r@ + replace_all(b@, p@, r@));
                }
                let ghost before = out@;
                push_chars(&mut out, &a);
                push_chars(&mut out, r);
                assert(out@ + replace_all(b@, p@, r@) =~= before + (a@ + r@ + replace_all(b@, p@, r@)));
                rest = b;
            },
            None => {
                let ghost before = out@;
                push_chars(&mut out, &rest);
                assert(out@ =~= before + rest@);
                return out;
            },
        }
    }
}

fn pad2_chars(n: i32) -> (r: Vec<char>)
    ensures
        r@ == pad2(n as int),
{
    if 0 <= n && n < 10 {
        let mut r = chars_of("0");
        let d = dec_chars(n as u64);
        push_chars(&mut r, &d);
        r
    } else {
        int_chars(n as i64)
    }
}

/// A format with the fields of a date filled in.
pub fn format_date(fmt: &str, p: &DateParts) -> (r: String)
    requires
        p.year >= 1970,
    ensures
        r@ == format_text(fmt@, *p),
{
    let y = dec_chars(p.year as u64);
    let mo = pad2_chars(p.month);
    let d = pad2_chars(p.day);
    let h = pad2_chars(p.hour);
    let mi = pad2_chars(p.min);
    let s = pad2_chars(p.sec);
    let mut c: Vec<char> = Vec::new();
    push_chars(&mut c, &y);
    push_str(&mut c, "-");
    push_chars(&mut c, &mo);
    push_str(&mut c, "-");
    push_chars(&mut c, &d);
    push_str(&mut c, " ");
    push_chars(&mut c, &h);
    push_str(&mut c, ":");
    push_chars(&mut c, &mi);
    push_str(&mut c, ":");
    push_chars(&mut c, &s);
    assert(c@ =~= c_text(*p));
    proof {
        reveal_strlit("%Y");
        reveal_strlit("%m");
        reveal_strlit("%d");
        reveal_strlit("%H");
        reveal_strlit("%M");
        reveal_strlit("%S");
        reveal_strlit("%c");
    }
    let f0 = chars_of(fmt);
    let f1 = replace_chars(&f0, "%Y", &y);
    let f2 = replace_chars(&f1, "%m", &mo);
    let f3 = replace_chars(&f2, "%d", &d);
    let f4 = replace_chars(&f3, "%H", &h);
    let f5 = replace_chars(&f4, "%M", &mi);
    let f6 = replace_chars(&f5, "%S", &s);
    let f7 = replace_chars(&f6, "%c", &c);
    string_of(&f7)
}

/// What `os.date` gives back: the fields of the date, or formatted text.
#[derive(Debug, Clone, PartialEq, Eq)]
pub enum DateOutput {
    Fields(DateParts),
    Text(String),
}

/// The format asked for, `%c` where none was.
pub open spec fn format_asked(format: Option<&str>) -> Seq<char> {
    match format {
        Some(f) => f@,
        None => "%c"@,
    }
}

/// Whether a format asks for UTC: it begins with `!`.
pub open spec fn forces_utc(f: Seq<char>) -> bool {
    f.len() > 0 && f[0] == '!'
}

/// What `os.date` gives back, as plain values.
pub enum DateOutputModel {
    Fields(DateParts),
    Text(Seq<char>),
}

/// What `os.date(format, time)` gives back, at `offset_secs` from UTC: a
/// format beginning with `!` drops the `!` and the offset; `*t` asks for
/// the fields; any other format is filled in.
pub open spec fn os_date_spec(format: Option<&str>, epoch: i64, offset_secs: i64) -> DateOutputModel {
    let f = format_asked(format);
    let (fmt, off) = if forces_utc(f) {
        (f.drop_first(), 0int)
    } else {
        (f, offset_secs as int)
    };
    let p = parts_spec(epoch + off);
    if fmt == "*t"@ {
        DateOutputModel::Fields(p)
    } else {
        DateOutputModel::Text(format_text(fmt, p))
    }
}

/// `os.date(format, time)` at `offset_secs` from UTC.
pub fn os_date(format: Option<&str>, epoch: i64, offset_secs: i64) -> (r: DateOutput)
    requires
        forces_utc(format_asked(format)) || (i64::MIN <= epoch + offset_secs <= i64::MAX),
    ensures
        match (r, os_date_spec(format, epoch, offset_secs)) {
            (DateOutput::Fields(a), DateOutputModel::Fields(b)) => a == b,
            (DateOutput::Text(a), DateOutputModel::Text(b)) => a@ == b,
            _ => false,
        },
{
    let f = match format {
        Some(s) => chars_of(s),
        None => chars_of("%c"),
    };
    let (fmt, off): (Vec<char>, i64) = if f.len() > 0 && f[0] == '!' {
        let rest = crate::text::sub_chars(&f, 1, f.len());
        assert(rest@ =~= f@.drop_first());
        (rest, 0)
    } else {
        (f, offset_secs)
    };
    let p = civil_from_secs(epoch + off);
    if chars_eq(&fmt, &chars_of("*t")) {
        DateOutput::Fields(p)
    } else {
        let fs = string_of(&fmt);
        DateOutput::Text(format_date(fs.as_str(), &p))
    }
}

} // verus!
