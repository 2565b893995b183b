//! Calendar dates and the time stamp of a published row.

use vstd::prelude::*;

use crate::text::{digit_char, i64_text, owned, signed_decimal};

verus! {

/// Whether `y` is a leap year of the Gregorian calendar.
pub open spec fn is_leap(y: int) -> bool {
    y % 4 == 0 && (y % 100 != 0 || y % 400 == 0)
}

/// The number of days in month `m` of year `y`.
pub open spec fn days_in_month(y: int, m: int) -> int {
    if m == 2 {
        if is_leap(y) {
            29
        } else {
            28
        }
    } else if m == 4 || m == 6 || m == 9 || m == 11 {
        30
    } else {
        31
    }
}

/// Whether day `d` of month `m` is a date of year `y`.
pub open spec fn valid_date(y: int, m: int, d: int) -> bool {
    1 <= m <= 12 && 1 <= d <= days_in_month(y, m)
}

/// The number of days from 0001-01-01 to the first day of year `y`.
pub open spec fn days_before_year(y: int) -> int {
    365 * (y - 1) + (y - 1) / 4 - (y - 1) / 100 + (y - 1) / 400
}

/// The number of days in year `y` before the first day of month `m`.
pub open spec fn days_before_month(y: int, m: int) -> int {
    let common: int = if m == 1 {
        0
    } else if m == 2 {
        31
    } else if m == 3 {
        59
    } else if m == 4 {
        90
    } else if m == 5 {
        120
    } else if m == 6 {
        151
    } else if m == 7 {
        181
    } else if m == 8 {
        212
    } else if m == 9 {
        243
    } else if m == 10 {
        273
    } else if m == 11 {
        304
    } else {
        334
    };
    if m > 2 && is_leap(y) {
        common + 1
    } else {
        common
    }
}

/// The number of days from 1970-01-01 to the date, negative before it.
pub open spec fn day_number(y: int, m: int, d: int) -> int {
    days_before_year(y) + days_before_month(y, m) + (d - 1) - 719162
}

proof fn step_of_4(y: int)
    ensures
        y / 4 - (y - 1) / 4 == (if y % 4 == 0 {
            1int
        } else {
            0int
        }),
{
}

proof fn step_of_100(y: int)
    ensures
        y / 100 - (y - 1) / 100 == (if y % 100 == 0 {
            1int
        } else {
            0int
        }),
        y % 100 == 0 ==> y % 4 == 0,
{
}

proof fn step_of_400(y: int)
    ensures
        y / 400 - (y - 1) / 400 == (if y % 400 == 0 {
            1int
        } else {
            0int
        }),
        y % 400 == 0 ==> y % 100 == 0,
{
}

proof fn year_length(y: int)
    ensures
        days_before_year(y + 1) - days_before_year(y) == (if is_leap(y) {
            366int
        } else {
            365int
        }),
{
    step_of_4(y);
    step_of_100(y);
    step_of_400(y);
}

proof fn years_ordered(a: int, b: int)
    requires
        a <= b,
    ensures
        days_before_year(a) + 365 * (b - a) <= days_before_year(b),
    decreases b - a,
{
    if a < b {
        years_ordered(a, b - 1);
        year_length(b - 1);
    }
}

proof fn date_within_year(y: int, m: int, d: int)
    requires
        valid_date(y, m, d),
    ensures
        days_before_year(y) <= day_number(y, m, d) + 719162 < days_before_year(y + 1),
{
    year_length(y);
}

/// No two dates have the same day number.
pub proof fn day_number_tells_dates_apart(y: int, m: int, d: int, y2: int, m2: int, d2: int)
    requires
        valid_date(y, m, d),
        valid_date(y2, m2, d2),
        day_number(y, m, d) == day_number(y2, m2, d2),
    ensures
        y == y2,
        m == m2,
        d == d2,
{
    date_within_year(y, m, d);
    date_within_year(y2, m2, d2);
    if y < y2 {
        years_ordered(y + 1, y2);
    }
    if y2 < y {
        years_ordered(y2 + 1, y);
    }
}

/// The year of the era of 400 years that begins on a first of March, from the
/// day of the era.
proof fn year_of_era(doe: int)
    requires
        0 <= doe <= 146096,
    ensures
        ({
            let yoe = (doe - doe / 1460 + doe / 36524 - doe / 146096) / 365;
            let start = 365 * yoe + yoe / 4 - yoe / 100;
            let next = 365 * (yoe + 1) + (yoe + 1) / 4 - (yoe + 1) / 100;
            &&& 0 <= yoe <= 399
            &&& start <= doe
            &&& if yoe == 399 {
                doe <= 146096
            } else {
                doe < next
            }
        }),
{
    let c = if doe == 146096 { 3 } else { doe / 36524 };
    let r = doe - 36524 * c;
    let q = if r == 36524 { 24 } else { r / 1461 };
    let s = r - 1461 * q;
    let t = if s == 1460 { 3 } else { s / 365 };
    let u = s - 365 * t;
    assert(0 <= c <= 3);
    assert(0 <= r <= 36524 && (r == 36524 ==> c == 3));
    assert(0 <= q <= 24);
    assert(0 <= s <= 1460);
    assert(0 <= t <= 3);
    assert(0 <= u <= 365 && (u == 365 ==> t == 3));
    let y = 100 * c + 4 * q + t;
    let a = doe / 1460;
    let b = doe / 36524;
    let e = doe / 146096;
    let n = doe - a + b - e;
    assert(doe == 36524 * c + 1461 * q + 365 * t + u);
    assert(a == 25 * c + q + (24 * c + q + 365 * t + u) / 1460);
    assert(365 * y <= n < 365 * (y + 1));
    assert(n / 365 == y);
    assert(y / 4 == 25 * c + q);
    assert(y / 100 == c);
    assert((y + 1) / 4 == 25 * c + q + (if t == 3 { 1int } else { 0int }));
    assert((y + 1) / 100 == c + (if q == 24 && t == 3 { 1int } else { 0int }));
}

/// The days of a year that begins on the first of March.
proof fn march_year(era: int, doe: int)
    requires
        0 <= doe <= 146096,
    ensures
        ({
            let yoe = (doe - doe / 1460 + doe / 36524 - doe / 146096) / 365;
            let y = yoe + era * 400;
            let doy = doe - (365 * yoe + yoe / 4 - yoe / 100);
            &&& 0 <= yoe <= 399
            &&& 0 <= doy <= (if is_leap(y + 1) {
                365int
            } else {
                364int
            })
            &&& doe + era * 146097 == days_before_year(y + 1) + doy
        }),
{
    year_of_era(doe);
    let yoe = (doe - doe / 1460 + doe / 36524 - doe / 146096) / 365;
    let y = yoe + era * 400;
    assert(y / 4 == yoe / 4 + 100 * era);
    assert(y / 100 == yoe / 100 + 4 * era);
    assert(y / 400 == era);
    let w = yoe + 1;
    assert((y + 1) % 4 == w % 4);
    assert((y + 1) % 100 == w % 100);
    assert((y + 1) % 400 == w % 400);
    if yoe < 399 {
        assert(w / 4 - yoe / 4 == (if w % 4 == 0 { 1int } else { 0int }));
        assert(w / 100 - yoe / 100 == (if w % 100 == 0 { 1int } else { 0int }));
        assert(w % 400 != 0);
    } else {
        assert(w % 400 == 0);
    }
}

/// The date of a day of a year that begins on the first of March of year `y`.
proof fn march_date(y: int, doy: int)
    requires
        0 <= doy <= (if is_leap(y + 1) {
            365int
        } else {
            364int
        }),
    ensures
        ({
            let mp = (5 * doy + 2) / 153;
            let d = doy - (153 * mp + 2) / 5 + 1;
            let m = if mp < 10 {
                mp + 3
            } else {
                mp - 9
            };
            let year = if m <= 2 {
                y + 1
            } else {
                y
            };
            &&& 0 <= mp <= 11
            &&& valid_date(year, m, d)
            &&& day_number(year, m, d) == days_before_year(y + 1) + doy - 719468
        }),
{
    year_length(y);
    let mp = (5 * doy + 2) / 153;
    assert(0 <= mp <= 11);
    if mp == 0 {
    } else if mp == 1 {
    } else if mp == 2 {
    } else if mp == 3 {
    } else if mp == 4 {
    } else if mp == 5 {
    } else if mp == 6 {
    } else if mp == 7 {
    } else if mp == 8 {
    } else if mp == 9 {
    } else if mp == 10 {
    } else {
    }
}

/// The date that is `z` days after 1970-01-01: year, month and day.
pub fn civil_from_days(z: i64) -> (r: (i64, i64, i64))
    requires
        z <= i64::MAX - 719_468,
    ensures
        valid_date(r.0 as int, r.1 as int, r.2 as int),
        day_number(r.0 as int, r.1 as int, r.2 as int) == z,
{
    let z = z + 719_468;
    let era: i64 = if z >= 0 {
        z / 146_097
    } else if z % 146_097 == 0 {
        z / 146_097
    } else {
        z / 146_097 - 1
    };
    let doe: i64 = z - era * 146_097;
    proof {
        march_year(era as int, doe as int);
    }
    let yoe: i64 = (doe - doe / 1460 + doe / 36_524 - doe / 146_096) / 365;
    let y: i64 = yoe + era * 400;
    let doy: i64 = doe - (365 * yoe + yoe / 4 - yoe / 100);
    proof {
        march_date(y as int, doy as int);
    }
    let mp: i64 = (5 * doy + 2) / 153;
    let d: i64 = doy - (153 * mp + 2) / 5 + 1;
    let m: i64 = if mp < 10 {
        mp + 3
    } else {
        mp - 9
    };
    (if m <= 2 {
        y + 1
    } else {
        y
    }, m, d)
}

/// The short name of the weekday that is `w` days after Sunday.
pub open spec fn weekday_name(w: int) -> Seq<char> {
    if w == 0 {
        "Sun"@
    } else if w == 1 {
        "Mon"@
    } else if w == 2 {
        "Tue"@
    } else if w == 3 {
        "Wed"@
    } else if w == 4 {
        "Thu"@
    } else if w == 5 {
        "Fri"@
    } else {
        "Sat"@
    }
}

/// The short name of month `m`.
pub open spec fn month_name(m: int) -> Seq<char> {
    if m == 1 {
        "Jan"@
    } else if m == 2 {
        "Feb"@
    } else if m == 3 {
        "Mar"@
    } else if m == 4 {
        "Apr"@
    } else if m == 5 {
        "May"@
    } else if m == 6 {
        "Jun"@
    } else if m == 7 {
        "Jul"@
    } else if m == 8 {
        "Aug"@
    } else if m == 9 {
        "Sep"@
    } else if m == 10 {
        "Oct"@
    } else if m == 11 {
        "Nov"@
    } else {
        "Dec"@
    }
}

/// A number below 100 in two digits.
pub open spec fn two_digits(n: nat) -> Seq<char> {
    seq![digit_char(n / 10), digit_char(n % 10)]
}

/// The stamp of second `secs` after 1970, if its day is the date `y`-`m`-`d`.
pub open spec fn stamp_on(secs: nat, y: int, m: int, d: int) -> Seq<char> {
    let days = secs / 86400;
    let tod = secs % 86400;
    weekday_name((days % 7 + 4) as int % 7) + " "@ + month_name(m) + " "@ + two_digits(d as nat)
        + " "@ + two_digits(tod / 3600) + ":"@ + two_digits(tod % 3600 / 60) + ":"@ + two_digits(
        tod % 60,
    ) + " "@ + signed_decimal(y)
}

/// The stamp of second `secs` after 1970: weekday, month, day, time of day and
/// year.
pub open spec fn stamp(secs: u64) -> Seq<char> {
    let (y, m, d) = choose|y: int, m: int, d: int|
        valid_date(y, m, d) && #[trigger] day_number(y, m, d) == secs as nat / 86400;
    stamp_on(secs as nat, y, m, d)
}

/// The stamp of a second is the one with the date of its day.
pub proof fn stamp_has_its_date(secs: u64, y: int, m: int, d: int)
    requires
        valid_date(y, m, d),
        day_number(y, m, d) == secs as nat / 86400,
    ensures
        stamp(secs) == stamp_on(secs as nat, y, m, d),
{
    let (y2, m2, d2) = choose|y: int, m: int, d: int|
        valid_date(y, m, d) && #[trigger] day_number(y, m, d) == secs as nat / 86400;
    day_number_tells_dates_apart(y, m, d, y2, m2, d2);
}

fn weekday_text(w: u64) -> (r: String)
    requires
        w < 7,
    ensures
        r@ == weekday_name(w as int),
{
    if w == 0 {
        owned("Sun")
    } else if w == 1 {
        owned("Mon")
    } else if w == 2 {
        owned("Tue")
    } else if w == 3 {
        owned("Wed")
    } else if w == 4 {
        owned("Thu")
    } else if w == 5 {
        owned("Fri")
    } else {
        owned("Sat")
    }
}

fn month_text(m: i64) -> (r: String)
    requires
        1 <= m <= 12,
    ensures
        r@ == month_name(m as int),
{
    if m == 1 {
        owned("Jan")
    } else if m == 2 {
        owned("Feb")
    } else if m == 3 {
        owned("Mar")
    } else if m == 4 {
        owned("Apr")
    } else if m == 5 {
        owned("May")
    } else if m == 6 {
        owned("Jun")
    } else if m == 7 {
        owned("Jul")
    } else if m == 8 {
        owned("Aug")
    } else if m == 9 {
        owned("Sep")
    } else if m == 10 {
        owned("Oct")
    } else if m == 11 {
        owned("Nov")
    } else {
        owned("Dec")
    }
}

fn push_two_digits(s: &mut String, n: u64)
    requires
        n < 100,
    ensures
        final(s)@ == old(s)@ + two_digits(n as nat),
{
    s.push((n / 10 + 48) as u8 as char);
    s.push((n % 10 + 48) as u8 as char);
    assert(s@ =~= old(s)@ + two_digits(n as nat));
}

/// The stamp of second `secs` after 1970, such as `Thu Jan 01 00:00:00 1970`.
pub fn format_utc(secs: u64) -> (r: String)
    ensures
        r@ == stamp(secs),
{
    let days: u64 = secs / 86400;
    let tod: u64 = secs % 86400;
    let (year, month, day) = civil_from_days(days as i64);
    proof {
        stamp_has_its_date(secs, year as int, month as int, day as int);
    }
    let mut s = weekday_text((days % 7 + 4) % 7);
    s.append(" ");
    s.append(month_text(month).as_str());
    s.append(" ");
    push_two_digits(&mut s, day as u64);
    s.append(" ");
    push_two_digits(&mut s, tod / 3600);
    s.append(":");
    push_two_digits(&mut s, (tod % 3600) / 60);
    s.append(":");
    push_two_digits(&mut s, tod % 60);
    s.append(" ");
    s.append(i64_text(year).as_str());
    s
}

} // verus!
