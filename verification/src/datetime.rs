//! Dates and times in UTC, as seconds since the start of 1970.
//!
//! The calendar is the proleptic Gregorian one, with exact integer arithmetic.

use crate::ascii::{
    all_digits, digit_value, every_digit, is_digit, lemma_padded, numeral_value, padded,
    push_padded,
};
use crate::text::chars_of;
use vstd::arithmetic::div_mod::{lemma_hoist_over_denominator, lemma_mod_multiples_vanish};
use vstd::prelude::*;
use vstd::slice::slice_subrange;

verus! {

/// Seconds of a day.
pub const DAY: i64 = 86_400;

/// Days from the start of the year 0 to the start of the year 1970.
pub const EPOCH_DAY: u64 = 719_528;

/// Days of 400 years.
pub const CYCLE: u64 = 146_097;

/// A date and a time of day.
pub struct Civil {
    pub year: i64,
    pub month: u64,
    pub day: u64,
    pub hour: u64,
    pub minute: u64,
    pub second: u64,
}

/// Whether a year has 366 days.
pub open spec fn is_leap(year: int) -> bool {
    year % 4 == 0 && (year % 100 != 0 || year % 400 == 0)
}

/// Number of days of a month.
pub open spec fn month_len(year: int, month: int) -> int {
    if month == 2 {
        if is_leap(year) {
            29
        } else {
            28
        }
    } else if month == 4 || month == 6 || month == 9 || month == 11 {
        30
    } else {
        31
    }
}

/// Days from the start of the year 0 to the start of a year: 365 for each year,
/// and one more for each leap year.
pub open spec fn days_before_year(year: int) -> int {
    365 * year + (year + 3) / 4 - (year + 99) / 100 + (year + 399) / 400
}

/// Days from the start of a year to the start of a month.
pub open spec fn days_before_month(year: int, month: int) -> int
    decreases month,
{
    if month <= 1 {
        0
    } else {
        days_before_month(year, month - 1) + month_len(year, month - 1)
    }
}

/// Whether the date exists and the time is one of its seconds.
pub open spec fn is_valid(c: Civil) -> bool {
    &&& 1 <= c.month <= 12
    &&& 1 <= c.day <= month_len(c.year as int, c.month as int)
    &&& c.hour < 24
    &&& c.minute < 60
    &&& c.second < 60
}

/// Days from the start of 1970 to a date.
pub open spec fn day_number(year: int, month: int, day: int) -> int {
    days_before_year(year) + days_before_month(year, month) + day - 1 - EPOCH_DAY
}

/// Seconds from the start of 1970 to a date and time.
pub open spec fn seconds(c: Civil) -> int {
    day_number(c.year as int, c.month as int, c.day as int) * DAY + c.hour * 3600 + c.minute * 60
        + c.second
}

/// The date and time at a number of seconds since the start of 1970.
pub open spec fn civil_at(secs: int) -> Civil {
    choose|c: Civil| is_valid(c) && #[trigger] seconds(c) == secs
}

/// A year of at least four characters, a minus sign included.
pub open spec fn year_text(year: int) -> Seq<char> {
    if year < 0 {
        seq!['-'] + padded((-year) as nat, 3)
    } else {
        padded(year as nat, 4)
    }
}

/// A date without separators: `YYYYMMDD`.
pub open spec fn date_text(c: Civil) -> Seq<char> {
    year_text(c.year as int) + padded(c.month as nat, 2) + padded(c.day as nat, 2)
}

/// A time without separators: `HHMMSS`.
pub open spec fn time_text(c: Civil) -> Seq<char> {
    padded(c.hour as nat, 2) + padded(c.minute as nat, 2) + padded(c.second as nat, 2)
}

/// The date at a number of seconds, as `YYYYMMDD`.
pub open spec fn date_stamp(secs: int) -> Seq<char> {
    date_text(civil_at(secs))
}

/// The date and time at a number of seconds, as `YYYYMMDDTHHMMSSZ`.
pub open spec fn time_stamp(secs: int) -> Seq<char> {
    date_text(civil_at(secs)) + seq!['T'] + time_text(civil_at(secs)) + seq!['Z']
}

// ---------------------------------------------------------------------------
// Calendar arithmetic
// ---------------------------------------------------------------------------

/// A year has 365 days, a leap year 366.
pub proof fn lemma_year_len(year: int)
    ensures
        days_before_year(year + 1) == days_before_year(year) + if is_leap(year) {
            366int
        } else {
            365
        },
{
    assert((year + 1 + 3) / 4 - (year + 3) / 4 == if year % 4 == 0 {
        1int
    } else {
        0
    });
    assert((year + 1 + 99) / 100 - (year + 99) / 100 == if year % 100 == 0 {
        1int
    } else {
        0
    });
    assert((year + 1 + 399) / 400 - (year + 399) / 400 == if year % 400 == 0 {
        1int
    } else {
        0
    });
    assert(year % 400 == 0 ==> year % 100 == 0);
    assert(year % 100 == 0 ==> year % 4 == 0);
}

/// Four hundred years later every date is the same number of days later.
pub proof fn lemma_cycle(year: int, k: int)
    ensures
        days_before_year(year + 400 * k) == days_before_year(year) + CYCLE * k,
        is_leap(year + 400 * k) == is_leap(year),
{
    lemma_hoist_over_denominator(year + 3, 100 * k, 4);
    lemma_hoist_over_denominator(year + 99, 4 * k, 100);
    lemma_hoist_over_denominator(year + 399, k, 400);
    lemma_mod_multiples_vanish(100 * k, year, 4);
    lemma_mod_multiples_vanish(4 * k, year, 100);
    lemma_mod_multiples_vanish(k, year, 400);
}

/// The months of a year make up the year.
pub proof fn lemma_months(year: int)
    ensures
        days_before_month(year, 1) == 0,
        days_before_month(year, 13) == if is_leap(year) {
            366int
        } else {
            365
        },
        forall|m: int|
            1 <= m <= 12 ==> #[trigger] days_before_month(year, m + 1) == days_before_month(year, m)
                + month_len(year, m),
{
    reveal_with_fuel(days_before_month, 14);
}

/// Months follow one another.
proof fn lemma_month_order(year: int, a: int, b: int)
    requires
        1 <= a <= b,
    ensures
        days_before_month(year, a) <= days_before_month(year, b),
        a < b ==> days_before_month(year, a) + month_len(year, a) <= days_before_month(year, b),
    decreases b - a,
{
    if a < b {
        lemma_month_order(year, a, b - 1);
    }
}

/// Years follow one another.
proof fn lemma_year_order(a: int, b: int)
    requires
        a < b,
    ensures
        days_before_year(a + 1) <= days_before_year(b),
    decreases b - a,
{
    if a + 1 < b {
        lemma_year_order(a + 1, b);
        lemma_year_len(a + 1);
    }
}

/// The date of a valid moment lies in its year and its month.
proof fn lemma_day_bounds(c: Civil)
    requires
        is_valid(c),
    ensures
        ({
            let y = c.year as int;
            let n = day_number(y, c.month as int, c.day as int) + EPOCH_DAY;
            &&& days_before_year(y) <= n < days_before_year(y + 1)
            &&& days_before_month(y, c.month as int) <= n - days_before_year(y)
            &&& n - days_before_year(y) < days_before_month(y, c.month as int) + month_len(
                y,
                c.month as int,
            )
        }),
{
    let y = c.year as int;
    lemma_months(y);
    lemma_year_len(y);
    lemma_month_order(y, 1, c.month as int);
    lemma_month_order(y, c.month as int, 13);
}

/// Earlier dates and times come at smaller numbers of seconds, compared by
/// year, month, day, hour, minute and second in this order.
pub open spec fn earlier(a: Civil, b: Civil) -> bool {
    ||| a.year < b.year
    ||| a.year == b.year && a.month < b.month
    ||| a.year == b.year && a.month == b.month && a.day < b.day
    ||| a.year == b.year && a.month == b.month && a.day == b.day && a.hour < b.hour
    ||| a.year == b.year && a.month == b.month && a.day == b.day && a.hour == b.hour && a.minute
        < b.minute
    ||| a.year == b.year && a.month == b.month && a.day == b.day && a.hour == b.hour && a.minute
        == b.minute && a.second < b.second
}

/// The number of seconds grows with the date and time.
pub proof fn law_seconds_follow_the_calendar(a: Civil, b: Civil)
    requires
        is_valid(a),
        is_valid(b),
        earlier(a, b),
    ensures
        seconds(a) < seconds(b),
{
    lemma_day_bounds(a);
    lemma_day_bounds(b);
    let x = day_number(a.year as int, a.month as int, a.day as int);
    let y = day_number(b.year as int, b.month as int, b.day as int);
    if a.year < b.year {
        lemma_year_order(a.year as int, b.year as int);
        assert(x < y);
    } else if a.month < b.month {
        lemma_month_order(a.year as int, a.month as int, b.month as int);
        assert(x < y);
    } else if a.day < b.day {
        assert(x < y);
    } else {
        assert(x == y);
    }
}

/// No two valid dates and times share a number of seconds.
pub proof fn law_seconds_are_unique(a: Civil, b: Civil)
    requires
        is_valid(a),
        is_valid(b),
        seconds(a) == seconds(b),
    ensures
        a == b,
{
    if earlier(a, b) {
        law_seconds_follow_the_calendar(a, b);
    }
    if earlier(b, a) {
        law_seconds_follow_the_calendar(b, a);
    }
}

/// The date and time at the seconds of a valid one is that one.
pub proof fn lemma_civil_at(c: Civil)
    requires
        is_valid(c),
    ensures
        civil_at(seconds(c)) == c,
{
    let d = civil_at(seconds(c));
    assert(is_valid(d) && seconds(d) == seconds(c));
    law_seconds_are_unique(d, c);
}

/// Whether a year has 366 days.
fn leap(year: u64) -> (r: bool)
    ensures
        r == is_leap(year as int),
{
    year % 4 == 0 && (year % 100 != 0 || year % 400 == 0)
}

/// Number of days of a month.
fn month_days(year: u64, month: u64) -> (n: u64)
    ensures
        n == month_len(year as int, month as int),
{
    if month == 2 {
        if leap(year) {
            29
        } else {
            28
        }
    } else if month == 4 || month == 6 || month == 9 || month == 11 {
        30
    } else {
        31
    }
}

/// Days from the start of the year 0 to the start of a year.
fn year_days(year: u64) -> (n: u64)
    requires
        year <= 10_000,
    ensures
        n == days_before_year(year as int),
{
    365 * year + (year + 3) / 4 - (year + 99) / 100 + (year + 399) / 400
}

/// The year of 400 that holds a day, and the day of that year.
fn year_of_cycle(day: u64) -> (r: (u64, u64))
    requires
        day < CYCLE,
    ensures
        r.0 < 400,
        days_before_year(r.0 as int) + r.1 == day,
        days_before_year(r.0 as int) <= day < days_before_year(r.0 + 1),
{
    let mut year: u64 = day / 366;
    while year < 399 && year_days(year + 1) <= day
        invariant
            year <= 399,
            day < CYCLE,
            days_before_year(year as int) <= day,
        decreases 400 - year,
    {
        year = year + 1;
    }
    proof {
        assert(days_before_year(400) == CYCLE);
    }
    (year, day - year_days(year))
}

/// The month that holds a day of a year, and the day of that month from one.
fn month_of_year(year: u64, day: u64) -> (r: (u64, u64))
    requires
        day < days_before_year(year + 1) - days_before_year(year as int),
    ensures
        1 <= r.0 <= 12,
        1 <= r.1 <= month_len(year as int, r.0 as int),
        days_before_month(year as int, r.0 as int) + r.1 == day + 1,
{
    let mut month: u64 = 1;
    let mut rest: u64 = day;
    proof {
        lemma_months(year as int);
        lemma_year_len(year as int);
    }
    while month < 12 && rest >= month_days(year, month)
        invariant
            1 <= month <= 12,
            days_before_month(year as int, month as int) + rest == day,
            day < days_before_month(year as int, 13),
            forall|m: int|
                1 <= m <= 12 ==> #[trigger] days_before_month(year as int, m + 1)
                    == days_before_month(year as int, m) + month_len(year as int, m),
        decreases 12 - month,
    {
        rest = rest - month_days(year, month);
        month = month + 1;
    }
    proof {
        assert(days_before_month(year as int, month + 1) == days_before_month(
            year as int,
            month as int,
        ) + month_len(year as int, month as int));
    }
    (month, rest + 1)
}

/// The date and time at a number of seconds since the start of 1970.
pub fn civil_from_epoch(secs: i64) -> (c: Civil)
    ensures
        is_valid(c),
        seconds(c) == secs,
        c == civil_at(secs as int),
{
    // Shifted by a whole number of 400-year cycles, no number is negative.
    let shift: i128 = 800_000_000 * 12_622_780_800;
    let moved: u128 = (secs as i128 + shift) as u128;
    let day: u64 = (moved / 86_400) as u64;
    let time: u64 = (moved % 86_400) as u64;
    let from_zero: u64 = day + EPOCH_DAY;
    let cycle: u64 = from_zero / CYCLE;
    let (year, day_of_year) = year_of_cycle(from_zero % CYCLE);
    let (month, day_of_month) = month_of_year(year, day_of_year);
    let c = Civil {
        year: (cycle as i64 - 800_000_000) * 400 + year as i64,
        month: month,
        day: day_of_month,
        hour: time / 3600,
        minute: time % 3600 / 60,
        second: time % 60,
    };
    proof {
        let k = cycle - 800_000_000;
        lemma_cycle(year as int, k);
        assert(c.year == year + 400 * k);
        lemma_same_months(year as int, c.year as int, month as int);
        assert(moved == day * 86_400 + time);
        assert(from_zero == cycle * CYCLE + from_zero % CYCLE);
        assert(day_number(c.year as int, month as int, day_of_month as int) == day - 800_000_000
            * CYCLE);
        assert(seconds(c) == secs);
        lemma_civil_at(c);
    }
    c
}

/// Years of the same kind have the same months.
proof fn lemma_same_months(a: int, b: int, month: int)
    requires
        is_leap(a) == is_leap(b),
    ensures
        days_before_month(a, month) == days_before_month(b, month),
        month_len(a, month) == month_len(b, month),
    decreases month,
{
    if month > 1 {
        lemma_same_months(a, b, month - 1);
    }
}

// ---------------------------------------------------------------------------
// Writing
// ---------------------------------------------------------------------------

/// Append a date as `YYYYMMDD`.
fn push_date(out: &mut String, c: &Civil)
    ensures
        final(out)@ == old(out)@ + date_text(*c),
{
    let ghost start = out@;
    if c.year < 0 {
        out.push('-');
        let n: u64 = if c.year == i64::MIN {
            0x8000_0000_0000_0000u64
        } else {
            (-c.year) as u64
        };
        push_padded(out, n, 3);
    } else {
        push_padded(out, c.year as u64, 4);
    }
    assert(out@ =~= start + year_text(c.year as int));
    push_padded(out, c.month, 2);
    push_padded(out, c.day, 2);
    assert(out@ =~= start + date_text(*c));
}

/// The date at a number of seconds since the start of 1970, as `YYYYMMDD`.
pub fn epoch_to_date(secs: i64) -> (r: String)
    ensures
        r@ == date_stamp(secs as int),
{
    let c = civil_from_epoch(secs);
    let mut out = String::new();
    push_date(&mut out, &c);
    assert(out@ =~= date_text(c));
    out
}

/// The date and time at a number of seconds since the start of 1970, as
/// `YYYYMMDDTHHMMSSZ`.
pub fn epoch_to_make_time(secs: i64) -> (r: String)
    ensures
        r@ == time_stamp(secs as int),
{
    let c = civil_from_epoch(secs);
    let mut out = String::new();
    push_date(&mut out, &c);
    out.push('T');
    push_padded(&mut out, c.hour, 2);
    push_padded(&mut out, c.minute, 2);
    push_padded(&mut out, c.second, 2);
    out.push('Z');
    assert(out@ =~= time_stamp(secs as int));
    out
}

// ---------------------------------------------------------------------------
// Reading
// ---------------------------------------------------------------------------

/// The number written at the positions from `a` to `b`.
pub open spec fn field(s: Seq<char>, a: int, b: int) -> int {
    numeral_value(s.subrange(a, b))
}

/// Whether the text starts with a date as `YYYY-MM-DD`.
pub open spec fn has_date(s: Seq<char>) -> bool {
    &&& s.len() >= 10
    &&& all_digits(s.subrange(0, 4))
    &&& s[4] == '-'
    &&& all_digits(s.subrange(5, 7))
    &&& s[7] == '-'
    &&& all_digits(s.subrange(8, 10))
}

/// Whether a time as `THH:MM:SS`, with an optional `Z`, stands behind the date
/// and nothing behind that.
pub open spec fn has_time(s: Seq<char>) -> bool {
    &&& s.len() == 19 || (s.len() == 20 && s[19] == 'Z')
    &&& s[10] == 'T'
    &&& all_digits(s.subrange(11, 13))
    &&& s[13] == ':'
    &&& all_digits(s.subrange(14, 16))
    &&& s[16] == ':'
    &&& all_digits(s.subrange(17, 19))
}

/// The date and time that are written; without a time, midnight.
pub open spec fn written(s: Seq<char>) -> Civil {
    let timed = s.len() > 10;
    Civil {
        year: field(s, 0, 4) as i64,
        month: field(s, 5, 7) as u64,
        day: field(s, 8, 10) as u64,
        hour: if timed {
            field(s, 11, 13) as u64
        } else {
            0
        },
        minute: if timed {
            field(s, 14, 16) as u64
        } else {
            0
        },
        second: if timed {
            field(s, 17, 19) as u64
        } else {
            0
        },
    }
}

/// What an ISO 8601 date (`YYYY-MM-DD`) or date and time
/// (`YYYY-MM-DDTHH:MM:SS`, with or without a final `Z`) stands for: the seconds
/// since the start of 1970, and whether a time is given. Times are UTC.
pub open spec fn parsed(s: Seq<char>) -> Option<(int, bool)> {
    if has_date(s) && (s.len() == 10 || has_time(s)) && is_valid(written(s)) {
        Some((seconds(written(s)), s.len() > 10))
    } else {
        None
    }
}

/// What is said of text that is no date.
pub open spec fn iso_error(s: Seq<char>) -> Seq<char> {
    "not an ISO 8601 date or time: "@ + s
}

/// A row of up to four digits is a number below ten to that power.
pub proof fn lemma_field(s: Seq<char>)
    requires
        all_digits(s),
        s.len() <= 4,
    ensures
        0 <= numeral_value(s) < 10_000,
        s.len() <= 2 ==> numeral_value(s) < 100,
        s.len() == 2 ==> numeral_value(s) == digit_value(s[0]) * 10 + digit_value(s[1]),
        s.len() == 4 ==> numeral_value(s) == digit_value(s[0]) * 1000 + digit_value(s[1]) * 100
            + digit_value(s[2]) * 10 + digit_value(s[3]),
{
    reveal_with_fuel(numeral_value, 5);
    assert(forall|i: int| 0 <= i < s.len() ==> is_digit(#[trigger] s[i]));
    if s.len() > 0 {
        assert(is_digit(s[s.len() - 1]));
        let a = s.drop_last();
        if a.len() > 0 {
            assert(a.last() == s[s.len() - 2]);
            let b = a.drop_last();
            if b.len() > 0 {
                assert(b.last() == s[s.len() - 3]);
                let c = b.drop_last();
                if c.len() > 0 {
                    assert(c.last() == s[s.len() - 4]);
                }
            }
        }
    }
}

/// The seconds of a parsed text lie in the years from 0 to 9999.
pub proof fn lemma_parsed_bounds(s: Seq<char>)
    ensures
        parsed(s) matches Some((secs, _)) ==> {
            &&& -62_167_219_200 <= secs < 253_402_300_800
            &&& 0 <= written(s).year <= 9999
            &&& is_valid(written(s))
            &&& seconds(written(s)) == secs
            &&& civil_at(secs) == written(s)
        },
{
    if parsed(s) is Some {
        let c = written(s);
        lemma_field(s.subrange(0, 4));
        lemma_day_bounds(c);
        lemma_civil_at(c);
        assert(days_before_year(0) == 0);
        assert(days_before_year(10_000) == 3_652_425);
        if c.year > 0 {
            lemma_year_order(0, c.year as int);
            lemma_year_len(0);
        }
        if c.year < 9999 {
            lemma_year_order(c.year as int, 10_000);
        }
    }
}

/// The number at the positions from `a` to `b`, if digits stand there.
fn number_at(v: &[char], a: usize, b: usize) -> (r: Option<u64>)
    requires
        a <= b <= v@.len(),
        b - a <= 4,
    ensures
        match r {
            Some(n) => all_digits(v@.subrange(a as int, b as int)) && n == field(
                v@,
                a as int,
                b as int,
            ) && n < 10_000,
            None => !all_digits(v@.subrange(a as int, b as int)),
        },
{
    let part = slice_subrange(v, a, b);
    if !every_digit(part) {
        return None;
    }
    let mut n: u64 = 0;
    let mut i: usize = 0;
    proof {
        assert(part@.take(0) =~= Seq::<char>::empty());
    }
    while i < part.len()
        invariant
            i <= part@.len() <= 4,
            all_digits(part@),
            n == numeral_value(part@.take(i as int)),
            n < 10_000,
        decreases part@.len() - i,
    {
        proof {
            assert(part@.take(i + 1).drop_last() =~= part@.take(i as int));
            assert(is_digit(part@[i as int]));
            lemma_field(part@.take(i + 1));
        }
        n = n * 10 + (part[i] as u64 - 48);
        i = i + 1;
    }
    assert(part@.take(i as int) =~= part@);
    Some(n)
}

/// Days from the start of a year to the start of a month.
fn month_start(year: u64, month: u64) -> (n: u64)
    requires
        1 <= month <= 12,
    ensures
        n == days_before_month(year as int, month as int),
        n <= 366,
{
    let mut n: u64 = 0;
    let mut m: u64 = 1;
    while m < month
        invariant
            1 <= m <= month <= 12,
            n == days_before_month(year as int, m as int),
            n <= 31 * (m - 1),
        decreases month - m,
    {
        n = n + month_days(year, m);
        m = m + 1;
    }
    proof {
        lemma_months(year as int);
        lemma_month_order(year as int, month as int, 13);
    }
    n
}

/// The seconds of a date and time of the years from 0 to 9999.
fn epoch_of(year: u64, month: u64, day: u64, hour: u64, minute: u64, second: u64) -> (r: i64)
    requires
        year <= 9999,
        is_valid(
            (Civil {
                year: year as i64,
                month: month,
                day: day,
                hour: hour,
                minute: minute,
                second: second,
            }),
        ),
    ensures
        r == seconds(
            (Civil {
                year: year as i64,
                month: month,
                day: day,
                hour: hour,
                minute: minute,
                second: second,
            }),
        ),
{
    let days: u64 = year_days(year) + month_start(year, month) + day - 1;
    (days as i64 - EPOCH_DAY as i64) * DAY + (hour * 3600 + minute * 60 + second) as i64
}

/// The hour, minute and second behind a date.
fn parse_time(v: &[char]) -> (r: Option<(u64, u64, u64)>)
    ensures
        match r {
            Some((h, m, s)) => has_time(v@) && h == field(v@, 11, 13) && m == field(v@, 14, 16) && s
                == field(v@, 17, 19),
            None => !has_time(v@),
        },
{
    let n: usize = v.len();
    if n != 19 && !(n == 20 && v[19] == 'Z') {
        return None;
    }
    if v[10] != 'T' || v[13] != ':' || v[16] != ':' {
        return None;
    }
    match (number_at(v, 11, 13), number_at(v, 14, 16), number_at(v, 17, 19)) {
        (Some(h), Some(m), Some(s)) => Some((h, m, s)),
        _ => None,
    }
}

/// Read an ISO 8601 date, or date and time in UTC.
pub fn parse_iso(text: &str) -> (r: Result<(i64, bool), String>)
    ensures
        match r {
            Ok((secs, timed)) => parsed(text@) == Some((secs as int, timed)) && -62_167_219_200
                <= secs < 253_402_300_800,
            Err(e) => parsed(text@) is None && e@ == iso_error(text@),
        },
{
    let chars = chars_of(text);
    let v = chars.as_slice();
    let mut error = "not an ISO 8601 date or time: ".to_owned();
    error.append(text);
    if v.len() < 10 || v[4] != '-' || v[7] != '-' {
        return Err(error);
    }
    let (year, month, day) = match (number_at(v, 0, 4), number_at(v, 5, 7), number_at(v, 8, 10)) {
        (Some(y), Some(m), Some(d)) => (y, m, d),
        _ => {
            return Err(error);
        },
    };
    let timed = v.len() > 10;
    let (hour, minute, second) = if timed {
        match parse_time(v) {
            Some(t) => t,
            None => {
                return Err(error);
            },
        }
    } else {
        (0, 0, 0)
    };
    if month < 1 || month > 12 || day < 1 || day > month_days(year, month) || hour >= 24 || minute
        >= 60 || second >= 60 {
        return Err(error);
    }
    proof {
        lemma_parsed_bounds(text@);
    }
    Ok((epoch_of(year, month, day, hour, minute, second), timed))
}

// ---------------------------------------------------------------------------
// Laws
// ---------------------------------------------------------------------------

/// Four digits are determined by their number.
proof fn lemma_four_digits(a: Seq<int>, b: Seq<int>)
    requires
        a.len() == 4,
        b.len() == 4,
        forall|i: int| 0 <= i < 4 ==> 0 <= #[trigger] a[i] <= 9,
        forall|i: int| 0 <= i < 4 ==> 0 <= #[trigger] b[i] <= 9,
        a[0] * 1000 + a[1] * 100 + a[2] * 10 + a[3] == b[0] * 1000 + b[1] * 100 + b[2] * 10 + b[3],
    ensures
        a[0] == b[0],
        a[1] == b[1],
        a[2] == b[2],
        a[3] == b[3],
{
    assert(0 <= a[0] <= 9 && 0 <= a[1] <= 9 && 0 <= a[2] <= 9 && 0 <= a[3] <= 9);
    assert(0 <= b[0] <= 9 && 0 <= b[1] <= 9 && 0 <= b[2] <= 9 && 0 <= b[3] <= 9);
    assert(a[0] == b[0]);
    assert(a[1] == b[1]);
    assert(a[2] == b[2]);
}

/// The values of four digits; two digits stand for the last two.
spec fn four_values(s: Seq<char>) -> Seq<int> {
    if s.len() == 4 {
        seq![digit_value(s[0]), digit_value(s[1]), digit_value(s[2]), digit_value(s[3])]
    } else {
        seq![0, 0, digit_value(s[0]), digit_value(s[1])]
    }
}

/// Rows of two or four digits are determined by their number.
pub proof fn lemma_field_injective(p: Seq<char>, s: Seq<char>)
    requires
        all_digits(p),
        all_digits(s),
        p.len() == s.len(),
        s.len() == 2 || s.len() == 4,
        numeral_value(p) == numeral_value(s),
    ensures
        p == s,
{
    lemma_field(s);
    lemma_field(p);
    assert(is_digit(p[0]) && is_digit(p[1]) && is_digit(s[0]) && is_digit(s[1]));
    if s.len() == 4 {
        assert(is_digit(p[2]) && is_digit(p[3]) && is_digit(s[2]) && is_digit(s[3]));
    }
    lemma_four_digits(four_values(p), four_values(s));
    assert(p =~= s);
}

/// A row of two or four digits is the padded numeral of its number.
proof fn lemma_padded_field(s: Seq<char>)
    requires
        all_digits(s),
        s.len() == 2 || s.len() == 4,
    ensures
        padded(numeral_value(s) as nat, s.len()) == s,
{
    lemma_field(s);
    lemma_padded(numeral_value(s) as nat, s.len());
    lemma_field_injective(padded(numeral_value(s) as nat, s.len()), s);
}

/// A date and time that is read and written again keeps its digits: a written
/// `YYYY-MM-DDTHH:MM:SS` becomes `YYYYMMDDTHHMMSSZ`.
pub proof fn law_stamp_keeps_the_written_time(s: Seq<char>)
    requires
        parsed(s) is Some,
    ensures
        date_stamp((parsed(s)->0).0) == s.subrange(0, 4) + s.subrange(5, 7) + s.subrange(8, 10),
        (parsed(s)->0).1 ==> time_stamp((parsed(s)->0).0) == s.subrange(0, 4) + s.subrange(5, 7)
            + s.subrange(8, 10) + seq!['T'] + s.subrange(11, 13) + s.subrange(14, 16) + s.subrange(
            17,
            19,
        ) + seq!['Z'],
{
    lemma_parsed_bounds(s);
    lemma_field(s.subrange(0, 4));
    lemma_field(s.subrange(5, 7));
    lemma_field(s.subrange(8, 10));
    lemma_padded_field(s.subrange(0, 4));
    lemma_padded_field(s.subrange(5, 7));
    lemma_padded_field(s.subrange(8, 10));
    if s.len() > 10 {
        lemma_field(s.subrange(11, 13));
        lemma_field(s.subrange(14, 16));
        lemma_field(s.subrange(17, 19));
        lemma_padded_field(s.subrange(11, 13));
        lemma_padded_field(s.subrange(14, 16));
        lemma_padded_field(s.subrange(17, 19));
        let whole = time_stamp((parsed(s)->0).0);
        assert(whole =~= s.subrange(0, 4) + s.subrange(5, 7) + s.subrange(8, 10) + seq!['T']
            + s.subrange(11, 13) + s.subrange(14, 16) + s.subrange(17, 19) + seq!['Z']);
    }
}

/// Writing a date and time with separators and reading it gives it back.
pub proof fn law_parse_reads_what_is_written(c: Civil)
    requires
        is_valid(c),
        0 <= c.year <= 9999,
    ensures
        parsed(iso_text(c)) == Some((seconds(c), true)),
{
    lemma_padded(c.year as nat, 4);
    lemma_padded(c.month as nat, 2);
    lemma_padded(c.day as nat, 2);
    lemma_padded(c.hour as nat, 2);
    lemma_padded(c.minute as nat, 2);
    lemma_padded(c.second as nat, 2);
    let s = iso_text(c);
    assert(s.subrange(0, 4) =~= padded(c.year as nat, 4));
    assert(s.subrange(5, 7) =~= padded(c.month as nat, 2));
    assert(s.subrange(8, 10) =~= padded(c.day as nat, 2));
    assert(s.subrange(11, 13) =~= padded(c.hour as nat, 2));
    assert(s.subrange(14, 16) =~= padded(c.minute as nat, 2));
    assert(s.subrange(17, 19) =~= padded(c.second as nat, 2));
    assert(written(s) == c);
}

/// A date and time with separators: `YYYY-MM-DDTHH:MM:SSZ`.
pub open spec fn iso_text(c: Civil) -> Seq<char> {
    padded(c.year as nat, 4) + seq!['-'] + padded(c.month as nat, 2) + seq!['-'] + padded(
        c.day as nat,
        2,
    ) + seq!['T'] + padded(c.hour as nat, 2) + seq![':'] + padded(c.minute as nat, 2) + seq![':']
        + padded(c.second as nat, 2) + seq!['Z']
}

// ---------------------------------------------------------------------------
// The clock
// ---------------------------------------------------------------------------

/// `SystemTime::elapsed` on `UNIX_EPOCH`: the whole seconds since the start of
/// 1970 by the system clock; nothing if the clock is set to a time before that.
/// Nothing is claimed of what the clock says.
#[verifier::external_body]
fn elapsed_seconds() -> (r: Option<u64>) {
    match std::time::UNIX_EPOCH.elapsed() {
        Ok(d) => Some(d.as_secs()),
        Err(_) => None,
    }
}

/// Seconds since the start of 1970 by the system clock; zero if the clock is set
/// to a time before that.
pub fn now_epoch() -> (r: i64)
    ensures
        r >= 0,
{
    epoch_of_reading(elapsed_seconds())
}

/// The time that a reading of the clock stands for, in seconds since the start
/// of 1970: the reading itself, as far as an `i64` reaches, and zero without one.
pub open spec fn reading_seconds(reading: Option<u64>) -> int {
    match reading {
        Some(n) => if n <= i64::MAX {
            n as int
        } else {
            i64::MAX as int
        },
        None => 0,
    }
}

/// The time that a reading of the clock stands for.
pub fn epoch_of_reading(reading: Option<u64>) -> (r: i64)
    ensures
        r == reading_seconds(reading),
{
    match reading {
        Some(n) => if n <= i64::MAX as u64 {
            n as i64
        } else {
            i64::MAX
        },
        None => 0,
    }
}

} // verus!
