//! Which moments dates and times stand for.

use crate::ascii::{all_digits, is_digit, lemma_padded, padded};
use crate::datetime::{
    date_stamp, day_number, days_before_month, days_before_year, is_valid, lemma_civil_at,
    lemma_field, lemma_field_injective, lemma_months, lemma_parsed_bounds, lemma_year_len,
    month_len, parsed, reading_seconds, seconds, time_stamp, written, Civil,
};
use vstd::prelude::*;

verus! {

// ---------------------------------------------------------------------------
// The calendar
// ---------------------------------------------------------------------------

/// The days of a month. February has one more in every fourth year, but for the turn of
/// a century, unless four hundred divides it.
pub open spec fn days_in(year: int, month: int) -> int {
    if month == 4 || month == 6 || month == 9 || month == 11 {
        30
    } else if month != 2 {
        31
    } else if year % 400 == 0 {
        29
    } else if year % 100 == 0 {
        28
    } else if year % 4 == 0 {
        29
    } else {
        28
    }
}

/// The days are counted from the first day of 1970. Every day is one after the day before
/// it, within a month, from a month to the next, and from a year to the next.
pub proof fn law_days_are_counted(year: int, month: int, day: int)
    requires
        1 <= month <= 12,
    ensures
        day_number(1970, 1, 1) == 0,
        day_number(year, month, day + 1) == day_number(year, month, day) + 1,
        month < 12 ==> day_number(year, month + 1, 1) == day_number(
            year,
            month,
            days_in(year, month),
        ) + 1,
        day_number(year + 1, 1, 1) == day_number(year, 12, 31) + 1,
{
    lemma_months(year);
    lemma_year_len(year);
    assert(year % 400 == 0 ==> year % 100 == 0);
    assert(year % 100 == 0 ==> year % 4 == 0);
    assert(days_before_month(year, month + 1) == days_before_month(year, month) + month_len(
        year,
        month,
    ));
    assert(days_before_month(year, 12int + 1) == days_before_month(year, 12) + month_len(year, 12));
    assert(days_before_month(1970, 1) == 0);
    assert(days_before_month(year + 1, 1) == 0);
    assert(days_before_year(1970) == 719_528);
}

/// A day has twenty-four hours of sixty minutes, a minute sixty seconds.
pub proof fn law_seconds_are_counted(c: Civil)
    ensures
        seconds(c) == ((day_number(c.year as int, c.month as int, c.day as int) * 24 + c.hour) * 60
            + c.minute) * 60 + c.second,
        is_valid(c) <==> 1 <= c.month <= 12 && 1 <= c.day <= days_in(c.year as int, c.month as int)
            && c.hour <= 23 && c.minute <= 59 && c.second <= 59,
{
    let year = c.year as int;
    assert(year % 400 == 0 ==> year % 100 == 0);
    assert(year % 100 == 0 ==> year % 4 == 0);
}

// ---------------------------------------------------------------------------
// Writing
// ---------------------------------------------------------------------------

/// The digit for a number below ten.
pub open spec fn figure(n: int) -> char {
    (48 + n) as char
}

/// A number in two digits.
pub open spec fn two(n: int) -> Seq<char> {
    seq![figure(n / 10), figure(n % 10)]
}

/// A number in four digits.
pub open spec fn four(n: int) -> Seq<char> {
    seq![figure(n / 1000), figure(n / 100 % 10), figure(n / 10 % 10), figure(n % 10)]
}

proof fn lemma_two(n: nat)
    requires
        n < 100,
    ensures
        padded(n, 2) == two(n as int),
        all_digits(two(n as int)),
{
    let t = two(n as int);
    assert(is_digit(t[0]) && is_digit(t[1]));
    assert(all_digits(t));
    lemma_field(t);
    lemma_padded(n, 2);
    assert(crate::ascii::digit_value(t[0]) == n as int / 10);
    assert(crate::ascii::digit_value(t[1]) == n as int % 10);
    lemma_field_injective(padded(n, 2), t);
}

proof fn lemma_four(n: nat)
    requires
        n < 10_000,
    ensures
        padded(n, 4) == four(n as int),
        all_digits(four(n as int)),
{
    let t = four(n as int);
    assert(is_digit(t[0]) && is_digit(t[1]) && is_digit(t[2]) && is_digit(t[3]));
    assert(all_digits(t));
    lemma_field(t);
    lemma_padded(n, 4);
    assert(crate::ascii::digit_value(t[0]) == n as int / 1000);
    assert(crate::ascii::digit_value(t[1]) == n as int / 100 % 10);
    assert(crate::ascii::digit_value(t[2]) == n as int / 10 % 10);
    assert(crate::ascii::digit_value(t[3]) == n as int % 10);
    let tens = n as int / 10;
    let hundreds = n as int / 100;
    assert(n as int == tens * 10 + n as int % 10);
    assert(tens == hundreds * 10 + tens % 10);
    assert(hundreds == n as int / 1000 * 10 + hundreds % 10);
    lemma_field_injective(padded(n, 4), t);
}

/// A moment is written as its date, by year, month and day, and its time, by hour, minute
/// and second, with a mark between and one behind them. Its date alone is written the same
/// way.
pub proof fn law_moments_are_written(c: Civil)
    requires
        is_valid(c),
        0 <= c.year <= 9999,
    ensures
        ({
            let date = four(c.year as int) + two(c.month as int) + two(c.day as int);
            let time = two(c.hour as int) + two(c.minute as int) + two(c.second as int);
            &&& date_stamp(seconds(c)) == date
            &&& time_stamp(seconds(c)) == date + seq!['T'] + time + seq!['Z']
        }),
{
    lemma_civil_at(c);
    lemma_four(c.year as nat);
    lemma_two(c.month as nat);
    lemma_two(c.day as nat);
    lemma_two(c.hour as nat);
    lemma_two(c.minute as nat);
    lemma_two(c.second as nat);
}

// ---------------------------------------------------------------------------
// Reading
// ---------------------------------------------------------------------------

/// A date as the model writes it.
pub open spec fn date_form(c: Civil) -> Seq<char> {
    four(c.year as int) + seq!['-'] + two(c.month as int) + seq!['-'] + two(c.day as int)
}

/// A date and a time as the model writes them.
pub open spec fn time_form(c: Civil) -> Seq<char> {
    date_form(c) + seq!['T'] + two(c.hour as int) + seq![':'] + two(c.minute as int) + seq![':']
        + two(c.second as int)
}

/// The start of the day of a moment.
pub open spec fn midnight(c: Civil) -> Civil {
    Civil { hour: 0, minute: 0, second: 0, ..c }
}

/// A date stands for the start of its day, a date and a time for its moment in UTC,
/// whether it is marked as such or not.
pub proof fn law_dates_and_times_are_read(c: Civil)
    requires
        is_valid(c),
        0 <= c.year <= 9999,
    ensures
        parsed(date_form(c)) == Some((seconds(midnight(c)), false)),
        parsed(time_form(c)) == Some((seconds(c), true)),
        parsed(time_form(c) + seq!['Z']) == Some((seconds(c), true)),
{
    lemma_four(c.year as nat);
    lemma_two(c.month as nat);
    lemma_two(c.day as nat);
    lemma_two(c.hour as nat);
    lemma_two(c.minute as nat);
    lemma_two(c.second as nat);
    lemma_padded(c.year as nat, 4);
    lemma_padded(c.month as nat, 2);
    lemma_padded(c.day as nat, 2);
    lemma_padded(c.hour as nat, 2);
    lemma_padded(c.minute as nat, 2);
    lemma_padded(c.second as nat, 2);
    let d = date_form(c);
    assert(d.subrange(0, 4) =~= four(c.year as int));
    assert(d.subrange(5, 7) =~= two(c.month as int));
    assert(d.subrange(8, 10) =~= two(c.day as int));
    assert(written(d) == midnight(c));
    let t = time_form(c);
    assert(t.subrange(0, 4) =~= four(c.year as int));
    assert(t.subrange(5, 7) =~= two(c.month as int));
    assert(t.subrange(8, 10) =~= two(c.day as int));
    assert(t.subrange(11, 13) =~= two(c.hour as int));
    assert(t.subrange(14, 16) =~= two(c.minute as int));
    assert(t.subrange(17, 19) =~= two(c.second as int));
    assert(written(t) == c);
    let u = t + seq!['Z'];
    assert(u.subrange(0, 4) =~= four(c.year as int));
    assert(u.subrange(5, 7) =~= two(c.month as int));
    assert(u.subrange(8, 10) =~= two(c.day as int));
    assert(u.subrange(11, 13) =~= two(c.hour as int));
    assert(u.subrange(14, 16) =~= two(c.minute as int));
    assert(u.subrange(17, 19) =~= two(c.second as int));
    assert(written(u) == c);
}

proof fn lemma_is_two(s: Seq<char>)
    requires
        all_digits(s),
        s.len() == 2,
    ensures
        s == two(crate::ascii::numeral_value(s)),
        0 <= crate::ascii::numeral_value(s) < 100,
{
    lemma_field(s);
    let n = crate::ascii::numeral_value(s) as nat;
    lemma_two(n);
    lemma_padded(n, 2);
    lemma_field_injective(padded(n, 2), s);
}

proof fn lemma_is_four(s: Seq<char>)
    requires
        all_digits(s),
        s.len() == 4,
    ensures
        s == four(crate::ascii::numeral_value(s)),
        0 <= crate::ascii::numeral_value(s) < 10_000,
{
    lemma_field(s);
    let n = crate::ascii::numeral_value(s) as nat;
    lemma_four(n);
    lemma_padded(n, 4);
    lemma_field_injective(padded(n, 4), s);
}

/// Nothing else is read: a text that can be read is the date, or the date and time, of a
/// day and a moment that there are.
pub proof fn law_nothing_else_is_a_date(s: Seq<char>)
    ensures
        parsed(s) is Some ==> exists|c: Civil| #[trigger]
            is_valid(c) && 0 <= c.year <= 9999 && (s == date_form(c) || s == time_form(c) || s
                == time_form(c) + seq!['Z']),
{
    if parsed(s) is Some {
        lemma_parsed_bounds(s);
        let c = written(s);
        assert(is_valid(c) && 0 <= c.year <= 9999);
        let y = s.subrange(0, 4);
        let m = s.subrange(5, 7);
        let d = s.subrange(8, 10);
        lemma_is_four(y);
        lemma_is_two(m);
        lemma_is_two(d);
        let date = y + seq!['-'] + m + seq!['-'] + d;
        assert(date =~= date_form(c));
        assert(s.take(10) =~= date);
        if s.len() == 10 {
            assert(s =~= date);
        } else {
            let h = s.subrange(11, 13);
            let n = s.subrange(14, 16);
            let k = s.subrange(17, 19);
            lemma_is_two(h);
            lemma_is_two(n);
            lemma_is_two(k);
            let whole = date + seq!['T'] + h + seq![':'] + n + seq![':'] + k;
            assert(s.take(19) =~= whole) by {
                assert forall|i: int| 0 <= i < 19 implies s[i] == whole[i] by {
                    if i < 10 {
                        assert(s[i] == s.take(10)[i]);
                    }
                }
            }
            assert(whole =~= time_form(c));
            if s.len() == 19 {
                assert(s =~= s.take(19));
            } else {
                assert(s =~= s.take(19) + seq!['Z']);
            }
        }
    }
}

/// The clock counts from the start of 1970; before that it says nothing, and that counts
/// as the start.
pub proof fn law_clock_is_read(n: u64)
    ensures
        n < 0x8000_0000_0000_0000 ==> reading_seconds(Some(n)) == n,
        n >= 0x8000_0000_0000_0000 ==> reading_seconds(Some(n)) == 0x7fff_ffff_ffff_ffff,
        reading_seconds(None) == 0,
{
}

} // verus!
