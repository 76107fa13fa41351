//! That the sort keys of events follow time.

use crate::ascii::{
    all_digits, digit_value, digits, is_digit, lemma_padded, numeral_value, padded, zeros,
};
use crate::datetime::{
    date_stamp, date_text, earlier, is_valid, law_seconds_follow_the_calendar, lemma_civil_at,
    seconds, time_stamp, time_text, Civil,
};
use crate::ical::sort_key_of;
use crate::order::{lemma_less_irreflexive, lemma_less_transitive, less};
use vstd::prelude::*;

verus! {

/// Of two texts of one length that are continued by a character each, the order
/// is decided by the texts, and by the characters where the texts are equal.
proof fn lemma_less_push(a: Seq<char>, b: Seq<char>, x: char, y: char)
    requires
        a.len() == b.len(),
    ensures
        less(a.push(x), b.push(y)) == (less(a, b) || (a == b && x < y)),
    decreases a.len(),
{
    let p = a.push(x);
    let q = b.push(y);
    if a.len() == 0 {
        assert(a =~= b);
        assert(p.drop_first() =~= Seq::<char>::empty());
        assert(q.drop_first() =~= Seq::<char>::empty());
        reveal_with_fuel(less, 2);
    } else {
        assert(p[0] == a[0] && q[0] == b[0]);
        assert(p.drop_first() =~= a.drop_first().push(x));
        assert(q.drop_first() =~= b.drop_first().push(y));
        lemma_less_push(a.drop_first(), b.drop_first(), x, y);
        if a[0] == b[0] {
            if a.drop_first() == b.drop_first() {
                assert(a =~= seq![a[0]] + a.drop_first());
                assert(b =~= seq![b[0]] + b.drop_first());
            }
        }
    }
}

/// Numerals of one length are ordered as their numbers are.
proof fn lemma_numerals(a: Seq<char>, b: Seq<char>)
    requires
        a.len() == b.len(),
        all_digits(a),
        all_digits(b),
    ensures
        numeral_value(a) < numeral_value(b) ==> less(a, b),
        numeral_value(a) == numeral_value(b) ==> a == b,
    decreases a.len(),
{
    if a.len() > 0 {
        let p = a.drop_last();
        let q = b.drop_last();
        lemma_numerals(p, q);
        assert(a =~= p.push(a.last()));
        assert(b =~= q.push(b.last()));
        lemma_less_push(p, q, a.last(), b.last());
        assert(is_digit(a.last()) && is_digit(b.last()));
        assert(0 <= digit_value(a.last()) <= 9);
        assert(0 <= digit_value(b.last()) <= 9);
        lemma_numerals(q, p);
    } else {
        assert(a =~= b);
    }
}

/// Two more digits multiply a number by a hundred and add theirs.
proof fn lemma_two_more(a: Seq<char>, b: Seq<char>)
    requires
        b.len() == 2,
        all_digits(b),
    ensures
        numeral_value(a + b) == numeral_value(a) * 100 + numeral_value(b),
{
    let s = a + b;
    assert(s.drop_last().drop_last() =~= a);
    assert(s.last() == b[1] && s.drop_last().last() == b[0]);
    assert(b.drop_last().drop_last() =~= Seq::<char>::empty());
    reveal_with_fuel(numeral_value, 3);
}

/// A row of digits is its own digits.
pub proof fn lemma_all_kept(s: Seq<char>)
    requires
        all_digits(s),
    ensures
        digits(s) == s,
    decreases s.len(),
{
    reveal(Seq::filter);
    if s.len() > 0 {
        lemma_all_kept(s.drop_last());
        assert(is_digit(s.last()));
        assert(s.drop_last().push(s.last()) =~= s);
    } else {
        assert(digits(s) =~= s);
    }
}

/// A character that is no digit has none.
proof fn lemma_none_kept(c: char)
    requires
        !is_digit(c),
    ensures
        digits(seq![c]) == Seq::<char>::empty(),
{
    reveal(Seq::filter);
    assert(seq![c].drop_last() =~= Seq::<char>::empty());
    reveal_with_fuel(Seq::filter, 2);
}

/// The digits of a date and a time, with and without the mark of UTC.
pub proof fn lemma_digits_of_stamp(date: Seq<char>, time: Seq<char>)
    requires
        all_digits(date),
        all_digits(time),
    ensures
        digits(date + seq!['T'] + time) == date + time,
        digits(date + seq!['T'] + time + seq!['Z']) == date + time,
{
    let pred = |c: char| is_digit(c);
    Seq::filter_distributes_over_add(date + seq!['T'] + time, seq!['Z'], pred);
    Seq::filter_distributes_over_add(date + seq!['T'], time, pred);
    Seq::filter_distributes_over_add(date, seq!['T'], pred);
    lemma_all_kept(date);
    lemma_all_kept(time);
    lemma_none_kept('T');
    lemma_none_kept('Z');
    assert(date + Seq::<char>::empty() + time =~= date + time);
    assert(date + time + Seq::<char>::empty() =~= date + time);
}

/// The forms in which the start of an event is written.
pub enum Form {
    /// `YYYYMMDD`
    Date,
    /// `YYYYMMDDTHHMMSS`
    Local,
    /// `YYYYMMDDTHHMMSSZ`
    Utc,
}

/// A date and time as it is written.
pub open spec fn written_as(c: Civil, f: Form) -> Seq<char> {
    match f {
        Form::Date => date_text(c),
        Form::Local => date_text(c) + seq!['T'] + time_text(c),
        Form::Utc => date_text(c) + seq!['T'] + time_text(c) + seq!['Z'],
    }
}

/// The time that is meant: a date on its own counts as its midnight.
pub open spec fn meant(c: Civil, f: Form) -> Civil {
    match f {
        Form::Date => Civil { hour: 0, minute: 0, second: 0, ..c },
        _ => c,
    }
}

/// The sort key of a date and time as it is written.
pub open spec fn key(c: Civil, f: Form) -> Seq<char> {
    sort_key_of(Some(written_as(c, f)))
}

/// The fourteen digits of a date and a time.
pub open spec fn fourteen(c: Civil) -> Seq<char> {
    date_text(c) + time_text(c)
}

/// The number that the fourteen digits are.
spec fn number(c: Civil) -> int {
    ((((c.year * 100 + c.month) * 100 + c.day) * 100 + c.hour) * 100 + c.minute) * 100 + c.second
}

proof fn lemma_fourteen(c: Civil)
    requires
        is_valid(c),
        0 <= c.year <= 9999,
    ensures
        date_text(c).len() == 8,
        all_digits(date_text(c)),
        all_digits(time_text(c)),
        fourteen(c).len() == 14,
        all_digits(fourteen(c)),
        numeral_value(fourteen(c)) == number(c),
{
    lemma_padded(c.year as nat, 4);
    lemma_padded(c.month as nat, 2);
    lemma_padded(c.day as nat, 2);
    lemma_padded(c.hour as nat, 2);
    lemma_padded(c.minute as nat, 2);
    lemma_padded(c.second as nat, 2);
    assert(c.day < 100);
    let y = padded(c.year as nat, 4);
    let mo = padded(c.month as nat, 2);
    let d = padded(c.day as nat, 2);
    let h = padded(c.hour as nat, 2);
    let mi = padded(c.minute as nat, 2);
    let s = padded(c.second as nat, 2);
    lemma_two_more(y, mo);
    lemma_two_more(y + mo, d);
    lemma_two_more(y + mo + d, h);
    lemma_two_more(y + mo + d + h, mi);
    lemma_two_more(y + mo + d + h + mi, s);
    assert(fourteen(c) =~= y + mo + d + h + mi + s);
}

/// Two zeros are written for zero.
proof fn lemma_two_zeros()
    ensures
        padded(0, 2) == zeros(2),
{
    let z = zeros(2);
    assert(z.drop_last().drop_last() =~= Seq::<char>::empty());
    assert(digit_value('0') == 0);
    reveal_with_fuel(numeral_value, 3);
    lemma_padded(0, 2);
    lemma_numerals(padded(0, 2), z);
}

/// The sort key of eight digits has six zeros behind them.
proof fn lemma_key_of_eight(d: Seq<char>)
    requires
        d.len() == 8,
        all_digits(d),
    ensures
        sort_key_of(Some(d)) == d + zeros(2) + zeros(2) + zeros(2),
{
    lemma_all_kept(d);
    assert(zeros(6) =~= zeros(2) + zeros(2) + zeros(2));
    assert(d + zeros(6) =~= d + zeros(2) + zeros(2) + zeros(2));
}

/// The sort key of a stamp is its date and its time.
proof fn lemma_key_of_stamp(date: Seq<char>, time: Seq<char>)
    requires
        all_digits(date),
        all_digits(time),
        (date + time).len() == 14,
    ensures
        sort_key_of(Some(date + seq!['T'] + time)) == date + time,
        sort_key_of(Some(date + seq!['T'] + time + seq!['Z'])) == date + time,
{
    lemma_digits_of_stamp(date, time);
    assert(date + time + zeros(0) =~= date + time);
}

/// The digits of midnight.
proof fn lemma_midnight(c: Civil)
    ensures
        fourteen(meant(c, Form::Date)) == date_text(c) + zeros(2) + zeros(2) + zeros(2),
{
    lemma_two_zeros();
    let z = zeros(2);
    let m = meant(c, Form::Date);
    assert(time_text(m) == z + z + z);
    assert(date_text(m) == date_text(c));
    assert(date_text(c) + (z + z + z) =~= date_text(c) + z + z + z);
}

/// The sort key of a start is the date and the time that is meant.
proof fn lemma_key(c: Civil, f: Form)
    requires
        is_valid(c),
        0 <= c.year <= 9999,
    ensures
        key(c, f) == fourteen(meant(c, f)),
{
    lemma_fourteen(c);
    match f {
        Form::Date => {
            lemma_key_of_eight(date_text(c));
            lemma_midnight(c);
        },
        _ => {
            lemma_key_of_stamp(date_text(c), time_text(c));
        },
    }
}

/// Every sort key is a row of fourteen digits.
pub proof fn law_keys_are_fourteen_digits(start: Option<Seq<char>>)
    ensures
        sort_key_of(start).len() == 14,
        all_digits(sort_key_of(start)),
{
    if let Some(s) = start {
        let pred = |c: char| is_digit(c);
        assert forall|i: int| 0 <= i < digits(s).len() implies is_digit(#[trigger] digits(s)[i]) by {
            s.lemma_filter_pred(pred, i);
        }
    }
}

/// Sorting by key is sorting by time: of two starts, one has the smaller key if
/// and only if it is the earlier one, and the keys are the same if and only if the
/// times are. A date on its own counts as its midnight.
pub proof fn law_keys_follow_time(a: Civil, f: Form, b: Civil, g: Form)
    requires
        is_valid(a),
        is_valid(b),
        0 <= a.year <= 9999,
        0 <= b.year <= 9999,
    ensures
        less(key(a, f), key(b, g)) <==> seconds(meant(a, f)) < seconds(meant(b, g)),
        key(a, f) == key(b, g) <==> seconds(meant(a, f)) == seconds(meant(b, g)),
        !less(key(b, g), key(a, f)) <==> seconds(meant(a, f)) <= seconds(meant(b, g)),
{
    let x = meant(a, f);
    let y = meant(b, g);
    let p = fourteen(x);
    let q = fourteen(y);
    lemma_key(a, f);
    lemma_key(b, g);
    lemma_fourteen(x);
    lemma_fourteen(y);
    lemma_numerals(p, q);
    lemma_numerals(q, p);
    lemma_less_irreflexive(p);
    lemma_less_irreflexive(q);
    if less(p, q) && less(q, p) {
        lemma_less_transitive(p, q, p);
    }
    if earlier(x, y) {
        law_seconds_follow_the_calendar(x, y);
        lemma_earlier(x, y);
    } else if earlier(y, x) {
        law_seconds_follow_the_calendar(y, x);
        lemma_earlier(y, x);
    } else {
        assert(x == y);
    }
}

/// An earlier date and time has the smaller number.
proof fn lemma_earlier(a: Civil, b: Civil)
    requires
        is_valid(a),
        is_valid(b),
        earlier(a, b),
    ensures
        number(a) < number(b),
{
    assert(a.day < 100 && b.day < 100);
}

/// The stamps that are written are dates, and times in UTC.
pub proof fn lemma_stamps(c: Civil)
    requires
        is_valid(c),
    ensures
        date_stamp(seconds(c)) == written_as(c, Form::Date),
        time_stamp(seconds(c)) == written_as(c, Form::Utc),
{
    lemma_civil_at(c);
}

/// An all-day event comes before what happens at a time of its day; only its
/// midnight has the same key.
pub proof fn law_all_day_comes_first(c: Civil)
    requires
        is_valid(c),
        0 <= c.year <= 9999,
    ensures
        ({
            let day = sort_key_of(Some(date_stamp(seconds(c))));
            let time = sort_key_of(Some(time_stamp(seconds(c))));
            less(day, time) || (day == time && c.hour == 0 && c.minute == 0 && c.second == 0)
        }),
{
    lemma_stamps(c);
    law_keys_follow_time(c, Form::Date, c, Form::Utc);
}

/// Of two days, the earlier one has the smaller keys: whatever happens on it is
/// listed before an all-day event of the later one.
pub proof fn law_days_are_kept_apart(a: Civil, b: Civil)
    requires
        is_valid(a),
        is_valid(b),
        0 <= a.year <= 9999,
        0 <= b.year <= 9999,
        earlier(a, meant(b, Form::Date)),
    ensures
        less(
            sort_key_of(Some(time_stamp(seconds(a)))),
            sort_key_of(Some(date_stamp(seconds(b)))),
        ),
{
    lemma_stamps(a);
    lemma_stamps(b);
    law_seconds_follow_the_calendar(a, meant(b, Form::Date));
    law_keys_follow_time(a, Form::Utc, b, Form::Date);
}

} // verus!
