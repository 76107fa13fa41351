//! ASCII letters, digits and decimal numerals.

use crate::text::{push_chars, same};
use vstd::prelude::*;

verus! {

/// Whether a character is an ASCII digit.
pub open spec fn is_digit(c: char) -> bool {
    '0' <= c <= '9'
}

/// Whether every character is an ASCII digit.
pub open spec fn all_digits(s: Seq<char>) -> bool {
    forall|i: int| 0 <= i < s.len() ==> is_digit(#[trigger] s[i])
}

/// The value of an ASCII digit.
pub open spec fn digit_value(c: char) -> int {
    c as int - '0' as int
}

/// The ASCII digit with a value below ten.
pub open spec fn digit_char(n: int) -> char {
    (n + '0' as int) as char
}

/// The digits among the characters, in order.
pub open spec fn digits(s: Seq<char>) -> Seq<char> {
    s.filter(|c: char| is_digit(c))
}

/// An ASCII letter in upper case; any other character unchanged.
pub open spec fn upper_char(c: char) -> char {
    if 'a' <= c <= 'z' {
        (c as int - 32) as char
    } else {
        c
    }
}

/// The text with its ASCII letters in upper case.
pub open spec fn upper(s: Seq<char>) -> Seq<char> {
    Seq::new(s.len(), |i: int| upper_char(s[i]))
}

/// Whether two texts differ at most in the case of ASCII letters.
pub open spec fn same_ignoring_case(a: Seq<char>, b: Seq<char>) -> bool {
    upper(a) == upper(b)
}

/// The decimal numeral of a number, without leading zeros.
pub open spec fn decimal(n: nat) -> Seq<char>
    decreases n,
{
    if n < 10 {
        seq![digit_char(n as int)]
    } else {
        decimal(n / 10).push(digit_char((n % 10) as int))
    }
}

/// The number that a row of digits stands for.
pub open spec fn numeral_value(s: Seq<char>) -> int
    decreases s.len(),
{
    if s.len() == 0 {
        0
    } else {
        numeral_value(s.drop_last()) * 10 + digit_value(s.last())
    }
}

/// `count` zeros.
pub open spec fn zeros(count: nat) -> Seq<char> {
    Seq::new(count, |i: int| '0')
}

/// The decimal numeral with zeros in front up to the given width.
pub open spec fn padded(n: nat, width: nat) -> Seq<char> {
    let d = decimal(n);
    if d.len() < width {
        zeros((width - d.len()) as nat) + d
    } else {
        d
    }
}

/// Decimal numerals consist of digits, are never empty, and stand for their
/// number.
pub proof fn lemma_decimal(n: nat)
    ensures
        decimal(n).len() > 0,
        all_digits(decimal(n)),
        numeral_value(decimal(n)) == n,
    decreases n,
{
    if n < 10 {
        let s = decimal(n);
        assert(s.drop_last() =~= Seq::<char>::empty());
        assert(numeral_value(s.drop_last()) == 0);
    } else {
        lemma_decimal(n / 10);
        let s = decimal(n);
        assert(s.drop_last() =~= decimal(n / 10));
    }
}

/// Different numbers have different numerals.
pub proof fn lemma_decimal_injective(a: nat, b: nat)
    requires
        decimal(a) == decimal(b),
    ensures
        a == b,
{
    lemma_decimal(a);
    lemma_decimal(b);
}

/// Leading zeros do not change what a numeral stands for.
pub proof fn lemma_zeros_value(count: nat, s: Seq<char>)
    ensures
        numeral_value(zeros(count) + s) == numeral_value(s),
    decreases count + s.len(),
{
    let t = zeros(count) + s;
    if s.len() > 0 {
        assert(t.drop_last() =~= zeros(count) + s.drop_last());
        assert(t.last() == s.last());
        lemma_zeros_value(count, s.drop_last());
    } else if count > 0 {
        let less = (count - 1) as nat;
        assert(t.drop_last() =~= zeros(less) + s);
        assert(t.last() == '0');
        lemma_zeros_value(less, s);
    } else {
        assert(t =~= s);
    }
}

/// A numeral below ten to the power of two, four: its width.
pub proof fn lemma_padded(n: nat, width: nat)
    ensures
        all_digits(padded(n, width)),
        padded(n, width).len() >= width,
        numeral_value(padded(n, width)) == n,
        width == 2 && n < 100 ==> padded(n, width).len() == 2,
        width == 4 && n < 10000 ==> padded(n, width).len() == 4,
{
    lemma_decimal(n);
    let d = decimal(n);
    if d.len() < width {
        let z = zeros((width - d.len()) as nat);
        assert forall|i: int| 0 <= i < padded(n, width).len() implies is_digit(
            #[trigger] padded(n, width)[i],
        ) by {
            if i >= z.len() {
                assert(padded(n, width)[i] == d[i - z.len()]);
            }
        }
        lemma_zeros_value((width - d.len()) as nat, d);
    }
    reveal_with_fuel(decimal, 5);
}

/// Whether a character is an ASCII digit.
pub fn digit(c: char) -> (r: bool)
    ensures
        r == is_digit(c),
{
    '0' <= c && c <= '9'
}

/// Whether every character of the slice is an ASCII digit.
pub fn every_digit(s: &[char]) -> (r: bool)
    ensures
        r == all_digits(s@),
{
    let mut i: usize = 0;
    while i < s.len()
        invariant
            i <= s@.len(),
            forall|j: int| 0 <= j < i ==> is_digit(#[trigger] s@[j]),
        decreases s@.len() - i,
    {
        if !digit(s[i]) {
            return false;
        }
        i = i + 1;
    }
    true
}

/// The digits among the characters of a slice.
pub fn digits_of(s: &[char]) -> (r: Vec<char>)
    ensures
        r@ == digits(s@),
{
    let mut out: Vec<char> = Vec::new();
    let mut i: usize = 0;
    let ghost p = |c: char| is_digit(c);
    proof {
        reveal(Seq::filter);
        assert(s@.take(0) =~= Seq::<char>::empty());
        assert(s@.take(0).filter(p) =~= Seq::<char>::empty());
    }
    while i < s.len()
        invariant
            i <= s@.len(),
            p == (|c: char| is_digit(c)),
            out@ == s@.take(i as int).filter(p),
        decreases s@.len() - i,
    {
        if digit(s[i]) {
            out.push(s[i]);
        }
        i = i + 1;
        proof {
            reveal(Seq::filter);
            assert(s@.take(i as int).drop_last() =~= s@.take(i - 1));
            assert(s@.take(i as int).last() == s@[i - 1]);
        }
    }
    assert(s@.take(i as int) =~= s@);
    out
}

/// The upper-case form of an ASCII letter; any other character unchanged.
pub fn to_upper(c: char) -> (r: char)
    ensures
        r == upper_char(c),
{
    if 'a' <= c && c <= 'z' {
        (c as u8 - 32) as char
    } else {
        c
    }
}

/// The slice with its ASCII letters in upper case.
pub fn uppercase(s: &[char]) -> (r: Vec<char>)
    ensures
        r@ == upper(s@),
{
    let mut out: Vec<char> = Vec::new();
    let mut i: usize = 0;
    while i < s.len()
        invariant
            i <= s@.len(),
            out@.len() == i,
            forall|j: int| 0 <= j < i ==> out@[j] == upper_char(s@[j]),
        decreases s@.len() - i,
    {
        out.push(to_upper(s[i]));
        i = i + 1;
    }
    assert(out@ =~= upper(s@));
    out
}

/// Whether two slices differ at most in the case of ASCII letters.
pub fn eq_ignore_case(a: &[char], b: &[char]) -> (r: bool)
    ensures
        r == same_ignoring_case(a@, b@),
{
    let x = uppercase(a);
    let y = uppercase(b);
    same(&x, &y)
}

/// The digit with a value below ten.
fn to_digit(n: u64) -> (c: char)
    requires
        n < 10,
    ensures
        c == digit_char(n as int),
{
    (n as u8 + 48) as char
}

/// The decimal numeral of a number.
pub fn decimal_of(n: u64) -> (r: Vec<char>)
    ensures
        r@ == decimal(n as nat),
    decreases n,
{
    if n < 10 {
        let mut out: Vec<char> = Vec::new();
        out.push(to_digit(n));
        out
    } else {
        let mut out = decimal_of(n / 10);
        out.push(to_digit(n % 10));
        out
    }
}

/// Append the decimal numeral of a number.
pub fn push_decimal(out: &mut String, n: u64)
    ensures
        final(out)@ == old(out)@ + decimal(n as nat),
{
    let d = decimal_of(n);
    push_chars(out, d.as_slice());
}

/// Append the decimal numeral of a number with zeros in front up to `width`.
pub fn push_padded(out: &mut String, n: u64, width: usize)
    ensures
        final(out)@ == old(out)@ + padded(n as nat, width as nat),
{
    let d = decimal_of(n);
    let ghost start = out@;
    let mut i: usize = d.len();
    let ghost len = d@.len();
    proof {
        assert(start + zeros(0) =~= start);
    }
    while i < width
        invariant
            len <= i,
            i <= width || i == len,
            out@ == start + zeros((i - len) as nat),
        decreases width - i,
    {
        out.push('0');
        i = i + 1;
        proof {
            assert(zeros((i - 1 - len) as nat).push('0') =~= zeros((i - len) as nat));
        }
    }
    push_chars(out, d.as_slice());
    proof {
        if len < width {
            assert(start + zeros((width - len) as nat) + d@ =~= start + (zeros(
                (width - len) as nat,
            ) + d@));
        } else {
            assert(start + zeros(0) + d@ =~= start + d@);
        }
    }
}

} // verus!
