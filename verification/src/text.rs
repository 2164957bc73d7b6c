//! Decimal text for dates: "YYYY-MM-DD" and "YYYY-MM-DD hh:mm:ss".

use vstd::prelude::*;
use vstd::string::StringExecFns;

verus! {

/// The character of decimal digit `d`.
pub open spec fn digit_char(d: int) -> char {
    if d == 0 {
        '0'
    } else if d == 1 {
        '1'
    } else if d == 2 {
        '2'
    } else if d == 3 {
        '3'
    } else if d == 4 {
        '4'
    } else if d == 5 {
        '5'
    } else if d == 6 {
        '6'
    } else if d == 7 {
        '7'
    } else if d == 8 {
        '8'
    } else {
        '9'
    }
}

/// Decimal digits of `n`, without leading zeros.
pub open spec fn decimal(n: nat) -> Seq<char>
    decreases n,
{
    if n < 10 {
        seq![digit_char(n as int)]
    } else {
        decimal(n / 10).push(digit_char((n % 10) as int))
    }
}

/// Decimal digits of `n`, with a leading zero below 10.
pub open spec fn two_digits(n: nat) -> Seq<char> {
    if n > 9 {
        decimal(n)
    } else {
        seq!['0'] + decimal(n)
    }
}

/// "YYYY-MM-DD".
pub open spec fn date_text(year: nat, month: nat, day: nat) -> Seq<char> {
    decimal(year) + seq!['-'] + two_digits(month) + seq!['-'] + two_digits(day)
}

/// "YYYY-MM-DD hh:mm:ss".
pub open spec fn full_text(
    year: nat,
    month: nat,
    day: nat,
    hour: nat,
    minute: nat,
    second: nat,
) -> Seq<char> {
    date_text(year, month, day) + seq![' '] + two_digits(hour) + seq![':'] + two_digits(minute)
        + seq![':'] + two_digits(second)
}

fn digit_str(d: u64) -> (r: &'static str)
    requires
        d < 10,
    ensures
        r@ == seq![digit_char(d as int)],
{
    proof {
        reveal_strlit("0");
        reveal_strlit("1");
        reveal_strlit("2");
        reveal_strlit("3");
        reveal_strlit("4");
        reveal_strlit("5");
        reveal_strlit("6");
        reveal_strlit("7");
        reveal_strlit("8");
        reveal_strlit("9");
    }
    match d {
        0 => "0",
        1 => "1",
        2 => "2",
        3 => "3",
        4 => "4",
        5 => "5",
        6 => "6",
        7 => "7",
        8 => "8",
        _ => "9",
    }
}

/// Appends the decimal digits of `n`.
pub(crate) fn push_decimal(s: &mut String, n: u64)
    ensures
        final(s)@ == old(s)@ + decimal(n as nat),
    decreases n,
{
    if n >= 10 {
        push_decimal(s, n / 10);
    }
    s.append(digit_str(n % 10));
    proof {
        if n >= 10 {
            assert(decimal(n as nat) == decimal((n / 10) as nat).push(digit_char((n % 10) as int)));
        }
    }
}

pub(crate) fn push_text(s: &mut String, text: &str)
    ensures
        final(s)@ == old(s)@ + text@,
{
    s.append(text);
}

/// Two-digit text of a number, zero-padded below 10.
pub(crate) fn fmt_int(i: i64) -> (r: String)
    requires
        i >= 0,
    ensures
        r@ == two_digits(i as nat),
{
    let mut s = String::new();
    if i <= 9 {
        proof {
            reveal_strlit("0");
        }
        push_text(&mut s, "0");
    }
    push_decimal(&mut s, i as u64);
    s
}

} // verus!
