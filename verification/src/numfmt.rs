//! Decimal rendering of the integer-valued columns.

use vstd::prelude::*;
use vstd::string::StringExecFns;
use crate::text::push_char;

verus! {

/// The digit character for `d`.
pub open spec fn dec_digit(d: int) -> char {
    if d == 0 {
        '0'
    } else if d == 1 {
        '1'
    } else if d == 2 {
        '2'
    } else if d == 3 {
        '3'
    } else if d == 4 {
        '4'
    } else if d == 5 {
        '5'
    } else if d == 6 {
        '6'
    } else if d == 7 {
        '7'
    } else if d == 8 {
        '8'
    } else {
        '9'
    }
}

/// The decimal digits of `n`, most significant first.
pub open spec fn dec_nat(n: nat) -> Seq<char>
    decreases n,
{
    if n < 10 {
        seq![dec_digit(n as int)]
    } else {
        dec_nat(n / 10) + seq![dec_digit((n % 10) as int)]
    }
}

/// The decimal rendering of `i`: a minus sign first when negative.
pub open spec fn dec_int(i: int) -> Seq<char> {
    if i < 0 {
        seq!['-'] + dec_nat((-i) as nat)
    } else {
        dec_nat(i as nat)
    }
}

/// The decimal rendering of an amount held in cents: whole units, a point,
/// then exactly two digits.
pub open spec fn dec_money(c: nat) -> Seq<char> {
    dec_nat(c / 100) + seq!['.', dec_digit(((c / 10) % 10) as int), dec_digit((c % 10) as int)]
}

fn digit_char(d: u64) -> (c: char)
    requires
        d < 10,
    ensures
        c == dec_digit(d as int),
{
    if d == 0 {
        '0'
    } else if d == 1 {
        '1'
    } else if d == 2 {
        '2'
    } else if d == 3 {
        '3'
    } else if d == 4 {
        '4'
    } else if d == 5 {
        '5'
    } else if d == 6 {
        '6'
    } else if d == 7 {
        '7'
    } else if d == 8 {
        '8'
    } else {
        '9'
    }
}

/// Renders `n` in decimal.
pub fn format_u64(n: u64) -> (r: String)
    ensures
        r@ == dec_nat(n as nat),
    decreases n,
{
    if n < 10 {
        let mut s = String::new();
        push_char(&mut s, digit_char(n));
        proof {
            assert(Seq::<char>::empty() + seq![dec_digit(n as int)] =~= seq![
                dec_digit(n as int),
            ]);
        }
        s
    } else {
        let mut s = format_u64(n / 10);
        push_char(&mut s, digit_char(n % 10));
        s
    }
}

/// Renders `n` in decimal, with a minus sign when it is negative.
pub fn format_i64(n: i64) -> (r: String)
    ensures
        r@ == dec_int(n as int),
{
    if n >= 0 {
        format_u64(n as u64)
    } else {
        let mag: u64 = ((-(n + 1)) as u64) + 1;
        assert(mag as int == -(n as int));
        let mut s = String::new();
        push_char(&mut s, '-');
        let digits = format_u64(mag);
        s.append(digits.as_str());
        proof {
            assert((Seq::<char>::empty() + seq!['-']) + dec_nat(mag as nat) =~= seq!['-']
                + dec_nat((-(n as int)) as nat));
        }
        s
    }
}

/// Renders an amount of cents as units and two decimal places.
pub fn format_money(cents: u64) -> (r: String)
    ensures
        r@ == dec_money(cents as nat),
{
    let mut s = format_u64(cents / 100);
    push_char(&mut s, '.');
    push_char(&mut s, digit_char((cents / 10) % 10));
    push_char(&mut s, digit_char(cents % 10));
    proof {
        assert(s@ =~= dec_money(cents as nat));
    }
    s
}

} // verus!
