//! Decimal text of integers, built into a `String`.

use vstd::prelude::*;
use vstd::string::StringExecFns;

verus! {

/// The character of a decimal digit.
pub open spec fn digit_char(d: int) -> char {
    if d == 0 {
        '0'
    } else if d == 1 {
        '1'
    } else if d == 2 {
        '2'
    } else if d == 3 {
        '3'
    } else if d == 4 {
        '4'
    } else if d == 5 {
        '5'
    } else if d == 6 {
        '6'
    } else if d == 7 {
        '7'
    } else if d == 8 {
        '8'
    } else {
        '9'
    }
}

/// The decimal digits of a natural number, without leading zeros.
pub open spec fn digits(v: nat) -> Seq<char>
    decreases v,
{
    if v < 10 {
        seq![digit_char(v as int)]
    } else {
        digits(v / 10).push(digit_char(v as int % 10))
    }
}

/// The decimal text of an integer, with a leading `-` when it is negative.
pub open spec fn decimal(v: int) -> Seq<char> {
    if v < 0 {
        seq!['-'] + digits((-v) as nat)
    } else {
        digits(v as nat)
    }
}

/// The text of one decimal digit.
fn digit_str(d: u8) -> (r: &'static str)
    requires
        d < 10,
    ensures
        r@ == seq![digit_char(d as int)],
{
    proof {
        reveal_strlit("0");
        reveal_strlit("1");
        reveal_strlit("2");
        reveal_strlit("3");
        reveal_strlit("4");
        reveal_strlit("5");
        reveal_strlit("6");
        reveal_strlit("7");
        reveal_strlit("8");
        reveal_strlit("9");
    }
    if d == 0 {
        "0"
    } else if d == 1 {
        "1"
    } else if d == 2 {
        "2"
    } else if d == 3 {
        "3"
    } else if d == 4 {
        "4"
    } else if d == 5 {
        "5"
    } else if d == 6 {
        "6"
    } else if d == 7 {
        "7"
    } else if d == 8 {
        "8"
    } else {
        "9"
    }
}

/// Appends the decimal digits of `v`.
fn append_digits(s: &mut String, v: u64)
    ensures
        final(s)@ == old(s)@ + digits(v as nat),
    decreases v,
{
    if v >= 10 {
        append_digits(s, v / 10);
        let d = digit_str((v % 10) as u8);
        s.append(d);
        proof {
            assert(final(s)@ =~= old(s)@ + digits(v as nat));
        }
    } else {
        let d = digit_str(v as u8);
        s.append(d);
    }
}

/// Appends the decimal text of `v`.
pub fn append_decimal(s: &mut String, v: i64)
    ensures
        final(s)@ == old(s)@ + decimal(v as int),
{
    if v < 0 {
        proof {
            reveal_strlit("-");
        }
        s.append("-");
        let u: u64 = (0i128 - v as i128) as u64;
        append_digits(s, u);
        proof {
            assert(final(s)@ =~= old(s)@ + decimal(v as int));
        }
    } else {
        append_digits(s, v as u64);
    }
}

/// The decimal text of an integer is as long as `decimal_len` counts.
pub proof fn lemma_decimal_length(v: int)
    ensures
        decimal(v).len() == crate::ticks::decimal_len(v),
{
    if v < 0 {
        lemma_digits_length(-v);
        assert(crate::ticks::decimal_len(v) == 1 + crate::ticks::decimal_len(-v));
    } else {
        lemma_digits_length(v);
    }
}

proof fn lemma_digits_length(v: int)
    requires
        v >= 0,
    ensures
        digits(v as nat).len() == crate::ticks::decimal_len(v),
    decreases v,
{
    if v >= 10 {
        lemma_digits_length(v / 10);
    }
}

/// The decimal text of `v`.
pub fn decimal_string(v: i64) -> (r: String)
    ensures
        r@ == decimal(v as int),
{
    let mut s = String::new();
    append_decimal(&mut s, v);
    proof {
        assert(s@ =~= decimal(v as int));
    }
    s
}

} // verus!
