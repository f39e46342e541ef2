//! Verified rendering of the numbers that appear in alert messages: decimal
//! integers, one- and two-place decimal fractions, and fixed-point
//! thousandths.
use vstd::prelude::*;

verus! {

/// The character for one decimal digit.
pub open spec fn digit_char(d: nat) -> char {
    if d == 0 {
        '0'
    } else if d == 1 {
        '1'
    } else if d == 2 {
        '2'
    } else if d == 3 {
        '3'
    } else if d == 4 {
        '4'
    } else if d == 5 {
        '5'
    } else if d == 6 {
        '6'
    } else if d == 7 {
        '7'
    } else if d == 8 {
        '8'
    } else {
        '9'
    }
}

/// The decimal digits of `n`, most significant first, with no leading zeros
/// (a lone zero for `n == 0`).
pub open spec fn dec_digits(n: nat) -> Seq<char>
    decreases n,
{
    if n < 10 {
        seq![digit_char(n)]
    } else {
        dec_digits(n / 10).push(digit_char(n % 10))
    }
}

/// `whole` digits, a point, and one tenths digit: the rendering of
/// `t` tenths.
pub open spec fn tenths_chars(t: nat) -> Seq<char> {
    dec_digits(t / 10) + seq!['.', digit_char(t % 10)]
}

/// `whole` digits, a point, and two hundredths digits, with a leading minus
/// sign when `neg` holds: the rendering of `h` hundredths.
pub open spec fn signed_hundredths_chars(neg: bool, h: nat) -> Seq<char> {
    (if neg {
        seq!['-']
    } else {
        Seq::<char>::empty()
    }) + dec_digits(h / 100) + seq!['.', digit_char(h / 10 % 10), digit_char(h % 10)]
}

/// A fixed-point value of `m` thousandths, sign first; the fraction is
/// printed only when it is not zero, always with three places.
pub open spec fn signed_milli_chars(neg: bool, m: nat) -> Seq<char> {
    (if neg {
        seq!['-']
    } else {
        Seq::<char>::empty()
    }) + dec_digits(m / 1000) + (if m % 1000 == 0 {
        Seq::<char>::empty()
    } else {
        seq!['.', digit_char(m / 100 % 10), digit_char(m / 10 % 10), digit_char(m % 10)]
    })
}

/// One digit as a string slice.
fn digit_str(d: u128) -> (r: &'static str)
    requires
        d < 10,
    ensures
        r@ == seq![digit_char(d as nat)],
{
    proof {
        reveal_strlit("0");
        reveal_strlit("1");
        reveal_strlit("2");
        reveal_strlit("3");
        reveal_strlit("4");
        reveal_strlit("5");
        reveal_strlit("6");
        reveal_strlit("7");
        reveal_strlit("8");
        reveal_strlit("9");
    }
    let r: &'static str = if d == 0 {
        "0"
    } else if d == 1 {
        "1"
    } else if d == 2 {
        "2"
    } else if d == 3 {
        "3"
    } else if d == 4 {
        "4"
    } else if d == 5 {
        "5"
    } else if d == 6 {
        "6"
    } else if d == 7 {
        "7"
    } else if d == 8 {
        "8"
    } else {
        "9"
    };
    proof {
        assert(r@ =~= seq![digit_char(d as nat)]);
    }
    r
}

/// Appends the decimal digits of `n` to `out`.
pub fn push_decimal(out: &mut String, n: u128)
    ensures
        final(out)@ == old(out)@ + dec_digits(n as nat),
    decreases n,
{
    if n < 10 {
        let d = digit_str(n);
        out.append(d);
    } else {
        push_decimal(out, n / 10);
        let d = digit_str(n % 10);
        out.append(d);
        proof {
            assert(final(out)@ =~= old(out)@ + dec_digits(n as nat));
        }
    }
}

/// The decimal rendering of `n`.
pub fn decimal_string(n: u128) -> (s: String)
    ensures
        s@ == dec_digits(n as nat),
{
    let mut s = String::new();
    push_decimal(&mut s, n);
    proof {
        assert(s@ =~= dec_digits(n as nat));
    }
    s
}

/// Appends the rendering of `t` tenths, such as `20.0` for 200.
pub fn push_tenths(out: &mut String, t: u128)
    ensures
        final(out)@ == old(out)@ + tenths_chars(t as nat),
{
    push_decimal(out, t / 10);
    proof {
        reveal_strlit(".");
    }
    out.append(".");
    let d = digit_str(t % 10);
    out.append(d);
    proof {
        assert(final(out)@ =~= old(out)@ + tenths_chars(t as nat));
    }
}

/// Appends the rendering of `h` hundredths with its sign, such as `-4.50`
/// for 450 with `neg`.
pub fn push_signed_hundredths(out: &mut String, neg: bool, h: u128)
    ensures
        final(out)@ == old(out)@ + signed_hundredths_chars(neg, h as nat),
{
    proof {
        reveal_strlit("-");
        reveal_strlit(".");
    }
    if neg {
        out.append("-");
    }
    push_decimal(out, h / 100);
    out.append(".");
    let d1 = digit_str(h / 10 % 10);
    out.append(d1);
    let d0 = digit_str(h % 10);
    out.append(d0);
    proof {
        assert(final(out)@ =~= old(out)@ + signed_hundredths_chars(neg, h as nat));
    }
}

/// Appends the rendering of `m` thousandths with its sign, such as `95` for
/// 95000 and `-1.500` for 1500 with `neg`.
pub fn push_signed_milli(out: &mut String, neg: bool, m: u128)
    ensures
        final(out)@ == old(out)@ + signed_milli_chars(neg, m as nat),
{
    proof {
        reveal_strlit("-");
        reveal_strlit(".");
    }
    if neg {
        out.append("-");
    }
    push_decimal(out, m / 1000);
    if m % 1000 != 0 {
        out.append(".");
        let d2 = digit_str(m / 100 % 10);
        out.append(d2);
        let d1 = digit_str(m / 10 % 10);
        out.append(d1);
        let d0 = digit_str(m % 10);
        out.append(d0);
    }
    proof {
        assert(final(out)@ =~= old(out)@ + signed_milli_chars(neg, m as nat));
    }
}

} // verus!
