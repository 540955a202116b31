//! Decimal text of non-negative integers and of fixed-point numbers.

use vstd::prelude::*;

verus! {

/// The character of a decimal digit.
pub open spec fn digit_char(d: nat) -> char {
    if d == 0 {
        '0'
    } else if d == 1 {
        '1'
    } else if d == 2 {
        '2'
    } else if d == 3 {
        '3'
    } else if d == 4 {
        '4'
    } else if d == 5 {
        '5'
    } else if d == 6 {
        '6'
    } else if d == 7 {
        '7'
    } else if d == 8 {
        '8'
    } else {
        '9'
    }
}

/// `10` to the power `p`.
pub open spec fn pow10(p: nat) -> nat
    decreases p,
{
    if p == 0 {
        1
    } else {
        10 * pow10((p - 1) as nat)
    }
}

/// The shortest decimal text of `n`, without sign or leading zeros.
pub open spec fn decimal_text(n: nat) -> Seq<char>
    decreases n,
{
    if n < 10 {
        seq![digit_char(n)]
    } else {
        decimal_text(n / 10).push(digit_char(n % 10))
    }
}

/// The last `width` decimal digits of `n`, with leading zeros.
pub open spec fn padded_text(n: nat, width: nat) -> Seq<char>
    decreases width,
{
    if width == 0 {
        seq![]
    } else {
        padded_text(n / 10, (width - 1) as nat).push(digit_char(n % 10))
    }
}

/// `a / d` rounded to the nearest integer, a tie going to the even one.
pub open spec fn round_half_even(a: nat, d: nat) -> nat
    recommends
        d > 0,
{
    let f = a / d;
    let r = a % d;
    if 2 * r > d || (2 * r == d && f % 2 == 1) {
        f + 1
    } else {
        f
    }
}

/// The text of `q / 10^places` with exactly `places` digits after the point,
/// preceded by `-` when `negative`.
pub open spec fn fixed_digits(negative: bool, q: nat, places: nat) -> Seq<char> {
    let sign = if negative {
        seq!['-']
    } else {
        Seq::<char>::empty()
    };
    let fraction = if places == 0 {
        Seq::<char>::empty()
    } else {
        seq!['.'] + padded_text(q % pow10(places), places)
    };
    sign + decimal_text(q / pow10(places)) + fraction
}

/// The text of the rational `num / den` (negated when `negative`), rounded to
/// `places` digits after the point, a tie going to the even last digit.
pub open spec fn fixed_text(negative: bool, num: nat, den: nat, places: nat) -> Seq<char>
    recommends
        den > 0,
{
    fixed_digits(negative, round_half_even(num * pow10(places), den), places)
}

/// The one-character text of the digit `d`.
fn digit_str(d: u64) -> (r: &'static str)
    requires
        d < 10,
    ensures
        r@ == seq![digit_char(d as nat)],
{
    if d == 0 {
        proof { reveal_strlit("0"); }
        "0"
    } else if d == 1 {
        proof { reveal_strlit("1"); }
        "1"
    } else if d == 2 {
        proof { reveal_strlit("2"); }
        "2"
    } else if d == 3 {
        proof { reveal_strlit("3"); }
        "3"
    } else if d == 4 {
        proof { reveal_strlit("4"); }
        "4"
    } else if d == 5 {
        proof { reveal_strlit("5"); }
        "5"
    } else if d == 6 {
        proof { reveal_strlit("6"); }
        "6"
    } else if d == 7 {
        proof { reveal_strlit("7"); }
        "7"
    } else if d == 8 {
        proof { reveal_strlit("8"); }
        "8"
    } else {
        proof { reveal_strlit("9"); }
        "9"
    }
}

/// Appends the decimal text of `n` to `s`.
pub fn push_decimal(s: &mut String, n: u128)
    ensures
        final(s)@ == old(s)@ + decimal_text(n as nat),
    decreases n,
{
    if n >= 10 {
        push_decimal(s, n / 10);
    }
    s.append(digit_str((n % 10) as u64));
    assert(s@ =~= old(s)@ + decimal_text(n as nat));
}

/// Appends the last `width` decimal digits of `n` to `s`, with leading zeros.
pub fn push_padded(s: &mut String, n: u128, width: u32)
    ensures
        final(s)@ == old(s)@ + padded_text(n as nat, width as nat),
    decreases width,
{
    if width > 0 {
        push_padded(s, n / 10, width - 1);
        s.append(digit_str((n % 10) as u64));
        assert(s@ =~= old(s)@ + padded_text(n as nat, width as nat));
    } else {
        assert(s@ =~= old(s)@ + padded_text(n as nat, width as nat));
    }
}

/// `10` to the power `p`, for the few places that a rendering uses.
pub fn pow10_exec(p: u32) -> (r: u128)
    requires
        p <= 3,
    ensures
        r == pow10(p as nat),
        1 <= r <= 1000,
{
    reveal_with_fuel(pow10, 4);
    if p == 0 {
        1
    } else if p == 1 {
        10
    } else if p == 2 {
        100
    } else {
        1000
    }
}

/// Appends the text of `q / 10^places` with `places` digits after the point,
/// preceded by `-` when `negative`.
pub fn push_fixed_digits(s: &mut String, negative: bool, q: u128, places: u32)
    requires
        places <= 3,
    ensures
        final(s)@ == old(s)@ + fixed_digits(negative, q as nat, places as nat),
{
    let scale = pow10_exec(places);
    if negative {
        s.append("-");
    }
    push_decimal(s, q / scale);
    if places > 0 {
        s.append(".");
        push_padded(s, q % scale, places);
    }
    proof {
        reveal_strlit("-");
        reveal_strlit(".");
        assert(s@ =~= old(s)@ + fixed_digits(negative, q as nat, places as nat));
    }
}

/// `a / d` rounded to the nearest integer, a tie going to the even one.
pub fn round_half_even_exec(a: u64, d: u64) -> (r: u64)
    requires
        d > 0,
    ensures
        r == round_half_even(a as nat, d as nat),
{
    let f = a / d;
    let rem = a % d;
    proof {
        vstd::arithmetic::div_mod::lemma_fundamental_div_mod(a as int, d as int);
        if rem > 0 {
            assert(f + 1 <= u64::MAX) by (nonlinear_arith)
                requires
                    a == d * f + rem,
                    rem >= 1,
                    rem < d,
                    a <= u64::MAX,
            ;
        }
    }
    if rem > d - rem || (rem == d - rem && f % 2 == 1) {
        f + 1
    } else {
        f
    }
}

} // verus!
