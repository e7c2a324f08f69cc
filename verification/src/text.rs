//! Decimal text of natural numbers and of the digits behind the point of a
//! ratio.

use vstd::arithmetic::div_mod::{lemma_fundamental_div_mod_converse};
use vstd::prelude::*;
use vstd::string::StringExecFns;

verus! {

/// At most this many digits are written behind the point; further ones are
/// cut off.
pub const FRACTION_DIGITS: u32 = 18;

/// The character that writes the digit `d`, for `d` below ten.
pub open spec fn digit_char(d: int) -> char {
    if d == 0 {
        '0'
    } else if d == 1 {
        '1'
    } else if d == 2 {
        '2'
    } else if d == 3 {
        '3'
    } else if d == 4 {
        '4'
    } else if d == 5 {
        '5'
    } else if d == 6 {
        '6'
    } else if d == 7 {
        '7'
    } else if d == 8 {
        '8'
    } else {
        '9'
    }
}

/// Whether `c` is one of the ten digits.
pub open spec fn is_digit(c: char) -> bool {
    c == '0' || c == '1' || c == '2' || c == '3' || c == '4' || c == '5' || c == '6' || c == '7'
        || c == '8' || c == '9'
}

/// The decimal digits of `n`, the most significant first and not a zero,
/// except for zero itself, which is `"0"`.
pub open spec fn nat_text(n: nat) -> Seq<char>
    decreases n,
{
    if n < 10 {
        seq![digit_char(n as int)]
    } else {
        nat_text(n / 10).push(digit_char((n % 10) as int))
    }
}

/// The digits behind the point of `r / d`, for `r` below `d`: as many as the
/// expansion has, and at most `k`.
pub open spec fn fraction_text(r: nat, d: nat, k: nat) -> Seq<char>
    decreases k,
{
    if k == 0 || r == 0 {
        Seq::<char>::empty()
    } else {
        seq![digit_char(((10 * r) / d) as int)] + fraction_text((10 * r) % d, d, (k - 1) as nat)
    }
}

/// The text of the ratio `num / den`, neither negative: the whole part, and
/// behind a point the digits of the rest, where there is a rest.
pub open spec fn ratio_text(num: nat, den: nat) -> Seq<char> {
    if num % den == 0 {
        nat_text(num / den)
    } else {
        nat_text(num / den) + seq!['.'] + fraction_text(num % den, den, FRACTION_DIGITS as nat)
    }
}

/// Appends one digit.
pub fn push_digit(s: &mut String, d: u8)
    requires
        d < 10,
    ensures
        final(s)@ == old(s)@.push(digit_char(d as int)),
{
    proof {
        reveal_strlit("0");
        reveal_strlit("1");
        reveal_strlit("2");
        reveal_strlit("3");
        reveal_strlit("4");
        reveal_strlit("5");
        reveal_strlit("6");
        reveal_strlit("7");
        reveal_strlit("8");
        reveal_strlit("9");
    }
    let ghost before = s@;
    let digit: &str = if d == 0 {
        "0"
    } else if d == 1 {
        "1"
    } else if d == 2 {
        "2"
    } else if d == 3 {
        "3"
    } else if d == 4 {
        "4"
    } else if d == 5 {
        "5"
    } else if d == 6 {
        "6"
    } else if d == 7 {
        "7"
    } else if d == 8 {
        "8"
    } else {
        "9"
    };
    assert(digit@ =~= seq![digit_char(d as int)]);
    s.append(digit);
    assert(s@ =~= before.push(digit_char(d as int)));
}

/// Appends the decimal digits of `n`.
pub fn push_nat(s: &mut String, n: u128)
    ensures
        final(s)@ == old(s)@ + nat_text(n as nat),
    decreases n,
{
    let ghost before = s@;
    if n >= 10 {
        push_nat(s, n / 10);
    }
    push_digit(s, (n % 10) as u8);
    assert(s@ =~= before + nat_text(n as nat));
}

/// The next digit behind the point of `r / d`, and what is left behind it:
/// the quotient and the remainder of `10 * r` by `d`.
pub fn next_digit(r: u128, d: u128) -> (out: (u8, u128))
    requires
        r < d,
    ensures
        out.0 == (10 * r) / (d as int),
        out.1 == (10 * r) % (d as int),
        10 * r == out.0 * d + out.1,
        out.0 < 10,
        out.1 < d,
{
    let mut q: u8 = 0;
    let mut acc: u128 = 0;
    let mut i: u8 = 0;
    while i < 10
        invariant
            i <= 10,
            q <= i,
            acc < d,
            r < d,
            i * r == q * d + acc,
        decreases 10 - i,
    {
        let ghost q0 = q;
        let ghost acc0 = acc;
        if acc >= d - r {
            acc = acc - (d - r);
            q = q + 1;
        } else {
            acc = acc + r;
        }
        i = i + 1;
        assert(i * r == q * d + acc) by (nonlinear_arith)
            requires
                (i - 1) * r == q0 * d + acc0,
                (q == q0 + 1 && acc == acc0 - (d - r)) || (q == q0 && acc == acc0 + r),
        ;
    }
    proof {
        assert(q < 10) by (nonlinear_arith)
            requires
                10 * r == q * d + acc,
                r < d,
                acc >= 0,
        ;
        lemma_fundamental_div_mod_converse(10 * r, d as int, q as int, acc as int);
    }
    (q, acc)
}

/// The next three digits behind the point of `r / d` as one number, and what
/// is left behind them: the quotient and the remainder of `1000 * r` by `d`.
pub fn next_three_digits(r: u128, d: u128) -> (out: (u16, u128))
    requires
        r < d,
    ensures
        out.0 == (1000 * r) / (d as int),
        out.1 == (1000 * r) % (d as int),
        1000 * r == out.0 * d + out.1,
        out.0 < 1000,
        out.1 < d,
{
    let (q1, r1) = next_digit(r, d);
    let (q2, r2) = next_digit(r1, d);
    let (q3, r3) = next_digit(r2, d);
    let value: u16 = (q1 as u16) * 100 + (q2 as u16) * 10 + (q3 as u16);
    proof {
        assert(1000 * r == value * d + r3) by (nonlinear_arith)
            requires
                10 * r == q1 * d + r1,
                10 * r1 == q2 * d + r2,
                10 * r2 == q3 * d + r3,
                value == q1 * 100 + q2 * 10 + q3,
        ;
        lemma_fundamental_div_mod_converse(1000 * r, d as int, value as int, r3 as int);
    }
    (value, r3)
}

/// The next six digits behind the point of `r / d` as one number, and what
/// is left behind them: the quotient and the remainder of `1000000 * r` by
/// `d`.
pub fn next_six_digits(r: u128, d: u128) -> (out: (u32, u128))
    requires
        r < d,
    ensures
        out.0 == (1000000 * r) / (d as int),
        out.1 == (1000000 * r) % (d as int),
        1000000 * r == out.0 * d + out.1,
        out.0 < 1000000,
        out.1 < d,
{
    let (high, r3) = next_three_digits(r, d);
    let (low, r6) = next_three_digits(r3, d);
    let value: u32 = (high as u32) * 1000 + (low as u32);
    proof {
        assert(1000000 * r == value * d + r6) by (nonlinear_arith)
            requires
                1000 * r == high * d + r3,
                1000 * r3 == low * d + r6,
                value == high * 1000 + low,
        ;
        lemma_fundamental_div_mod_converse(1000000 * r, d as int, value as int, r6 as int);
    }
    (value, r6)
}

/// Appends the digits behind the point of `r / d`, at most `k` of them.
pub fn push_fraction(s: &mut String, r: u128, d: u128, k: u32)
    requires
        r < d,
    ensures
        final(s)@ == old(s)@ + fraction_text(r as nat, d as nat, k as nat),
{
    let ghost before = s@;
    let mut rest: u128 = r;
    let mut left: u32 = k;
    while left > 0 && rest != 0
        invariant
            rest < d,
            before + fraction_text(r as nat, d as nat, k as nat) == s@ + fraction_text(
                rest as nat,
                d as nat,
                left as nat,
            ),
        decreases left,
    {
        let ghost shown = s@;
        let (digit, next) = next_digit(rest, d);
        push_digit(s, digit);
        assert(shown + fraction_text(rest as nat, d as nat, left as nat) =~= s@ + fraction_text(
            next as nat,
            d as nat,
            (left - 1) as nat,
        ));
        rest = next;
        left = left - 1;
    }
    assert(s@ + fraction_text(rest as nat, d as nat, left as nat) =~= s@);
}

/// Appends the text of `num / den`.
pub fn push_ratio(s: &mut String, num: u128, den: u128)
    requires
        den > 0,
    ensures
        final(s)@ == old(s)@ + ratio_text(num as nat, den as nat),
{
    let ghost before = s@;
    push_nat(s, num / den);
    let rest: u128 = num % den;
    if rest != 0 {
        proof {
            reveal_strlit(".");
        }
        s.append(".");
        push_fraction(s, rest, den, FRACTION_DIGITS);
        assert(s@ =~= before + ratio_text(num as nat, den as nat));
    }
}

} // verus!
