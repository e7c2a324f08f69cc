//! Reading a scalar from its decimal text: an optional sign, digits, and
//! behind an optional point more digits.

use crate::decimal::{signed, Decimal};
use crate::layout::lemma_nat_text_digits;
use crate::rational::{
    lemma_normal_is_lowest, lemma_whole_normal, lowest_terms, magnitude, Rational,
};
use crate::render::{decimal_text, sign_text};
use crate::text::{digit_char, is_digit, nat_text, ratio_text};
use vstd::prelude::*;
use vstd::string::StrSliceExecFns;

verus! {

/// The number that the digit `c` writes; zero for what is no digit.
pub open spec fn digit_value(c: char) -> nat {
    if c == '1' {
        1
    } else if c == '2' {
        2
    } else if c == '3' {
        3
    } else if c == '4' {
        4
    } else if c == '5' {
        5
    } else if c == '6' {
        6
    } else if c == '7' {
        7
    } else if c == '8' {
        8
    } else if c == '9' {
        9
    } else {
        0
    }
}

/// Every character of `s` is a digit.
pub open spec fn all_digits(s: Seq<char>) -> bool {
    forall|i: int| 0 <= i < s.len() ==> is_digit(#[trigger] s[i])
}

/// The number that the digits `s` write, the most significant first.
pub open spec fn digits_value(s: Seq<char>) -> nat
    decreases s.len(),
{
    if s.len() == 0 {
        0
    } else {
        digits_value(s.drop_last()) * 10 + digit_value(s.last())
    }
}

/// Ten to the power `k`.
pub open spec fn pow10(k: nat) -> nat
    decreases k,
{
    if k == 0 {
        1
    } else {
        10 * pow10((k - 1) as nat)
    }
}

/// Where the first point of `s` stands; the length of `s` if it has none.
pub open spec fn first_point(s: Seq<char>) -> nat
    decreases s.len(),
{
    if s.len() == 0 || s[0] == '.' {
        0
    } else {
        1 + first_point(s.skip(1))
    }
}

/// The text without a sign in front.
pub open spec fn unsigned_part(t: Seq<char>) -> Seq<char> {
    if t.len() > 0 && (t[0] == '-' || t[0] == '+') {
        t.skip(1)
    } else {
        t
    }
}

/// What stands before the first point of an unsigned text.
pub open spec fn whole_digits(body: Seq<char>) -> Seq<char> {
    body.take(first_point(body) as int)
}

/// What stands behind the first point of an unsigned text; nothing where it
/// has no point.
pub open spec fn behind_digits(body: Seq<char>) -> Seq<char> {
    if first_point(body) < body.len() {
        body.skip(first_point(body) as int + 1)
    } else {
        Seq::<char>::empty()
    }
}

/// Whether `t` writes a number: an optional `-` or `+`, at least one digit,
/// and then either nothing or a point and at least one more digit.
pub open spec fn is_numeral(t: Seq<char>) -> bool {
    let body = unsigned_part(t);
    &&& whole_digits(body).len() >= 1
    &&& all_digits(whole_digits(body))
    &&& all_digits(behind_digits(body))
    &&& first_point(body) < body.len() ==> behind_digits(body).len() >= 1
}

/// The number that the numeral `t` writes: its digits as one whole number
/// over ten to the count of digits behind the point, in lowest terms. It is
/// no number where one of the two does not fit in 128 bits.
pub open spec fn numeral_value(t: Seq<char>) -> Option<Rational> {
    let body = unsigned_part(t);
    let top = digits_value(whole_digits(body) + behind_digits(body));
    let bottom = pow10(behind_digits(body).len());
    if top <= u128::MAX && bottom <= u128::MAX {
        Some(lowest_terms(signed(t[0] == '-', top as int), bottom as int))
    } else {
        None
    }
}

/// The first point stands where a point follows what holds none.
pub proof fn lemma_first_point(s: Seq<char>, p: int)
    requires
        0 <= p <= s.len(),
        forall|j: int| 0 <= j < p ==> s[j] != '.',
        p < s.len() ==> s[p] == '.',
    ensures
        first_point(s) == p,
    decreases p,
{
    if p > 0 {
        let rest = s.skip(1);
        assert forall|j: int| 0 <= j < p - 1 implies rest[j] != '.' by {
            assert(rest[j] == s[j + 1]);
        }
        lemma_first_point(rest, p - 1);
    }
}

/// The first point stands within the text or at its end.
pub proof fn lemma_first_point_bound(s: Seq<char>)
    ensures
        first_point(s) <= s.len(),
        first_point(s) < s.len() ==> s[first_point(s) as int] == '.',
    decreases s.len(),
{
    if s.len() != 0 && s[0] != '.' {
        lemma_first_point_bound(s.skip(1));
    }
}

/// One more digit at the end is one more place.
pub proof fn lemma_digits_value_push(s: Seq<char>, c: char)
    ensures
        digits_value(s.push(c)) == digits_value(s) * 10 + digit_value(c),
{
    assert(s.push(c).drop_last() =~= s);
}

/// The digit that `c` writes, if it is one.
pub fn digit_of(c: char) -> (r: Option<u8>)
    ensures
        r is Some <==> is_digit(c),
        r matches Some(d) ==> d == digit_value(c) && d < 10,
{
    if c == '0' {
        Some(0)
    } else if c == '1' {
        Some(1)
    } else if c == '2' {
        Some(2)
    } else if c == '3' {
        Some(3)
    } else if c == '4' {
        Some(4)
    } else if c == '5' {
        Some(5)
    } else if c == '6' {
        Some(6)
    } else if c == '7' {
        Some(7)
    } else if c == '8' {
        Some(8)
    } else if c == '9' {
        Some(9)
    } else {
        None
    }
}

/// A natural number read so far: its value while it fits in 128 bits, and
/// whether it still does.
struct Reading {
    value: u128,
    fits: bool,
}

impl Reading {
    /// The reading stands for `v`.
    spec fn holds(self, v: nat) -> bool {
        if self.fits {
            self.value == v
        } else {
            v > u128::MAX
        }
    }

    /// The reading of ten times the number and `d` more.
    fn shifted(self, d: u8) -> (r: Reading)
        requires
            d < 10,
        ensures
            forall|v: nat| self.holds(v) ==> r.holds((v * 10 + d) as nat),
    {
        if !self.fits {
            return Reading { value: 0, fits: false };
        }
        match self.value.checked_mul(10) {
            Some(tens) => match tens.checked_add(d as u128) {
                Some(value) => Reading { value, fits: true },
                None => Reading { value: 0, fits: false },
            },
            None => Reading { value: 0, fits: false },
        }
    }
}

/// Reads the digits of `text` from `from` on, as far as they go, behind the
/// reading `start` of the digits `before`.
fn read_digits(text: &str, from: usize, start: Reading, Ghost(before): Ghost<Seq<char>>) -> (out: (
    usize,
    Reading,
))
    requires
        from <= text@.len(),
        start.holds(digits_value(before)),
    ensures
        from <= out.0 <= text@.len(),
        all_digits(text@.subrange(from as int, out.0 as int)),
        out.0 < text@.len() ==> !is_digit(text@[out.0 as int]),
        out.1.holds(digits_value(before + text@.subrange(from as int, out.0 as int))),
{
    let len = text.unicode_len();
    let mut i: usize = from;
    let mut reading = start;
    assert(before + text@.subrange(from as int, from as int) =~= before);
    while i < len
        invariant
            from <= i <= len,
            len == text@.len(),
            all_digits(text@.subrange(from as int, i as int)),
            reading.holds(digits_value(before + text@.subrange(from as int, i as int))),
        decreases len - i,
    {
        let c = text.get_char(i);
        match digit_of(c) {
            None => {
                return (i, reading);
            },
            Some(d) => {
                let ghost seen = before + text@.subrange(from as int, i as int);
                proof {
                    lemma_digits_value_push(seen, c);
                    assert(before + text@.subrange(from as int, i + 1) =~= seen.push(c));
                    assert(text@.subrange(from as int, i + 1) =~= text@.subrange(
                        from as int,
                        i as int,
                    ).push(c));
                }
                reading = reading.shifted(d);
                i = i + 1;
            },
        }
    }
    (i, reading)
}

/// Ten to the power `k`, while it fits in 128 bits.
fn pow10_reading(k: usize) -> (r: Reading)
    ensures
        r.holds(pow10(k as nat)),
{
    let mut r = Reading { value: 1, fits: true };
    let mut i: usize = 0;
    while i < k
        invariant
            i <= k,
            r.holds(pow10(i as nat)),
        decreases k - i,
    {
        r = r.shifted(0);
        i = i + 1;
    }
    r
}

impl Decimal {
    /// The scalar that the decimal text writes, such as `-3.5` or `10`; `None`
    /// where the text writes no number. A number too long for 128 bits is
    /// read as the value that is no number.
    pub fn from_decimal_str(text: &str) -> (r: Option<Decimal>)
        ensures
            r is Some <==> is_numeral(text@),
            r matches Some(d) ==> d@ == numeral_value(text@),
    {
        let len = text.unicode_len();
        let ghost t = text@;
        let ghost body = unsigned_part(t);
        let mut at: usize = 0;
        let mut negative = false;
        if len > 0 {
            let first = text.get_char(0);
            if first == '-' {
                negative = true;
                at = 1;
            } else if first == '+' {
                at = 1;
            }
        }
        assert(body =~= t.subrange(at as int, len as int));
        let zero = Reading { value: 0, fits: true };
        assert(digits_value(Seq::<char>::empty()) == 0);
        let (stop, whole) = read_digits(text, at, zero, Ghost(Seq::<char>::empty()));
        let ghost before = t.subrange(at as int, stop as int);
        assert(Seq::<char>::empty() + before =~= before);
        assert(before =~= body.take(stop - at));
        proof {
            assert forall|j: int| 0 <= j < stop - at implies body[j] != '.' by {
                assert(body[j] == before[j]);
            }
        }
        if stop == len {
            proof {
                lemma_first_point(body, stop - at);
                assert(whole_digits(body) =~= before);
                assert(before + behind_digits(body) =~= before);
            }
            if stop == at {
                return None;
            }
            proof {
                assert(pow10(0) == 1);
                assert(behind_digits(body).len() == 0);
            }
            return Some(
                finish(
                    negative,
                    whole,
                    Reading { value: 1, fits: true },
                    Ghost(digits_value(before)),
                    Ghost(1),
                ),
            );
        }
        let mark = text.get_char(stop);
        if mark != '.' {
            proof {
                lemma_first_point_bound(body);
                let p = first_point(body) as int;
                if p <= stop - at {
                    if p < stop - at {
                        assert(body[p] == '.');
                    }
                } else {
                    assert(whole_digits(body)[stop - at] == body[stop - at]);
                }
                assert(!is_numeral(t));
            }
            return None;
        }
        proof {
            lemma_first_point(body, stop - at);
            assert(whole_digits(body) =~= before);
        }
        if stop == at {
            return None;
        }
        let (end, all) = read_digits(text, stop + 1, whole, Ghost(before));
        let ghost behind = t.subrange(stop + 1, end as int);
        if end < len {
            proof {
                assert(behind_digits(body)[end - stop - 1] == t[end as int]);
            }
            return None;
        }
        assert(behind_digits(body) =~= behind);
        if end == stop + 1 {
            return None;
        }
        let bottom = pow10_reading(end - stop - 1);
        proof {
            lemma_pow10_positive(behind.len());
        }
        Some(
            finish(
                negative,
                all,
                bottom,
                Ghost(digits_value(before + behind)),
                Ghost(pow10(behind.len())),
            ),
        )
    }
}

/// The scalar of what was read, where both parts fit.
fn finish(
    negative: bool,
    top: Reading,
    bottom: Reading,
    Ghost(n): Ghost<nat>,
    Ghost(d): Ghost<nat>,
) -> (r: Decimal)
    requires
        top.holds(n),
        bottom.holds(d),
        d > 0,
    ensures
        r@ == if n <= u128::MAX && d <= u128::MAX {
            Some(lowest_terms(signed(negative, n as int), d as int))
        } else {
            None
        },
{
    if top.fits && bottom.fits {
        Decimal::from_parts(negative, top.value, bottom.value)
    } else {
        Decimal::nan()
    }
}

/// Ten to any power is positive.
pub proof fn lemma_pow10_positive(k: nat)
    ensures
        pow10(k) > 0,
    decreases k,
{
    if k > 0 {
        lemma_pow10_positive((k - 1) as nat);
    }
}

/// The digits of a natural number write that number.
pub proof fn lemma_digits_of_nat_text(n: nat)
    ensures
        digits_value(nat_text(n)) == n,
    decreases n,
{
    if n < 10 {
        let c = digit_char(n as int);
        assert(seq![c].drop_last() =~= Seq::<char>::empty());
        assert(digits_value(seq![c].drop_last()) == 0);
    } else {
        lemma_digits_of_nat_text(n / 10);
        lemma_digits_value_push(nat_text(n / 10), digit_char((n % 10) as int));
    }
}

/// The text of a whole number reads back as that number: it is a numeral,
/// and its value is the number where that fits in 128 bits.
pub proof fn lemma_whole_reads_back(n: int)
    ensures
        is_numeral(decimal_text(Some(Rational::whole(n)))),
        magnitude(n) <= u128::MAX ==> numeral_value(decimal_text(Some(Rational::whole(n))))
            == Some(Rational::whole(n)),
{
    let m = magnitude(n);
    let digits = nat_text(m);
    let t = decimal_text(Some(Rational::whole(n)));
    reveal_strlit("-");
    lemma_nat_text_digits(m);
    lemma_digits_of_nat_text(m);
    assert(ratio_text(m, 1) == digits);
    assert(t =~= sign_text(n < 0) + digits);
    let body = unsigned_part(t);
    assert(body =~= digits) by {
        if n < 0 {
            assert(t[0] == '-');
        } else {
            assert(t[0] == digits[0]);
        }
    }
    lemma_first_point(body, body.len() as int);
    assert(whole_digits(body) =~= digits);
    assert(behind_digits(body) =~= Seq::<char>::empty());
    assert(whole_digits(body) + behind_digits(body) =~= digits);
    assert(pow10(0) == 1);
    if m <= u128::MAX {
        lemma_whole_normal(n);
        lemma_normal_is_lowest(Rational::whole(n));
        assert((t[0] == '-') == (n < 0)) by {
            if n >= 0 {
                assert(t[0] == digits[0]);
            }
        }
    }
}

} // verus!
