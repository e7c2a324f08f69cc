//! What the text of a duration looks like: where its sign stands, which units
//! it leaves out, and how it ends.

use crate::duration::Duration;
use crate::rational::Rational;
use crate::breakdown::{breakdown, Breakdown};
use crate::render::{coarse_text, duration_text, fine_text, piece, sign_text};
use crate::text::{fraction_text, is_digit, nat_text, ratio_text};
use vstd::prelude::*;

verus! {

/// The character `c` does not occur in `s`.
pub open spec fn free_of(s: Seq<char>, c: char) -> bool {
    forall|i: int| 0 <= i < s.len() ==> s[i] != c
}

/// What occurs in neither of two texts does not occur in the two put
/// together.
pub proof fn lemma_free_of_joined(a: Seq<char>, b: Seq<char>, c: char)
    requires
        free_of(a, c),
        free_of(b, c),
    ensures
        free_of(a + b, c),
{
    assert forall|i: int| 0 <= i < (a + b).len() implies (a + b)[i] != c by {
        if i < a.len() {
            assert((a + b)[i] == a[i]);
        } else {
            assert((a + b)[i] == b[i - a.len()]);
        }
    }
}

/// The text of a natural number is made of digits, has at least one, and
/// begins with a zero only for zero.
pub proof fn lemma_nat_text_digits(n: nat)
    ensures
        nat_text(n).len() >= 1,
        forall|i: int| 0 <= i < nat_text(n).len() ==> is_digit(#[trigger] nat_text(n)[i]),
        n != 0 ==> nat_text(n)[0] != '0',
    decreases n,
{
    if n >= 10 {
        lemma_nat_text_digits(n / 10);
    }
}

/// The digits behind the point are digits.
pub proof fn lemma_fraction_text_digits(r: nat, d: nat, k: nat)
    requires
        d > 0,
    ensures
        forall|i: int|
            0 <= i < fraction_text(r, d, k).len() ==> is_digit(
                #[trigger] fraction_text(r, d, k)[i],
            ),
    decreases k,
{
    if k != 0 && r != 0 {
        let rest = fraction_text((10 * r) % d, d, (k - 1) as nat);
        let first = seq![crate::text::digit_char(((10 * r) / d) as int)];
        lemma_fraction_text_digits((10 * r) % d, d, (k - 1) as nat);
        assert(fraction_text(r, d, k) =~= first + rest);
        assert forall|i: int| 0 <= i < fraction_text(r, d, k).len() implies is_digit(
            #[trigger] fraction_text(r, d, k)[i],
        ) by {
            if i > 0 {
                assert((first + rest)[i] == rest[i - 1]);
            } else {
                assert((first + rest)[i] == first[0]);
            }
        }
    }
}

/// The text of a ratio holds digits and at most a point, and begins with a
/// digit.
pub proof fn lemma_ratio_text_free(num: nat, den: nat, c: char)
    requires
        den > 0,
        !is_digit(c),
        c != '.',
    ensures
        free_of(ratio_text(num, den), c),
        ratio_text(num, den).len() >= 1,
        is_digit(ratio_text(num, den)[0]),
{
    lemma_nat_text_digits(num / den);
    lemma_fraction_text_digits(num % den, den, crate::text::FRACTION_DIGITS as nat);
    let whole = nat_text(num / den);
    let behind = fraction_text(num % den, den, crate::text::FRACTION_DIGITS as nat);
    assert(free_of(whole, c));
    assert(free_of(behind, c));
    assert(free_of(seq!['.'], c));
    lemma_free_of_joined(whole, seq!['.'], c);
    lemma_free_of_joined(whole + seq!['.'], behind, c);
    assert(ratio_text(num, den)[0] == whole[0]);
}

/// A whole part with its unit holds digits and the unit's name, and begins
/// with a digit.
pub proof fn lemma_piece_free(value: int, unit: Seq<char>, c: char)
    requires
        !is_digit(c),
        free_of(unit, c),
    ensures
        free_of(piece(value, unit), c),
        piece(value, unit).len() >= 1,
        is_digit(piece(value, unit)[0]),
{
    lemma_nat_text_digits(value as nat);
    assert(free_of(nat_text(value as nat), c));
    lemma_free_of_joined(nat_text(value as nat), unit, c);
    assert(piece(value, unit)[0] == nat_text(value as nat)[0]);
}

/// A character that is no digit, no point, no blank and in no unit's name
/// does not occur in the parts of a duration. A letter of `days` does not
/// occur where there are no days.
pub proof fn lemma_parts_free(b: Breakdown, c: char)
    requires
        !is_digit(c),
        c != '.' && c != ' ' && c != 'h' && c != 'm' && c != 'i' && c != 'n' && c != 's',
        b.days != 0 ==> c != 'd' && c != 'a' && c != 'y',
        b.nanos.den > 0,
    ensures
        free_of(coarse_text(b) + fine_text(b), c),
        (coarse_text(b) + fine_text(b)).len() >= 1,
        is_digit((coarse_text(b) + fine_text(b))[0]),
{
    reveal_strlit(" days ");
    reveal_strlit(" h ");
    reveal_strlit(" min ");
    reveal_strlit(" s");
    reveal_strlit(" s ");
    reveal_strlit(" ms");
    reveal_strlit(" ms ");
    reveal_strlit(" ns");
    let none = Seq::<char>::empty();
    let days = if b.days != 0 {
        piece(b.days, " days "@)
    } else {
        none
    };
    let hours = if b.days != 0 || b.hours != 0 {
        piece(b.hours, " h "@)
    } else {
        none
    };
    let minutes = if b.days != 0 || b.hours != 0 || b.minutes != 0 {
        piece(b.minutes, " min "@)
    } else {
        none
    };
    if b.days != 0 {
        lemma_piece_free(b.days, " days "@, c);
    }
    lemma_piece_free(b.hours, " h "@, c);
    lemma_piece_free(b.minutes, " min "@, c);
    lemma_piece_free(b.seconds, " s"@, c);
    lemma_piece_free(b.seconds, " s "@, c);
    lemma_piece_free(b.millis, " ms"@, c);
    lemma_piece_free(b.millis, " ms "@, c);
    lemma_ratio_text_free(b.nanos.num as nat, b.nanos.den as nat, c);
    lemma_free_of_joined(days, hours, c);
    lemma_free_of_joined(days + hours, minutes, c);
    let coarse = coarse_text(b);
    assert(coarse == days + hours + minutes);
    assert(free_of(coarse, c));
    let fine = fine_text(b);
    let shown = b.days != 0 || b.hours != 0 || b.minutes != 0 || b.seconds != 0;
    let seconds = if shown {
        piece(b.seconds, " s "@)
    } else {
        none
    };
    let millis = if shown || b.millis != 0 {
        piece(b.millis, " ms "@)
    } else {
        none
    };
    let nanos = ratio_text(b.nanos.num as nat, b.nanos.den as nat);
    lemma_free_of_joined(seconds, piece(b.millis, " ms"@), c);
    lemma_free_of_joined(seconds, millis, c);
    lemma_free_of_joined(seconds + millis, nanos, c);
    lemma_free_of_joined(seconds + millis + nanos, " ns"@, c);
    assert(free_of(fine, c));
    assert(fine.len() >= 1 && is_digit(fine[0])) by {
        if b.millis == 0 && b.nanos.num == 0 {
        } else if b.nanos.num == 0 {
            if shown {
                assert(fine[0] == seconds[0]);
            } else {
                assert(fine =~= piece(b.millis, " ms"@));
            }
        } else {
            if shown {
                assert(fine[0] == seconds[0]);
            } else if b.millis != 0 {
                assert(fine[0] == millis[0]);
            } else {
                assert(fine =~= nanos + " ns"@);
                assert(fine[0] == nanos[0]);
            }
        }
    }
    lemma_free_of_joined(coarse, fine, c);
    assert(is_digit((coarse + fine)[0])) by {
        if b.days != 0 {
            assert((coarse + fine)[0] == days[0]);
        } else if b.hours != 0 {
            assert(coarse =~= hours + minutes);
            assert((coarse + fine)[0] == hours[0]);
        } else if b.minutes != 0 {
            assert(coarse =~= minutes);
            assert((coarse + fine)[0] == minutes[0]);
        } else {
            assert(coarse =~= none);
            assert(coarse + fine =~= fine);
        }
    }
}

/// The text of a negative duration begins with its only minus sign, and a
/// digit follows it.
pub proof fn lemma_single_leading_sign(d: Duration)
    requires
        d.wf(),
        d@ matches Some(x) && x.num < 0,
    ensures
        duration_text(d@).len() >= 2,
        duration_text(d@)[0] == '-',
        is_digit(duration_text(d@)[1]),
        forall|i: int| 1 <= i < duration_text(d@).len() ==> duration_text(d@)[i] != '-',
{
    d.lemma_view();
    let x = d@.unwrap();
    let b = breakdown(x.absolute());
    lemma_parts_free(b, '-');
    reveal_strlit("-");
    let body = coarse_text(b) + fine_text(b);
    let text = duration_text(d@);
    assert(text =~= "-"@ + body);
    assert forall|i: int| 1 <= i < text.len() implies text[i] != '-' by {
        assert(text[i] == body[i - 1]);
    }
    assert(text[1] == body[0]);
}

/// The text of a duration that is not negative holds no minus sign.
pub proof fn lemma_no_sign(d: Duration)
    requires
        d.wf(),
        d@ matches Some(x) && x.num >= 0,
    ensures
        free_of(duration_text(d@), '-'),
{
    d.lemma_view();
    let x = d@.unwrap();
    let b = breakdown(x.absolute());
    lemma_parts_free(b, '-');
    assert(duration_text(d@) =~= coarse_text(b) + fine_text(b));
}

/// Where a duration has no whole day, its text names no days: the letter
/// `d` does not occur in it, and so `0 days` does not begin it, behind a
/// sign or without one.
pub proof fn lemma_no_zero_days(d: Duration)
    requires
        d.wf(),
        d@ matches Some(x) && breakdown(x.absolute()).days == 0,
    ensures
        free_of(duration_text(d@), 'd'),
        !"0 days"@.is_prefix_of(duration_text(d@)),
        !"-0 days"@.is_prefix_of(duration_text(d@)),
{
    d.lemma_view();
    let x = d@.unwrap();
    let b = breakdown(x.absolute());
    lemma_parts_free(b, 'd');
    reveal_strlit("-");
    reveal_strlit("0 days");
    reveal_strlit("-0 days");
    let body = coarse_text(b) + fine_text(b);
    let text = duration_text(d@);
    assert(free_of(sign_text(x.num < 0), 'd'));
    lemma_free_of_joined(sign_text(x.num < 0), body, 'd');
    assert(text =~= sign_text(x.num < 0) + body);
    if "0 days"@.is_prefix_of(text) {
        assert(text[2] == "0 days"@[2]);
    }
    if "-0 days"@.is_prefix_of(text) {
        assert(text[3] == "-0 days"@[3]);
    }
}

/// A duration of nothing is written `0 s`.
pub proof fn lemma_zero_text()
    ensures
        duration_text(Some(Rational::whole(0))) == "0 s"@,
{
    reveal_strlit(" s");
    reveal_strlit("0 s");
    let b = breakdown(Rational::whole(0).absolute());
    assert(b.days == 0 && b.hours == 0 && b.minutes == 0 && b.seconds == 0 && b.millis == 0
        && b.nanos.num == 0);
    assert(duration_text(Some(Rational::whole(0))) =~= "0 s"@);
}

/// Where a duration has neither milliseconds nor nanoseconds, its text ends
/// with the seconds: ` s` ends it, and neither `ms` nor `ns` does.
pub proof fn lemma_ends_with_seconds(d: Duration)
    requires
        d.wf(),
        d@ matches Some(x) && breakdown(x.absolute()).millis == 0 && breakdown(
            x.absolute(),
        ).nanos.num == 0,
    ensures
        " s"@.is_suffix_of(duration_text(d@)),
        !"ms"@.is_suffix_of(duration_text(d@)),
        !"ns"@.is_suffix_of(duration_text(d@)),
{
    reveal_strlit(" s");
    reveal_strlit("ms");
    reveal_strlit("ns");
    let x = d@.unwrap();
    let b = breakdown(x.absolute());
    let text = duration_text(d@);
    let head = sign_text(x.num < 0) + coarse_text(b) + nat_text(b.seconds as nat);
    assert(text =~= head + " s"@);
    let n = text.len() as int;
    assert(text.subrange(n - 2, n) =~= " s"@);
    assert(text[n - 2] == ' ');
    if "ms"@.is_suffix_of(text) {
        assert(text.subrange(n - 2, n)[0] == 'm');
    }
    if "ns"@.is_suffix_of(text) {
        assert(text.subrange(n - 2, n)[0] == 'n');
    }
}

} // verus!
