//! Greatest common divisors of natural numbers, and the facts about them that
//! make a fraction in lowest terms unique.

use vstd::arithmetic::div_mod::{
    lemma_fundamental_div_mod, lemma_mod_multiples_basic, lemma_truncate_middle,
};
use vstd::prelude::*;

verus! {

/// The greatest common divisor of `a` and `b`, by Euclid's recursion.
/// `gcd(a, 0) == a`, so `gcd(0, 0) == 0`.
pub open spec fn gcd(a: nat, b: nat) -> nat
    decreases b,
{
    if b == 0 {
        a
    } else {
        gcd(b, a % b)
    }
}

/// `d` divides `n`: `d` is positive and leaves no remainder.
pub open spec fn divides(d: nat, n: nat) -> bool {
    d > 0 && n % d == 0
}

/// A multiple of `d` is divisible by `d`.
pub proof fn lemma_multiple_divides(d: nat, k: nat)
    requires
        d > 0,
    ensures
        divides(d, d * k),
{
    lemma_mod_multiples_basic(k as int, d as int);
    assert(d * k == k * d) by (nonlinear_arith);
}

/// What `d` divides is `d` times the quotient.
pub proof fn lemma_divides_exact(d: nat, n: nat)
    requires
        divides(d, n),
    ensures
        n == d * (n / d),
{
    lemma_fundamental_div_mod(n as int, d as int);
}

/// A divisor of a positive number is no larger than it.
pub proof fn lemma_divisor_bound(d: nat, n: nat)
    requires
        divides(d, n),
        n > 0,
    ensures
        d <= n,
        n / d >= 1,
{
    lemma_divides_exact(d, n);
    let q = n / d;
    assert(q >= 1 && d <= n) by (nonlinear_arith)
        requires
            n == d * q,
            n > 0,
            d > 0,
    ;
}

/// Divisibility passes along: if `a` divides `b` and `b` divides `c`, then
/// `a` divides `c`.
pub proof fn lemma_divides_transitive(a: nat, b: nat, c: nat)
    requires
        divides(a, b),
        divides(b, c),
    ensures
        divides(a, c),
{
    lemma_divides_exact(a, b);
    lemma_divides_exact(b, c);
    let x = b / a;
    let y = c / b;
    assert(c == a * (x * y)) by (nonlinear_arith)
        requires
            b == a * x,
            c == b * y,
    ;
    lemma_multiple_divides(a, x * y);
}

/// What divides two numbers divides the remainder of one by the other, and
/// what divides a number and a remainder by it divides the dividend.
pub proof fn lemma_divides_remainder(d: nat, a: nat, b: nat)
    requires
        d > 0,
        b > 0,
        divides(d, b),
    ensures
        divides(d, a) <==> divides(d, a % b),
{
    lemma_fundamental_div_mod(a as int, b as int);
    lemma_divides_exact(d, b);
    let q = a / b;
    let r = a % b;
    let y = b / d;
    if divides(d, a) {
        lemma_divides_exact(d, a);
        let x = a / d;
        assert(x >= y * q && r == d * ((x - y * q) as nat)) by (nonlinear_arith)
            requires
                a == b * q + r,
                a == d * x,
                b == d * y,
                d > 0,
                r >= 0,
        ;
        lemma_multiple_divides(d, (x - y * q) as nat);
    }
    if divides(d, r) {
        lemma_divides_exact(d, r);
        let z = r / d;
        assert(a == d * (y * q + z)) by (nonlinear_arith)
            requires
                a == b * q + r,
                r == d * z,
                b == d * y,
        ;
        lemma_multiple_divides(d, y * q + z);
    }
}

/// The greatest common divisor of two numbers that are not both zero is
/// positive and divides both.
pub proof fn lemma_gcd_divides(a: nat, b: nat)
    requires
        a > 0 || b > 0,
    ensures
        gcd(a, b) > 0,
        divides(gcd(a, b), a),
        divides(gcd(a, b), b),
    decreases b,
{
    if b == 0 {
        lemma_multiple_divides(a, 1);
        lemma_multiple_divides(a, 0);
        assert(a * 1 == a && a * 0 == 0) by (nonlinear_arith);
    } else {
        lemma_gcd_divides(b, a % b);
        lemma_divides_remainder(gcd(a, b), a, b);
    }
}

/// Every common divisor of two numbers divides their greatest common divisor.
pub proof fn lemma_gcd_greatest(a: nat, b: nat, d: nat)
    requires
        divides(d, a),
        divides(d, b),
    ensures
        divides(d, gcd(a, b)),
    decreases b,
{
    if b != 0 {
        lemma_divides_remainder(d, a, b);
        lemma_gcd_greatest(b, a % b, d);
    }
}

/// The greatest common divisor does not depend on the order of its arguments.
pub proof fn lemma_gcd_symmetric(a: nat, b: nat)
    ensures
        gcd(a, b) == gcd(b, a),
{
    if a == 0 && b == 0 {
    } else {
        lemma_gcd_divides(a, b);
        lemma_gcd_divides(b, a);
        lemma_gcd_greatest(a, b, gcd(b, a));
        lemma_gcd_greatest(b, a, gcd(a, b));
        lemma_divisor_bound(gcd(b, a), gcd(a, b));
        lemma_divisor_bound(gcd(a, b), gcd(b, a));
    }
}

/// A common factor can be taken out of a greatest common divisor.
pub proof fn lemma_gcd_scale(a: nat, b: nat, k: nat)
    ensures
        gcd(k * a, k * b) == k * gcd(a, b),
    decreases b,
{
    if b == 0 {
        assert(k * b == 0) by (nonlinear_arith)
            requires
                b == 0,
        ;
    } else if k == 0 {
        assert(k * a == 0 && k * b == 0 && k * gcd(a, b) == 0) by (nonlinear_arith)
            requires
                k == 0,
        ;
    } else {
        lemma_truncate_middle(a as int, k as int, b as int);
        assert(k * b > 0) by (nonlinear_arith)
            requires
                k > 0,
                b > 0,
        ;
        assert((k * a) % (k * b) == k * (a % b));
        lemma_gcd_scale(b, a % b, k);
    }
}

/// Dividing two numbers by their greatest common divisor leaves them without
/// a common divisor but one.
pub proof fn lemma_quotients_coprime(a: nat, b: nat)
    requires
        a > 0 || b > 0,
    ensures
        gcd(a / gcd(a, b), b / gcd(a, b)) == 1,
{
    let g = gcd(a, b);
    lemma_gcd_divides(a, b);
    lemma_divides_exact(g, a);
    lemma_divides_exact(g, b);
    lemma_gcd_scale(a / g, b / g, g);
    let h = gcd(a / g, b / g);
    assert(h == 1) by (nonlinear_arith)
        requires
            g == g * h,
            g > 0,
    ;
}

/// Euclid's lemma: what divides a product and has no common divisor with one
/// factor divides the other.
pub proof fn lemma_coprime_divides_product(a: nat, b: nat, c: nat)
    requires
        gcd(a, b) == 1,
        divides(a, b * c),
    ensures
        divides(a, c),
{
    lemma_gcd_scale(a, b, c);
    assert(c * gcd(a, b) == c) by (nonlinear_arith)
        requires
            gcd(a, b) == 1,
    ;
    lemma_multiple_divides(a, c);
    assert(a * c == c * a && b * c == c * b) by (nonlinear_arith);
    lemma_gcd_greatest(c * a, c * b, a);
}

/// What divides one of two numbers without a common divisor has no common
/// divisor with the other.
pub proof fn lemma_coprime_divisor(a: nat, b: nat, part: nat)
    requires
        gcd(a, b) == 1,
        divides(part, a),
    ensures
        gcd(part, b) == 1,
{
    let h = gcd(part, b);
    lemma_gcd_divides(part, b);
    lemma_divides_transitive(h, part, a);
    lemma_gcd_greatest(a, b, h);
    lemma_divisor_bound(h, 1);
}

/// A product of two numbers that each have no common divisor with a third
/// has none with it either.
pub proof fn lemma_coprime_product(a: nat, c: nat, m: nat)
    requires
        gcd(a, m) == 1,
        gcd(c, m) == 1,
    ensures
        gcd(a * c, m) == 1,
{
    if m == 0 {
        assert(a * c == 1) by (nonlinear_arith)
            requires
                a == 1,
                c == 1,
        ;
    } else {
        let h = gcd(a * c, m);
        lemma_gcd_divides(a * c, m);
        let k = gcd(h, a);
        lemma_gcd_divides(h, a);
        lemma_divides_transitive(k, h, m);
        lemma_gcd_greatest(a, m, k);
        lemma_divisor_bound(k, 1);
        lemma_coprime_divides_product(h, a, c);
        lemma_gcd_greatest(c, m, h);
        lemma_divisor_bound(h, 1);
    }
}

/// A fraction in lowest terms is the only one of its value: two pairs, each
/// without a common divisor, whose cross products agree are the same pair.
pub proof fn lemma_lowest_terms_unique(n1: nat, d1: nat, n2: nat, d2: nat)
    requires
        d1 > 0,
        d2 > 0,
        gcd(n1, d1) == 1,
        gcd(n2, d2) == 1,
        n1 * d2 == n2 * d1,
    ensures
        n1 == n2,
        d1 == d2,
{
    lemma_gcd_symmetric(n1, d1);
    lemma_gcd_symmetric(n2, d2);
    lemma_multiple_divides(d1, n2);
    assert(d1 * n2 == n1 * d2) by (nonlinear_arith)
        requires
            n1 * d2 == n2 * d1,
    ;
    lemma_coprime_divides_product(d1, n1, d2);
    lemma_multiple_divides(d2, n1);
    assert(d2 * n1 == n2 * d1) by (nonlinear_arith)
        requires
            n1 * d2 == n2 * d1,
    ;
    lemma_coprime_divides_product(d2, n2, d1);
    lemma_divisor_bound(d1, d2);
    lemma_divisor_bound(d2, d1);
    assert(n1 == n2) by (nonlinear_arith)
        requires
            n1 * d2 == n2 * d1,
            d1 == d2,
            d1 > 0,
    ;
}

/// One has no common divisor with anything.
pub proof fn lemma_gcd_one(d: nat)
    ensures
        gcd(1, d) == 1,
        gcd(d, 1) == 1,
{
    reveal_with_fuel(gcd, 3);
    lemma_gcd_symmetric(1, d);
}

/// The greatest common divisor of zero and `d` is `d`.
pub proof fn lemma_gcd_zero(d: nat)
    ensures
        gcd(0, d) == d,
        gcd(d, 0) == d,
{
    reveal_with_fuel(gcd, 3);
}

/// Computes the greatest common divisor by Euclid's algorithm.
pub fn gcd_u128(a: u128, b: u128) -> (g: u128)
    ensures
        g == gcd(a as nat, b as nat),
{
    let mut x: u128 = a;
    let mut y: u128 = b;
    while y != 0
        invariant
            gcd(x as nat, y as nat) == gcd(a as nat, b as nat),
        decreases y,
    {
        let r: u128 = x % y;
        x = y;
        y = r;
    }
    x
}

} // verus!
