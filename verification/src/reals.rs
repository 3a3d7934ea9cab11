//! Facts of real arithmetic that the laws of rescaling rest on.

use vstd::prelude::*;

verus! {

/// The product of two integers, read as a real, is the product of the reals.
pub proof fn lemma_real_product(a: int, b: int)
    ensures
        (a * b) as real == a as real * b as real,
{
    assert((a * b) as real == a as real * b as real) by (nonlinear_arith);
}

/// Multiplying and then dividing by the same number changes nothing.
pub proof fn lemma_real_quotient(a: real, b: real)
    requires
        b != 0real,
    ensures
        (a * b) / b == a,
{
    assert((a * b) / b == a) by (nonlinear_arith)
        requires
            b != 0real,
    ;
}

/// Fractions over one denominator subtract by their numerators.
pub proof fn lemma_real_difference(a: real, b: real, c: real)
    requires
        c != 0real,
    ensures
        a / c - b / c == (a - b) / c,
{
    assert(a / c - b / c == (a - b) / c) by (nonlinear_arith)
        requires
            c != 0real,
    ;
}

/// A fraction keeps its value when both of its parts change sign.
pub proof fn lemma_real_signs(a: real, c: real)
    requires
        c != 0real,
    ensures
        (-a) / (-c) == a / c,
{
    assert((-a) / (-c) == a / c) by (nonlinear_arith)
        requires
            c != 0real,
    ;
}

/// A multiple of the denominator leaves a fraction as a whole number.
pub proof fn lemma_real_whole_part(x: real, y: real, d: real)
    requires
        d != 0real,
    ensures
        (x + y * d) / d == x / d + y,
{
    assert((x + y * d) / d == x / d + y) by (nonlinear_arith)
        requires
            d != 0real,
    ;
}

/// Dividing by a fraction multiplies by its denominator.
pub proof fn lemma_real_divide_by_fraction(k: real, d: real, r: real)
    requires
        d != 0real,
        r != 0real,
    ensures
        d / r != 0real,
        k / (d / r) == (k * r) / d,
{
    assert(d / r != 0real && k / (d / r) == (k * r) / d) by (nonlinear_arith)
        requires
            d != 0real,
            r != 0real,
    ;
}

/// A factor that one fraction carries above and the other below cancels.
pub proof fn lemma_real_cancel(k: real, u: real, d: real, r: real)
    requires
        d != 0real,
        r != 0real,
    ensures
        ((k * r) / d) * (u / r) == (k * u) / d,
{
    let p = (k * r) / d;
    let t = u / r;
    assert(p * d == k * r) by (nonlinear_arith)
        requires
            p == (k * r) / d,
            d != 0real,
    ;
    assert(t * r == u) by (nonlinear_arith)
        requires
            t == u / r,
            r != 0real,
    ;
    assert((p * t) * d == k * u) by (nonlinear_arith)
        requires
            p * d == k * r,
            t * r == u,
    ;
    lemma_real_quotient(p * t, d);
}

/// A factor common to both parts of a fraction cancels.
pub proof fn lemma_real_common_factor(n: real, r: real, k: real)
    requires
        r != 0real,
        k != 0real,
    ensures
        (n * k) / (r * k) == n / r,
{
    assert((n * k) / (r * k) == n / r) by (nonlinear_arith)
        requires
            r != 0real,
            k != 0real,
    ;
}

/// Dividing by a product divides by its factors in turn.
pub proof fn lemma_real_divide_in_turn(a: real, b: real, c: real)
    requires
        b != 0real,
        c != 0real,
    ensures
        a / (b * c) == (a / b) / c,
{
    let q = a / b;
    assert(q * b == a) by (nonlinear_arith)
        requires
            q == a / b,
            b != 0real,
    ;
    let p = q / c;
    assert(p * c == q) by (nonlinear_arith)
        requires
            p == q / c,
            c != 0real,
    ;
    assert(p * (b * c) == a) by (nonlinear_arith)
        requires
            p * c == q,
            q * b == a,
    ;
    assert(b * c != 0real) by (nonlinear_arith)
        requires
            b != 0real,
            c != 0real,
    ;
    lemma_real_quotient(p, b * c);
}

/// Two divisions may change places.
pub proof fn lemma_real_swap_divisors(k: real, d: real, u: real)
    requires
        d != 0real,
        u != 0real,
    ensures
        (k / d) / u == (k / u) / d,
{
    lemma_real_divide_in_turn(k, d, u);
    lemma_real_divide_in_turn(k, u, d);
    assert(d * u == u * d) by (nonlinear_arith);
}

/// A divisor of a sum goes to its terms, and to one factor of a product.
pub proof fn lemma_real_share(s: real, x: real, m: real, u: real)
    requires
        u != 0real,
    ensures
        (s * x + m) / u == (s / u) * x + m / u,
{
    let p = s / u;
    let q = m / u;
    assert(p * u == s) by (nonlinear_arith)
        requires
            p == s / u,
            u != 0real,
    ;
    assert(q * u == m) by (nonlinear_arith)
        requires
            q == m / u,
            u != 0real,
    ;
    assert((p * x + q) * u == s * x + m) by (nonlinear_arith)
        requires
            p * u == s,
            q * u == m,
    ;
    lemma_real_quotient(p * x + q, u);
}

/// Multiplication spreads over a difference.
pub proof fn lemma_real_distribute(k: real, a: real, b: real)
    ensures
        k * (a - b) == k * a - k * b,
{
    assert(k * (a - b) == k * a - k * b) by (nonlinear_arith);
}

} // verus!
