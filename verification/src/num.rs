use vstd::arithmetic::div_mod::{lemma_fundamental_div_mod, lemma_fundamental_div_mod_converse};
use vstd::prelude::*;

verus! {

/// The distance of `x` from zero.
pub open spec fn magnitude(x: int) -> int {
    if x >= 0 {
        x
    } else {
        -x
    }
}

/// The greatest common divisor of `a` and `b`, by repeated remainders; 0 where
/// both are 0.
pub open spec fn gcd(a: nat, b: nat) -> nat
    decreases b,
{
    if b == 0 {
        a
    } else {
        gcd(b, a % b)
    }
}

/// `d` is positive and `x` is a multiple of it.
pub open spec fn divides(d: nat, x: int) -> bool {
    d > 0 && x % (d as int) == 0
}

/// A sum of multiples of `d` is a multiple of `d`.
pub proof fn lemma_divides_combination(d: nat, x: int, k: int, y: int)
    requires
        divides(d, x),
        divides(d, y),
    ensures
        divides(d, x * k + y),
{
    let step = d as int;
    let xq = x / step;
    let yq = y / step;
    lemma_fundamental_div_mod(x, step);
    lemma_fundamental_div_mod(y, step);
    assert(x * k + y == (xq * k + yq) * step + 0) by (nonlinear_arith)
        requires
            x == step * xq,
            y == step * yq,
    ;
    lemma_fundamental_div_mod_converse(x * k + y, step, xq * k + yq, 0);
}

/// A positive number divides itself and zero.
pub proof fn lemma_divides_itself(d: nat)
    requires
        d > 0,
    ensures
        divides(d, d as int),
        divides(d, 0),
{
    lemma_fundamental_div_mod_converse(d as int, d as int, 1, 0);
    lemma_fundamental_div_mod_converse(0, d as int, 0, 0);
}

/// The greatest common divisor divides both numbers; it is 0 only where both
/// are.
pub proof fn lemma_gcd_divides(a: nat, b: nat)
    ensures
        gcd(a, b) == 0 <==> a == 0 && b == 0,
        gcd(a, b) > 0 ==> divides(gcd(a, b), a as int) && divides(gcd(a, b), b as int),
    decreases b,
{
    if b == 0 {
        if a > 0 {
            lemma_divides_itself(a);
        }
    } else {
        let rest = a % b;
        lemma_gcd_divides(b, rest);
        let g = gcd(b, rest);
        lemma_fundamental_div_mod(a as int, b as int);
        lemma_divides_combination(g, b as int, a as int / b as int, rest as int);
    }
}

/// Every common divisor of two numbers divides their greatest common
/// divisor.
pub proof fn lemma_gcd_is_greatest(a: nat, b: nat, e: nat)
    requires
        divides(e, a as int),
        divides(e, b as int),
    ensures
        divides(e, gcd(a, b) as int),
    decreases b,
{
    if b != 0 {
        lemma_fundamental_div_mod(a as int, b as int);
        lemma_divides_combination(e, b as int, -(a as int / b as int), a as int);
        assert((b as int) * (-(a as int / b as int)) + a == a % b) by (nonlinear_arith)
            requires
                a == b * (a as int / b as int) + (a % b),
        ;
        lemma_gcd_is_greatest(b, a % b, e);
    }
}

/// The distance of `x` from zero.
pub fn magnitude_of(x: i64) -> (m: u64)
    ensures
        m == magnitude(x as int),
{
    if x >= 0 {
        x as u64
    } else {
        (-(x as i128)) as u64
    }
}

/// The greatest common divisor of `a` and `b`.
pub fn greatest_common_divisor(a: u64, b: u64) -> (g: u64)
    ensures
        g == gcd(a as nat, b as nat),
{
    let mut x: u64 = a;
    let mut y: u64 = b;
    while y != 0
        invariant
            gcd(x as nat, y as nat) == gcd(a as nat, b as nat),
        decreases y,
    {
        let rest: u64 = x % y;
        x = y;
        y = rest;
    }
    x
}

/// The quotient of `x` by one of its divisors.
pub fn divide_exactly(x: i64, d: u64) -> (q: i64)
    requires
        divides(d as nat, x as int),
    ensures
        q == x as int / d as int,
        q * d == x,
{
    let size: u64 = magnitude_of(x);
    let part: u64 = size / d;
    proof {
        let step = d as int;
        lemma_divides_itself(d as nat);
        lemma_divides_combination(d as nat, x as int, -1, 0);
        assert(x * (-1) + 0 == -x);
        lemma_fundamental_div_mod(size as int, step);
        lemma_fundamental_div_mod(x as int, step);
        assert(size == part * step) by (nonlinear_arith)
            requires
                size == step * part + 0,
        ;
        assert(part <= size) by (nonlinear_arith)
            requires
                size == part * step,
                step >= 1,
                part >= 0,
        ;
        if x < 0 {
            assert(x == (-part) * step + 0) by (nonlinear_arith)
                requires
                    -x == part * step,
            ;
            lemma_fundamental_div_mod_converse(x as int, step, -part, 0);
        }
        assert((x as int / step) * step == x) by (nonlinear_arith)
            requires
                x == step * (x as int / step) + 0,
        ;
    }
    if x >= 0 {
        part as i64
    } else {
        (-(part as i128)) as i64
    }
}

/// `w` times `w`.
pub open spec fn square(w: int) -> int {
    w * w
}

/// `n` is the square of a natural number.
pub open spec fn is_perfect_square(n: int) -> bool {
    exists|w: int| 0 <= w && #[trigger] square(w) == n
}

/// Squaring keeps the order of natural numbers.
pub proof fn lemma_square_increases(a: int, b: int)
    requires
        0 <= a <= b,
    ensures
        square(a) <= square(b),
        a < b ==> square(a) < square(b),
{
    assert(a * a <= b * b) by (nonlinear_arith)
        requires
            0 <= a <= b,
    ;
    if a < b {
        assert(a * a < b * b) by (nonlinear_arith)
            requires
                0 <= a < b,
        ;
    }
}

/// A number strictly between two neighbouring squares is no square.
pub proof fn lemma_between_squares(n: int, r: int)
    requires
        0 <= r,
        square(r) < n < square(r + 1),
    ensures
        !is_perfect_square(n),
{
    assert forall|w: int| 0 <= w implies #[trigger] square(w) != n by {
        if w <= r {
            lemma_square_increases(w, r);
        } else {
            lemma_square_increases(r + 1, w);
        }
    }
}

/// A straight line from `low * span` to `high * span`: the point that lies
/// `part` out of `span` along the way lies between the two ends, and the ends
/// are reached at `part == 0` and `part == span`.
pub proof fn lemma_between_ends(low: int, high: int, part: int, span: int)
    requires
        low <= high,
        0 <= part <= span,
    ensures
        low * span <= (high - low) * part + low * span <= high * span,
        (high - low) * 0 + low * span == low * span,
        (high - low) * span + low * span == high * span,
{
    let rise = high - low;
    vstd::arithmetic::mul::lemma_mul_nonnegative(rise, part);
    vstd::arithmetic::mul::lemma_mul_inequality(part, span, rise);
    assert(part * rise == rise * part) by (nonlinear_arith);
    assert(span * rise == rise * span) by (nonlinear_arith);
    assert((high - low) * span + low * span == high * span) by (nonlinear_arith);
    assert((high - low) * 0 + low * span == low * span) by (nonlinear_arith);
}

/// The integer square root: the largest `root` whose square is at most `n`.
pub fn isqrt(n: u64) -> (root: u32)
    ensures
        square(root as int) <= n < square(root + 1),
{
    let mut low: u64 = 0;
    let mut high: u64 = 0x1_0000_0000;
    while high - low > 1
        invariant
            low < high <= 0x1_0000_0000,
            square(low as int) <= n < square(high as int),
        decreases high - low,
    {
        let middle: u64 = low + (high - low) / 2;
        assert(middle * middle <= 0xffff_ffff * 0xffff_ffff) by (nonlinear_arith)
            requires
                middle <= 0xffff_ffff,
        ;
        if middle * middle <= n {
            low = middle;
        } else {
            high = middle;
        }
    }
    low as u32
}

} // verus!
