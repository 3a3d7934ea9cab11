//! Bringing a height map to its lowest terms.
//!
//! Rescaling multiplies the resolution of a map, and with it every stored
//! number. Dividing the resolution, the bounds and the samples by their
//! greatest common divisor undoes the growth without changing any elevation.

use crate::heightmap::{HeightMap, HeightMapView};
use crate::num::{
    divide_exactly, divides, gcd, greatest_common_divisor, lemma_divides_combination,
    lemma_divides_itself, lemma_gcd_divides, magnitude, magnitude_of,
};
use crate::reals::{lemma_real_common_factor, lemma_real_product};
use vstd::arithmetic::div_mod::lemma_fundamental_div_mod;
use vstd::prelude::*;

verus! {

/// Where `d` divides `g` and `g` divides `x`, `d` divides `x`; a `g` of 0
/// stands for an `x` of 0.
proof fn lemma_divides_through(d: nat, g: nat, x: int)
    requires
        d > 0,
        g > 0 ==> divides(d, g as int) && divides(g, x),
        g == 0 ==> x == 0,
    ensures
        divides(d, x),
{
    lemma_divides_itself(d);
    if g > 0 {
        lemma_fundamental_div_mod(x, g as int);
        lemma_divides_combination(d, g as int, x / (g as int), 0);
    }
}

/// What divides the distance of `x` from zero divides `x`.
proof fn lemma_divides_signed(d: nat, x: int)
    requires
        divides(d, magnitude(x)),
    ensures
        divides(d, x),
{
    lemma_divides_itself(d);
    if x < 0 {
        lemma_divides_combination(d, magnitude(x), -1, 0);
        assert(magnitude(x) * (-1) + 0 == x);
    }
}

impl HeightMapView {
    /// The greatest common divisor of the resolution, the stored bounds and
    /// the first `n` stored samples.
    pub open spec fn divisor_upto(self, n: int) -> nat
        decreases n,
    {
        if n <= 0 {
            gcd(
                gcd(self.resolution, magnitude(self.max_height) as nat),
                magnitude(self.min_height) as nat,
            )
        } else {
            gcd(self.divisor_upto(n - 1), magnitude(self.map[n - 1]) as nat)
        }
    }

    /// The greatest common divisor of every number that the map stores.
    pub open spec fn common_divisor(self) -> nat {
        self.divisor_upto(self.map.len() as int)
    }

    /// The map with every stored number divided by `d`.
    pub open spec fn divided(self, d: int) -> HeightMapView {
        HeightMapView {
            width: self.width,
            max_height: self.max_height / d,
            min_height: self.min_height / d,
            map: Seq::new(self.map.len(), |i: int| self.map[i] / d),
            resolution: (self.resolution as int / d) as nat,
        }
    }

    /// The map in lowest terms: every stored number divided by their greatest
    /// common divisor.
    pub open spec fn reduced(self) -> HeightMapView {
        if self.common_divisor() == 0 {
            self
        } else {
            self.divided(self.common_divisor() as int)
        }
    }

    /// The common divisor divides what it was taken of, and is 0 only where
    /// all of that is 0.
    pub proof fn lemma_divisor_divides(self, n: int)
        requires
            0 <= n <= self.map.len(),
        ensures
            self.divisor_upto(n) == 0 ==> {
                &&& self.resolution == 0
                &&& self.max_height == 0
                &&& self.min_height == 0
                &&& forall|j: int| 0 <= j < n ==> #[trigger] self.map[j] == 0
            },
            self.divisor_upto(n) > 0 ==> {
                &&& divides(self.divisor_upto(n), self.resolution as int)
                &&& divides(self.divisor_upto(n), self.max_height)
                &&& divides(self.divisor_upto(n), self.min_height)
                &&& forall|j: int|
                    0 <= j < n ==> divides(self.divisor_upto(n), #[trigger] self.map[j])
            },
        decreases n,
    {
        let d = self.divisor_upto(n);
        if n == 0 {
            let top = magnitude(self.max_height) as nat;
            let bottom = magnitude(self.min_height) as nat;
            let first = gcd(self.resolution, top);
            lemma_gcd_divides(self.resolution, top);
            lemma_gcd_divides(first, bottom);
            if d > 0 {
                lemma_divides_through(d, first, self.resolution as int);
                lemma_divides_through(d, first, top as int);
                lemma_divides_signed(d, self.max_height);
                lemma_divides_signed(d, self.min_height);
            }
        } else {
            let before = self.divisor_upto(n - 1);
            let last = magnitude(self.map[n - 1]) as nat;
            self.lemma_divisor_divides(n - 1);
            lemma_gcd_divides(before, last);
            if d > 0 {
                lemma_divides_through(d, before, self.resolution as int);
                lemma_divides_through(d, before, self.max_height);
                lemma_divides_through(d, before, self.min_height);
                lemma_divides_signed(d, self.map[n - 1]);
                assert forall|j: int| 0 <= j < n implies divides(d, #[trigger] self.map[j]) by {
                    if j < n - 1 {
                        lemma_divides_through(d, before, self.map[j]);
                    }
                }
            }
        }
    }

    /// Bringing a map to lowest terms changes no elevation.
    pub proof fn lemma_reduced_elevation(self, i: int)
        requires
            self.resolution >= 1,
        ensures
            self.reduced().resolution >= 1,
            self.reduced().max_elevation() == self.max_elevation(),
            self.reduced().min_elevation() == self.min_elevation(),
            0 <= i < self.map.len() ==> self.reduced().elevation(i) == self.elevation(i),
    {
        let d = self.common_divisor();
        self.lemma_divisor_divides(self.map.len() as int);
        let steps = self.resolution as int / (d as int);
        lemma_fundamental_div_mod(self.resolution as int, d as int);
        assert(steps >= 1) by (nonlinear_arith)
            requires
                self.resolution == d * steps + 0,
                self.resolution >= 1,
                d > 0,
        ;
        lemma_same_fraction(self.max_height, self.resolution as int, d as int);
        lemma_same_fraction(self.min_height, self.resolution as int, d as int);
        if 0 <= i < self.map.len() {
            lemma_same_fraction(self.map[i], self.resolution as int, d as int);
        }
    }
}

/// A fraction keeps its value when both of its parts are divided by a common
/// divisor.
proof fn lemma_same_fraction(n: int, r: int, d: int)
    requires
        d > 0,
        r != 0,
        n % d == 0,
        r % d == 0,
    ensures
        (n / d) as real / (r / d) as real == n as real / r as real,
{
    let a = n / d;
    let b = r / d;
    lemma_fundamental_div_mod(n, d);
    lemma_fundamental_div_mod(r, d);
    assert(d * a == a * d) by (nonlinear_arith);
    assert(d * b == b * d) by (nonlinear_arith);
    assert(b != 0) by (nonlinear_arith)
        requires
            r == b * d,
            r != 0,
    ;
    lemma_real_product(a, d);
    lemma_real_product(b, d);
    lemma_real_common_factor(a as real, b as real, d as real);
}

impl HeightMap {
    /// Makes a copy of the map in lowest terms.
    ///
    /// The resolution, the bounds and the samples are divided by their
    /// greatest common divisor, so every elevation stays what it was while
    /// the stored numbers become as small as they can be. This keeps maps
    /// that are rescaled again and again within range.
    pub fn reduced(&self) -> (result: HeightMap)
        ensures
            result@ == self@.reduced(),
            self.resolution >= 1 ==> {
                &&& result.resolution >= 1
                &&& result@.max_elevation() == self@.max_elevation()
                &&& result@.min_elevation() == self@.min_elevation()
                &&& forall|i: int|
                    0 <= i < self.map@.len() ==> #[trigger] result@.elevation(i)
                        == self@.elevation(i)
            },
    {
        let mut common: u64 = greatest_common_divisor(
            greatest_common_divisor(self.resolution, magnitude_of(self.max_height)),
            magnitude_of(self.min_height),
        );
        let mut i: usize = 0;
        while i < self.map.len()
            invariant
                i <= self.map@.len(),
                common == self@.divisor_upto(i as int),
            decreases self.map@.len() - i,
        {
            common = greatest_common_divisor(common, magnitude_of(self.map[i]));
            i += 1;
        }
        proof {
            self@.lemma_divisor_divides(self.map@.len() as int);
        }
        let divisor: u64 = if common == 0 {
            1
        } else {
            common
        };
        let ghost target = self@.reduced();
        let mut buffer: Vec<i64> = Vec::with_capacity(self.map.len());
        let mut k: usize = 0;
        while k < self.map.len()
            invariant
                k <= self.map@.len(),
                buffer@.len() == k,
                divisor >= 1,
                forall|j: int|
                    0 <= j < self.map@.len() ==> divides(divisor as nat, #[trigger] self@.map[j]),
                forall|j: int|
                    0 <= j < k ==> #[trigger] buffer@[j] == self@.map[j] / (divisor as int),
            decreases self.map@.len() - k,
        {
            assert(divides(divisor as nat, self@.map[k as int]));
            buffer.push(divide_exactly(self.map[k], divisor));
            k += 1;
        }
        let result = HeightMap {
            width: self.width,
            max_height: divide_exactly(self.max_height, divisor),
            min_height: divide_exactly(self.min_height, divisor),
            map: buffer,
            resolution: self.resolution / divisor,
        };
        proof {
            assert(result@.map =~= target.map);
            assert(result@ == target);
            if self.resolution >= 1 {
                assert forall|i: int| 0 <= i < self.map@.len() implies #[trigger] result@.elevation(
                    i,
                ) == self@.elevation(i) by {
                    self@.lemma_reduced_elevation(i);
                }
                self@.lemma_reduced_elevation(0);
            }
        }
        result
    }
}

} // verus!
