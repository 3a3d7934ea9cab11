//! Moving the elevations of a height map to another range.
//!
//! A map whose bounds are `lo` and `hi` is sent to the range from `min` to
//! `max` by the one straight line that takes `lo` to `min` and `hi` to `max`:
//! an elevation `h` becomes `scale * (h - lo) + min` with
//! `scale = (max - min) / (hi - lo)`. The result is exact. It is stored in
//! steps of `1 / |hi' - lo'|`, where `hi'` and `lo'` are the stored bounds of
//! the source.

use crate::error::HeightMapError;
use crate::heightmap::{lemma_max_by_bound, lemma_min_by_bound, HeightMapView};
use crate::num::{lemma_between_ends, magnitude};
use crate::reals::{
    lemma_real_cancel, lemma_real_difference, lemma_real_distribute,
    lemma_real_divide_by_fraction, lemma_real_divide_in_turn, lemma_real_product,
    lemma_real_quotient, lemma_real_share, lemma_real_signs, lemma_real_swap_divisors,
    lemma_real_whole_part,
};
use vstd::prelude::*;

verus! {

/// What the stored sample `s` of a map with the stored bounds `hi` and `lo`
/// becomes when the map is sent to the range from `min` to `max`, in steps
/// of `1 / |hi - lo|`.
pub open spec fn rescaled_value(s: int, hi: int, lo: int, max: int, min: int) -> int {
    let moved = (max - min) * (s - lo) + min * (hi - lo);
    if hi - lo >= 0 {
        moved
    } else {
        -moved
    }
}

/// `x` fits 64 bits with a sign.
pub open spec fn in_i64(x: int) -> bool {
    i64::MIN <= x <= i64::MAX
}

impl HeightMapView {
    /// The stored upper bound less the stored lower bound.
    pub open spec fn span(self) -> int {
        self.max_height - self.min_height
    }

    /// What the stored sample `s` becomes when the map is sent to the range
    /// from `min` to `max`, in steps of `1 / |span|`.
    pub open spec fn rescaled_sample(self, s: int, max: int, min: int) -> int {
        rescaled_value(s, self.max_height, self.min_height, max, min)
    }

    /// The map sent to the range from `min` to `max`.
    pub open spec fn rescaled(self, max: int, min: int) -> HeightMapView {
        HeightMapView {
            width: self.width,
            max_height: max * magnitude(self.span()),
            min_height: min * magnitude(self.span()),
            map: Seq::new(self.map.len(), |i: int| self.rescaled_sample(self.map[i], max, min)),
            resolution: magnitude(self.span()) as nat,
        }
    }

    /// Every number of the map fits the integer type that stores it.
    pub open spec fn fits(self) -> bool {
        &&& self.width <= u16::MAX
        &&& in_i64(self.max_height)
        &&& in_i64(self.min_height)
        &&& self.resolution <= u64::MAX
        &&& forall|i: int| 0 <= i < self.map.len() ==> in_i64(#[trigger] self.map[i])
    }

    /// Why the map cannot be sent to the range from `min` to `max`, if it
    /// cannot.
    pub open spec fn rescale_error(self, max: int, min: int) -> Option<HeightMapError> {
        if self.span() == 0 {
            Some(HeightMapError::FlatSource)
        } else if !self.rescaled(max, min).fits() {
            Some(HeightMapError::OutOfRange)
        } else {
            None
        }
    }

    /// The map sent to the range from `min / unit` to `max / unit`.
    pub open spec fn rescaled_to(self, max: int, min: int, unit: nat) -> HeightMapView {
        HeightMapView {
            resolution: self.rescaled(max, min).resolution * unit,
            ..self.rescaled(max, min)
        }
    }

    /// Why the map cannot be sent to the range from `min / unit` to
    /// `max / unit`, if it cannot.
    pub open spec fn rescale_to_error(self, max: int, min: int, unit: nat) -> Option<
        HeightMapError,
    > {
        if unit == 0 {
            Some(HeightMapError::NoResolution)
        } else if self.span() == 0 {
            Some(HeightMapError::FlatSource)
        } else if !self.rescaled_to(max, min, unit).fits() {
            Some(HeightMapError::OutOfRange)
        } else {
            None
        }
    }

    /// The factor by which rescaling to the range from `min / unit` to
    /// `max / unit` stretches elevations.
    pub open spec fn scale_to(self, max: int, min: int, unit: nat) -> real {
        ((max - min) as real / unit as real) / (self.max_elevation() - self.min_elevation())
    }

    /// The factor by which rescaling to the range from `min` to `max`
    /// stretches elevations.
    pub open spec fn scale(self, max: int, min: int) -> real {
        (max - min) as real / (self.max_elevation() - self.min_elevation())
    }

    /// Rescaling is the straight line through the bounds: an elevation `h`
    /// becomes `scale * (h - lo) + min`, where `lo` is the lower bound of the
    /// source. The bounds of the result are `max` and `min`.
    pub proof fn lemma_rescaled_elevation(self, max: int, min: int, i: int)
        requires
            self.resolution >= 1,
            self.span() != 0,
        ensures
            self.rescaled(max, min).resolution >= 1,
            self.rescaled(max, min).max_elevation() == max as real,
            self.rescaled(max, min).min_elevation() == min as real,
            0 <= i < self.map.len() ==> self.rescaled(max, min).elevation(i) == self.scale(max, min)
                * (self.elevation(i) - self.min_elevation()) + min as real,
    {
        let steps = magnitude(self.span());
        let out = self.rescaled(max, min);
        let maxr = max as real;
        let minr = min as real;
        let stepsr = steps as real;
        lemma_real_product(max, steps);
        lemma_real_product(min, steps);
        lemma_real_quotient(maxr, stepsr);
        lemma_real_quotient(minr, stepsr);
        if 0 <= i < self.map.len() {
            let s = self.map[i];
            let res = self.resolution as real;
            let hi = self.max_height as real;
            let lo = self.min_height as real;
            let sr = s as real;
            let d = hi - lo;
            let k = maxr - minr;
            let u = sr - lo;
            let moved = (max - min) * (s - self.min_height) + min * self.span();
            let movedr = moved as real;
            lemma_real_product(max - min, s - self.min_height);
            lemma_real_product(min, self.span());
            assert((max - min) as real == k);
            assert((s - self.min_height) as real == u);
            assert(self.span() as real == d);
            assert(movedr == k * u + minr * d);
            assert(out.elevation(i) == movedr / d) by {
                if self.span() >= 0 {
                    assert(out.map[i] == moved);
                    assert(stepsr == d);
                } else {
                    assert(out.map[i] == -moved);
                    assert(stepsr == -d);
                    assert(out.map[i] as real == -movedr);
                    lemma_real_signs(movedr, d);
                }
            }
            lemma_real_whole_part(k * u, minr, d);
            assert(out.elevation(i) == (k * u) / d + minr);
            lemma_real_difference(sr, lo, res);
            lemma_real_difference(hi, lo, res);
            lemma_real_divide_by_fraction(k, d, res);
            lemma_real_cancel(k, u, d, res);
            assert(self.elevation(i) - self.min_elevation() == u / res);
            assert(self.max_elevation() - self.min_elevation() == d / res);
            assert(self.scale(max, min) == (k * res) / d);
        }
    }

    /// Rescaling to bounds given as fractions is the straight line through
    /// the bounds, too: an elevation `h` becomes `scale * (h - lo) + min / unit`,
    /// and the bounds of the result are `max / unit` and `min / unit`.
    pub proof fn lemma_rescaled_to_elevation(self, max: int, min: int, unit: nat, i: int)
        requires
            self.resolution >= 1,
            self.span() != 0,
            unit >= 1,
        ensures
            self.rescaled_to(max, min, unit).resolution >= 1,
            self.rescaled_to(max, min, unit).max_elevation() == max as real / unit as real,
            self.rescaled_to(max, min, unit).min_elevation() == min as real / unit as real,
            0 <= i < self.map.len() ==> self.rescaled_to(max, min, unit).elevation(i)
                == self.scale_to(max, min, unit) * (self.elevation(i) - self.min_elevation())
                + min as real / unit as real,
    {
        let base = self.rescaled(max, min);
        let out = self.rescaled_to(max, min, unit);
        let steps = base.resolution as int;
        let stepsr = steps as real;
        let unitr = unit as real;
        self.lemma_rescaled_elevation(max, min, i);
        lemma_real_product(steps, unit as int);
        assert(out.resolution as real == stepsr * unitr);
        assert(out.resolution >= 1) by (nonlinear_arith)
            requires
                out.resolution == steps * unit,
                steps >= 1,
                unit >= 1,
        ;
        lemma_real_divide_in_turn(base.max_height as real, stepsr, unitr);
        lemma_real_divide_in_turn(base.min_height as real, stepsr, unitr);
        if 0 <= i < self.map.len() {
            let res = self.resolution as real;
            let hi = self.max_height as real;
            let lo = self.min_height as real;
            let k = (max - min) as real;
            let rise = self.elevation(i) - self.min_elevation();
            let range = self.max_elevation() - self.min_elevation();
            lemma_real_divide_in_turn(base.map[i] as real, stepsr, unitr);
            assert(out.elevation(i) == base.elevation(i) / unitr);
            lemma_real_share(self.scale(max, min), rise, min as real, unitr);
            lemma_real_difference(hi, lo, res);
            lemma_real_divide_by_fraction(k, hi - lo, res);
            assert(range == (hi - lo) / res);
            assert(range != 0real);
            lemma_real_swap_divisors(k, range, unitr);
        }
    }

    /// Rescaling a map to its own bounds changes no elevation, whatever its
    /// resolution: the bounds are handed over in the steps of the map.
    pub proof fn lemma_rescale_to_own_bounds(self, i: int)
        requires
            self.resolution >= 1,
            self.span() != 0,
        ensures
            self.rescaled_to(self.max_height, self.min_height, self.resolution).max_elevation()
                == self.max_elevation(),
            self.rescaled_to(self.max_height, self.min_height, self.resolution).min_elevation()
                == self.min_elevation(),
            0 <= i < self.map.len() ==> self.rescaled_to(
                self.max_height,
                self.min_height,
                self.resolution,
            ).elevation(i) == self.elevation(i),
    {
        self.lemma_rescaled_to_elevation(self.max_height, self.min_height, self.resolution, i);
        if 0 <= i < self.map.len() {
            let res = self.resolution as real;
            let hi = self.max_height as real;
            let lo = self.min_height as real;
            let range = self.max_elevation() - self.min_elevation();
            lemma_real_difference(hi, lo, res);
            lemma_real_divide_by_fraction(1real, hi - lo, res);
            assert(range == (hi - lo) / res);
            assert(range != 0real);
            lemma_real_quotient(1real, range);
            let k = self.scale_to(self.max_height, self.min_height, self.resolution);
            let rise = self.elevation(i) - self.min_elevation();
            assert(k == 1real);
            assert(k * rise == rise) by (nonlinear_arith)
                requires
                    k == 1real,
            ;
        }
    }

    /// Rescaling is affine: one factor and one offset serve every sample.
    pub proof fn lemma_rescale_is_affine(self, max: int, min: int, i: int)
        requires
            self.resolution >= 1,
            self.span() != 0,
            0 <= i < self.map.len(),
        ensures
            self.rescaled(max, min).elevation(i) == self.scale(max, min) * self.elevation(i) + (
            min as real - self.scale(max, min) * self.min_elevation()),
    {
        self.lemma_rescaled_elevation(max, min, i);
        lemma_real_distribute(self.scale(max, min), self.elevation(i), self.min_elevation());
    }

    /// Scanning a rescaled map finds the bounds it was rescaled to: where the
    /// bounds of the source are its extremes and `min` is not above `max`, the
    /// bounds of the result are its extremes too, and they stand for `max` and
    /// `min`.
    pub proof fn lemma_rescale_keeps_extremes(self, max: int, min: int)
        requires
            self.is_tight(),
            self.span() != 0,
            min <= max,
        ensures
            self.rescaled(max, min).is_tight(),
            self.rescaled(max, min).is_bounded(),
            self.resolution >= 1 ==> self.rescaled(max, min).max_elevation() == max as real
                && self.rescaled(max, min).min_elevation() == min as real,
    {
        let out = self.rescaled(max, min);
        let span = self.span();
        self.map.max_ensures();
        self.map.min_ensures();
        let top = choose|i: int| 0 <= i < self.map.len() && self.map[i] == self.max_height;
        let bottom = choose|i: int| 0 <= i < self.map.len() && self.map[i] == self.min_height;
        assert(self.map[bottom] <= self.map[top]);
        assert(span > 0);
        lemma_between_ends(min, max, span, span);
        assert(out.map[top] == (max - min) * (self.map[top] - self.min_height) + min * span);
        assert(out.map[top] == max * span);
        assert(out.map[bottom] == (max - min) * (self.map[bottom] - self.min_height) + min * span);
        assert(out.map[bottom] == min * span);
        assert forall|i: int| 0 <= i < out.map.len() implies min * span <= #[trigger] out.map[i]
            <= max * span by {
            let s = self.map[i];
            assert(self.min_height <= s <= self.max_height);
            lemma_between_ends(min, max, s - self.min_height, span);
        }
        assert(out.map.contains(max * span));
        assert(out.map.contains(min * span));
        lemma_max_by_bound(out.map, max * span);
        lemma_min_by_bound(out.map, min * span);
        out.lemma_tight_is_bounded();
        if self.resolution >= 1 {
            self.lemma_rescaled_elevation(max, min, 0);
        }
    }

    /// Scanning a map rescaled to bounds given as fractions finds those
    /// bounds, under the same conditions.
    pub proof fn lemma_rescale_to_keeps_extremes(self, max: int, min: int, unit: nat)
        requires
            self.is_tight(),
            self.span() != 0,
            min <= max,
        ensures
            self.rescaled_to(max, min, unit).is_tight(),
            self.rescaled_to(max, min, unit).is_bounded(),
            self.resolution >= 1 && unit >= 1 ==> self.rescaled_to(max, min, unit).max_elevation()
                == max as real / unit as real && self.rescaled_to(max, min, unit).min_elevation()
                == min as real / unit as real,
    {
        self.lemma_rescale_keeps_extremes(max, min);
        assert(self.rescaled_to(max, min, unit).map == self.rescaled(max, min).map);
        if self.resolution >= 1 && unit >= 1 {
            self.lemma_rescaled_to_elevation(max, min, unit, 0);
        }
    }

    /// Rescaling a map to its own bounds changes no elevation.
    pub proof fn lemma_rescale_identity(self, max: int, min: int, i: int)
        requires
            self.resolution >= 1,
            self.span() != 0,
            self.max_height == max * self.resolution,
            self.min_height == min * self.resolution,
            0 <= i < self.map.len(),
        ensures
            self.rescaled(max, min).elevation(i) == self.elevation(i),
    {
        self.lemma_rescaled_elevation(max, min, i);
        let res = self.resolution as real;
        let maxr = max as real;
        let minr = min as real;
        lemma_real_product(max, self.resolution as int);
        lemma_real_product(min, self.resolution as int);
        lemma_real_quotient(maxr, res);
        lemma_real_quotient(minr, res);
        assert(self.max_elevation() == maxr);
        assert(self.min_elevation() == minr);
        assert(maxr - minr != 0real) by {
            if max == min {
                assert(self.max_height == self.min_height);
            }
        }
        lemma_real_quotient(1real, maxr - minr);
        let k = self.scale(max, min);
        let rise = self.elevation(i) - minr;
        assert(k == 1real);
        assert(k * rise == rise) by (nonlinear_arith)
            requires
                k == 1real,
        ;
    }
}

/// The product of `factor` and `steps`, where it fits.
pub(crate) fn times(factor: i64, steps: u64) -> (product: Option<i64>)
    ensures
        match product {
            Some(p) => p == factor * steps,
            None => !in_i64(factor * steps),
        },
{
    assert(-0x8000_0000_0000_0000 * 0xffff_ffff_ffff_ffff <= factor * steps
        <= 0x7fff_ffff_ffff_ffff * 0xffff_ffff_ffff_ffff) by (nonlinear_arith)
        requires
            -0x8000_0000_0000_0000 <= factor <= 0x7fff_ffff_ffff_ffff,
            0 <= steps <= 0xffff_ffff_ffff_ffff,
    ;
    let wide: i128 = (factor as i128) * (steps as i128);
    if wide < i64::MIN as i128 || wide > i64::MAX as i128 {
        None
    } else {
        Some(wide as i64)
    }
}

/// The sample of a map with the stored bounds `top` and `bottom` as it is
/// after the map was sent to the range from `min` to `max`, where it fits.
pub(crate) fn rescale_value(sample: i64, top: i64, bottom: i64, max: i64, min: i64) -> (moved:
    Option<i64>)
    ensures
        match moved {
            Some(v) => v == rescaled_value(
                sample as int,
                top as int,
                bottom as int,
                max as int,
                min as int,
            ),
            None => !in_i64(
                rescaled_value(sample as int, top as int, bottom as int, max as int, min as int),
            ),
        },
{
    let up: i128 = sample as i128 - bottom as i128;
    let down: i128 = top as i128 - sample as i128;
    assert(-0x8000_0000_0000_0000 * 0xffff_ffff_ffff_ffff <= max * up <= 0x8000_0000_0000_0000
        * 0xffff_ffff_ffff_ffff) by (nonlinear_arith)
        requires
            -0x8000_0000_0000_0000 <= max <= 0x7fff_ffff_ffff_ffff,
            -0xffff_ffff_ffff_ffff <= up <= 0xffff_ffff_ffff_ffff,
    ;
    assert(-0x8000_0000_0000_0000 * 0xffff_ffff_ffff_ffff <= min * down <= 0x8000_0000_0000_0000
        * 0xffff_ffff_ffff_ffff) by (nonlinear_arith)
        requires
            -0x8000_0000_0000_0000 <= min <= 0x7fff_ffff_ffff_ffff,
            -0xffff_ffff_ffff_ffff <= down <= 0xffff_ffff_ffff_ffff,
    ;
    let first: i128 = (max as i128) * up;
    let second: i128 = (min as i128) * down;
    assert(max * (sample - bottom) + min * (top - sample) == (max - min) * (sample - bottom) + min
        * (top - bottom)) by (nonlinear_arith);
    match first.checked_add(second) {
        None => None,
        Some(sum) => {
            if top >= bottom {
                if sum < i64::MIN as i128 || sum > i64::MAX as i128 {
                    None
                } else {
                    Some(sum as i64)
                }
            } else {
                if sum < -(i64::MAX as i128) || sum > -(i64::MIN as i128) {
                    None
                } else {
                    Some((-sum) as i64)
                }
            }
        },
    }
}

} // verus!
