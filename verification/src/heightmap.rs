use crate::codec::{
    color_of, converts_to_luma16, height_of, image_height, image_luma16, image_width,
    into_luma16, is_nan, luma_is_number, lumas_are_numbers, pixel_luma_is_number, rgb_float_bits,
    rgba_float_bits, width_of, SampleFormat, LAST_POSITIVE, MINUS_INFINITY, PLUS_INFINITY,
};
use crate::error::HeightMapError;
use crate::num::{
    is_perfect_square, isqrt, lemma_between_squares, lemma_square_increases, square,
};
use crate::num::magnitude;
use crate::rescale::{in_i64, rescale_value, rescaled_value, times};
use image::DynamicImage;
use vstd::prelude::*;

verus! {

/// The largest side that a height map can record.
pub const MAX_WIDTH: u64 = 0xffff;

/// A square grid of elevation samples, stored row by row.
///
/// Sample `map[z * width + x]` belongs to column `x` of row `z`. Elevations are
/// exact fractions: a stored sample `s` stands for the elevation
/// `s / resolution`, and so do `max_height` and `min_height`.
///
/// The fields hold steps, not elevations. Only at resolution 1 are the two
/// the same. To rescale a map to its own bounds, or to any bounds that are
/// no whole numbers, hand the bounds over together with their steps:
/// `map.transform_fractional(map.max_height, map.min_height, map.resolution)`.
#[derive(Debug, Clone, PartialEq, Eq)]
pub struct HeightMap {
    /// Number of samples along one side.
    pub width: u16,
    /// Cached upper bound of the samples, counted in steps of
    /// `1 / resolution`: the bound itself is `max_height / resolution`.
    pub max_height: i64,
    /// Cached lower bound of the samples, counted in steps of
    /// `1 / resolution`: the bound itself is `min_height / resolution`.
    pub min_height: i64,
    /// The samples, counted in steps of `1 / resolution`.
    pub map: Vec<i64>,
    /// Number of steps that make up one unit of height.
    pub resolution: u64,
}

/// The mathematical content of a [`HeightMap`].
pub struct HeightMapView {
    pub width: nat,
    pub max_height: int,
    pub min_height: int,
    pub map: Seq<int>,
    pub resolution: nat,
}

/// The sequence `s` read as unbounded integers.
pub open spec fn ints(s: Seq<i64>) -> Seq<int> {
    Seq::new(s.len(), |i: int| s[i] as int)
}

/// The intensities `pixels` read as unbounded integers.
pub open spec fn pixel_values(pixels: Seq<u16>) -> Seq<int> {
    Seq::new(pixels.len(), |i: int| pixels[i] as int)
}

/// Why `len` samples cannot make a height map, if they cannot.
pub open spec fn shape_error(len: int) -> Option<HeightMapError> {
    if len == 0 {
        Some(HeightMapError::Empty)
    } else if len > MAX_WIDTH * MAX_WIDTH {
        Some(HeightMapError::TooLarge)
    } else if !is_perfect_square(len) {
        Some(HeightMapError::NotSquare)
    } else {
        None
    }
}

/// Why `len` samples counted in steps of `1 / resolution` cannot make a height
/// map, if they cannot.
pub open spec fn steps_error(len: int, resolution: int) -> Option<HeightMapError> {
    if resolution == 0 {
        Some(HeightMapError::NoResolution)
    } else {
        shape_error(len)
    }
}

/// Why an image of `width` by `height` pixels, of which `len` were handed
/// over, cannot make a height map, if it cannot.
pub open spec fn pixel_error(width: int, height: int, len: int) -> Option<HeightMapError> {
    if width != height {
        Some(HeightMapError::NotSquare)
    } else if width > MAX_WIDTH {
        Some(HeightMapError::TooLarge)
    } else if len != width * height {
        Some(HeightMapError::Undecodable)
    } else if width == 0 {
        Some(HeightMapError::Empty)
    } else {
        None
    }
}

/// The height map of a square image: one sample for each pixel, in the
/// image's own order and with the pixel's intensity as its height.
pub open spec fn pixel_grid(width: int, pixels: Seq<u16>) -> HeightMapView {
    HeightMapView {
        width: width as nat,
        max_height: pixel_values(pixels).max(),
        min_height: pixel_values(pixels).min(),
        map: pixel_values(pixels),
        resolution: 1,
    }
}

/// `result` is what an image of `width` by `height` pixels gives: its height
/// map, or the reason why it has none.
pub open spec fn is_pixel_grid(
    result: Result<HeightMap, HeightMapError>,
    width: int,
    height: int,
    pixels: Seq<u16>,
) -> bool {
    match pixel_error(width, height, pixels.len() as int) {
        Some(e) => result == Err::<HeightMap, HeightMapError>(e),
        None => result matches Ok(grid) && grid@ == pixel_grid(width, pixels),
    }
}

/// `result` is what the decoded image `img` gives: its height map, made of
/// its 16-bit grey values, or the reason why it has none. The shape and the
/// size come first; an image of the right shape whose grey values cannot be
/// had counts as undecodable.
pub open spec fn is_image_grid(
    result: Result<HeightMap, HeightMapError>,
    img: DynamicImage,
) -> bool {
    let width = image_width(img) as int;
    let height = image_height(img) as int;
    match pixel_error(width, height, width * height) {
        Some(e) => result == Err::<HeightMap, HeightMapError>(e),
        None => if converts_to_luma16(img) {
            &&& image_luma16(img).len() == width * height
            &&& result matches Ok(grid)
            &&& grid@ == pixel_grid(width, image_luma16(img))
        } else {
            result == Err::<HeightMap, HeightMapError>(HeightMapError::Undecodable)
        },
    }
}

/// A decoded image that is square, with a side that a height map can
/// record, and whose grey values can be had gives a height map: one of the
/// image's side, with the grey value of each pixel in its place and the true
/// extremes as bounds.
pub proof fn lemma_square_image_loads(
    result: Result<HeightMap, HeightMapError>,
    img: DynamicImage,
)
    requires
        is_image_grid(result, img),
        converts_to_luma16(img),
        image_width(img) == image_height(img),
        1 <= image_width(img) <= MAX_WIDTH,
    ensures
        result matches Ok(grid) && {
            &&& grid.width == image_width(img)
            &&& grid.resolution == 1
            &&& grid@.map == pixel_values(image_luma16(img))
            &&& grid@.map.len() == image_width(img) * image_width(img)
            &&& grid@.is_tight()
            &&& grid@.is_bounded()
        },
{
    let grid = result->Ok_0;
    assert(grid@.map.len() >= 1) by (nonlinear_arith)
        requires
            grid@.map.len() == image_width(img) * image_height(img),
            image_width(img) >= 1,
            image_height(img) >= 1,
    ;
    grid@.lemma_tight_is_bounded();
}

/// An image whose sides differ gives the shape error, whatever its samples.
pub proof fn lemma_other_shape_is_rejected(
    result: Result<HeightMap, HeightMapError>,
    img: DynamicImage,
)
    requires
        is_image_grid(result, img),
        image_width(img) != image_height(img),
    ensures
        result == Err::<HeightMap, HeightMapError>(HeightMapError::NotSquare),
{
}

/// A member of `s` that no member exceeds is the maximum of `s`.
pub proof fn lemma_max_by_bound(s: Seq<int>, m: int)
    requires
        s.contains(m),
        forall|i: int| 0 <= i < s.len() ==> s[i] <= m,
    ensures
        s.max() == m,
{
    s.max_ensures();
    let top = s.max();
    assert(s.contains(top));
    let at = choose|i: int| 0 <= i < s.len() && s[i] == top;
    assert(s[at] <= m);
}

/// A member of `s` that exceeds no member is the minimum of `s`.
pub proof fn lemma_min_by_bound(s: Seq<int>, m: int)
    requires
        s.contains(m),
        forall|i: int| 0 <= i < s.len() ==> s[i] >= m,
    ensures
        s.min() == m,
{
    s.min_ensures();
    let bottom = s.min();
    assert(s.contains(bottom));
    let at = choose|i: int| 0 <= i < s.len() && s[i] == bottom;
    assert(s[at] >= m);
}

impl View for HeightMap {
    type V = HeightMapView;

    open spec fn view(&self) -> HeightMapView {
        HeightMapView {
            width: self.width as nat,
            max_height: self.max_height as int,
            min_height: self.min_height as int,
            map: ints(self.map@),
            resolution: self.resolution as nat,
        }
    }
}

impl HeightMapView {
    /// The grid has a positive side and one sample for each cell.
    pub open spec fn is_square(self) -> bool {
        &&& self.width >= 1
        &&& self.map.len() == self.width * self.width
    }

    /// Every sample lies between the cached bounds.
    pub open spec fn is_bounded(self) -> bool {
        forall|i: int|
            0 <= i < self.map.len() ==> self.min_height <= #[trigger] self.map[i]
                <= self.max_height
    }

    /// The cached bounds are the largest and the smallest sample.
    pub open spec fn is_tight(self) -> bool {
        &&& self.map.len() > 0
        &&& self.max_height == self.map.max()
        &&& self.min_height == self.map.min()
    }

    /// A square grid with a usable resolution whose samples respect the bounds.
    pub open spec fn wf(self) -> bool {
        &&& self.is_square()
        &&& self.resolution >= 1
        &&& self.is_bounded()
    }

    /// Cached bounds that are the extremes of the samples bound every sample.
    pub proof fn lemma_tight_is_bounded(self)
        requires
            self.is_tight(),
        ensures
            self.is_bounded(),
    {
        self.map.max_ensures();
        self.map.min_ensures();
    }

    /// The elevation of sample `i`.
    pub open spec fn elevation(self, i: int) -> real {
        self.map[i] as real / self.resolution as real
    }

    /// The elevation that `max_height` stands for.
    pub open spec fn max_elevation(self) -> real {
        self.max_height as real / self.resolution as real
    }

    /// The elevation that `min_height` stands for.
    pub open spec fn min_elevation(self) -> real {
        self.min_height as real / self.resolution as real
    }
}

impl HeightMap {
    /// Makes a height map from a square's worth of samples, each one unit of
    /// height per step.
    ///
    /// The side is the square root of the number of samples, which has to be a
    /// perfect square between 1 and the square of [`MAX_WIDTH`]. The bounds are
    /// found by scanning the samples.
    pub fn from_vec(height: Vec<i64>) -> (result: Result<HeightMap, HeightMapError>)
        ensures
            match result {
                Ok(grid) => {
                    &&& shape_error(height@.len() as int) is None
                    &&& grid.map@ == height@
                    &&& grid.resolution == 1
                    &&& grid@.wf()
                    &&& grid@.is_tight()
                },
                Err(e) => shape_error(height@.len() as int) == Some(e),
            },
    {
        let len: usize = height.len();
        if len == 0 {
            return Err(HeightMapError::Empty);
        }
        if len as u64 > MAX_WIDTH * MAX_WIDTH {
            return Err(HeightMapError::TooLarge);
        }
        let side: u32 = isqrt(len as u64);
        proof {
            if side > MAX_WIDTH {
                lemma_square_increases(MAX_WIDTH as int + 1, side as int);
                assert(square(MAX_WIDTH as int + 1) > MAX_WIDTH * MAX_WIDTH) by (nonlinear_arith);
            }
            assert(side * side == square(side as int));
        }
        assert(side * side <= MAX_WIDTH * MAX_WIDTH) by (nonlinear_arith)
            requires
                side <= MAX_WIDTH,
        ;
        if (side as u64) * (side as u64) != len as u64 {
            proof {
                lemma_between_squares(len as int, side as int);
            }
            return Err(HeightMapError::NotSquare);
        }
        assert(is_perfect_square(len as int)) by {
            assert(square(side as int) == len);
        }
        assert(side >= 1) by (nonlinear_arith)
            requires
                side * side == len,
                len >= 1,
        ;
        let (max, min) = extremes(&height);
        let grid = HeightMap {
            width: side as u16,
            max_height: max,
            min_height: min,
            map: height,
            resolution: 1,
        };
        proof {
            grid@.lemma_tight_is_bounded();
        }
        Ok(grid)
    }

    /// Makes a height map from a square's worth of samples that are counted
    /// in steps of `1 / resolution`.
    ///
    /// Sample `s` stands for the elevation `s / resolution`, which lets a map
    /// hold elevations that are no whole numbers. The resolution has to be
    /// positive; the rest is as in [`HeightMap::from_vec`].
    pub fn from_vec_with_resolution(height: Vec<i64>, resolution: u64) -> (result: Result<
        HeightMap,
        HeightMapError,
    >)
        ensures
            match result {
                Ok(grid) => {
                    &&& steps_error(height@.len() as int, resolution as int) is None
                    &&& grid.map@ == height@
                    &&& grid.resolution == resolution
                    &&& grid@.wf()
                    &&& grid@.is_tight()
                },
                Err(e) => steps_error(height@.len() as int, resolution as int) == Some(e),
            },
    {
        if resolution == 0 {
            return Err(HeightMapError::NoResolution);
        }
        match HeightMap::from_vec(height) {
            Err(e) => Err(e),
            Ok(whole) => {
                let grid = HeightMap {
                    width: whole.width,
                    max_height: whole.max_height,
                    min_height: whole.min_height,
                    map: whole.map,
                    resolution,
                };
                assert(grid@.map == whole@.map);
                Ok(grid)
            },
        }
    }

    /// Makes a height map from the pixels of a decoded greyscale image.
    ///
    /// `pixels` holds the intensities row by row. The image has to be square,
    /// with a side between 1 and [`MAX_WIDTH`], and `pixels` has to hold one
    /// intensity for each of its pixels; a buffer of another length counts as
    /// a failed decoding. Intensities are kept as they are, one unit of height
    /// per step.
    pub fn from_pixels(width: u32, height: u32, pixels: Vec<u16>) -> (result: Result<
        HeightMap,
        HeightMapError,
    >)
        ensures
            is_pixel_grid(result, width as int, height as int, pixels@),
            result matches Ok(grid) ==> grid@.wf() && grid@.is_tight(),
    {
        if width != height {
            return Err(HeightMapError::NotSquare);
        }
        if width as u64 > MAX_WIDTH {
            return Err(HeightMapError::TooLarge);
        }
        assert(width * height <= 0xffff * 0xffff) by (nonlinear_arith)
            requires
                width <= 0xffff,
                height <= 0xffff,
        ;
        if pixels.len() as u64 != (width as u64) * (height as u64) {
            return Err(HeightMapError::Undecodable);
        }
        if width == 0 {
            return Err(HeightMapError::Empty);
        }
        assert(width * height >= 1) by (nonlinear_arith)
            requires
                width >= 1,
                height >= 1,
        ;
        let first: i64 = pixels[0] as i64;
        assert(pixel_values(pixels@)[0] == first);
        let mut result = HeightMap {
            width: width as u16,
            max_height: first,
            min_height: first,
            map: Vec::new(),
            resolution: 1,
        };
        let mut buffer: Vec<i64> = Vec::new();
        let ghost values = pixel_values(pixels@);
        let mut i: usize = 0;
        while i < pixels.len()
            invariant
                i <= pixels@.len(),
                pixels@.len() > 0,
                values == pixel_values(pixels@),
                buffer@.len() == i,
                forall|j: int| 0 <= j < i ==> #[trigger] buffer@[j] == pixels@[j],
                forall|j: int| 0 <= j < i ==> #[trigger] values[j] <= result.max_height,
                forall|j: int| 0 <= j < i ==> #[trigger] values[j] >= result.min_height,
                values.contains(result.max_height as int),
                values.contains(result.min_height as int),
                result.width == width,
                result.resolution == 1,
            decreases pixels@.len() - i,
        {
            let height: i64 = pixels[i] as i64;
            buffer.push(height);
            assert(values[i as int] == height);
            if height > result.max_height {
                result.max_height = height;
            }
            if height < result.min_height {
                result.min_height = height;
            }
            i += 1;
        }
        result.map = buffer;
        proof {
            lemma_max_by_bound(values, result.max_height as int);
            lemma_min_by_bound(values, result.min_height as int);
            assert(result@.map =~= values);
            result@.lemma_tight_is_bounded();
        }
        Ok(result)
    }

    /// Makes a new height map with the elevations sent to another range.
    ///
    /// The straight line that takes the lower bound of this map to `min` and
    /// its upper bound to `max` is applied to every sample; `max` and `min`
    /// become the bounds of the new map. `min` may lie above `max`. The new
    /// map counts its elevations in steps of one over the distance between
    /// the stored bounds of this map, which makes every result exact.
    ///
    /// `max` and `min` are elevations in whole units, not steps: for bounds
    /// that are fractions see [`HeightMap::transform_fractional`].
    ///
    /// A map whose bounds coincide cannot be stretched, and a result that
    /// does not fit 64 bits is not made. Each rescaling multiplies the stored
    /// numbers; [`HeightMap::reduced`] brings them down again.
    pub fn transform(&self, max: i64, min: i64) -> (result: Result<HeightMap, HeightMapError>)
        ensures
            match result {
                Ok(scaled) => {
                    &&& self@.rescale_error(max as int, min as int) is None
                    &&& scaled@ == self@.rescaled(max as int, min as int)
                },
                Err(e) => self@.rescale_error(max as int, min as int) == Some(e),
            },
    {
        let ghost target = self@.rescaled(max as int, min as int);
        let span: i128 = self.max_height as i128 - self.min_height as i128;
        if span == 0 {
            return Err(HeightMapError::FlatSource);
        }
        let steps: u64 = if span > 0 {
            span as u64
        } else {
            (-span) as u64
        };
        assert(steps == magnitude(self@.span()));
        let new_max: Option<i64> = times(max, steps);
        let new_min: Option<i64> = times(min, steps);
        if new_max.is_none() || new_min.is_none() {
            return Err(HeightMapError::OutOfRange);
        }
        let mut buffer: Vec<i64> = Vec::with_capacity(self.map.len());
        let mut i: usize = 0;
        while i < self.map.len()
            invariant
                i <= self.map@.len(),
                buffer@.len() == i,
                self@.span() != 0,
                target == self@.rescaled(max as int, min as int),
                forall|j: int| 0 <= j < i ==> #[trigger] buffer@[j] == target.map[j],
            decreases self.map@.len() - i,
        {
            let moved: Option<i64> = rescale_value(
                self.map[i],
                self.max_height,
                self.min_height,
                max,
                min,
            );
            assert(target.map[i as int] == rescaled_value(
                self.map@[i as int] as int,
                self.max_height as int,
                self.min_height as int,
                max as int,
                min as int,
            ));
            match moved {
                None => {
                    assert(!in_i64(target.map[i as int]));
                    return Err(HeightMapError::OutOfRange);
                },
                Some(value) => {
                    buffer.push(value);
                },
            }
            i += 1;
        }
        let scaled = HeightMap {
            width: self.width,
            max_height: new_max.unwrap(),
            min_height: new_min.unwrap(),
            map: buffer,
            resolution: steps,
        };
        proof {
            assert(scaled@.map =~= target.map);
            assert(scaled@ == target);
            assert forall|j: int| 0 <= j < target.map.len() implies in_i64(
                #[trigger] target.map[j],
            ) by {
                assert(target.map[j] == scaled.map@[j]);
            }
        }
        Ok(scaled)
    }

    /// Makes a new height map with the elevations sent to a range whose ends
    /// are fractions: from `min / unit` to `max / unit`.
    ///
    /// This is [`HeightMap::transform`] for bounds that are no whole numbers.
    /// With the map's own `max_height`, `min_height` and `resolution` it
    /// leaves every elevation as it is. `unit` has to be positive.
    pub fn transform_fractional(&self, max: i64, min: i64, unit: u64) -> (result: Result<
        HeightMap,
        HeightMapError,
    >)
        ensures
            match result {
                Ok(scaled) => {
                    &&& self@.rescale_to_error(max as int, min as int, unit as nat) is None
                    &&& scaled@ == self@.rescaled_to(max as int, min as int, unit as nat)
                },
                Err(e) => self@.rescale_to_error(max as int, min as int, unit as nat) == Some(e),
            },
    {
        if unit == 0 {
            return Err(HeightMapError::NoResolution);
        }
        let ghost whole = self@.rescaled(max as int, min as int);
        let ghost target = self@.rescaled_to(max as int, min as int, unit as nat);
        match self.transform(max, min) {
            Err(e) => {
                proof {
                    if e == HeightMapError::OutOfRange {
                        assert(whole.resolution * unit >= whole.resolution) by (nonlinear_arith)
                            requires
                                unit >= 1,
                                whole.resolution >= 0,
                        ;
                        assert(target.map == whole.map);
                        assert(!target.fits());
                    }
                }
                Err(e)
            },
            Ok(scaled) => {
                match scaled.resolution.checked_mul(unit) {
                    None => Err(HeightMapError::OutOfRange),
                    Some(steps) => {
                        let finer = HeightMap {
                            width: scaled.width,
                            max_height: scaled.max_height,
                            min_height: scaled.min_height,
                            map: scaled.map,
                            resolution: steps,
                        };
                        proof {
                            assert(finer@.map == target.map);
                            assert(finer@ == target);
                            assert forall|j: int| 0 <= j < target.map.len() implies in_i64(
                                #[trigger] target.map[j],
                            ) by {
                                assert(target.map[j] == finer.map@[j]);
                            }
                        }
                        Ok(finer)
                    },
                }
            },
        }
    }

    /// Tells whether the map has a positive side and one sample for each cell.
    pub fn is_square(&self) -> (square: bool)
        ensures
            square == self@.is_square(),
    {
        let side: u64 = self.width as u64;
        assert(side * side <= 0xffff * 0xffff) by (nonlinear_arith)
            requires
                side <= 0xffff,
        ;
        self.width >= 1 && self.map.len() as u64 == side * side
    }
}

/// Makes a height map from a decoded image, read as 16-bit greyscale.
///
/// The image has to be square, with a side between 1 and [`MAX_WIDTH`]; any
/// other shape is rejected, not cut or filled. The 16-bit grey value of each
/// pixel becomes a sample, unchanged and in its place, with one unit of
/// height per step.
///
/// Images with floating-point samples are read too, unless the grey value
/// of a pixel is no number: such an image counts as undecodable, and so does
/// one of a sample format that this library does not know.
pub fn load_height_map(img: DynamicImage) -> (result: Result<HeightMap, HeightMapError>)
    ensures
        is_image_grid(result, img),
        result matches Ok(grid) ==> grid@.wf() && grid@.is_tight(),
{
    let width: u32 = width_of(&img);
    let height: u32 = height_of(&img);
    if width != height {
        return Err(HeightMapError::NotSquare);
    }
    if width as u64 > MAX_WIDTH {
        return Err(HeightMapError::TooLarge);
    }
    if width == 0 {
        return Err(HeightMapError::Empty);
    }
    assert(width * height <= 0xffff * 0xffff) by (nonlinear_arith)
        requires
            width <= 0xffff,
            height <= 0xffff,
    ;
    let pixels: usize = (width as usize) * (height as usize);
    let clean = match color_of(&img) {
        SampleFormat::Other => false,
        SampleFormat::RgbFloat => match rgb_float_bits(&img) {
            Some(bits) => have_number_lumas(&bits, 3, pixels),
            None => false,
        },
        SampleFormat::RgbaFloat => match rgba_float_bits(&img) {
            Some(bits) => have_number_lumas(&bits, 4, pixels),
            None => false,
        },
        _ => true,
    };
    if !clean {
        return Err(HeightMapError::Undecodable);
    }
    let grey_image = into_luma16(img);
    HeightMap::from_pixels(width, height, grey_image)
}

/// Tells whether the floating-point value with the bit pattern `bits` is no
/// number.
pub fn is_nan_pattern(bits: u32) -> (nan: bool)
    ensures
        nan == is_nan(bits),
{
    (PLUS_INFINITY < bits && bits <= LAST_POSITIVE) || bits > MINUS_INFINITY
}

/// Tells whether the grey value of a pixel with the given red, green and
/// blue samples is a number.
pub fn has_number_luma(red: u32, green: u32, blue: u32) -> (number: bool)
    ensures
        number == luma_is_number(red, green, blue),
{
    let up = red == PLUS_INFINITY || green == PLUS_INFINITY || blue == PLUS_INFINITY;
    let down = red == MINUS_INFINITY || green == MINUS_INFINITY || blue == MINUS_INFINITY;
    !is_nan_pattern(red) && !is_nan_pattern(green) && !is_nan_pattern(blue) && !(up && down)
}

/// Tells whether the grey value of each of the first `pixels` pixels is a
/// number, where `bits` holds the samples pixel after pixel, `channels` to
/// each.
pub fn have_number_lumas(bits: &Vec<u32>, channels: usize, pixels: usize) -> (numbers: bool)
    requires
        channels == 3 || channels == 4,
        bits@.len() >= channels * pixels,
    ensures
        numbers == lumas_are_numbers(bits@, channels as int, pixels as int),
{
    let total: usize = bits.len();
    let mut k: usize = 0;
    while k < pixels
        invariant
            k <= pixels,
            channels == 3 || channels == 4,
            total == bits@.len(),
            total >= channels * pixels,
            forall|j: int|
                0 <= j < k ==> #[trigger] pixel_luma_is_number(bits@, channels as int, j),
        decreases pixels - k,
    {
        assert(k * channels + channels <= channels * pixels) by (nonlinear_arith)
            requires
                k < pixels,
                channels >= 0,
        ;
        let at: usize = k * channels;
        if !has_number_luma(bits[at], bits[at + 1], bits[at + 2]) {
            assert(!pixel_luma_is_number(bits@, channels as int, k as int));
            return false;
        }
        k += 1;
    }
    true
}

/// Finds the largest and the smallest of `samples`, in this order.
fn extremes(samples: &Vec<i64>) -> (bounds: (i64, i64))
    requires
        samples@.len() > 0,
    ensures
        bounds.0 == ints(samples@).max(),
        bounds.1 == ints(samples@).min(),
{
    let ghost values = ints(samples@);
    let mut max: i64 = samples[0];
    let mut min: i64 = samples[0];
    assert(values[0] == max);
    let mut i: usize = 1;
    while i < samples.len()
        invariant
            1 <= i <= samples@.len(),
            values == ints(samples@),
            forall|j: int| 0 <= j < i ==> #[trigger] values[j] <= max,
            forall|j: int| 0 <= j < i ==> #[trigger] values[j] >= min,
            values.contains(max as int),
            values.contains(min as int),
        decreases samples@.len() - i,
    {
        let sample: i64 = samples[i];
        assert(values[i as int] == sample);
        if sample > max {
            max = sample;
        }
        if sample < min {
            min = sample;
        }
        i += 1;
    }
    proof {
        lemma_max_by_bound(values, max as int);
        lemma_min_by_bound(values, min as int);
    }
    (max, min)
}

} // verus!
