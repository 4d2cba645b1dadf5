//! Quality metrics that compare an image with its reconstruction.
//!
//! Each metric is a quotient of integers. The functions here return the
//! integers, exactly; the quotient is left to the caller.
pub mod hash;

use vstd::prelude::*;
use crate::raster::Image;
use crate::utils::{lemma_interior, lemma_pixel_index};

verus! {

/// A quotient of two integers. It has no value where the denominator is zero.
#[derive(Clone, Copy, Debug, PartialEq, Eq, Structural)]
pub struct Ratio {
    pub numerator: u128,
    pub denominator: u128,
}

/// How far two samples are apart: the square of their difference, or its
/// absolute value.
pub open spec fn deviation(x: int, y: int, squared: bool) -> int {
    if squared {
        (x - y) * (x - y)
    } else if x >= y {
        x - y
    } else {
        y - x
    }
}

/// The sum of the deviations of the first `n` samples of `a` and `b`.
pub open spec fn deviation_below(a: Seq<u16>, b: Seq<u16>, n: nat, squared: bool) -> int
    decreases n,
{
    if n == 0 {
        0
    } else {
        deviation_below(a, b, (n - 1) as nat, squared) + deviation(a[n - 1] as int, b[n - 1] as int, squared)
    }
}

/// The sum of the deviations of the samples of two images of equal size and
/// format.
pub open spec fn deviation_sum(a: Seq<u16>, b: Seq<u16>, squared: bool) -> int {
    deviation_below(a, b, a.len(), squared)
}

proof fn lemma_deviation_bounds(x: int, y: int, max: int)
    requires
        0 <= x <= max,
        0 <= y <= max,
    ensures
        0 <= deviation(x, y, false) <= max,
        0 <= deviation(x, y, true) <= max * deviation(x, y, false),
        deviation(x, y, true) <= max * max,
        deviation(x, y, false) == 0 <==> x == y,
        deviation(x, y, true) == 0 <==> x == y,
{
    let d = x - y;
    let e = deviation(x, y, false);
    assert(0 <= d * d <= max * e && d * d <= max * max && (d * d == 0 <==> d == 0)) by (nonlinear_arith)
        requires
            0 <= e <= max,
            e == d || e == -d,
    ;
}

proof fn lemma_deviation_prefix(a: Seq<u16>, b: Seq<u16>, n: nat, max: int)
    requires
        n <= a.len(),
        n <= b.len(),
        forall|k: int| 0 <= k < n ==> a[k] <= max && b[k] <= max,
    ensures
        0 <= deviation_below(a, b, n, false) <= max * n,
        0 <= deviation_below(a, b, n, true) <= max * deviation_below(a, b, n, false),
        deviation_below(a, b, n, true) <= max * max * n,
        deviation_below(a, b, n, false) == 0 <==> (forall|k: int| 0 <= k < n ==> a[k] == b[k]),
        deviation_below(a, b, n, true) == 0 <==> (forall|k: int| 0 <= k < n ==> a[k] == b[k]),
    decreases n,
{
    if n > 0 {
        lemma_deviation_prefix(a, b, (n - 1) as nat, max);
        lemma_deviation_bounds(a[n - 1] as int, b[n - 1] as int, max);
        let s = deviation_below(a, b, (n - 1) as nat, false);
        let d = deviation(a[n - 1] as int, b[n - 1] as int, false);
        assert(max * (s + d) == max * s + max * d && max * n == max * (n - 1) + max && max * max * n == max
            * max * (n - 1) + max * max) by (nonlinear_arith);
    } else {
        assert(max * 0 == 0 && max * max * 0 == 0) by (nonlinear_arith);
    }
}

/// The sum of the deviations of two sample sequences of equal length is not
/// negative, and it is zero exactly when the sequences are equal.
pub proof fn lemma_deviation_zero(a: Seq<u16>, b: Seq<u16>, squared: bool)
    requires
        a.len() == b.len(),
    ensures
        deviation_sum(a, b, squared) >= 0,
        deviation_sum(a, b, squared) == 0 <==> a == b,
{
    lemma_deviation_prefix(a, b, a.len(), 65535);
    if deviation_sum(a, b, squared) == 0 {
        assert(a =~= b);
    }
}

/// Where no sample exceeds `max`, the sum of the absolute differences is at
/// most `max` for each sample, and the sum of the squared differences is at
/// most `max` times the sum of the absolute ones. So the mean absolute error
/// is at most one, and the mean squared error is at most the mean absolute
/// error.
pub proof fn lemma_deviation_order(a: Seq<u16>, b: Seq<u16>, max: int)
    requires
        a.len() == b.len(),
        forall|k: int| 0 <= k < a.len() ==> a[k] <= max && b[k] <= max,
    ensures
        0 <= deviation_sum(a, b, false) <= max * a.len(),
        0 <= deviation_sum(a, b, true) <= max * deviation_sum(a, b, false),
        deviation_sum(a, b, true) <= max * max * a.len(),
{
    lemma_deviation_prefix(a, b, a.len(), max);
}

/// The sum of the deviations of two sample vectors of equal length.
fn deviations(a: &Vec<u16>, b: &Vec<u16>, squared: bool) -> (sum: u128)
    requires
        a.len() == b.len(),
    ensures
        sum == deviation_sum(a@, b@, squared),
{
    let mut sum: u128 = 0;
    let mut k: usize = 0;
    while k < a.len()
        invariant
            k <= a.len(),
            a.len() == b.len(),
            sum == deviation_below(a@, b@, k as nat, squared),
            sum <= 0x1_0000_0000 * k,
        decreases a.len() - k,
    {
        let x = a[k];
        let y = b[k];
        proof {
            lemma_deviation_bounds(x as int, y as int, 65535);
        }
        let d: u128 = if x >= y {
            (x - y) as u128
        } else {
            (y - x) as u128
        };
        if squared {
            assert(d * d == (x - y) * (x - y)) by (nonlinear_arith)
                requires
                    d == x - y || d == y - x,
            ;
            sum += d * d;
        } else {
            sum += d;
        }
        k += 1;
    }
    sum
}

/// The number of samples of an image times the largest value of a sample,
/// and that again times the largest value.
fn sample_scales(image: &Image) -> (scales: (u128, u128))
    ensures
        scales.0 == image@.samples.len() * image@.format.max_sample(),
        scales.1 == image@.samples.len() * image@.format.max_sample() * image@.format.max_sample(),
{
    let n = image.samples().len() as u128;
    let max = image.format().sample_limit() as u128;
    assert(n * max <= 0x1_0000_0000_0000_0000 * 0xFFFF && n * max * max <= 0x1_0000_0000_0000_0000 * 0xFFFF
        * 0xFFFF) by (nonlinear_arith)
        requires
            0 <= n <= 0x1_0000_0000_0000_0000,
            0 <= max <= 0xFFFF,
    ;
    (n * max, n * max * max)
}

/// The mean absolute error: the mean, over the samples of two images of one
/// size and format, of the absolute difference of the samples, as a fraction
/// of the largest value of a sample.
pub struct MAE;

impl MAE {
    /// The sum of the absolute differences of the samples, over the number of
    /// samples times their largest value. The quotient is at most one.
    pub fn compare(original: &Image, other: &Image) -> (r: Ratio)
        requires
            original@.width == other@.width,
            original@.height == other@.height,
            original@.format == other@.format,
        ensures
            r.numerator == deviation_sum(original@.samples, other@.samples, false),
            r.denominator == original@.width * original@.height * original@.format.channels()
                * original@.format.max_sample(),
            r.numerator <= r.denominator,
            r.numerator == 0 <==> original@.samples == other@.samples,
    {
        proof {
            use_type_invariant(original);
            use_type_invariant(other);
            lemma_deviation_zero(original@.samples, other@.samples, false);
            lemma_deviation_order(original@.samples, other@.samples, original@.format.max_sample() as int);
            assert(original@.format.max_sample() * original@.samples.len() == original@.samples.len()
                * original@.format.max_sample()) by (nonlinear_arith);
        }
        let numerator = deviations(original.samples(), other.samples(), false);
        Ratio { numerator, denominator: sample_scales(original).0 }
    }
}

/// The mean squared error: the mean, over the samples of two images of one
/// size and format, of the squared difference of the samples, as a fraction
/// of the square of the largest value of a sample.
pub struct MSE;

impl MSE {
    /// The sum of the squared differences of the samples, over the number of
    /// samples times the square of their largest value. The quotient is at
    /// most one, and at most the mean absolute error: the numerator is at
    /// most the largest value times the sum of the absolute differences.
    pub fn compare(original: &Image, other: &Image) -> (r: Ratio)
        requires
            original@.width == other@.width,
            original@.height == other@.height,
            original@.format == other@.format,
        ensures
            r.numerator == deviation_sum(original@.samples, other@.samples, true),
            r.denominator == original@.width * original@.height * original@.format.channels()
                * original@.format.max_sample() * original@.format.max_sample(),
            r.numerator <= r.denominator,
            r.numerator <= original@.format.max_sample() * deviation_sum(
                original@.samples,
                other@.samples,
                false,
            ),
            r.numerator == 0 <==> original@.samples == other@.samples,
    {
        proof {
            use_type_invariant(original);
            use_type_invariant(other);
            lemma_deviation_zero(original@.samples, other@.samples, true);
            lemma_deviation_order(original@.samples, other@.samples, original@.format.max_sample() as int);
            let n = original@.samples.len() as int;
            let max = original@.format.max_sample() as int;
            assert(max * max * n == n * max * max) by (nonlinear_arith);
        }
        let numerator = deviations(original.samples(), other.samples(), true);
        Ratio { numerator, denominator: sample_scales(original).1 }
    }
}

/// The sums from which the structural similarity of two luma windows is
/// taken: over the pixels of the window, with `x` a sample of the first image
/// and `y` the sample of the second in the same place.
#[derive(Clone, Copy, Debug, PartialEq, Eq, Structural)]
pub struct Moments {
    /// The number of pixels.
    pub count: usize,
    /// The sum of `x`.
    pub sum_x: u128,
    /// The sum of `y`.
    pub sum_y: u128,
    /// The sum of `x * x`.
    pub sum_xx: u128,
    /// The sum of `y * y`.
    pub sum_yy: u128,
    /// The sum of `x * y`.
    pub sum_xy: u128,
}

/// The term that a pair of samples adds to a sum: `x`, `y`, `x * x`, `y * y`
/// or `x * y`, for `kind` from 0 to 4.
pub open spec fn moment_term(kind: int, x: int, y: int) -> int {
    if kind == 0 {
        x
    } else if kind == 1 {
        y
    } else if kind == 2 {
        x * x
    } else if kind == 3 {
        y * y
    } else {
        x * y
    }
}

/// The sum of the terms of the `n` samples that begin at index `start`.
pub open spec fn row_moment(kind: int, a: Seq<u16>, b: Seq<u16>, start: int, n: nat) -> int
    decreases n,
{
    if n == 0 {
        0
    } else {
        row_moment(kind, a, b, start, (n - 1) as nat) + moment_term(
            kind,
            a[start + n - 1] as int,
            b[start + n - 1] as int,
        )
    }
}

/// The sum of the terms over a window of two images `width` wide: the window
/// begins at column `x0` and row `y0` and is `w` wide and `rows` tall.
pub open spec fn window_moment(
    kind: int,
    a: Seq<u16>,
    b: Seq<u16>,
    width: int,
    x0: int,
    y0: int,
    w: nat,
    rows: nat,
) -> int
    decreases rows,
{
    if rows == 0 {
        0
    } else {
        window_moment(kind, a, b, width, x0, y0, w, (rows - 1) as nat) + row_moment(
            kind,
            a,
            b,
            (y0 + rows - 1) * width + x0,
            w,
        )
    }
}

impl Moments {
    /// These are the sums over the given window of the two images.
    pub open spec fn is_window_of(
        self,
        a: Seq<u16>,
        b: Seq<u16>,
        width: int,
        x0: int,
        y0: int,
        w: nat,
        h: nat,
    ) -> bool {
        &&& self.count == w * h
        &&& self.sum_x == window_moment(0, a, b, width, x0, y0, w, h)
        &&& self.sum_y == window_moment(1, a, b, width, x0, y0, w, h)
        &&& self.sum_xx == window_moment(2, a, b, width, x0, y0, w, h)
        &&& self.sum_yy == window_moment(3, a, b, width, x0, y0, w, h)
        &&& self.sum_xy == window_moment(4, a, b, width, x0, y0, w, h)
    }

    /// No sum is more than `count` samples of at most 65535 can give.
    pub open spec fn within_samples(self) -> bool {
        &&& self.sum_x <= 65535 * self.count
        &&& self.sum_y <= 65535 * self.count
        &&& self.sum_xx <= 0x1_0000_0000 * self.count
        &&& self.sum_yy <= 0x1_0000_0000 * self.count
        &&& self.sum_xy <= 0x1_0000_0000 * self.count
    }

    /// The sums are within what the samples can give, and the window has at
    /// most 2 to the 32 pixels: the factors of the similarity then fit in 128
    /// bits.
    pub open spec fn bounded(self) -> bool {
        self.count <= 0x1_0000_0000 && self.within_samples()
    }

    /// The first factor of the numerator of the structural similarity, for
    /// samples of at most `peak`: with the means `mx` and `my` of the two
    /// windows and `c1` the square of a hundredth of `peak`, it is
    /// `2 * mx * my + c1`, times ten thousand and the square of the count.
    pub open spec fn luminance_above(self, peak: int) -> int {
        20000 * (self.sum_x * self.sum_y) + peak * peak * (self.count * self.count)
    }

    /// The first factor of the denominator: `mx * mx + my * my + c1`, scaled
    /// in the same way.
    pub open spec fn luminance_below(self, peak: int) -> int {
        10000 * (self.sum_x * self.sum_x + self.sum_y * self.sum_y) + peak * peak * (self.count * self.count)
    }

    /// The second factor of the numerator: with the covariance `cxy` of the
    /// windows and `c2` nine times `c1`, it is `2 * cxy + c2`, scaled in the
    /// same way.
    pub open spec fn structure_above(self, peak: int) -> int {
        20000 * (self.count * self.sum_xy - self.sum_x * self.sum_y) + 9 * (peak * peak * (self.count
            * self.count))
    }

    /// The second factor of the denominator: with the variances `vx` and
    /// `vy` of the windows, it is `vx + vy + c2`, scaled in the same way.
    pub open spec fn structure_below(self, peak: int) -> int {
        10000 * (self.count * self.sum_xx - self.sum_x * self.sum_x + self.count * self.sum_yy - self.sum_y
            * self.sum_y) + 9 * (peak * peak * (self.count * self.count))
    }
}

/// The four factors of the structural similarity of 16-bit luma: the
/// similarity is the quotient of `luminance_above * structure_above` and
/// `luminance_below * structure_below`.
#[derive(Clone, Copy, Debug, PartialEq, Eq, Structural)]
pub struct Factors {
    pub luminance_above: i128,
    pub luminance_below: i128,
    pub structure_above: i128,
    pub structure_below: i128,
}

proof fn lemma_product_bound(a: int, b: int, most_a: int, most_b: int)
    requires
        0 <= a <= most_a,
        0 <= b <= most_b,
    ensures
        0 <= a * b <= most_a * most_b,
{
    assert(0 <= a * b <= most_a * most_b) by (nonlinear_arith)
        requires
            0 <= a <= most_a,
            0 <= b <= most_b,
    ;
}

impl Moments {
    /// The factors of the structural similarity at the largest 16-bit
    /// sample, 65535, where the sums are bounded; nothing where they are not.
    pub fn factors(&self) -> (f: Option<Factors>)
        ensures
            f.is_some() <==> self.bounded(),
            f.is_some() ==> f.unwrap().luminance_above == self.luminance_above(65535),
            f.is_some() ==> f.unwrap().luminance_below == self.luminance_below(65535),
            f.is_some() ==> f.unwrap().structure_above == self.structure_above(65535),
            f.is_some() ==> f.unwrap().structure_below == self.structure_below(65535),
    {
        if self.count as u128 > 0x1_0000_0000 {
            return None;
        }
        let count = self.count as u128;
        if self.sum_x > 65535 * count || self.sum_y > 65535 * count || self.sum_xx > 0x1_0000_0000 * count
            || self.sum_yy > 0x1_0000_0000 * count || self.sum_xy > 0x1_0000_0000 * count {
            return None;
        }
        let n = count as i128;
        let sx = self.sum_x as i128;
        let sy = self.sum_y as i128;
        let sxx = self.sum_xx as i128;
        let syy = self.sum_yy as i128;
        let sxy = self.sum_xy as i128;
        proof {
            lemma_product_bound(n as int, n as int, 0x1_0000_0000, 0x1_0000_0000);
            lemma_product_bound(sx as int, sy as int, 0xFFFF_0000_0000, 0xFFFF_0000_0000);
            lemma_product_bound(sx as int, sx as int, 0xFFFF_0000_0000, 0xFFFF_0000_0000);
            lemma_product_bound(sy as int, sy as int, 0xFFFF_0000_0000, 0xFFFF_0000_0000);
            lemma_product_bound(n as int, sxx as int, 0x1_0000_0000, 0x1_0000_0000_0000_0000);
            lemma_product_bound(n as int, syy as int, 0x1_0000_0000, 0x1_0000_0000_0000_0000);
            lemma_product_bound(n as int, sxy as int, 0x1_0000_0000, 0x1_0000_0000_0000_0000);
        }
        let level: i128 = 4294836225 * (n * n);
        let both = sx * sy;
        let spread = n * sxx - sx * sx + n * syy - sy * sy;
        Some(
            Factors {
                luminance_above: 20000 * both + level,
                luminance_below: 10000 * (sx * sx + sy * sy) + level,
                structure_above: 20000 * (n * sxy - both) + 9 * level,
                structure_below: 10000 * spread + 9 * level,
            },
        )
    }
}

proof fn lemma_term_bound(kind: int, x: int, y: int)
    requires
        0 <= x <= 65535,
        0 <= y <= 65535,
    ensures
        0 <= moment_term(kind, x, y) <= 0x1_0000_0000,
        0 <= x * x <= 0x1_0000_0000,
        0 <= y * y <= 0x1_0000_0000,
        0 <= x * y <= 0x1_0000_0000,
{
    assert(0 <= x * x <= 0x1_0000_0000 && 0 <= y * y <= 0x1_0000_0000 && 0 <= x * y <= 0x1_0000_0000)
        by (nonlinear_arith)
        requires
            0 <= x <= 65535,
            0 <= y <= 65535,
    ;
}

proof fn lemma_cell_count(r: int, c: int, w: int, h: int, width: int, height: int)
    requires
        0 <= r < h,
        0 <= c <= w,
        w <= width,
        h <= height,
    ensures
        0 <= r * w + c <= width * height,
        r * w + w == (r + 1) * w,
{
    assert(0 <= r * w + c <= width * height && r * w + w == (r + 1) * w) by (nonlinear_arith)
        requires
            0 <= r < h,
            0 <= c <= w,
            w <= width,
            h <= height,
    ;
}

/// The sums over a window of two luma images of equal dimensions.
pub fn window_moments(
    a: &Vec<u16>,
    b: &Vec<u16>,
    width: usize,
    height: usize,
    x0: usize,
    y0: usize,
    w: usize,
    h: usize,
) -> (m: Moments)
    requires
        a.len() == width * height,
        b.len() == width * height,
        x0 + w <= width,
        y0 + h <= height,
    ensures
        m.is_window_of(a@, b@, width as int, x0 as int, y0 as int, w as nat, h as nat),
        m.within_samples(),
{
    let mut count: usize = 0;
    let mut sx: u128 = 0;
    let mut sy: u128 = 0;
    let mut sxx: u128 = 0;
    let mut syy: u128 = 0;
    let mut sxy: u128 = 0;
    let mut r: usize = 0;
    while r < h
        invariant
            r <= h,
            a.len() == width * height,
            b.len() == width * height,
            x0 + w <= width,
            y0 + h <= height,
            count == r * w,
            sx == window_moment(0, a@, b@, width as int, x0 as int, y0 as int, w as nat, r as nat),
            sy == window_moment(1, a@, b@, width as int, x0 as int, y0 as int, w as nat, r as nat),
            sxx == window_moment(2, a@, b@, width as int, x0 as int, y0 as int, w as nat, r as nat),
            syy == window_moment(3, a@, b@, width as int, x0 as int, y0 as int, w as nat, r as nat),
            sxy == window_moment(4, a@, b@, width as int, x0 as int, y0 as int, w as nat, r as nat),
            sx <= 65535 * count,
            sy <= 65535 * count,
            sxx <= 0x1_0000_0000 * count,
            syy <= 0x1_0000_0000 * count,
            sxy <= 0x1_0000_0000 * count,
        decreases h - r,
    {
        proof {
            lemma_cell_count(y0 + r, x0 as int, width as int, height as int, width as int, height as int);
            lemma_cell_count(r as int, 0, w as int, h as int, width as int, height as int);
        }
        let start = (y0 + r) * width + x0;
        let ghost before = (sx, sy, sxx, syy, sxy);
        let mut c: usize = 0;
        while c < w
            invariant
                c <= w,
                r < h,
                a.len() == width * height,
                b.len() == width * height,
                x0 + w <= width,
                y0 + h <= height,
                start == (y0 + r) * width + x0,
                count == r * w + c,
                sx == before.0 + row_moment(0, a@, b@, start as int, c as nat),
                sy == before.1 + row_moment(1, a@, b@, start as int, c as nat),
                sxx == before.2 + row_moment(2, a@, b@, start as int, c as nat),
                syy == before.3 + row_moment(3, a@, b@, start as int, c as nat),
                sxy == before.4 + row_moment(4, a@, b@, start as int, c as nat),
                sx <= 65535 * count,
                sy <= 65535 * count,
                sxx <= 0x1_0000_0000 * count,
                syy <= 0x1_0000_0000 * count,
                sxy <= 0x1_0000_0000 * count,
            decreases w - c,
        {
            proof {
                lemma_pixel_index(width as int, height as int, x0 + c, y0 + r);
                lemma_cell_count(r as int, c + 1, w as int, h as int, width as int, height as int);
            }
            let x = a[start + c] as u128;
            let y = b[start + c] as u128;
            proof {
                lemma_term_bound(2, x as int, y as int);
            }
            sx += x;
            sy += y;
            sxx += x * x;
            syy += y * y;
            sxy += x * y;
            count += 1;
            c += 1;
        }
        proof {
            lemma_cell_count(r as int, w as int, w as int, h as int, width as int, height as int);
        }
        r += 1;
    }
    assert(h * w == w * h) by (nonlinear_arith);
    Moments { count, sum_x: sx, sum_y: sy, sum_xx: sxx, sum_yy: syy, sum_xy: sxy }
}

/// The structural similarity of the luma of two images of equal dimensions,
/// taken over the whole image as one window.
pub struct SSIM;

impl SSIM {
    /// The sums over all pixels of the 16-bit luma of the two images. The
    /// similarity is the quotient of `luminance_above` times
    /// `structure_above` and `luminance_below` times `structure_below`, each
    /// taken at 65535: `Moments::factors` gives the four.
    pub fn compare(original: &Image, other: &Image) -> (m: Moments)
        requires
            original@.width == other@.width,
            original@.height == other@.height,
        ensures
            m.is_window_of(
                original@.luma16(),
                other@.luma16(),
                original@.width as int,
                0,
                0,
                original@.width,
                original@.height,
            ),
            m.within_samples(),
    {
        proof {
            use_type_invariant(original);
            use_type_invariant(other);
        }
        let a = original.luma16();
        let b = other.luma16();
        let width = original.width() as usize;
        let height = original.height() as usize;
        assert(width * height == original@.width * original@.height) by (nonlinear_arith)
            requires
                width == original@.width,
                height == original@.height,
        ;
        window_moments(&a, &b, width, height, 0, 0, width, height)
    }
}


/// The side of a tile, in pixels.
pub const WINDOW_SIZE: usize = 8;

/// The number of tiles that cover `extent` pixels.
pub open spec fn tile_count(extent: int) -> int {
    extent / 8 + if extent % 8 == 0 { 0int } else { 1int }
}

/// The number of pixels of tile `t` along an axis of `extent` pixels: eight,
/// or what is left for the last tile.
pub open spec fn tile_extent(extent: int, t: int) -> int {
    if extent - 8 * t < 8 {
        extent - 8 * t
    } else {
        8
    }
}

fn tiles_along(extent: usize) -> (n: usize)
    ensures
        n == tile_count(extent as int),
        n <= extent,
        8 * n < extent + 8,
        8 * n >= extent,
{
    if extent % WINDOW_SIZE == 0 {
        extent / WINDOW_SIZE
    } else {
        extent / WINDOW_SIZE + 1
    }
}

/// The structural similarity of the luma of two images of equal dimensions,
/// taken tile by tile: the images are cut into tiles of 8 by 8 pixels, the
/// tiles at the right and bottom edges being as large as what is left, and
/// the similarity of the images is the mean of the similarities of the tiles.
pub struct MultiScaleSSIM;

impl MultiScaleSSIM {
    /// The sums over each tile of the 16-bit luma of the two images, row of
    /// tiles by row of tiles.
    pub fn compare(original: &Image, other: &Image) -> (tiles: Vec<Moments>)
        requires
            original@.width == other@.width,
            original@.height == other@.height,
        ensures
            tiles@.len() == tile_count(original@.width as int) * tile_count(original@.height as int),
            forall|t: int|
                0 <= t < tiles@.len() ==> (#[trigger] tiles@[t]).is_window_of(
                    original@.luma16(),
                    other@.luma16(),
                    original@.width as int,
                    8 * (t % tile_count(original@.width as int)),
                    8 * (t / tile_count(original@.width as int)),
                    tile_extent(original@.width as int, t % tile_count(original@.width as int)) as nat,
                    tile_extent(original@.height as int, t / tile_count(original@.width as int)) as nat,
                ),
            forall|t: int| 0 <= t < tiles@.len() ==> (#[trigger] tiles@[t]).bounded(),
    {
        proof {
            use_type_invariant(original);
            use_type_invariant(other);
        }
        let a = original.luma16();
        let b = other.luma16();
        let width = original.width() as usize;
        let height = original.height() as usize;
        let bw = tiles_along(width);
        let bh = tiles_along(height);
        assert(width * height == original@.width * original@.height && 0 <= bw * bh <= width * height)
            by (nonlinear_arith)
            requires
                width == original@.width,
                height == original@.height,
                0 <= bw <= width,
                0 <= bh <= height,
        ;
        let total = bw * bh;
        let mut tiles: Vec<Moments> = Vec::with_capacity(total);
        let mut t: usize = 0;
        while t < total
            invariant
                t <= total,
                total == bw * bh,
                bw == tile_count(width as int),
                bh == tile_count(height as int),
                8 * bw < width + 8,
                8 * bh < height + 8,
                a.len() == width * height,
                b.len() == width * height,
                tiles.len() == t,
                forall|u: int|
                    0 <= u < t ==> (#[trigger] tiles@[u]).is_window_of(
                        a@,
                        b@,
                        width as int,
                        8 * (u % (bw as int)),
                        8 * (u / (bw as int)),
                        tile_extent(width as int, u % (bw as int)) as nat,
                        tile_extent(height as int, u / (bw as int)) as nat,
                    ),
                forall|u: int| 0 <= u < t ==> (#[trigger] tiles@[u]).bounded(),
            decreases total - t,
        {
            proof {
                if bw == 0 {
                    assert(bw * bh == 0) by (nonlinear_arith)
                        requires
                            bw == 0,
                    ;
                }
                lemma_interior(t as int, bw as int, bh as int);
            }
            let x = (t % bw) * WINDOW_SIZE;
            let y = (t / bw) * WINDOW_SIZE;
            let w = if width - x < WINDOW_SIZE {
                width - x
            } else {
                WINDOW_SIZE
            };
            let h = if height - y < WINDOW_SIZE {
                height - y
            } else {
                WINDOW_SIZE
            };
            let m = window_moments(&a, &b, width, height, x, y, w, h);
            assert(m.count <= 64) by (nonlinear_arith)
                requires
                    m.count == w * h,
                    w <= 8,
                    h <= 8,
            ;
            tiles.push(m);
            t += 1;
        }
        tiles
    }
}

/// Over a window of an image taken against itself, the sum of `x` is the sum
/// of `y`, and the sums of `x * x`, `y * y` and `x * y` are one.
pub proof fn lemma_window_self(a: Seq<u16>, width: int, x0: int, y0: int, w: nat, rows: nat)
    ensures
        window_moment(0, a, a, width, x0, y0, w, rows) == window_moment(1, a, a, width, x0, y0, w, rows),
        window_moment(2, a, a, width, x0, y0, w, rows) == window_moment(4, a, a, width, x0, y0, w, rows),
        window_moment(3, a, a, width, x0, y0, w, rows) == window_moment(4, a, a, width, x0, y0, w, rows),
    decreases rows,
{
    if rows > 0 {
        lemma_window_self(a, width, x0, y0, w, (rows - 1) as nat);
        lemma_row_self(a, (y0 + rows - 1) * width + x0, w);
    }
}

proof fn lemma_row_self(a: Seq<u16>, start: int, n: nat)
    ensures
        row_moment(0, a, a, start, n) == row_moment(1, a, a, start, n),
        row_moment(2, a, a, start, n) == row_moment(4, a, a, start, n),
        row_moment(3, a, a, start, n) == row_moment(4, a, a, start, n),
    decreases n,
{
    if n > 0 {
        lemma_row_self(a, start, (n - 1) as nat);
    }
}

/// The structural similarity of a window against itself is one: the
/// numerator and the denominator of the quotient have the same factors.
pub proof fn lemma_similarity_self(m: Moments, a: Seq<u16>, width: int, x0: int, y0: int, w: nat, h: nat, peak: int)
    requires
        m.is_window_of(a, a, width, x0, y0, w, h),
    ensures
        m.luminance_above(peak) == m.luminance_below(peak),
        m.structure_above(peak) == m.structure_below(peak),
{
    lemma_window_self(a, width, x0, y0, w, h);
}


proof fn lemma_spread_step(n: int, s: int, q: int, x: int)
    requires
        n >= 0,
        q >= 0,
        n * q >= s * s,
    ensures
        q + x * x >= 0,
        (n + 1) * (q + x * x) >= (s + x) * (s + x),
{
    assert(x * x >= 0) by (nonlinear_arith);
    let t = q - 2 * (s * x) + n * (x * x);
    if n == 0 {
        assert(s == 0) by (nonlinear_arith)
            requires
                n * q >= s * s,
                n == 0,
        ;
        assert(t == q) by (nonlinear_arith)
            requires
                t == q - 2 * (s * x) + n * (x * x),
                n == 0,
                s == 0,
        ;
    } else {
        let r = s - n * x;
        assert(n * t == n * q - s * s + r * r) by (nonlinear_arith)
            requires
                t == q - 2 * (s * x) + n * (x * x),
                r == s - n * x,
        ;
        assert(r * r >= 0) by (nonlinear_arith);
        assert(t >= 0) by (nonlinear_arith)
            requires
                n > 0,
                n * t >= 0,
        ;
    }
    assert((n + 1) * (q + x * x) - (s + x) * (s + x) == n * q - s * s + t) by (nonlinear_arith)
        requires
            t == q - 2 * (s * x) + n * (x * x),
    ;
}

proof fn lemma_row_spread(k: int, a: Seq<u16>, b: Seq<u16>, start: int, c: nat, n: int, s: int, q: int)
    requires
        k == 0 || k == 1,
        n >= 0,
        q >= 0,
        n * q >= s * s,
    ensures
        q + row_moment(k + 2, a, b, start, c) >= 0,
        (n + c) * (q + row_moment(k + 2, a, b, start, c)) >= (s + row_moment(k, a, b, start, c)) * (s
            + row_moment(k, a, b, start, c)),
    decreases c,
{
    if c > 0 {
        lemma_row_spread(k, a, b, start, (c - 1) as nat, n, s, q);
        let x = moment_term(k, a[start + c - 1] as int, b[start + c - 1] as int);
        assert(moment_term(k + 2, a[start + c - 1] as int, b[start + c - 1] as int) == x * x);
        lemma_spread_step(
            n + c - 1,
            s + row_moment(k, a, b, start, (c - 1) as nat),
            q + row_moment(k + 2, a, b, start, (c - 1) as nat),
            x,
        );
    }
}

/// Over a window, the number of pixels times the sum of the squares of the
/// samples of an image is at least the square of their sum: the variance of
/// the window is not negative. `k` is 0 for the first image, 1 for the second.
pub proof fn lemma_window_spread(
    k: int,
    a: Seq<u16>,
    b: Seq<u16>,
    width: int,
    x0: int,
    y0: int,
    w: nat,
    rows: nat,
)
    requires
        k == 0 || k == 1,
    ensures
        window_moment(k + 2, a, b, width, x0, y0, w, rows) >= 0,
        (w * rows) * window_moment(k + 2, a, b, width, x0, y0, w, rows) >= window_moment(
            k,
            a,
            b,
            width,
            x0,
            y0,
            w,
            rows,
        ) * window_moment(k, a, b, width, x0, y0, w, rows),
    decreases rows,
{
    if rows > 0 {
        lemma_window_spread(k, a, b, width, x0, y0, w, (rows - 1) as nat);
        assert(w * (rows - 1) + w == w * rows && w * (rows - 1) >= 0) by (nonlinear_arith)
            requires
                rows >= 1,
                w >= 0,
        ;
        lemma_row_spread(
            k,
            a,
            b,
            (y0 + rows - 1) * width + x0,
            w,
            w * (rows - 1),
            window_moment(k, a, b, width, x0, y0, w, (rows - 1) as nat),
            window_moment(k + 2, a, b, width, x0, y0, w, (rows - 1) as nat),
        );
    } else {
        assert((w * 0) * 0 >= 0 * 0) by (nonlinear_arith);
    }
}

/// The structural similarity of a window that is not empty has a value: both
/// factors of the denominator of the quotient are positive.
pub proof fn lemma_similarity_defined(
    m: Moments,
    a: Seq<u16>,
    b: Seq<u16>,
    width: int,
    x0: int,
    y0: int,
    w: nat,
    h: nat,
    peak: int,
)
    requires
        m.is_window_of(a, b, width, x0, y0, w, h),
        m.count > 0,
        peak > 0,
    ensures
        m.luminance_below(peak) > 0,
        m.structure_below(peak) > 0,
{
    lemma_window_spread(0, a, b, width, x0, y0, w, h);
    lemma_window_spread(1, a, b, width, x0, y0, w, h);
    let n = m.count as int;
    let sx = m.sum_x as int;
    let sy = m.sum_y as int;
    assert(peak * peak * (n * n) > 0 && sx * sx >= 0 && sy * sy >= 0) by (nonlinear_arith)
        requires
            n > 0,
            peak > 0,
    ;
}

} // verus!
