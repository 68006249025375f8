//! UV-plane beam convolution.
//!
//! The Fourier transform of the convolving Gaussian is evaluated at each UV
//! point (no kernel image is needed) and multiplied into the image's spectrum.
//! NaN pixels are zero-filled; the pattern of NaNs goes through the same filter,
//! and every pixel that it fully covers is blanked again.
use vstd::prelude::*;

use crate::beam::{beam_kernel_is_function, major_arcsec_of, Beam, BeamKernel};
use crate::fft::{
    fft_kernel_is_function, irfft2, irfft2_spec, narrow_of, rfft2, rfft2_spec, scale_of, Complex,
    FftKernel, FftPlans,
};
use crate::ieee::{Double, FftFloat};
use crate::plane::{lemma_cell, lemma_place, Plane};

verus! {

#[derive(Clone, Copy, Debug, PartialEq, Eq, Structural)]
pub enum ConvolveError {
    /// The image is entirely NaN.
    AllNaN,
    /// The beam is larger than the cutoff, so the image is blanked.
    AboveCutoff,
}

/// A convolved image and its flux scaling factor.
pub struct ConvolutionResult<T> {
    /// Convolved image (NaNs propagated from the input).
    pub image: Plane<T>,
    /// Amplitude ratio √(Ω_new/Ω_old) of the beams; one where they agree.
    pub scaling_factor: Double,
}

/// The formulas of the UV filter, in floating point.
pub trait FilterKernel: BeamKernel {
    /// Degrees as radians.
    fn radians(&self, deg: Double) -> Double;

    /// Frequency of bin `bin` of `n` samples spaced `d` apart.
    fn frequency(&self, bin: i64, n: usize, d: Double) -> Double;

    /// Amplitude ratio of the two beams.
    fn gain_ratio(&self, old: &Beam, new: &Beam) -> Double;

    /// Gain of the filter at a UV point.
    fn gain(&self, old: &Beam, new: &Beam, u: Double, v: Double) -> Double;

    /// `1 / x`
    fn reciprocal(&self, x: Double) -> Double;
}

pub open spec fn radians_of<B: FilterKernel>(b: &B, deg: Double) -> Double {
    choose|x: Double| call_ensures(B::radians, (b, deg), x)
}

pub open spec fn frequency_of<B: FilterKernel>(b: &B, bin: i64, n: usize, d: Double) -> Double {
    choose|x: Double| call_ensures(B::frequency, (b, bin, n, d), x)
}

pub open spec fn gain_ratio_of<B: FilterKernel>(b: &B, old: Beam, new: Beam) -> Double {
    choose|x: Double| call_ensures(B::gain_ratio, (b, &old, &new), x)
}

pub open spec fn gain_of<B: FilterKernel>(b: &B, old: Beam, new: Beam, u: Double, v: Double) -> Double {
    choose|x: Double| call_ensures(B::gain, (b, &old, &new, u, v), x)
}

pub open spec fn reciprocal_of<B: FilterKernel>(b: &B, x: Double) -> Double {
    choose|y: Double| call_ensures(B::reciprocal, (b, x), y)
}

/// The same arguments give the same numbers.
pub open spec fn filter_kernel_is_function<B: FilterKernel>(b: &B) -> bool {
    &&& beam_kernel_is_function(b)
    &&& forall|v: Double, x: Double, y: Double|
        #![trigger call_ensures(B::radians, (b, v), x), call_ensures(B::radians, (b, v), y)]
        call_ensures(B::radians, (b, v), x) && call_ensures(B::radians, (b, v), y) ==> x == y
    &&& forall|i: i64, n: usize, d: Double, x: Double, y: Double|
        #![trigger call_ensures(B::frequency, (b, i, n, d), x), call_ensures(B::frequency, (b, i, n, d), y)]
        call_ensures(B::frequency, (b, i, n, d), x) && call_ensures(B::frequency, (b, i, n, d), y)
            ==> x == y
    &&& forall|o: Beam, p: Beam, x: Double, y: Double|
        #![trigger call_ensures(B::gain_ratio, (b, &o, &p), x), call_ensures(B::gain_ratio, (b, &o, &p), y)]
        call_ensures(B::gain_ratio, (b, &o, &p), x) && call_ensures(B::gain_ratio, (b, &o, &p), y)
            ==> x == y
    &&& forall|o: Beam, p: Beam, u: Double, v: Double, x: Double, y: Double|
        #![trigger call_ensures(B::gain, (b, &o, &p, u, v), x), call_ensures(B::gain, (b, &o, &p, u, v), y)]
        call_ensures(B::gain, (b, &o, &p, u, v), x) && call_ensures(B::gain, (b, &o, &p, u, v), y)
            ==> x == y
    &&& forall|v: Double, x: Double, y: Double|
        #![trigger call_ensures(B::reciprocal, (b, v), x), call_ensures(B::reciprocal, (b, v), y)]
        call_ensures(B::reciprocal, (b, v), x) && call_ensures(B::reciprocal, (b, v), y) ==> x == y
}

// ── Frequencies and filter ──────────────────────────────────────────────────

/// Frequency bin of transform index `i` among `n`: the non-negative bins first,
/// then the negative ones.  For even `n` the Nyquist bin (index n/2) is negative.
pub open spec fn bin(n: int, i: int) -> int {
    if i < (n + 1) / 2 {
        i
    } else {
        i - n
    }
}

/// Every bin lies in the band `[-n/2, n/2]`, and stands for its index modulo `n`.
pub proof fn law_bins_cover_the_band(n: int, i: int)
    requires
        0 <= i < n,
    ensures
        -n <= 2 * bin(n, i) <= n,
        2 * bin(n, i) < n,
        bin(n, i) == i || bin(n, i) == i - n,
        bin(n, 0) == 0,
        n % 2 == 0 ==> bin(n, n / 2) == -(n / 2),
{
}

/// Distinct indices have distinct bins.
pub proof fn law_bins_are_distinct(n: int, i: int, j: int)
    requires
        0 <= i < n,
        0 <= j < n,
        bin(n, i) == bin(n, j),
    ensures
        i == j,
{
}

/// The frequencies of an `n`-point transform with sample spacing `d`.
pub fn fftfreq<B: FilterKernel>(b: &B, n: usize, d: Double) -> (r: Vec<Double>)
    requires
        filter_kernel_is_function(b),
        n <= i64::MAX,
    ensures
        r@.len() == n,
        forall|i: int|
            0 <= i < n ==> r@[i] == frequency_of(b, bin(n as int, i) as i64, n, d),
{
    let half = n / 2 + n % 2;
    let mut r: Vec<Double> = Vec::new();
    let mut i: usize = 0;
    while i < n
        invariant
            i <= n,
            n <= i64::MAX,
            half as int == (n + 1) / 2,
            filter_kernel_is_function(b),
            r@.len() == i,
            forall|j: int|
                0 <= j < i ==> r@[j] == frequency_of(b, bin(n as int, j) as i64, n, d),
        decreases n - i,
    {
        let bin_i: i64 = if i < half {
            i as i64
        } else {
            i as i64 - n as i64
        };
        let f = b.frequency(bin_i, n, d);
        r.push(f);
        i = i + 1;
    }
    r
}

/// The filter from `old` to `new` over a grid of frequencies, row by row.
pub open spec fn filter_table<B: FilterKernel>(
    b: &B,
    old: Beam,
    new: Beam,
    u: Seq<Double>,
    v: Seq<Double>,
) -> Seq<Double> {
    Seq::new(
        u.len() * v.len(),
        |q: int| gain_of(b, old, new, u[q / (v.len() as int)], v[q % (v.len() as int)]),
    )
}

/// The gain at the zero frequency is the amplitude ratio of the beams.
pub open spec fn starts_at_the_ratio<B: FilterKernel>(b: &B, old: Beam, new: Beam) -> bool {
    gain_of(b, old, new, Double::zero_spec(), Double::zero_spec()) == gain_ratio_of(b, old, new)
}

/// `(f, g)` is a point of the grid, or the zero frequency.
pub open spec fn on_grid(u: Seq<Double>, v: Seq<Double>, f: Double, g: Double) -> bool {
    (u.contains(f) && v.contains(g)) || (f == Double::zero_spec() && g == Double::zero_spec())
}

proof fn lemma_on_grid(u: Seq<Double>, v: Seq<Double>, q: int)
    requires
        0 <= q < u.len() * v.len(),
    ensures
        on_grid(u, v, u[q / (v.len() as int)], v[q % (v.len() as int)]),
{
    let n = u.len() as int;
    let m = v.len() as int;
    assert(m > 0) by (nonlinear_arith)
        requires
            0 <= q < n * m,
            m >= 0,
    ;
    lemma_place(q, n, m);
    assert(u.contains(u[q / m]) && v.contains(v[q % m]));
}

/// Where the gain from `x` to `z` is, on a grid of frequencies, the product of those
/// from `x` to `y` and from `y` to `z`, as `product` tells products, the tables are
/// the point-by-point products too; and so is the ratio, where it is the gain at the
/// zero frequency.
pub proof fn law_filters_compose<B: FilterKernel>(
    b: &B,
    x: Beam,
    y: Beam,
    z: Beam,
    u: Seq<Double>,
    v: Seq<Double>,
    product: spec_fn(Double, Double, Double) -> bool,
)
    requires
        forall|f: Double, g: Double|
            #![trigger on_grid(u, v, f, g)]
            on_grid(u, v, f, g) ==> product(
                gain_of(b, x, y, f, g),
                gain_of(b, y, z, f, g),
                gain_of(b, x, z, f, g),
            ),
        starts_at_the_ratio(b, x, y),
        starts_at_the_ratio(b, y, z),
        starts_at_the_ratio(b, x, z),
    ensures
        filter_table(b, x, y, u, v).len() == u.len() * v.len(),
        filter_table(b, y, z, u, v).len() == u.len() * v.len(),
        filter_table(b, x, z, u, v).len() == u.len() * v.len(),
        forall|q: int|
            0 <= q < u.len() * v.len() ==> product(
                filter_table(b, x, y, u, v)[q],
                filter_table(b, y, z, u, v)[q],
                #[trigger] filter_table(b, x, z, u, v)[q],
            ),
        product(gain_ratio_of(b, x, y), gain_ratio_of(b, y, z), gain_ratio_of(b, x, z)),
{
    assert(on_grid(u, v, Double::zero_spec(), Double::zero_spec()));
    assert forall|q: int| 0 <= q < u.len() * v.len() implies product(
        filter_table(b, x, y, u, v)[q],
        filter_table(b, y, z, u, v)[q],
        #[trigger] filter_table(b, x, z, u, v)[q],
    ) by {
        lemma_on_grid(u, v, q);
    }
}

/// Between equal beams the filter is one, at every frequency of the grid and in its
/// ratio, where the gain between equal beams is one there, as `one` tells it.
pub proof fn law_equal_beams_filter_nothing<B: FilterKernel>(
    b: &B,
    x: Beam,
    u: Seq<Double>,
    v: Seq<Double>,
    one: spec_fn(Double) -> bool,
)
    requires
        forall|f: Double, g: Double|
            #![trigger on_grid(u, v, f, g)]
            on_grid(u, v, f, g) ==> one(gain_of(b, x, x, f, g)),
        starts_at_the_ratio(b, x, x),
    ensures
        forall|q: int|
            0 <= q < u.len() * v.len() ==> one(#[trigger] filter_table(b, x, x, u, v)[q]),
        one(gain_ratio_of(b, x, x)),
{
    assert(on_grid(u, v, Double::zero_spec(), Double::zero_spec()));
    assert forall|q: int| 0 <= q < u.len() * v.len() implies one(
        #[trigger] filter_table(b, x, x, u, v)[q],
    ) by {
        lemma_on_grid(u, v, q);
    }
}

/// The product of `f` and `g` is one.
pub open spec fn cancel(
    product: spec_fn(Double, Double, Double) -> bool,
    one: spec_fn(Double) -> bool,
    f: Double,
    g: Double,
) -> bool {
    exists|w: Double| one(w) && #[trigger] product(f, g, w)
}

/// A filter and its reverse cancel: where gains compose and the gain between equal
/// beams is one, the product of both tables is one at every frequency, and so is that
/// of both ratios.
pub proof fn law_reverse_filters_cancel<B: FilterKernel>(
    b: &B,
    x: Beam,
    y: Beam,
    u: Seq<Double>,
    v: Seq<Double>,
    product: spec_fn(Double, Double, Double) -> bool,
    one: spec_fn(Double) -> bool,
)
    requires
        forall|f: Double, g: Double|
            #![trigger on_grid(u, v, f, g)]
            on_grid(u, v, f, g) ==> product(
                gain_of(b, x, y, f, g),
                gain_of(b, y, x, f, g),
                gain_of(b, x, x, f, g),
            ),
        forall|f: Double, g: Double|
            #![trigger on_grid(u, v, f, g)]
            on_grid(u, v, f, g) ==> one(gain_of(b, x, x, f, g)),
        starts_at_the_ratio(b, x, y),
        starts_at_the_ratio(b, y, x),
        starts_at_the_ratio(b, x, x),
    ensures
        forall|q: int|
            0 <= q < u.len() * v.len() ==> cancel(
                product,
                one,
                #[trigger] filter_table(b, x, y, u, v)[q],
                filter_table(b, y, x, u, v)[q],
            ),
        cancel(product, one, gain_ratio_of(b, x, y), gain_ratio_of(b, y, x)),
{
    law_filters_compose(b, x, y, x, u, v, product);
    law_equal_beams_filter_nothing(b, x, u, v, one);
    assert forall|q: int| 0 <= q < u.len() * v.len() implies cancel(
        product,
        one,
        #[trigger] filter_table(b, x, y, u, v)[q],
        filter_table(b, y, x, u, v)[q],
    ) by {
        let w = filter_table(b, x, x, u, v)[q];
        assert(one(w));
        assert(product(filter_table(b, x, y, u, v)[q], filter_table(b, y, x, u, v)[q], w));
    }
    assert(product(gain_ratio_of(b, x, y), gain_ratio_of(b, y, x), gain_ratio_of(b, x, x)));
}

/// The UV-plane filter that deconvolves `old_beam` and re-convolves with
/// `new_beam`, row by row, and the amplitude ratio of the beams.
pub fn gaussft<B: FilterKernel>(
    b: &B,
    old_beam: &Beam,
    new_beam: &Beam,
    u_freqs: &Vec<Double>,
    v_freqs: &Vec<Double>,
) -> (r: (Vec<Double>, Double))
    requires
        filter_kernel_is_function(b),
        u_freqs@.len() * v_freqs@.len() <= usize::MAX,
    ensures
        r.0@ == filter_table(b, *old_beam, *new_beam, u_freqs@, v_freqs@),
        r.1 == gain_ratio_of(b, *old_beam, *new_beam),
{
    let ratio = b.gain_ratio(old_beam, new_beam);
    let n = u_freqs.len();
    let m = v_freqs.len();
    let mut g: Vec<Double> = Vec::new();
    let mut i: usize = 0;
    while i < n
        invariant
            i <= n,
            n == u_freqs@.len(),
            m == v_freqs@.len(),
            filter_kernel_is_function(b),
            g@.len() == i * m,
            forall|a: int, c: int|
                #![trigger g@[a * m + c]]
                0 <= a < i && 0 <= c < m ==> g@[a * m + c] == gain_of(
                    b,
                    *old_beam,
                    *new_beam,
                    u_freqs@[a],
                    v_freqs@[c],
                ),
        decreases n - i,
    {
        let mut j: usize = 0;
        while j < m
            invariant
                j <= m,
                i < n,
                n == u_freqs@.len(),
                m == v_freqs@.len(),
                filter_kernel_is_function(b),
                g@.len() == i * m + j,
                forall|a: int, c: int|
                    #![trigger g@[a * m + c]]
                    ((0 <= a < i && 0 <= c < m) || (a == i && 0 <= c < j)) ==> g@[a * m + c]
                        == gain_of(b, *old_beam, *new_beam, u_freqs@[a], v_freqs@[c]),
            decreases m - j,
        {
            let x = b.gain(old_beam, new_beam, u_freqs[i], v_freqs[j]);
            let ghost before = g@;
            g.push(x);
            proof {
                assert forall|a: int, c: int|
                    #![trigger g@[a * m + c]]
                    ((0 <= a < i && 0 <= c < m) || (a == i && 0 <= c < j + 1)) implies g@[a * m + c]
                    == gain_of(b, *old_beam, *new_beam, u_freqs@[a], v_freqs@[c]) by {
                    if a < i {
                        lemma_cell(a, c, i as int, m as int);
                        assert(g@[a * m + c] == before[a * m + c]);
                    } else if c < j {
                        lemma_cell(a, c, (i + 1) as int, m as int);
                        assert(g@[a * m + c] == before[a * m + c]);
                    }
                }
            }
            j = j + 1;
        }
        assert((i + 1) * m == i * m + m) by (nonlinear_arith);
        i = i + 1;
    }
    proof {
        let table = filter_table(b, *old_beam, *new_beam, u_freqs@, v_freqs@);
        assert forall|q: int| 0 <= q < n * m implies g@[q] == table[q] by {
            lemma_place(q, n as int, m as int);
            assert(g@[(q / (m as int)) * m + q % (m as int)] == g@[q]);
        }
        assert(g@ =~= table);
    }
    (g, ratio)
}

// ── NaN handling ────────────────────────────────────────────────────────────

/// No pixel holds a number.
pub open spec fn all_nan<T: FftFloat>(data: Seq<T>) -> bool {
    forall|i: int| 0 <= i < data.len() ==> (#[trigger] data[i]).not_a_number()
}

/// Every pixel holds a number.
pub open spec fn no_nan<T: FftFloat>(data: Seq<T>) -> bool {
    forall|i: int| 0 <= i < data.len() ==> !(#[trigger] data[i]).not_a_number()
}

/// The pixels with zeros in place of NaNs.
pub open spec fn zero_filled<T: FftFloat>(data: Seq<T>) -> Seq<T> {
    Seq::new(
        data.len(),
        |i: int|
            if data[i].not_a_number() {
                T::zero_spec()
            } else {
                data[i]
            },
    )
}

/// One where a pixel is NaN, zero elsewhere.
pub open spec fn nan_mask<T: FftFloat>(data: Seq<T>) -> Seq<T> {
    Seq::new(
        data.len(),
        |i: int|
            if data[i].not_a_number() {
                T::one_spec()
            } else {
                T::zero_spec()
            },
    )
}

/// The mask reaches one at this pixel, so no data contributed to it.
pub open spec fn covered<T: FftFloat>(mask: T) -> bool {
    !mask.not_a_number() && !T::one_spec().not_a_number() && mask.value() >= T::one_spec().value()
}

/// The pixels, blanked where the smeared mask covers them.
pub open spec fn blanked<T: FftFloat>(pixels: Seq<T>, mask: Seq<T>) -> Seq<T> {
    Seq::new(
        pixels.len(),
        |i: int|
            if covered(mask[i]) {
                T::nan_spec()
            } else {
                pixels[i]
            },
    )
}

/// Zero-filling leaves no NaN, and an image without NaNs as it is.
pub proof fn law_zero_fill<T: FftFloat>(data: Seq<T>)
    ensures
        no_nan(zero_filled(data)),
        no_nan(data) ==> zero_filled(data) == data,
        no_nan(nan_mask(data)),
{
    T::constants_are_distinct();
    if no_nan(data) {
        assert(zero_filled(data) =~= data);
    }
}

/// A covered pixel comes out as NaN; every other one keeps its value.
pub proof fn law_blanking<T: FftFloat>(pixels: Seq<T>, mask: Seq<T>, i: int)
    requires
        0 <= i < pixels.len(),
        pixels.len() == mask.len(),
    ensures
        covered(mask[i]) ==> blanked(pixels, mask)[i].not_a_number(),
        !covered(mask[i]) ==> blanked(pixels, mask)[i] == pixels[i],
{
    T::constants_are_distinct();
}

fn zero_fill<T: FftFloat>(data: &Vec<T>) -> (r: (Vec<T>, usize))
    ensures
        r.0@ == zero_filled(data@),
        r.1 <= data@.len(),
        r.1 == 0 <==> no_nan(data@),
        r.1 == data@.len() <==> all_nan(data@),
{
    let mut clean: Vec<T> = Vec::new();
    let mut count: usize = 0;
    let mut i: usize = 0;
    while i < data.len()
        invariant
            i <= data.len(),
            count <= i,
            clean@ == zero_filled(data@).take(i as int),
            count == 0 <==> no_nan(data@.take(i as int)),
            count == i <==> all_nan(data@.take(i as int)),
        decreases data.len() - i,
    {
        let x = data[i];
        let ghost t = data@.take(i as int);
        let ghost longer = data@.take(i + 1);
        proof {
            assert(longer =~= t.push(x));
            assert(longer[i as int] == x);
            assert forall|j: int| 0 <= j < i implies longer[j] == t[j] by {}
            assert(no_nan(longer) <==> no_nan(t) && !x.not_a_number()) by {
                if no_nan(longer) {
                    assert forall|j: int| 0 <= j < t.len() implies !(#[trigger] t[j]).not_a_number() by {
                        assert(longer[j] == t[j]);
                    }
                }
            }
            assert(all_nan(longer) <==> all_nan(t) && x.not_a_number()) by {
                if all_nan(longer) {
                    assert forall|j: int| 0 <= j < t.len() implies (#[trigger] t[j]).not_a_number() by {
                        assert(longer[j] == t[j]);
                    }
                }
            }
            let all = zero_filled(data@);
            assert(all.take(i + 1) =~= all.take(i as int).push(all[i as int]));
        }
        if x.is_nan() {
            count = count + 1;
            clean.push(T::zero());
        } else {
            clean.push(x);
        }
        i = i + 1;
    }
    assert(data@.take(i as int) =~= data@);
    assert(clean@ =~= zero_filled(data@));
    (clean, count)
}

/// True where some pixel holds a number.
pub fn any_number<T: FftFloat>(data: &Vec<T>) -> (r: bool)
    ensures
        r == !all_nan(data@),
{
    let mut i: usize = 0;
    while i < data.len()
        invariant
            i <= data.len(),
            forall|j: int| 0 <= j < i ==> (#[trigger] data@[j]).not_a_number(),
        decreases data.len() - i,
    {
        if !data[i].is_nan() {
            return true;
        }
        i = i + 1;
    }
    false
}

fn mask_of<T: FftFloat>(data: &Vec<T>) -> (r: Vec<T>)
    ensures
        r@ == nan_mask(data@),
{
    let mut mask: Vec<T> = Vec::new();
    let mut i: usize = 0;
    while i < data.len()
        invariant
            i <= data.len(),
            mask@ == nan_mask(data@).take(i as int),
        decreases data.len() - i,
    {
        if data[i].is_nan() {
            mask.push(T::one());
        } else {
            mask.push(T::zero());
        }
        proof {
            let all = nan_mask(data@);
            assert(all.take(i + 1) =~= all.take(i as int).push(all[i as int]));
        }
        i = i + 1;
    }
    assert(mask@ =~= nan_mask(data@));
    mask
}

fn blank<T: FftFloat>(pixels: &Vec<T>, mask: &Vec<T>) -> (r: Vec<T>)
    requires
        pixels@.len() == mask@.len(),
    ensures
        r@ == blanked(pixels@, mask@),
{
    let one = T::one();
    let mut r: Vec<T> = Vec::new();
    let mut i: usize = 0;
    while i < pixels.len()
        invariant
            i <= pixels.len(),
            pixels@.len() == mask@.len(),
            one == T::one_spec(),
            r@ == blanked(pixels@, mask@).take(i as int),
        decreases pixels.len() - i,
    {
        if mask[i].at_least(&one) {
            r.push(T::nan());
        } else {
            r.push(pixels[i]);
        }
        proof {
            let all = blanked(pixels@, mask@);
            assert(all.take(i + 1) =~= all.take(i as int).push(all[i as int]));
        }
        i = i + 1;
    }
    assert(r@ =~= blanked(pixels@, mask@));
    r
}

// ── Filtering ───────────────────────────────────────────────────────────────

/// A spectrum multiplied by the filter, point by point.
pub open spec fn attenuated<T: FftFloat, F: FftKernel<T>>(
    f: &F,
    spectrum: Seq<Complex<T>>,
    gains: Seq<T>,
) -> Seq<Complex<T>> {
    Seq::new(spectrum.len(), |q: int| scale_of(f, spectrum[q], gains[q]))
}

/// An image through the filter: forward transform, gains, inverse transform.
pub open spec fn filtered<T: FftFloat, F: FftKernel<T>>(
    f: &F,
    nrows: nat,
    ncols: nat,
    gains: Seq<T>,
    data: Seq<T>,
) -> Seq<T> {
    irfft2_spec(f, nrows, ncols, attenuated(f, rfft2_spec(f, nrows, ncols, data), gains))
}

/// The filter on the half spectrum of an `nrows × ncols` image, in the precision
/// of the image.  Pixels are `dx` degrees wide along a row (x) and `dy` degrees high
/// along a column (y).
pub open spec fn uv_gains<T: FftFloat, B: FilterKernel, F: FftKernel<T>>(
    b: &B,
    f: &F,
    old: Beam,
    new: Beam,
    dx: Double,
    dy: Double,
    nrows: usize,
    ncols: usize,
) -> Seq<T> {
    let nhalf = ncols as int / 2 + 1;
    let dx_rad = radians_of(b, dx);
    let dy_rad = radians_of(b, dy);
    Seq::new(
        (nrows * nhalf) as nat,
        |q: int|
            narrow_of(
                f,
                gain_of(
                    b,
                    old,
                    new,
                    frequency_of(b, bin(nrows as int, q / nhalf) as i64, nrows, dy_rad),
                    frequency_of(b, bin(ncols as int, q % nhalf) as i64, ncols, dx_rad),
                ),
            ),
    )
}

/// The convolved pixels: filtered, and blanked where NaNs cover everything.
pub open spec fn convolved_pixels<T: FftFloat, F: FftKernel<T>>(
    f: &F,
    nrows: nat,
    ncols: nat,
    gains: Seq<T>,
    data: Seq<T>,
) -> Seq<T> {
    let pixels = filtered(f, nrows, ncols, gains, zero_filled(data));
    if no_nan(data) {
        pixels
    } else {
        blanked(pixels, filtered(f, nrows, ncols, gains, nan_mask(data)))
    }
}

/// An image without NaNs is filtered as it is, and a pixel of another one comes out
/// as NaN exactly where the smeared pattern of NaNs covers it or the filter gives
/// no number.
pub proof fn law_nans_propagate<T: FftFloat, F: FftKernel<T>>(
    f: &F,
    nrows: nat,
    ncols: nat,
    gains: Seq<T>,
    data: Seq<T>,
    i: int,
)
    requires
        0 <= i < nrows * ncols,
    ensures
        no_nan(data) ==> convolved_pixels(f, nrows, ncols, gains, data) == filtered(
            f,
            nrows,
            ncols,
            gains,
            data,
        ),
        !no_nan(data) ==> (convolved_pixels(f, nrows, ncols, gains, data)[i].not_a_number() <==> {
            ||| covered(filtered(f, nrows, ncols, gains, nan_mask(data))[i])
            ||| filtered(f, nrows, ncols, gains, zero_filled(data))[i].not_a_number()
        }),
{
    law_zero_fill(data);
    let pixels = filtered(f, nrows, ncols, gains, zero_filled(data));
    let mask = filtered(f, nrows, ncols, gains, nan_mask(data));
    assert(pixels.len() == nrows * ncols);
    law_blanking(pixels, mask, i);
}

/// The current beam is above the cutoff.
pub open spec fn above_cutoff<B: BeamKernel>(b: &B, beam: Beam, cutoff: Option<Double>) -> bool {
    cutoff matches Some(c) && c.below(major_arcsec_of(b, beam))
}

/// Pixels and scaling factor of a convolution from `old` to `new`.
pub open spec fn convolved<T: FftFloat, B: FilterKernel, F: FftKernel<T>>(
    b: &B,
    f: &F,
    nrows: usize,
    ncols: usize,
    data: Seq<T>,
    old: Beam,
    new: Beam,
    dx: Double,
    dy: Double,
    cutoff: Option<Double>,
) -> Result<(Seq<T>, Double), ConvolveError> {
    if above_cutoff(b, old, cutoff) {
        Err(ConvolveError::AboveCutoff)
    } else if old.close_to(b, new) {
        Ok((data, Double::one_spec()))
    } else if all_nan(data) {
        Ok((data, gain_ratio_of(b, old, new)))
    } else {
        let gains = uv_gains(b, f, old, new, dx, dy, nrows, ncols);
        Ok(
            (
                convolved_pixels(f, nrows as nat, ncols as nat, gains, data),
                gain_ratio_of(b, old, new),
            ),
        )
    }
}

/// A convolution result as pixels and scaling factor.
pub open spec fn result_view<T>(r: Result<ConvolutionResult<T>, ConvolveError>) -> Result<
    (Seq<T>, Double),
    ConvolveError,
> {
    match r {
        Ok(c) => Ok((c.image.data@, c.scaling_factor)),
        Err(e) => Err(e),
    }
}

fn apply_filter<T: FftFloat, F: FftKernel<T>>(
    plans: &FftPlans<F>,
    gains: &Vec<T>,
    data: &Vec<T>,
) -> (r: Vec<T>)
    requires
        plans.sound::<T>(),
        plans.ncols > 0,
        data@.len() == plans.nrows * plans.ncols,
        gains@.len() == plans.nrows * plans.nhalf,
    ensures
        r@ == filtered(&plans.kernel, plans.nrows as nat, plans.ncols as nat, gains@, data@),
        r@.len() == plans.nrows * plans.ncols,
{
    let f = &plans.kernel;
    let mut spectrum = rfft2(plans, data);
    let ghost source = spectrum@;
    let ghost target = attenuated(f, source, gains@);
    let mut q: usize = 0;
    while q < spectrum.len()
        invariant
            q <= spectrum.len(),
            fft_kernel_is_function::<T, F>(f),
            spectrum@.len() == source.len(),
            gains@.len() == source.len(),
            target == attenuated(f, source, gains@),
            forall|i: int| 0 <= i < q ==> spectrum@[i] == target[i],
            forall|i: int| q <= i < source.len() ==> spectrum@[i] == source[i],
        decreases spectrum.len() - q,
    {
        let s = f.scale(spectrum[q], gains[q]);
        spectrum.set(q, s);
        q = q + 1;
    }
    assert(spectrum@ =~= target);
    irfft2(plans, spectrum)
}

/// Like [`convolve_uv`], but reuses plans built for images of this size.
pub fn convolve_uv_with_plans<T: FftFloat, B: FilterKernel, F: FftKernel<T>>(
    b: &B,
    image: &Plane<T>,
    old_beam: &Beam,
    new_beam: &Beam,
    dx_deg: Double,
    dy_deg: Double,
    cutoff_arcsec: Option<Double>,
    plans: &FftPlans<F>,
) -> (r: Result<ConvolutionResult<T>, ConvolveError>)
    requires
        filter_kernel_is_function(b),
        image.wf(),
        plans.sound::<T>(),
        !above_cutoff(b, *old_beam, cutoff_arcsec) && !old_beam.close_to(b, *new_beam)
            ==> plans.nrows == image.nrows && plans.ncols == image.ncols,
        image.nrows <= i64::MAX,
        image.ncols <= i64::MAX,
    ensures
        result_view(r) == convolved(
            b,
            &plans.kernel,
            image.nrows,
            image.ncols,
            image.data@,
            *old_beam,
            *new_beam,
            dx_deg,
            dy_deg,
            cutoff_arcsec,
        ),
        r matches Ok(c) ==> c.image.wf() && c.image.nrows == image.nrows && c.image.ncols
            == image.ncols,
{
    // Cutoff check.
    if let Some(cutoff) = cutoff_arcsec {
        let major = b.major_arcsec(old_beam);
        if cutoff.lt(&major) {
            return Err(ConvolveError::AboveCutoff);
        }
    }
    // Identical beams: nothing to do.
    if old_beam.approx_eq(b, new_beam) {
        return Ok(ConvolutionResult { image: image.copy(), scaling_factor: Double::one() });
    }
    let (clean, nan_count) = zero_fill(&image.data);
    if nan_count == image.data.len() {
        let ratio = b.gain_ratio(old_beam, new_beam);
        return Ok(ConvolutionResult { image: image.copy(), scaling_factor: ratio });
    }
    let n = image.nrows;
    let ncols = image.ncols;
    let m = plans.nhalf;
    let total = image.data.len();
    proof {
        assert(n > 0 && ncols > 0) by (nonlinear_arith)
            requires
                n * ncols == total,
                total > 0,
                n >= 0,
                ncols >= 0,
        ;
        assert(m <= ncols);
        assert(n * m <= n * ncols) by (nonlinear_arith)
            requires
                m <= ncols,
                n >= 0,
        ;
    }
    // The filter on the half spectrum.
    let dx_rad = b.radians(dx_deg);
    let dy_rad = b.radians(dy_deg);
    let u_freqs = fftfreq(b, n, dy_rad);
    let v_full = fftfreq(b, ncols, dx_rad);
    let mut v_freqs: Vec<Double> = Vec::new();
    let mut j: usize = 0;
    while j < m
        invariant
            j <= m,
            m <= v_full@.len(),
            v_freqs@ == v_full@.take(j as int),
        decreases m - j,
    {
        v_freqs.push(v_full[j]);
        assert(v_full@.take(j + 1) =~= v_full@.take(j as int).push(v_full@[j as int]));
        j = j + 1;
    }
    let (g_final, g_ratio) = gaussft(b, old_beam, new_beam, &u_freqs, &v_freqs);
    let f = &plans.kernel;
    let ghost target: Seq<T> = uv_gains(b, f, *old_beam, *new_beam, dx_deg, dy_deg, n, ncols);
    let mut gains: Vec<T> = Vec::new();
    let mut q: usize = 0;
    while q < g_final.len()
        invariant
            q <= g_final.len(),
            fft_kernel_is_function::<T, F>(f),
            gains@.len() == q,
            forall|i: int| 0 <= i < q ==> gains@[i] == narrow_of::<T, F>(f, g_final@[i]),
        decreases g_final.len() - q,
    {
        let g: T = f.narrow(g_final[q]);
        gains.push(g);
        q = q + 1;
    }
    proof {
        assert forall|i: int| 0 <= i < n * m implies gains@[i] == target[i] by {
            lemma_place(i, n as int, m as int);
            let a = i / (m as int);
            let c = i % (m as int);
            assert(g_final@[a * v_freqs@.len() + c] == gain_of(
                b,
                *old_beam,
                *new_beam,
                u_freqs@[a],
                v_freqs@[c],
            ));
            assert(v_freqs@[c] == v_full@[c]);
        }
        assert(gains@ =~= target);
    }
    let im_conv = apply_filter(plans, &gains, &clean);
    // NaN propagation.
    let out = if nan_count > 0 {
        let mask = mask_of(&image.data);
        let mask_conv = apply_filter(plans, &gains, &mask);
        blank(&im_conv, &mask_conv)
    } else {
        im_conv
    };
    Ok(
        ConvolutionResult {
            image: Plane { nrows: n, ncols, data: out },
            scaling_factor: g_ratio,
        },
    )
}

/// Convolve `image` from `old_beam` to `new_beam` in the UV plane.
///
/// `dx_deg` / `dy_deg` are the pixel sizes in degrees, along the columns' axis x and
/// the rows' axis y.  `cutoff_arcsec` blanks
/// images whose current beam exceeds this size.  `kernel` holds the transforms
/// for the image's size.
pub fn convolve_uv<T: FftFloat, B: FilterKernel, F: FftKernel<T>>(
    b: &B,
    image: &Plane<T>,
    old_beam: &Beam,
    new_beam: &Beam,
    dx_deg: Double,
    dy_deg: Double,
    cutoff_arcsec: Option<Double>,
    kernel: F,
) -> (r: Result<ConvolutionResult<T>, ConvolveError>)
    requires
        filter_kernel_is_function(b),
        image.wf(),
        fft_kernel_is_function::<T, F>(&kernel),
        crate::fft::fft_kernel_fits::<T, F>(&kernel, image.nrows as nat, image.ncols as nat),
        image.nrows <= i64::MAX,
        image.ncols <= i64::MAX,
    ensures
        result_view(r) == convolved(
            b,
            &kernel,
            image.nrows,
            image.ncols,
            image.data@,
            *old_beam,
            *new_beam,
            dx_deg,
            dy_deg,
            cutoff_arcsec,
        ),
        r matches Ok(c) ==> c.image.wf() && c.image.nrows == image.nrows && c.image.ncols
            == image.ncols,
{
    let plans = FftPlans::new(image.nrows, image.ncols, kernel);
    convolve_uv_with_plans(
        b,
        image,
        old_beam,
        new_beam,
        dx_deg,
        dy_deg,
        cutoff_arcsec,
        &plans,
    )
}

} // verus!
