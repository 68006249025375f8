//! Laws of convolution in the UV plane.
use vstd::prelude::*;

use crate::beam::{major_arcsec_of, Beam};
use crate::convolve_uv::{
    all_nan, convolve_uv, convolve_uv_with_plans, filter_kernel_is_function, fftfreq,
    frequency_of, gain_of, gain_ratio_of, gaussft, law_nans_propagate, nan_mask, radians_of,
    reciprocal_of, uv_gains, zero_filled, ConvolutionResult, ConvolveError, FilterKernel,
};
use crate::fft::{
    irfft2, narrow_of, rfft2, scale_of, total, Complex, FftKernel,
    FftPlans,
};
use crate::ieee::{Double, FftFloat};
use crate::plane::{lemma_cell, lemma_place, Plane};

verus! {

/// The names of the filter formulas stand for what the kernel returns for the same
/// arguments, in the same places.
pub proof fn law_filter_names<B: FilterKernel>(
    b: &B,
    old: Beam,
    new: Beam,
    u: Double,
    v: Double,
    bin: i64,
    n: usize,
    x: Double,
)
    requires
        filter_kernel_is_function(b),
    ensures
        call_ensures(B::gain, (b, &old, &new, u, v), x) ==> gain_of(b, old, new, u, v) == x,
        call_ensures(B::gain_ratio, (b, &old, &new), x) ==> gain_ratio_of(b, old, new) == x,
        call_ensures(B::radians, (b, u), x) ==> radians_of(b, u) == x,
        call_ensures(B::reciprocal, (b, u), x) ==> reciprocal_of(b, u) == x,
        call_ensures(B::frequency, (b, bin, n, u), x) ==> frequency_of(b, bin, n, u) == x,
{
}

/// The frequencies of a transform: the non-negative bins in ascending order, up to
/// below half the length, then the negative ones.
pub proof fn law_frequencies<B: FilterKernel>(b: &B, n: usize, d: Double, r: Vec<Double>, i: int)
    requires
        call_ensures(fftfreq::<B>, (b, n, d), r),
        0 <= i < n,
    ensures
        r@.len() == n,
        2 * i < n ==> r@[i] == frequency_of(b, i as i64, n, d),
        2 * i >= n ==> r@[i] == frequency_of(b, (i - n) as i64, n, d),
{
}

/// The filter table holds, in the row of each `u` and the column of each `v`, the gain
/// from the old to the new beam as they were given.
pub proof fn law_table_is_the_gain<B: FilterKernel>(
    b: &B,
    old: Beam,
    new: Beam,
    u: Vec<Double>,
    v: Vec<Double>,
    r: (Vec<Double>, Double),
    i: int,
    j: int,
)
    requires
        call_ensures(gaussft::<B>, (b, &old, &new, &u, &v), r),
        0 <= i < u@.len(),
        0 <= j < v@.len(),
    ensures
        r.0@.len() == u@.len() * v@.len(),
        r.0@[i * v@.len() + j] == gain_of(b, old, new, u@[i], v@[j]),
        r.1 == gain_ratio_of(b, old, new),
{
    lemma_cell(i, j, u@.len() as int, v@.len() as int);
}

/// The filter that goes onto the half spectrum of an image is, bin by bin, what the
/// filter table of the two beams holds for the frequencies of the rows, which are `dy`
/// apart, and for those of the first half of the columns, which are `dx` apart.
pub proof fn law_gains_are_the_table<T: FftFloat, B: FilterKernel, F: FftKernel<T>>(
    b: &B,
    f: &F,
    old: Beam,
    new: Beam,
    dx: Double,
    dy: Double,
    nrows: usize,
    ncols: usize,
    rows: Vec<Double>,
    columns: Vec<Double>,
    half: Vec<Double>,
    table: (Vec<Double>, Double),
    q: int,
)
    requires
        ncols > 0,
        call_ensures(fftfreq::<B>, (b, nrows, radians_of(b, dy)), rows),
        call_ensures(fftfreq::<B>, (b, ncols, radians_of(b, dx)), columns),
        half@ == columns@.take(ncols as int / 2 + 1),
        call_ensures(gaussft::<B>, (b, &old, &new, &rows, &half), table),
        0 <= q < nrows * (ncols as int / 2 + 1),
    ensures
        uv_gains::<T, B, F>(b, f, old, new, dx, dy, nrows, ncols).len() == table.0@.len(),
        uv_gains::<T, B, F>(b, f, old, new, dx, dy, nrows, ncols)[q] == narrow_of::<T, F>(
            f,
            table.0@[q],
        ),
{
    let n = nrows as int;
    let m = ncols as int / 2 + 1;
    lemma_place(q, n, m);
    let i = q / m;
    let j = q % m;
    law_frequencies(b, nrows, radians_of(b, dy), rows, i);
    law_frequencies(b, ncols, radians_of(b, dx), columns, j);
    law_table_is_the_gain(b, old, new, rows, half, table, i, j);
    assert(half@[j] == columns@[j]);
}

/// Two convolutions between other beams, other angles included, have gains that differ
/// wherever the gains between those beams do.
pub proof fn law_gains_follow_the_beams<T: FftFloat, B: FilterKernel, F: FftKernel<T>>(
    b: &B,
    f: &F,
    old: Beam,
    new: Beam,
    other_old: Beam,
    other_new: Beam,
    dx: Double,
    dy: Double,
    nrows: usize,
    ncols: usize,
    rows: Vec<Double>,
    columns: Vec<Double>,
    i: int,
    j: int,
)
    requires
        call_ensures(fftfreq::<B>, (b, nrows, radians_of(b, dy)), rows),
        call_ensures(fftfreq::<B>, (b, ncols, radians_of(b, dx)), columns),
        0 <= i < nrows,
        0 <= j < ncols as int / 2 + 1,
        j < ncols,
    ensures
        ({
            let q = i * (ncols as int / 2 + 1) + j;
            uv_gains::<T, B, F>(b, f, old, new, dx, dy, nrows, ncols)[q] == uv_gains::<T, B, F>(
                b,
                f,
                other_old,
                other_new,
                dx,
                dy,
                nrows,
                ncols,
            )[q] <==> narrow_of::<T, F>(f, gain_of(b, old, new, rows@[i], columns@[j]))
                == narrow_of::<T, F>(f, gain_of(b, other_old, other_new, rows@[i], columns@[j]))
        }),
{
    lemma_cell(i, j, nrows as int, ncols as int / 2 + 1);
    law_frequencies(b, nrows, radians_of(b, dy), rows, i);
    law_frequencies(b, ncols, radians_of(b, dx), columns, j);
}

/// `filled` is `data` with the number zero at every pixel that holds none.
pub open spec fn fills<T: FftFloat>(data: Seq<T>, filled: Seq<T>) -> bool {
    &&& filled.len() == data.len()
    &&& forall|i: int|
        0 <= i < data.len() ==> (#[trigger] filled[i]) == if data[i].not_a_number() {
            T::zero_spec()
        } else {
            data[i]
        }
}

/// `marks` is one at every pixel of `data` that holds no number, and zero at others.
pub open spec fn marks<T: FftFloat>(data: Seq<T>, marks: Seq<T>) -> bool {
    &&& marks.len() == data.len()
    &&& forall|i: int|
        0 <= i < data.len() ==> (#[trigger] marks[i]) == if data[i].not_a_number() {
            T::one_spec()
        } else {
            T::zero_spec()
        }
}

/// `after` is the spectrum `before`, each value scaled by the gain of its bin.
pub open spec fn scales<T: FftFloat, F: FftKernel<T>>(
    f: &F,
    gains: Seq<Double>,
    before: Seq<Complex<T>>,
    after: Seq<Complex<T>>,
) -> bool {
    &&& after.len() == before.len()
    &&& forall|q: int|
        0 <= q < before.len() ==> (#[trigger] after[q]) == scale_of(
            f,
            before[q],
            narrow_of::<T, F>(f, gains[q]),
        )
}

/// The steps of a convolution, each of them one call: the frequencies of both axes, the
/// filter table of the two beams, the forward transform of the filled pixels and of the
/// marks, their spectra times the table, and the inverse transforms.
pub struct Steps<T> {
    pub rows: Vec<Double>,
    pub columns: Vec<Double>,
    pub half: Vec<Double>,
    pub table: (Vec<Double>, Double),
    pub filled: Vec<T>,
    pub spectrum: Vec<Complex<T>>,
    pub damped: Vec<Complex<T>>,
    pub pixels: Vec<T>,
    pub marks: Vec<T>,
    pub marks_spectrum: Vec<Complex<T>>,
    pub marks_damped: Vec<Complex<T>>,
    pub smeared: Vec<T>,
}

impl<T: FftFloat> Steps<T> {
    /// The steps are those of the given convolution.
    pub open spec fn lead_on<B: FilterKernel, F: FftKernel<T>>(
        self,
        b: &B,
        plans: FftPlans<F>,
        data: Seq<T>,
        old: Beam,
        new: Beam,
        dx: Double,
        dy: Double,
    ) -> bool {
        let f = &plans.kernel;
        &&& call_ensures(fftfreq::<B>, (b, plans.nrows, radians_of(b, dy)), self.rows)
        &&& call_ensures(fftfreq::<B>, (b, plans.ncols, radians_of(b, dx)), self.columns)
        &&& self.half@ == self.columns@.take(plans.ncols as int / 2 + 1)
        &&& call_ensures(gaussft::<B>, (b, &old, &new, &self.rows, &self.half), self.table)
        &&& fills(data, self.filled@)
        &&& call_ensures(rfft2::<T, F>, (&plans, &self.filled), self.spectrum)
        &&& scales(f, self.table.0@, self.spectrum@, self.damped@)
        &&& call_ensures(irfft2::<T, F>, (&plans, self.damped), self.pixels)
        &&& marks(data, self.marks@)
        &&& call_ensures(rfft2::<T, F>, (&plans, &self.marks), self.marks_spectrum)
        &&& scales(f, self.table.0@, self.marks_spectrum@, self.marks_damped@)
        &&& call_ensures(irfft2::<T, F>, (&plans, self.marks_damped), self.smeared)
    }
}

/// Some pixel holds a number.
pub open spec fn has_number<T: FftFloat>(data: Seq<T>) -> bool {
    exists|i: int| 0 <= i < data.len() && !(#[trigger] data[i]).not_a_number()
}

/// A convolution is its steps: the result is the filtered image, NaN exactly where the
/// filtered marks reach one (or the filter gave no number), and its factor is that of
/// the filter table.  Without a NaN in the image there is nothing to blank.
pub proof fn law_convolution_is_its_steps<T: FftFloat, B: FilterKernel, F: FftKernel<T>>(
    b: &B,
    image: Plane<T>,
    old: Beam,
    new: Beam,
    dx: Double,
    dy: Double,
    cutoff: Option<Double>,
    plans: FftPlans<F>,
    r: Result<ConvolutionResult<T>, ConvolveError>,
    steps: Steps<T>,
)
    requires
        call_ensures(
            convolve_uv_with_plans::<T, B, F>,
            (b, &image, &old, &new, dx, dy, cutoff, &plans),
            r,
        ),
        r is Ok,
        call_ensures(Beam::approx_eq::<B>, (&old, b, &new), false),
        image.wf(),
        has_number(image.data@),
        plans.nrows == image.nrows,
        plans.ncols == image.ncols,
        steps.lead_on(b, plans, image.data@, old, new, dx, dy),
    ensures
        ({
            let data = image.data@;
            let out = r->Ok_0.image.data@;
            &&& r->Ok_0.scaling_factor == steps.table.1
            &&& out.len() == data.len()
            &&& forall|i: int|
                0 <= i < out.len() ==> {
                    let blank = !all_numbers(data) && !steps.smeared@[i].not_a_number()
                        && steps.smeared@[i].value() >= T::one_spec().value();
                    &&& blank ==> (#[trigger] out[i]).not_a_number()
                    &&& !blank ==> out[i] == steps.pixels@[i]
                }
        }),
{
    let data = image.data@;
    let f = &plans.kernel;
    let n = image.nrows as int;
    let m = image.ncols as int / 2 + 1;
    T::constants_are_distinct();
    let k = choose|i: int| 0 <= i < data.len() && !(#[trigger] data[i]).not_a_number();
    assert(!all_nan(data));
    assert(n > 0 && image.ncols > 0) by (nonlinear_arith)
        requires
            n * image.ncols > 0,
            n >= 0,
            image.ncols >= 0,
    ;
    let gains: Seq<T> = uv_gains(b, f, old, new, dx, dy, image.nrows, image.ncols);
    assert(steps.filled@ =~= zero_filled(data));
    assert(steps.marks@ =~= nan_mask(data));
    assert forall|q: int| 0 <= q < n * m implies #[trigger] gains[q] == narrow_of::<T, F>(
        f,
        steps.table.0@[q],
    ) by {
        law_gains_are_the_table::<T, B, F>(
            b,
            f,
            old,
            new,
            dx,
            dy,
            image.nrows,
            image.ncols,
            steps.rows,
            steps.columns,
            steps.half,
            steps.table,
            q,
        );
    }
    assert(steps.damped@ =~= crate::convolve_uv::attenuated(f, steps.spectrum@, gains));
    assert(steps.marks_damped@ =~= crate::convolve_uv::attenuated(f, steps.marks_spectrum@, gains));
    assert(all_numbers(data) == crate::convolve_uv::no_nan(data));
}

/// Every pixel holds a number.
pub open spec fn all_numbers<T: FftFloat>(data: Seq<T>) -> bool {
    forall|i: int| 0 <= i < data.len() ==> !(#[trigger] data[i]).not_a_number()
}

/// NaN pixels count as zero: an image and the same image with zeros in place of its
/// NaNs come out the same at every pixel that is not blanked, with the same factor.
pub proof fn law_nans_count_as_zero<T: FftFloat, B: FilterKernel, F: FftKernel<T>>(
    b: &B,
    image: Plane<T>,
    filled: Plane<T>,
    old: Beam,
    new: Beam,
    dx: Double,
    dy: Double,
    cutoff: Option<Double>,
    plans: FftPlans<F>,
    r: Result<ConvolutionResult<T>, ConvolveError>,
    s: Result<ConvolutionResult<T>, ConvolveError>,
    i: int,
)
    requires
        call_ensures(
            convolve_uv_with_plans::<T, B, F>,
            (b, &image, &old, &new, dx, dy, cutoff, &plans),
            r,
        ),
        call_ensures(
            convolve_uv_with_plans::<T, B, F>,
            (b, &filled, &old, &new, dx, dy, cutoff, &plans),
            s,
        ),
        image.wf(),
        filled.nrows == image.nrows,
        filled.ncols == image.ncols,
        fills(image.data@, filled.data@),
        has_number(image.data@),
        0 <= i < image.data@.len(),
    ensures
        r is Ok <==> s is Ok,
        r matches Ok(c) ==> {
            &&& s->Ok_0.scaling_factor == c.scaling_factor
            &&& c.image.data@[i].not_a_number() || c.image.data@[i] == s->Ok_0.image.data@[i]
        },
{
    let data = image.data@;
    T::constants_are_distinct();
    let k = choose|i: int| 0 <= i < data.len() && !(#[trigger] data[i]).not_a_number();
    assert(!all_nan(data));
    assert(filled.data@[k] == data[k]);
    assert(!all_nan(filled.data@));
    assert(filled.data@ =~= zero_filled(data));
    assert(zero_filled(filled.data@) =~= filled.data@);
    let gains: Seq<T> = uv_gains(
        b,
        &plans.kernel,
        old,
        new,
        dx,
        dy,
        image.nrows,
        image.ncols,
    );
    law_nans_propagate(
        &plans.kernel,
        image.nrows as nat,
        image.ncols as nat,
        gains,
        data,
        i,
    );
}

/// The sum of the values of the pixels that hold numbers.
pub open spec fn total_of_numbers<T: FftFloat>(data: Seq<T>) -> int
    decreases data.len(),
{
    if data.len() == 0 {
        0
    } else if data.last().not_a_number() {
        total_of_numbers(data.drop_last())
    } else {
        total_of_numbers(data.drop_last()) + data.last().value()
    }
}

/// What goes into the forward transform is the number zero where the image holds no
/// number and the image's pixel elsewhere, so NaN pixels add nothing to the sum.
pub proof fn law_filled_pixels<T: FftFloat>(data: Seq<T>)
    ensures
        zero_filled(data).len() == data.len(),
        forall|i: int|
            0 <= i < data.len() ==> {
                &&& !(#[trigger] zero_filled(data)[i]).not_a_number()
                &&& data[i].not_a_number() ==> zero_filled(data)[i].value() == 0
                &&& !data[i].not_a_number() ==> zero_filled(data)[i] == data[i]
            },
        total(zero_filled(data)) == total_of_numbers(data),
    decreases data.len(),
{
    T::constants_are_distinct();
    if data.len() > 0 {
        law_filled_pixels(data.drop_last());
        assert(zero_filled(data).drop_last() =~= zero_filled(data.drop_last()));
    }
}

/// Convolution fails exactly where the major axis of the old beam is above the cutoff.
pub proof fn law_cutoff_decides<T: FftFloat, B: FilterKernel, F: FftKernel<T>>(
    b: &B,
    image: Plane<T>,
    old: Beam,
    new: Beam,
    dx: Double,
    dy: Double,
    cutoff: Option<Double>,
    plans: FftPlans<F>,
    r: Result<ConvolutionResult<T>, ConvolveError>,
)
    requires
        call_ensures(
            convolve_uv_with_plans::<T, B, F>,
            (b, &image, &old, &new, dx, dy, cutoff, &plans),
            r,
        ),
    ensures
        r is Err <==> (cutoff matches Some(c) && !c.nan() && !major_arcsec_of(b, old).nan()
            && c.units() < major_arcsec_of(b, old).units()),
        r matches Err(e) ==> e == ConvolveError::AboveCutoff,
{
}

/// Where nothing is to be done, nothing is: equal beams leave the image as it is, with
/// the factor one, and an image of NaNs alone stays, with the amplitude ratio of the
/// beams.
pub proof fn law_nothing_to_convolve<T: FftFloat, B: FilterKernel, F: FftKernel<T>>(
    b: &B,
    image: Plane<T>,
    old: Beam,
    new: Beam,
    dx: Double,
    dy: Double,
    cutoff: Option<Double>,
    plans: FftPlans<F>,
    r: Result<ConvolutionResult<T>, ConvolveError>,
)
    requires
        call_ensures(
            convolve_uv_with_plans::<T, B, F>,
            (b, &image, &old, &new, dx, dy, cutoff, &plans),
            r,
        ),
    ensures
        call_ensures(Beam::approx_eq::<B>, (&old, b, &new), true) ==> (r matches Ok(c) ==> {
            &&& c.image.data@ == image.data@
            &&& c.scaling_factor == Double::one_spec()
        }),
        call_ensures(Beam::approx_eq::<B>, (&old, b, &new), false) && !has_number(image.data@) ==> (
        r matches Ok(c) ==> {
            &&& c.image.data@ == image.data@
            &&& c.scaling_factor == gain_ratio_of(b, old, new)
        }),
        r matches Ok(c) ==> c.image.nrows == image.nrows && c.image.ncols == image.ncols,
{
}

/// Planning for one image and using plans that are there come to the same.
pub proof fn law_convolving_plans_for_itself<T: FftFloat, B: FilterKernel, F: FftKernel<T>>(
    b: &B,
    image: Plane<T>,
    old: Beam,
    new: Beam,
    dx: Double,
    dy: Double,
    cutoff: Option<Double>,
    plans: FftPlans<F>,
    r: Result<ConvolutionResult<T>, ConvolveError>,
    s: Result<ConvolutionResult<T>, ConvolveError>,
)
    requires
        call_ensures(
            convolve_uv_with_plans::<T, B, F>,
            (b, &image, &old, &new, dx, dy, cutoff, &plans),
            r,
        ),
        call_ensures(
            convolve_uv::<T, B, F>,
            (b, &image, &old, &new, dx, dy, cutoff, plans.kernel),
            s,
        ),
    ensures
        match r {
            Err(e) => s == Err::<ConvolutionResult<T>, ConvolveError>(e),
            Ok(c) => s matches Ok(d) && c.image.data@ == d.image.data@ && c.scaling_factor
                == d.scaling_factor && c.image.nrows == d.image.nrows && c.image.ncols
                == d.image.ncols,
        },
{
}

} // verus!
