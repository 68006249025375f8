//! High-level smoothing: convolve, then apply the flux scaling of the unit.
use vstd::arithmetic::mul::lemma_mul_is_distributive_add;
use vstd::prelude::*;

use crate::beam::{Beam, BeamKernel};
use crate::convolve_uv::{
    above_cutoff, all_nan, any_number, attenuated, convolve_uv, convolve_uv_with_plans, convolved,
    filter_kernel_is_function, gain_ratio_of, law_nans_propagate, no_nan, reciprocal_of, uv_gains,
    ConvolutionResult, ConvolveError, FilterKernel,
};
use crate::fft::{
    fft_kernel_fits, fft_kernel_is_function, irfft2_spec, law_within_scales, narrow_of, product_of,
    rfft2_spec, total, within, FftKernel, FftPlans,
};
use crate::ieee::{Double, FftFloat};
use crate::plane::Plane;
use crate::text::{
    chars_of, is_space, law_quotes_come_off, law_trim_ignores_padding, law_trim_keeps_case,
    law_trim_settles, law_upper_of_lower, lowercase, quoted, text_is, trim, trim_quotes, trimmed,
    unquoted, uppercase, uppercased,
};

verus! {

#[derive(Clone, Copy, Debug, PartialEq, Eq, Structural)]
pub enum SmoothError {
    /// The convolution failed.
    Convolve(ConvolveError),
}

/// Brightness unit of an image, determining whether flux scaling applies after
/// convolution to a larger beam.
#[derive(Clone, Copy, Debug, PartialEq, Eq, Structural)]
pub enum BrightnessUnit {
    /// Jy/beam (or any per-beam flux density): the beam-area ratio applies, so
    /// the output stays in the same units.
    JyPerBeam,
    /// Kelvin (brightness temperature): surface brightness is conserved under
    /// convolution, so the data are left unscaled.
    Kelvin,
}

/// A `BUNIT` value without padding and quotes, in upper case.
pub open spec fn unit_name(bunit: Seq<char>) -> Seq<char> {
    uppercase(trim(trim_quotes(trim(bunit))))
}

/// The unit that a `BUNIT` value names, if it is a known one.
pub open spec fn classify(bunit: Seq<char>) -> Option<BrightnessUnit> {
    let u = unit_name(bunit);
    if u == "K"@ || u == "KELVIN"@ {
        Some(BrightnessUnit::Kelvin)
    } else if u == "JY/BEAM"@ || u == "JY BEAM-1"@ || u == "JY/BM"@ || u == "JYBEAM"@ {
        Some(BrightnessUnit::JyPerBeam)
    } else {
        None
    }
}

impl Default for BrightnessUnit {
    fn default() -> (r: Self)
        ensures
            r == BrightnessUnit::JyPerBeam,
    {
        BrightnessUnit::JyPerBeam
    }
}

impl BrightnessUnit {
    /// Classify a FITS `BUNIT` string, returning `None` if the unit is neither a
    /// Kelvin nor a Jy/beam form.
    pub fn parse(bunit: &str) -> (r: Option<BrightnessUnit>)
        ensures
            r == classify(bunit@),
    {
        let padded = chars_of(bunit);
        let quoted = trimmed(&padded);
        let bare = unquoted(&quoted);
        let core = trimmed(&bare);
        let u = uppercased(&core);
        if text_is(&u, "K") || text_is(&u, "KELVIN") {
            Some(BrightnessUnit::Kelvin)
        } else if text_is(&u, "JY/BEAM") || text_is(&u, "JY BEAM-1") || text_is(&u, "JY/BM")
            || text_is(&u, "JYBEAM") {
            Some(BrightnessUnit::JyPerBeam)
        } else {
            None
        }
    }

    /// Classify a FITS `BUNIT` string; an unrecognised unit is taken as Jy/beam.
    pub fn from_bunit(bunit: &str) -> (r: BrightnessUnit)
        ensures
            r == (match classify(bunit@) {
                Some(unit) => unit,
                None => BrightnessUnit::JyPerBeam,
            }),
    {
        match Self::parse(bunit) {
            Some(unit) => unit,
            None => BrightnessUnit::JyPerBeam,
        }
    }
}

/// A unit together with whether it had to be guessed.
#[derive(Clone, Copy, Debug, PartialEq, Eq, Structural)]
pub struct ResolvedUnit {
    pub unit: BrightnessUnit,
    /// True when a `BUNIT` was given but not recognised, which calls for a
    /// warning.
    pub guessed: bool,
}

/// Resolve an optional `BUNIT` value: absent means Jy/beam, and an unrecognised
/// one is taken as Jy/beam and reported as a guess.
pub fn resolve_unit(bunit: Option<&str>) -> (r: ResolvedUnit)
    ensures
        match bunit {
            Some(s) => match classify(s@) {
                Some(unit) => r.unit == unit && !r.guessed,
                None => r.unit == BrightnessUnit::JyPerBeam && r.guessed,
            },
            None => r.unit == BrightnessUnit::JyPerBeam && !r.guessed,
        },
{
    match bunit {
        Some(s) => match BrightnessUnit::parse(s) {
            Some(unit) => ResolvedUnit { unit, guessed: false },
            None => ResolvedUnit { unit: BrightnessUnit::JyPerBeam, guessed: true },
        },
        None => ResolvedUnit { unit: BrightnessUnit::JyPerBeam, guessed: false },
    }
}

/// Neither white space around a `BUNIT` value nor the case of its letters changes
/// the unit that it names.
pub proof fn law_unit_ignores_padding_and_case(bunit: Seq<char>, space: char)
    requires
        is_space(space),
    ensures
        classify(seq![space] + bunit) == classify(bunit),
        classify(bunit.push(space)) == classify(bunit),
        classify(uppercase(bunit)) == classify(bunit),
{
    law_trim_ignores_padding(bunit, space);
    law_trim_keeps_case(bunit);
    law_trim_keeps_case(trim(bunit));
    law_trim_keeps_case(trim_quotes(trim(bunit)));
    law_trim_keeps_case(trim(trim_quotes(trim(bunit))));
}

/// Values that agree but for the case of their letters name the same unit.
pub proof fn law_unit_ignores_case(a: Seq<char>, b: Seq<char>)
    requires
        uppercase(a) == uppercase(b),
    ensures
        classify(a) == classify(b),
{
    law_unit_ignores_padding_and_case(a, ' ');
    law_unit_ignores_padding_and_case(b, ' ');
}

/// A `BUNIT` value in lower case names the same unit.
pub proof fn law_unit_may_be_lower_case(bunit: Seq<char>)
    ensures
        classify(lowercase(bunit)) == classify(bunit),
{
    law_upper_of_lower(bunit);
    law_unit_ignores_case(lowercase(bunit), bunit);
}

/// A `BUNIT` value in quotes names the same unit, padded or not, as long as no white
/// space comes to stand between two layers of quotes.
pub proof fn law_unit_may_be_quoted(bunit: Seq<char>)
    requires
        trim(bunit) == bunit || !bunit.contains('\''),
    ensures
        classify(quoted(bunit)) == classify(bunit),
{
    law_quotes_come_off(bunit);
    if !bunit.contains('\'') {
        law_trim_settles(bunit);
        assert(!trim(bunit).contains('\''));
        law_quotes_come_off(trim(bunit));
    }
}

// ── Flux scaling ────────────────────────────────────────────────────────────

/// The factor that brings a convolved image back to its unit.  The convolution
/// holds one amplitude ratio √(Ω_new/Ω_old) already: Jy/beam needs the full area
/// ratio, so the ratio comes in once more; Kelvin conserves surface brightness, so
/// the ratio is divided out.
pub open spec fn flux_factor<B: FilterKernel>(b: &B, unit: BrightnessUnit, ratio: Double) -> Double {
    match unit {
        BrightnessUnit::JyPerBeam => ratio,
        BrightnessUnit::Kelvin => reciprocal_of(b, ratio),
    }
}

/// Every pixel times the factor, in the precision of the image.
pub open spec fn rescaled<T: FftFloat, F: FftKernel<T>>(
    f: &F,
    data: Seq<T>,
    factor: Double,
) -> Seq<T> {
    Seq::new(data.len(), |i: int| product_of(f, narrow_of(f, factor), data[i]))
}

/// Pixels of `data` smoothed from `old` to `new`.
pub open spec fn smoothed<T: FftFloat, B: FilterKernel, F: FftKernel<T>>(
    b: &B,
    f: &F,
    nrows: usize,
    ncols: usize,
    data: Seq<T>,
    old: Beam,
    new: Beam,
    dx: Double,
    dy: Double,
    cutoff: Option<Double>,
    unit: BrightnessUnit,
) -> Result<Seq<T>, SmoothError> {
    match convolved(b, f, nrows, ncols, data, old, new, dx, dy, cutoff) {
        Err(e) => Err(SmoothError::Convolve(e)),
        Ok((pixels, ratio)) => Ok(rescaled(f, pixels, flux_factor(b, unit, ratio))),
    }
}

/// A smoothing result as pixels.
pub open spec fn smooth_view<T>(r: Result<Plane<T>, SmoothError>) -> Result<Seq<T>, SmoothError> {
    match r {
        Ok(p) => Ok(p.data@),
        Err(e) => Err(e),
    }
}

fn apply_factor<T: FftFloat, B: FilterKernel, F: FftKernel<T>>(
    b: &B,
    f: &F,
    result: ConvolutionResult<T>,
    unit: BrightnessUnit,
) -> (r: Plane<T>)
    requires
        filter_kernel_is_function(b),
        fft_kernel_is_function::<T, F>(f),
        result.image.wf(),
    ensures
        r.wf(),
        r.nrows == result.image.nrows,
        r.ncols == result.image.ncols,
        r.data@ == rescaled(f, result.image.data@, flux_factor(b, unit, result.scaling_factor)),
{
    let factor = match unit {
        BrightnessUnit::JyPerBeam => result.scaling_factor,
        BrightnessUnit::Kelvin => b.reciprocal(result.scaling_factor),
    };
    let g: T = f.narrow(factor);
    let image = &result.image;
    let mut data: Vec<T> = Vec::new();
    let mut i: usize = 0;
    while i < image.data.len()
        invariant
            i <= image.data.len(),
            fft_kernel_is_function::<T, F>(f),
            g == narrow_of::<T, F>(f, factor),
            data@.len() == i,
            forall|j: int| 0 <= j < i ==> data@[j] == product_of::<T, F>(f, g, image.data@[j]),
        decreases image.data.len() - i,
    {
        let x: T = f.multiply(g, image.data[i]);
        data.push(x);
        i = i + 1;
    }
    assert(data@ =~= rescaled(f, image.data@, factor));
    Plane { nrows: image.nrows, ncols: image.ncols, data }
}

/// Like [`smooth`], but reuses plans built for images of this size.
pub fn smooth_with_plans<T: FftFloat, B: FilterKernel, F: FftKernel<T>>(
    b: &B,
    image: &Plane<T>,
    old_beam: &Beam,
    new_beam: &Beam,
    dx_deg: Double,
    dy_deg: Double,
    cutoff_arcsec: Option<Double>,
    unit: BrightnessUnit,
    plans: &FftPlans<F>,
) -> (r: Result<Plane<T>, SmoothError>)
    requires
        filter_kernel_is_function(b),
        image.wf(),
        plans.sound::<T>(),
        !above_cutoff(b, *old_beam, cutoff_arcsec) && !old_beam.close_to(b, *new_beam)
            ==> plans.nrows == image.nrows && plans.ncols == image.ncols,
        image.nrows <= i64::MAX,
        image.ncols <= i64::MAX,
    ensures
        smooth_view(r) == smoothed(
            b,
            &plans.kernel,
            image.nrows,
            image.ncols,
            image.data@,
            *old_beam,
            *new_beam,
            dx_deg,
            dy_deg,
            cutoff_arcsec,
            unit,
        ),
        r matches Ok(p) ==> p.wf() && p.nrows == image.nrows && p.ncols == image.ncols,
{
    match convolve_uv_with_plans(
        b,
        image,
        old_beam,
        new_beam,
        dx_deg,
        dy_deg,
        cutoff_arcsec,
        plans,
    ) {
        Err(e) => Err(SmoothError::Convolve(e)),
        Ok(result) => Ok(apply_factor(b, &plans.kernel, result, unit)),
    }
}

/// Smooth `image` from `old_beam` to `new_beam`.
///
/// `dx_deg` / `dy_deg` are pixel sizes in degrees.  `unit` selects the flux
/// scaling.  The result has the precision and the shape of the image, ready to be
/// written back.
pub fn smooth<T: FftFloat, B: FilterKernel, F: FftKernel<T>>(
    b: &B,
    image: &Plane<T>,
    old_beam: &Beam,
    new_beam: &Beam,
    dx_deg: Double,
    dy_deg: Double,
    cutoff_arcsec: Option<Double>,
    unit: BrightnessUnit,
    kernel: F,
) -> (r: Result<Plane<T>, SmoothError>)
    requires
        filter_kernel_is_function(b),
        image.wf(),
        fft_kernel_is_function::<T, F>(&kernel),
        fft_kernel_fits::<T, F>(&kernel, image.nrows as nat, image.ncols as nat),
        image.nrows <= i64::MAX,
        image.ncols <= i64::MAX,
    ensures
        smooth_view(r) == smoothed(
            b,
            &kernel,
            image.nrows,
            image.ncols,
            image.data@,
            *old_beam,
            *new_beam,
            dx_deg,
            dy_deg,
            cutoff_arcsec,
            unit,
        ),
        r matches Ok(p) ==> p.wf() && p.nrows == image.nrows && p.ncols == image.ncols,
{
    let plans = FftPlans::new(image.nrows, image.ncols, kernel);
    smooth_with_plans(
        b,
        image,
        old_beam,
        new_beam,
        dx_deg,
        dy_deg,
        cutoff_arcsec,
        unit,
        &plans,
    )
}

/// Like [`smooth`], but an image whose beam is above the cutoff comes out blank, as
/// NaN everywhere, in place of an error.
pub fn smooth_or_blank<T: FftFloat, B: FilterKernel, F: FftKernel<T>>(
    b: &B,
    image: &Plane<T>,
    old: &Beam,
    target: &Beam,
    dx: Double,
    dy: Double,
    cutoff: Option<Double>,
    unit: BrightnessUnit,
    kernel: F,
) -> (r: Plane<T>)
    requires
        filter_kernel_is_function(b),
        image.wf(),
        fft_kernel_is_function::<T, F>(&kernel),
        fft_kernel_fits::<T, F>(&kernel, image.nrows as nat, image.ncols as nat),
        image.nrows <= i64::MAX,
        image.ncols <= i64::MAX,
    ensures
        r.wf(),
        r.nrows == image.nrows,
        r.ncols == image.ncols,
        above_cutoff(b, *old, cutoff) ==> forall|i: int|
            0 <= i < r.data@.len() ==> (#[trigger] r.data@[i]).not_a_number(),
        !above_cutoff(b, *old, cutoff) ==> Ok::<Seq<T>, SmoothError>(r.data@) == smoothed(
            b,
            &kernel,
            image.nrows,
            image.ncols,
            image.data@,
            *old,
            *target,
            dx,
            dy,
            None,
            unit,
        ),
{
    proof {
        T::constants_are_distinct();
    }
    if let Some(cut) = cutoff {
        let major = b.major_arcsec(old);
        if cut.lt(&major) {
            assert(image.nrows * image.ncols == image.data.len());
            return Plane::from_elem(image.nrows, image.ncols, T::nan());
        }
    }
    match smooth(b, image, old, target, dx, dy, None, unit, kernel) {
        Ok(p) => p,
        // Without a cutoff there is nothing to fail.
        Err(_) => image.copy(),
    }
}

/// An image within the cutoff is smoothed as it would be without one.
pub proof fn law_cutoff_only_blanks<T: FftFloat, B: FilterKernel, F: FftKernel<T>>(
    b: &B,
    f: &F,
    image: Plane<T>,
    old: Beam,
    new: Beam,
    dx: Double,
    dy: Double,
    cutoff: Option<Double>,
    unit: BrightnessUnit,
)
    ensures
        !above_cutoff(b, old, cutoff) ==> smoothed(
            b,
            f,
            image.nrows,
            image.ncols,
            image.data@,
            old,
            new,
            dx,
            dy,
            cutoff,
            unit,
        ) == smoothed(
            b,
            f,
            image.nrows,
            image.ncols,
            image.data@,
            old,
            new,
            dx,
            dy,
            None,
            unit,
        ),
        above_cutoff(b, old, cutoff) ==> smoothed(
            b,
            f,
            image.nrows,
            image.ncols,
            image.data@,
            old,
            new,
            dx,
            dy,
            cutoff,
            unit,
        ) == Err::<Seq<T>, SmoothError>(SmoothError::Convolve(ConvolveError::AboveCutoff)),
{
}

/// The Jy/beam and the Kelvin image are the same convolved pixels, times the
/// amplitude ratio of the beams and times its reciprocal.
///
/// So where `related` tells how a pixel times the reciprocal and the same pixel times
/// the ratio belong together, it tells so of the two images, pixel by pixel; and where
/// neither factor makes or takes away a NaN, both images are NaN at the same pixels.
pub proof fn law_units_share_the_pixels<T: FftFloat, B: FilterKernel, F: FftKernel<T>>(
    b: &B,
    f: &F,
    image: Plane<T>,
    old: Beam,
    new: Beam,
    dx: Double,
    dy: Double,
    cutoff: Option<Double>,
    related: spec_fn(T, T) -> bool,
)
    ensures
        ({
            let from = |unit: BrightnessUnit|
                smoothed(
                    b,
                    f,
                    image.nrows,
                    image.ncols,
                    image.data@,
                    old,
                    new,
                    dx,
                    dy,
                    cutoff,
                    unit,
                );
            match convolved(
                b,
                f,
                image.nrows,
                image.ncols,
                image.data@,
                old,
                new,
                dx,
                dy,
                cutoff,
            ) {
                Err(e) => {
                    &&& from(BrightnessUnit::JyPerBeam) == Err::<Seq<T>, SmoothError>(
                        SmoothError::Convolve(e),
                    )
                    &&& from(BrightnessUnit::Kelvin) == from(BrightnessUnit::JyPerBeam)
                },
                Ok((pixels, ratio)) => {
                    let up: T = narrow_of(f, ratio);
                    let down: T = narrow_of(f, reciprocal_of(b, ratio));
                    let jy = rescaled(f, pixels, ratio);
                    let kelvin = rescaled(f, pixels, reciprocal_of(b, ratio));
                    &&& from(BrightnessUnit::JyPerBeam) == Ok::<Seq<T>, SmoothError>(jy)
                    &&& from(BrightnessUnit::Kelvin) == Ok::<Seq<T>, SmoothError>(kelvin)
                    &&& jy.len() == kelvin.len()
                    &&& (forall|x: T|
                        #![trigger product_of(f, up, x)]
                        related(product_of(f, down, x), product_of(f, up, x))) ==> (forall|i: int|
                        #![trigger jy[i]]
                        0 <= i < jy.len() ==> related(kelvin[i], jy[i]))
                    &&& (forall|x: T|
                        #![trigger product_of(f, up, x)]
                        product_of(f, up, x).not_a_number() == x.not_a_number() && product_of(
                            f,
                            down,
                            x,
                        ).not_a_number() == x.not_a_number()) ==> (forall|i: int|
                        #![trigger jy[i]]
                        0 <= i < jy.len() ==> jy[i].not_a_number() == kelvin[i].not_a_number())
                },
            }
        }),
{
}

proof fn lemma_rescaled_total<T: FftFloat, F: FftKernel<T>>(
    f: &F,
    pixels: Seq<T>,
    factor: Double,
    slack: int,
)
    requires
        forall|i: int|
            0 <= i < pixels.len() ==> within(
                T::one_spec().value() * product_of(
                    f,
                    narrow_of(f, factor),
                    #[trigger] pixels[i],
                ).value(),
                narrow_of::<T, F>(f, factor).value() * pixels[i].value(),
                slack,
            ),
    ensures
        within(
            T::one_spec().value() * total(rescaled(f, pixels, factor)),
            narrow_of::<T, F>(f, factor).value() * total(pixels),
            pixels.len() * slack,
        ),
    decreases pixels.len(),
{
    let one = T::one_spec().value();
    let a: T = narrow_of(f, factor);
    let n = pixels.len() as int;
    if n > 0 {
        let front = pixels.drop_last();
        assert forall|i: int| 0 <= i < front.len() implies within(
            one * product_of(f, a, #[trigger] front[i]).value(),
            a.value() * front[i].value(),
            slack,
        ) by {
            assert(front[i] == pixels[i]);
        }
        lemma_rescaled_total(f, front, factor, slack);
        let out = rescaled(f, pixels, factor);
        assert(out.drop_last() =~= rescaled(f, front, factor));
        assert(pixels[n - 1] == pixels.last());
        lemma_mul_is_distributive_add(one, total(out.drop_last()), out.last().value());
        lemma_mul_is_distributive_add(a.value(), total(front), pixels.last().value());
        assert((n - 1) * slack + slack == n * slack) by (nonlinear_arith);
    } else {
        assert(n * slack == 0 && one * 0 == 0 && a.value() * 0 == 0) by (nonlinear_arith)
            requires
                n == 0,
        ;
    }
}

/// The flux of a smoothed image without NaNs is that of the image, times the factor of
/// its unit, times the gain at the first bin, up to the rounding of each step.
///
/// The factor and that gain are the amplitude ratio of the beams twice for Jy/beam,
/// which makes the ratio of their areas; for Kelvin they are the ratio and its
/// reciprocal, which make one: `whole` is their product within `unit_slack`.  Values
/// are exact integers, of which `one` stands for 1, so products of two of them are
/// held against `one` times the result.
pub proof fn law_flux_follows_the_unit<T: FftFloat, B: FilterKernel, F: FftKernel<T>>(
    b: &B,
    f: &F,
    image: Plane<T>,
    old: Beam,
    new: Beam,
    dx: Double,
    dy: Double,
    unit: BrightnessUnit,
    whole: int,
    forward_slack: int,
    gain_slack: int,
    inverse_slack: int,
    product_slack: int,
    unit_slack: int,
)
    requires
        image.wf(),
        image.data@.len() > 0,
        no_nan(image.data@),
        !old.close_to(b, new),
        ({
            let one = T::one_spec().value();
            let n = (image.nrows * image.ncols) as int;
            let data = image.data@;
            let factor: T = narrow_of(f, flux_factor(b, unit, gain_ratio_of(b, old, new)));
            let gains: Seq<T> = uv_gains(b, f, old, new, dx, dy, image.nrows, image.ncols);
            let spectrum = rfft2_spec(f, image.nrows as nat, image.ncols as nat, data);
            let after = attenuated(f, spectrum, gains);
            let pixels = irfft2_spec(f, image.nrows as nat, image.ncols as nat, after);
            &&& one >= 0 && factor.value() >= 0 && gains[0].value() >= 0
            // The forward transform: see `law_first_bin_is_the_sum`.
            &&& within(spectrum[0].re.value(), total(data), forward_slack)
            // The filter at the first bin.
            &&& within(
                one * after[0].re.value(),
                gains[0].value() * spectrum[0].re.value(),
                gain_slack,
            )
            // The inverse transform: see `law_image_sums_to_the_first_bin`.
            &&& within(n * total(pixels), n * after[0].re.value(), inverse_slack)
            // The flux scaling of each pixel.
            &&& forall|i: int|
                0 <= i < pixels.len() ==> within(
                    one * product_of(f, factor, #[trigger] pixels[i]).value(),
                    factor.value() * pixels[i].value(),
                    product_slack,
                )
            &&& within(factor.value() * gains[0].value(), whole, unit_slack)
        }),
    ensures
        ({
            let one = T::one_spec().value();
            let n = (image.nrows * image.ncols) as int;
            let factor: T = narrow_of(f, flux_factor(b, unit, gain_ratio_of(b, old, new)));
            let gains: Seq<T> = uv_gains(b, f, old, new, dx, dy, image.nrows, image.ncols);
            let flux = total(image.data@);
            smoothed(
                b,
                f,
                image.nrows,
                image.ncols,
                image.data@,
                old,
                new,
                dx,
                dy,
                None,
                unit,
            ) matches Ok(result) && within(
                n * one * one * total(result),
                n * whole * flux,
                n * one * (n * product_slack) + one * factor.value() * inverse_slack + n
                    * factor.value() * gain_slack + n * (factor.value() * gains[0].value())
                    * forward_slack + n * unit_slack * if flux >= 0 {
                    flux
                } else {
                    -flux
                },
            )
        }),
{
    let one = T::one_spec().value();
    let n = (image.nrows * image.ncols) as int;
    let data = image.data@;
    let ratio = gain_ratio_of(b, old, new);
    let factor: T = narrow_of(f, flux_factor(b, unit, ratio));
    let gains: Seq<T> = uv_gains(b, f, old, new, dx, dy, image.nrows, image.ncols);
    let spectrum = rfft2_spec(f, image.nrows as nat, image.ncols as nat, data);
    let after = attenuated(f, spectrum, gains);
    let pixels = irfft2_spec(f, image.nrows as nat, image.ncols as nat, after);
    let result = rescaled(f, pixels, flux_factor(b, unit, ratio));
    assert(n == data.len());
    assert(!all_nan(data)) by {
        assert(!data[0].not_a_number());
    }
    law_nans_propagate(f, image.nrows as nat, image.ncols as nat, gains, data, 0);
    lemma_rescaled_total(f, pixels, flux_factor(b, unit, ratio), product_slack);
    lemma_flux_chain(
        n,
        one,
        factor.value(),
        gains[0].value(),
        total(result),
        total(pixels),
        after[0].re.value(),
        spectrum[0].re.value(),
        total(data),
        whole,
        n * product_slack,
        inverse_slack,
        gain_slack,
        forward_slack,
        unit_slack,
    );
}

/// The steps from the flux of an image to that of the result, one by one.
proof fn lemma_flux_chain(
    n: int,
    one: int,
    a: int,
    g: int,
    result: int,
    pixels: int,
    after: int,
    before: int,
    flux: int,
    whole: int,
    result_slack: int,
    pixel_slack: int,
    gain_slack: int,
    forward_slack: int,
    unit_slack: int,
)
    requires
        n >= 0,
        one >= 0,
        a >= 0,
        g >= 0,
        within(one * result, a * pixels, result_slack),
        within(n * pixels, n * after, pixel_slack),
        within(one * after, g * before, gain_slack),
        within(before, flux, forward_slack),
        within(a * g, whole, unit_slack),
    ensures
        within(
            n * one * one * result,
            n * whole * flux,
            n * one * result_slack + one * a * pixel_slack + n * a * gain_slack + n * (a * g)
                * forward_slack + n * unit_slack * if flux >= 0 {
                flux
            } else {
                -flux
            },
        ),
{
    let size = if flux >= 0 {
        flux
    } else {
        -flux
    };
    assert(n * one >= 0 && one * a >= 0 && n * a >= 0 && a * g >= 0) by (nonlinear_arith)
        requires
            n >= 0,
            one >= 0,
            a >= 0,
            g >= 0,
    ;
    assert(n * (a * g) >= 0) by (nonlinear_arith)
        requires
            n >= 0,
            a * g >= 0,
    ;
    law_within_scales(one * result, a * pixels, result_slack, n * one);
    law_within_scales(n * pixels, n * after, pixel_slack, one * a);
    law_within_scales(one * after, g * before, gain_slack, n * a);
    law_within_scales(before, flux, forward_slack, n * (a * g));
    law_within_scales(a * g, whole, unit_slack, n * size);
    assert((n * one) * (one * result) == n * one * one * result) by (nonlinear_arith);
    assert((n * one) * (a * pixels) == (one * a) * (n * pixels)) by (nonlinear_arith);
    assert((one * a) * (n * after) == (n * a) * (one * after)) by (nonlinear_arith);
    assert((n * a) * (g * before) == (n * (a * g)) * before) by (nonlinear_arith);
    assert((n * size) * unit_slack == n * unit_slack * size) by (nonlinear_arith);
    if flux >= 0 {
        assert((n * flux) * (a * g) == (n * (a * g)) * flux) by (nonlinear_arith);
        assert((n * flux) * whole == n * whole * flux) by (nonlinear_arith);
    } else {
        assert((n * (-flux)) * (a * g) == -((n * (a * g)) * flux)) by (nonlinear_arith);
        assert((n * (-flux)) * whole == -(n * whole * flux)) by (nonlinear_arith);
    }
}

/// Planning once and planning per call give the same image.
pub proof fn law_plan_reuse_changes_nothing<T: FftFloat, B: FilterKernel, F: FftKernel<T>>(
    b: &B,
    kernel: F,
    image: Plane<T>,
    old: Beam,
    new: Beam,
    dx: Double,
    dy: Double,
    cutoff: Option<Double>,
    unit: BrightnessUnit,
    per_call: Result<Plane<T>, SmoothError>,
    reused: Result<Plane<T>, SmoothError>,
    plans: FftPlans<F>,
)
    requires
        plans.kernel == kernel,
        call_ensures(
            smooth::<T, B, F>,
            (b, &image, &old, &new, dx, dy, cutoff, unit, kernel),
            per_call,
        ),
        call_ensures(
            smooth_with_plans::<T, B, F>,
            (b, &image, &old, &new, dx, dy, cutoff, unit, &plans),
            reused,
        ),
    ensures
        smooth_view(per_call) == smooth_view(reused),
{
}

// ── Requests on bare arrays ─────────────────────────────────────────────────

/// Why a smoothing request on a bare array is turned down.
#[derive(Clone, Copy, Debug, PartialEq, Eq, Structural)]
pub enum Refusal {
    /// The target beam is smaller than the current one.
    TargetSmaller,
    /// All pixels are NaN.
    AllNaN,
    /// The convolving beam is larger than the cutoff.
    KernelAboveCutoff,
}

/// The beam that convolves `old` to `new`, or the zero beam where none does.
pub open spec fn convolving_beam<B: BeamKernel>(b: &B, old: Beam, new: Beam) -> Beam {
    match new.deconvolve_spec(b, old) {
        Ok(c) => c,
        Err(_) => Beam::zero_spec(),
    }
}

/// What a smoothing request on a bare array is turned down for, if anything.
/// Equal beams need no convolution, so they are never too small.
pub open spec fn refusal<T: FftFloat, B: FilterKernel>(
    b: &B,
    data: Seq<T>,
    old: Beam,
    new: Beam,
    cutoff: Option<Double>,
) -> Option<Refusal> {
    if all_nan(data) {
        Some(Refusal::AllNaN)
    } else if !old.close_to(b, new) && new.deconvolve_spec(b, old) is Err {
        Some(Refusal::TargetSmaller)
    } else if !old.close_to(b, new) && above_cutoff(b, convolving_beam(b, old, new), cutoff) {
        Some(Refusal::KernelAboveCutoff)
    } else {
        None
    }
}

/// Check a smoothing request on a bare array before any work is done.
pub fn check_request<T: FftFloat, B: FilterKernel>(
    b: &B,
    image: &Plane<T>,
    old_beam: &Beam,
    new_beam: &Beam,
    cutoff_arcsec: Option<Double>,
) -> (r: Option<Refusal>)
    requires
        filter_kernel_is_function(b),
    ensures
        r == refusal(b, image.data@, *old_beam, *new_beam, cutoff_arcsec),
{
    if !any_number(&image.data) {
        return Some(Refusal::AllNaN);
    }
    if old_beam.approx_eq(b, new_beam) {
        return None;
    }
    match new_beam.deconvolve(b, old_beam) {
        Err(_) => Some(Refusal::TargetSmaller),
        Ok(kernel) => {
            if let Some(cutoff) = cutoff_arcsec {
                let major = b.major_arcsec(&kernel);
                if cutoff.lt(&major) {
                    return Some(Refusal::KernelAboveCutoff);
                }
            }
            None
        },
    }
}

} // verus!
