//! Laws of smoothing: units, flux scaling, cutoff, and what is done with a channel.
use vstd::prelude::*;

use crate::beam::{major_arcsec_of, Beam, BeamError};
use crate::convolve_uv::{
    convolve_uv, convolve_uv_with_plans, reciprocal_of, ConvolutionResult, ConvolveError,
    FilterKernel,
};
use crate::cube_io::CubeMeta;
use crate::fft::{narrow_of, product_of, FftKernel, FftPlans};
use crate::ieee::{Double, FftFloat};
use crate::laws::convolution::has_number;
use crate::plane::Plane;
use crate::run::{blank_channel, convolve_channel, plan_channel, ChannelPlan};
use crate::smooth::{
    check_request, classify, resolve_unit, smooth, smooth_or_blank, smooth_with_plans,
    BrightnessUnit, Refusal, ResolvedUnit, SmoothError,
};
use crate::text::{trim, trim_quotes, uppercase};

verus! {

// ── Units ───────────────────────────────────────────────────────────────────

/// The names of units, in upper case and without padding and quotes.
pub proof fn law_known_units(bunit: &str, r: Option<BrightnessUnit>)
    requires
        call_ensures(BrightnessUnit::parse, (bunit,), r),
    ensures
        ({
            let name = uppercase(trim(trim_quotes(trim(bunit@))));
            &&& r == Some(BrightnessUnit::Kelvin) <==> name == "K"@ || name == "KELVIN"@
            &&& r == Some(BrightnessUnit::JyPerBeam) <==> name == "JY/BEAM"@ || name
                == "JY BEAM-1"@ || name == "JY/BM"@ || name == "JYBEAM"@
        }),
        r == classify(bunit@),
{
    reveal_strlit("K");
    reveal_strlit("KELVIN");
    reveal_strlit("JY/BEAM");
    reveal_strlit("JY BEAM-1");
    reveal_strlit("JY/BM");
    reveal_strlit("JYBEAM");
    assert("K"@.len() == 1 && "KELVIN"@.len() == 6 && "JY/BEAM"@.len() == 7 && "JY BEAM-1"@.len()
        == 9 && "JY/BM"@.len() == 5 && "JYBEAM"@.len() == 6);
    assert("KELVIN"@[0] == 'K' && "JYBEAM"@[0] == 'J');
}

/// A unit that is not known is taken as Jy/beam, which is a guess only where a value was
/// given.
pub proof fn law_guessed_unit(
    bunit: &str,
    known: Option<BrightnessUnit>,
    taken: BrightnessUnit,
    resolved: ResolvedUnit,
    absent: ResolvedUnit,
)
    requires
        call_ensures(BrightnessUnit::parse, (bunit,), known),
        call_ensures(BrightnessUnit::from_bunit, (bunit,), taken),
        call_ensures(resolve_unit, (Some(bunit),), resolved),
        call_ensures(resolve_unit, (None::<&str>,), absent),
    ensures
        known matches Some(u) ==> taken == u && resolved.unit == u && !resolved.guessed,
        known is None ==> taken == BrightnessUnit::JyPerBeam && resolved.unit
            == BrightnessUnit::JyPerBeam && resolved.guessed,
        absent.unit == BrightnessUnit::JyPerBeam && !absent.guessed,
{
}

// ── Flux scaling ────────────────────────────────────────────────────────────

/// A smoothed image is the convolved image, every pixel times the factor of the
/// convolution for Jy/beam, and times its reciprocal for Kelvin; smoothing fails as
/// convolving does.
pub proof fn law_smoothing_scales_the_convolution<T: FftFloat, B: FilterKernel, F: FftKernel<T>>(
    b: &B,
    image: Plane<T>,
    old: Beam,
    new: Beam,
    dx: Double,
    dy: Double,
    cutoff: Option<Double>,
    unit: BrightnessUnit,
    plans: FftPlans<F>,
    r: Result<Plane<T>, SmoothError>,
    convolved: Result<ConvolutionResult<T>, ConvolveError>,
)
    requires
        call_ensures(
            smooth_with_plans::<T, B, F>,
            (b, &image, &old, &new, dx, dy, cutoff, unit, &plans),
            r,
        ),
        call_ensures(
            convolve_uv_with_plans::<T, B, F>,
            (b, &image, &old, &new, dx, dy, cutoff, &plans),
            convolved,
        ),
    ensures
        match convolved {
            Err(e) => r == Err::<Plane<T>, SmoothError>(SmoothError::Convolve(e)),
            Ok(c) => {
                let factor: T = narrow_of(
                    &plans.kernel,
                    match unit {
                        BrightnessUnit::JyPerBeam => c.scaling_factor,
                        BrightnessUnit::Kelvin => reciprocal_of(b, c.scaling_factor),
                    },
                );
                &&& r is Ok
                &&& r->Ok_0.nrows == image.nrows && r->Ok_0.ncols == image.ncols
                &&& r->Ok_0.data@.len() == c.image.data@.len()
                &&& forall|i: int|
                    0 <= i < c.image.data@.len() ==> (#[trigger] r->Ok_0.data@[i]) == product_of(
                        &plans.kernel,
                        factor,
                        c.image.data@[i],
                    )
            },
        },
{
}

/// Smoothing with plans of its own is convolving with plans of its own, scaled as with
/// plans that are there.
pub proof fn law_smoothing_plans_for_itself<T: FftFloat, B: FilterKernel, F: FftKernel<T>>(
    b: &B,
    image: Plane<T>,
    old: Beam,
    new: Beam,
    dx: Double,
    dy: Double,
    cutoff: Option<Double>,
    unit: BrightnessUnit,
    kernel: F,
    r: Result<Plane<T>, SmoothError>,
    convolved: Result<ConvolutionResult<T>, ConvolveError>,
)
    requires
        call_ensures(
            smooth::<T, B, F>,
            (b, &image, &old, &new, dx, dy, cutoff, unit, kernel),
            r,
        ),
        call_ensures(
            convolve_uv::<T, B, F>,
            (b, &image, &old, &new, dx, dy, cutoff, kernel),
            convolved,
        ),
    ensures
        match convolved {
            Err(e) => r == Err::<Plane<T>, SmoothError>(SmoothError::Convolve(e)),
            Ok(c) => {
                let factor: T = narrow_of(
                    &kernel,
                    match unit {
                        BrightnessUnit::JyPerBeam => c.scaling_factor,
                        BrightnessUnit::Kelvin => reciprocal_of(b, c.scaling_factor),
                    },
                );
                &&& r is Ok
                &&& r->Ok_0.nrows == image.nrows && r->Ok_0.ncols == image.ncols
                &&& r->Ok_0.data@.len() == c.image.data@.len()
                &&& forall|i: int|
                    0 <= i < c.image.data@.len() ==> (#[trigger] r->Ok_0.data@[i]) == product_of(
                        &kernel,
                        factor,
                        c.image.data@[i],
                    )
            },
        },
{
}

/// An image whose major axis is above the cutoff comes out as NaN everywhere, and any
/// other one as it is smoothed without a cutoff.
pub proof fn law_blanked_or_smoothed<T: FftFloat, B: FilterKernel, F: FftKernel<T>>(
    b: &B,
    image: Plane<T>,
    old: Beam,
    new: Beam,
    dx: Double,
    dy: Double,
    cutoff: Option<Double>,
    unit: BrightnessUnit,
    kernel: F,
    r: Plane<T>,
    plain: Result<Plane<T>, SmoothError>,
)
    requires
        call_ensures(
            smooth_or_blank::<T, B, F>,
            (b, &image, &old, &new, dx, dy, cutoff, unit, kernel),
            r,
        ),
        call_ensures(
            smooth::<T, B, F>,
            (b, &image, &old, &new, dx, dy, None::<Double>, unit, kernel),
            plain,
        ),
    ensures
        ({
            let above = cutoff matches Some(c) && !c.nan() && !major_arcsec_of(b, old).nan()
                && c.units() < major_arcsec_of(b, old).units();
            &&& r.nrows == image.nrows && r.ncols == image.ncols
            &&& r.data@.len() == r.nrows * r.ncols
            &&& above ==> forall|i: int|
                0 <= i < r.data@.len() ==> (#[trigger] r.data@[i]).not_a_number()
            &&& !above ==> plain is Ok && r.data@ == plain->Ok_0.data@
        }),
{
}

/// A request on a bare array is turned down, in this order, where no pixel holds a
/// number; where the beams do not agree and the target cannot be reached; and where the
/// beam to convolve with is above the cutoff.
pub proof fn law_refusals<T: FftFloat, B: FilterKernel>(
    b: &B,
    image: Plane<T>,
    old: Beam,
    new: Beam,
    cutoff: Option<Double>,
    r: Option<Refusal>,
    agree: bool,
    kernel: Result<Beam, BeamError>,
)
    requires
        call_ensures(check_request::<T, B>, (b, &image, &old, &new, cutoff), r),
        call_ensures(Beam::approx_eq::<B>, (&old, b, &new), agree),
        call_ensures(Beam::deconvolve::<B>, (&new, b, &old), kernel),
    ensures
        r == Some(Refusal::AllNaN) <==> !has_number(image.data@),
        has_number(image.data@) && agree ==> r is None,
        has_number(image.data@) && !agree ==> match kernel {
            Err(_) => r == Some(Refusal::TargetSmaller),
            Ok(c) => if cutoff matches Some(x) && !x.nan() && !major_arcsec_of(b, c).nan()
                && x.units() < major_arcsec_of(b, c).units() {
                r == Some(Refusal::KernelAboveCutoff)
            } else {
                r is None
            },
        },
{
    if !has_number(image.data@) {
        assert(crate::convolve_uv::all_nan(image.data@));
    } else {
        let data = image.data@;
        let k = choose|i: int| 0 <= i < data.len() && !(#[trigger] data[i]).not_a_number();
        assert(!crate::convolve_uv::all_nan(data));
    }
}

// ── Channels ────────────────────────────────────────────────────────────────

/// What is done with a channel: blank where a beam is missing or has no extent; and else
/// smooth from the source to the target beam, unless the source is above the cutoff.
/// The plan names both beams, and the one that convolves the source to the target.
pub proof fn law_plan_of_a_channel<B: FilterKernel>(
    b: &B,
    source: Option<Beam>,
    target: Option<Beam>,
    cutoff: Option<Double>,
    r: ChannelPlan,
    kernel: Beam,
)
    requires
        call_ensures(plan_channel::<B>, (b, source, target, cutoff), r),
        source is Some && target is Some ==> call_ensures(
            Beam::deconvolve_or_zero::<B>,
            (&target->0, b, &source->0),
            kernel,
        ),
    ensures
        ({
            let empty = |x: Beam|
                !x.major_deg.nan() && x.major_deg.units() == 0 && !x.minor_deg.nan()
                    && x.minor_deg.units() == 0;
            let work = source is Some && target is Some && !empty(source->0) && !empty(target->0);
            let above = cutoff matches Some(c) && !c.nan() && !major_arcsec_of(
                b,
                source->0,
            ).nan() && c.units() < major_arcsec_of(b, source->0).units();
            &&& !work <==> r == ChannelPlan::Blank
            &&& work && above ==> r == (ChannelPlan::AboveCutoff {
                old: source->0,
                target: target->0,
                kernel,
            })
            &&& work && !above ==> r == (ChannelPlan::Smooth {
                old: source->0,
                target: target->0,
                kernel,
            })
        }),
{
}

/// A channel without data is NaN everywhere, one row per y pixel and one column per x
/// pixel; a channel that is smoothed is smoothed with the pixel sizes and the unit of
/// its cube.
pub proof fn law_channel_is_smoothed_like_an_image<T: FftFloat, B: FilterKernel, F: FftKernel<T>>(
    b: &B,
    raw: Plane<T>,
    old: Beam,
    target: Beam,
    meta: CubeMeta,
    cutoff: Option<Double>,
    plans: FftPlans<F>,
    r: Result<Plane<T>, SmoothError>,
    s: Result<Plane<T>, SmoothError>,
    blank: Plane<T>,
)
    requires
        call_ensures(
            convolve_channel::<T, B, F>,
            (b, &raw, &old, &target, &meta, cutoff, &plans),
            r,
        ),
        call_ensures(
            smooth_with_plans::<T, B, F>,
            (b, &raw, &old, &target, meta.dx_deg, meta.dy_deg, cutoff, meta.unit, &plans),
            s,
        ),
        call_ensures(blank_channel::<T>, (&meta,), blank),
    ensures
        match s {
            Ok(p) => r is Ok && r->Ok_0.data@ == p.data@ && r->Ok_0.nrows == p.nrows
                && r->Ok_0.ncols == p.ncols,
            Err(e) => r == Err::<Plane<T>, SmoothError>(e),
        },
        blank.nrows == meta.ny && blank.ncols == meta.nx,
        blank.data@.len() == meta.ny * meta.nx,
        forall|i: int|
            0 <= i < blank.data@.len() ==> (#[trigger] blank.data@[i]).not_a_number(),
{
}

} // verus!
