//! Laws of beams.
use vstd::prelude::*;

use crate::beam::{
    area_of, beam_kernel_is_function, deconvolve_deg, degrees_of, difference_of, major_arcsec_of,
    minor_arcsec_of, residual_of, spread_of, Beam, BeamDifference, BeamError, BeamKernel, Residual,
};
use crate::ieee::{Double, FftFloat};

verus! {

/// The names of the beam formulas stand for what the kernel returns for the same beams,
/// in the same places.
pub proof fn law_beam_names<K: BeamKernel>(
    k: &K,
    a: Beam,
    b: Beam,
    u: Double,
    x: Double,
    d: BeamDifference,
    r: Residual,
)
    requires
        beam_kernel_is_function(k),
    ensures
        call_ensures(K::major_arcsec, (k, &a), x) ==> major_arcsec_of(k, a) == x,
        call_ensures(K::minor_arcsec, (k, &a), x) ==> minor_arcsec_of(k, a) == x,
        call_ensures(K::degrees, (k, u), x) ==> degrees_of(k, u) == x,
        call_ensures(K::area_sr, (k, &a), x) ==> area_of(k, a) == x,
        call_ensures(K::spread, (k, &a), x) ==> spread_of(k, a) == x,
        call_ensures(K::difference, (k, &a, &b), d) ==> difference_of(k, a, b) == d,
        call_ensures(K::residual, (k, &a, &b), r) ==> residual_of(k, a, b) == r,
{
}

/// A beam is made exactly of finite values of which the minor axis is not the larger
/// one, and has them; otherwise the error says which of the two is amiss.
pub proof fn law_beam_has_its_values(
    major: Double,
    minor: Double,
    pa: Double,
    r: Result<Beam, BeamError>,
)
    requires
        call_ensures(Beam::new, (major, minor, pa), r),
    ensures
        r is Ok <==> major.finite() && minor.finite() && pa.finite() && minor.units()
            <= major.units(),
        r matches Ok(b) ==> b.major_deg == major && b.minor_deg == minor && b.pa_deg == pa,
        r == Err::<Beam, BeamError>(BeamError::NotFinite) <==> !major.finite() || !minor.finite()
            || !pa.finite(),
        r matches Err(BeamError::InvalidAxes { major: x, minor: y }) ==> x == major && y == minor,
        r != Err::<Beam, BeamError>(BeamError::DeconvolveFailed),
{
}

/// A beam of axes in arcseconds is the beam of the same axes in degrees, with the angle
/// as it is given.
pub proof fn law_arcseconds_are_degrees<K: BeamKernel>(
    k: &K,
    major: Double,
    minor: Double,
    pa: Double,
    r: Result<Beam, BeamError>,
    s: Result<Beam, BeamError>,
)
    requires
        call_ensures(Beam::from_arcsec::<K>, (k, major, minor, pa), r),
        call_ensures(Beam::new, (degrees_of(k, major), degrees_of(k, minor), pa), s),
    ensures
        r == s,
{
}

/// What the tests of a beam tell: a usable beam has finite values and a positive major
/// axis, a masked one has no extent, and a circular one has axes that differ by no more
/// than the tolerance.
pub proof fn law_beam_tests<K: BeamKernel>(
    k: &K,
    b: Beam,
    rtol: Double,
    finite: bool,
    zero: bool,
    circular: bool,
)
    requires
        call_ensures(Beam::is_finite, (&b,), finite),
        call_ensures(Beam::is_zero, (&b,), zero),
        call_ensures(Beam::is_circular::<K>, (&b, k, rtol), circular),
    ensures
        finite <==> b.major_deg.finite() && b.minor_deg.finite() && b.pa_deg.finite()
            && b.major_deg.units() > 0,
        zero <==> !b.major_deg.nan() && b.major_deg.units() == 0 && !b.minor_deg.nan()
            && b.minor_deg.units() == 0,
        circular <==> (!b.major_deg.nan() && b.major_deg.units() == 0) || spread_of(k, b).at_most(
            rtol,
        ),
        finite ==> !zero,
{
}

/// The zero beam has no extent and no angle.
pub proof fn law_zero_beam(z: Beam)
    requires
        call_ensures(Beam::zero, (), z),
    ensures
        z.major_deg.units() == 0 && !z.major_deg.nan(),
        z.minor_deg.units() == 0 && !z.minor_deg.nan(),
        z.pa_deg.units() == 0 && !z.pa_deg.nan(),
{
    Double::constants_are_distinct();
}

/// Beams agree where both axes do within 1e-10 degrees, and the angles too unless the
/// first beam is circular to a millionth.
pub proof fn law_agreeing_beams<K: BeamKernel>(
    k: &K,
    a: Beam,
    b: Beam,
    r: bool,
    circular: bool,
)
    requires
        call_ensures(Beam::approx_eq::<K>, (&a, k, &b), r),
        call_ensures(
            Beam::is_circular::<K>,
            (&a, k, Double { bits: 0x3eb0_c6f7_a0b5_ed8d }),
            circular,
        ),
    ensures
        r <==> {
            let d = difference_of(k, a, b);
            let atol = Double { bits: 0x3ddb_7cdf_d9d7_bdbb };
            &&& d.major_deg.below(atol)
            &&& d.minor_deg.below(atol)
            &&& circular || d.pa_deg.below(atol)
        },
        r <==> a.close_to(k, b),
{
}

/// Deconvolving the second beam from the first gives the ellipse of what is left of the
/// first one's covariance, or fails where that is no resolved ellipse: where a variance
/// is negative beyond rounding, or the smaller eigenvalue below the floor.
pub proof fn law_deconvolution<K: BeamKernel>(
    k: &K,
    large: Beam,
    small: Beam,
    r: Result<Beam, BeamError>,
    or_zero: Beam,
    strict: Result<Beam, BeamError>,
    lenient: Result<Beam, BeamError>,
)
    requires
        call_ensures(Beam::deconvolve::<K>, (&large, k, &small), r),
        call_ensures(Beam::deconvolve_or_zero::<K>, (&large, k, &small), or_zero),
        call_ensures(deconvolve_deg::<K>, (k, &large, &small, false), strict),
        call_ensures(deconvolve_deg::<K>, (k, &large, &small, true), lenient),
    ensures
        ({
            let left = residual_of(k, large, small);
            let edge = Double { bits: 0xbcb0_0000_0000_0000 };
            let floor = Double { bits: 0x3b24_b66d_c33f_6ace };
            let fails = left.xx.below(edge) || left.yy.below(edge) || left.lam_minor.below(floor);
            &&& fails ==> r == Err::<Beam, BeamError>(BeamError::DeconvolveFailed)
            &&& fails ==> or_zero.masked() && or_zero.pa_deg == Double::zero_spec()
            &&& !fails ==> r == Ok::<Beam, BeamError>(left.ellipse) && or_zero == left.ellipse
        }),
        strict == r,
        lenient == Ok::<Beam, BeamError>(or_zero),
        r == large.deconvolve_spec(k, small),
{
    Double::constants_are_distinct();
}

} // verus!
