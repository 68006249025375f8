//! Radio astronomy beam (PSF): a 2D elliptical Gaussian.
//!
//! All stored values use FITS conventions: major/minor FWHM in degrees, position
//! angle in degrees East of North.
//!
//! A beam is combined with another through the covariance matrix of its
//! Gaussian: convolution adds the matrices, deconvolution subtracts them.  The
//! formulas themselves are floating-point work, which a [`BeamKernel`] does; this
//! module decides what their results mean.
use vstd::prelude::*;

use crate::ieee::{law_magnitude_orders_values, Double, FftFloat};

verus! {

/// Axis and angle differences below 1e-10 degrees count as none.
pub const ATOL: u64 = 0x3ddb_7cdf_d9d7_bdbb;

/// Relative axis difference (1e-6) up to which a beam counts as circular.
pub const CIRCULAR_RTOL: u64 = 0x3eb0_c6f7_a0b5_ed8d;

/// The negated machine epsilon, -2^-52.
pub const MINUS_EPSILON: u64 = 0xbcb0_0000_0000_0000;

/// The smallest eigenvalue of a residual (in square degrees) that still is a
/// resolved beam: 2^-52 / (2 * 3600^2).
pub const EIGENVALUE_FLOOR: u64 = 0x3b24_b66d_c33f_6ace;

/// A 2D elliptical Gaussian beam.
///
/// `==` compares the bit patterns; beams are compared as beams, within a tolerance,
/// by [`Beam::approx_eq`].
#[derive(Clone, Copy, Debug, PartialEq, Eq, Structural)]
pub struct Beam {
    /// FWHM major axis in degrees (FITS BMAJ)
    pub major_deg: Double,
    /// FWHM minor axis in degrees (FITS BMIN)
    pub minor_deg: Double,
    /// Position angle in degrees East of North (FITS BPA)
    pub pa_deg: Double,
}

#[derive(Clone, Copy, Debug, PartialEq, Eq, Structural)]
pub enum BeamError {
    /// The source beam is smaller than the PSF.
    DeconvolveFailed,
    /// The minor axis is larger than the major axis.
    InvalidAxes { major: Double, minor: Double },
    /// A value is NaN or infinite.
    NotFinite,
}

/// How far two beams are apart, component by component, as absolute values.
#[derive(Clone, Copy, Debug, PartialEq, Eq, Structural)]
pub struct BeamDifference {
    pub major_deg: Double,
    pub minor_deg: Double,
    /// Between the position angles, modulo a half turn: at most 90 degrees.
    pub pa_deg: Double,
}

/// The covariance that is left when one beam's is subtracted from another's.
#[derive(Clone, Copy, Debug, PartialEq, Eq, Structural)]
pub struct Residual {
    /// East variance in square degrees.
    pub xx: Double,
    /// North variance in square degrees.
    pub yy: Double,
    /// Smaller eigenvalue in square degrees.
    pub lam_minor: Double,
    /// The ellipse read off the eigen-pairs.
    pub ellipse: Beam,
}

/// The beam formulas, in floating point.
///
/// Nothing is assumed of the numbers they return, only that the same beams give
/// the same numbers (see [`beam_kernel_is_function`]).
pub trait BeamKernel {
    /// FWHM major axis in arcseconds.
    fn major_arcsec(&self, beam: &Beam) -> Double;

    /// FWHM minor axis in arcseconds.
    fn minor_arcsec(&self, beam: &Beam) -> Double;

    /// Arcseconds as degrees.
    fn degrees(&self, arcsec: Double) -> Double;

    /// Solid angle in steradians.
    fn area_sr(&self, beam: &Beam) -> Double;

    /// `(major - minor) / major`.
    fn spread(&self, beam: &Beam) -> Double;

    /// Component-wise distance of two beams.
    fn difference(&self, a: &Beam, b: &Beam) -> BeamDifference;

    /// Covariance of `large` minus that of `small`.
    fn residual(&self, large: &Beam, small: &Beam) -> Residual;
}

/// The same beams give the same numbers.
pub open spec fn beam_kernel_is_function<K: BeamKernel>(k: &K) -> bool {
    &&& forall|b: Beam, x: Double, y: Double|
        #![trigger call_ensures(K::major_arcsec, (k, &b), x), call_ensures(K::major_arcsec, (k, &b), y)]
        call_ensures(K::major_arcsec, (k, &b), x) && call_ensures(K::major_arcsec, (k, &b), y)
            ==> x == y
    &&& forall|b: Beam, x: Double, y: Double|
        #![trigger call_ensures(K::minor_arcsec, (k, &b), x), call_ensures(K::minor_arcsec, (k, &b), y)]
        call_ensures(K::minor_arcsec, (k, &b), x) && call_ensures(K::minor_arcsec, (k, &b), y)
            ==> x == y
    &&& forall|a: Double, x: Double, y: Double|
        #![trigger call_ensures(K::degrees, (k, a), x), call_ensures(K::degrees, (k, a), y)]
        call_ensures(K::degrees, (k, a), x) && call_ensures(K::degrees, (k, a), y) ==> x == y
    &&& forall|b: Beam, x: Double, y: Double|
        #![trigger call_ensures(K::area_sr, (k, &b), x), call_ensures(K::area_sr, (k, &b), y)]
        call_ensures(K::area_sr, (k, &b), x) && call_ensures(K::area_sr, (k, &b), y) ==> x == y
    &&& forall|b: Beam, x: Double, y: Double|
        #![trigger call_ensures(K::spread, (k, &b), x), call_ensures(K::spread, (k, &b), y)]
        call_ensures(K::spread, (k, &b), x) && call_ensures(K::spread, (k, &b), y) ==> x == y
    &&& forall|a: Beam, b: Beam, x: BeamDifference, y: BeamDifference|
        #![trigger call_ensures(K::difference, (k, &a, &b), x), call_ensures(K::difference, (k, &a, &b), y)]
        call_ensures(K::difference, (k, &a, &b), x) && call_ensures(K::difference, (k, &a, &b), y)
            ==> x == y
    &&& forall|a: Beam, b: Beam, x: Residual, y: Residual|
        #![trigger call_ensures(K::residual, (k, &a, &b), x), call_ensures(K::residual, (k, &a, &b), y)]
        call_ensures(K::residual, (k, &a, &b), x) && call_ensures(K::residual, (k, &a, &b), y)
            ==> x == y
}

pub open spec fn major_arcsec_of<K: BeamKernel>(k: &K, b: Beam) -> Double {
    choose|x: Double| call_ensures(K::major_arcsec, (k, &b), x)
}

pub open spec fn minor_arcsec_of<K: BeamKernel>(k: &K, b: Beam) -> Double {
    choose|x: Double| call_ensures(K::minor_arcsec, (k, &b), x)
}

pub open spec fn degrees_of<K: BeamKernel>(k: &K, arcsec: Double) -> Double {
    choose|x: Double| call_ensures(K::degrees, (k, arcsec), x)
}

pub open spec fn area_of<K: BeamKernel>(k: &K, b: Beam) -> Double {
    choose|x: Double| call_ensures(K::area_sr, (k, &b), x)
}

pub open spec fn spread_of<K: BeamKernel>(k: &K, b: Beam) -> Double {
    choose|x: Double| call_ensures(K::spread, (k, &b), x)
}

pub open spec fn difference_of<K: BeamKernel>(k: &K, a: Beam, b: Beam) -> BeamDifference {
    choose|x: BeamDifference| call_ensures(K::difference, (k, &a, &b), x)
}

pub open spec fn residual_of<K: BeamKernel>(k: &K, a: Beam, b: Beam) -> Residual {
    choose|x: Residual| call_ensures(K::residual, (k, &a, &b), x)
}

impl Residual {
    /// The residual is a real, resolved ellipse: no variance is negative beyond
    /// rounding, and the smaller eigenvalue clears the point-source floor.
    pub open spec fn resolved(self) -> bool {
        &&& !self.xx.below(Double { bits: MINUS_EPSILON })
        &&& !self.yy.below(Double { bits: MINUS_EPSILON })
        &&& !self.lam_minor.below(Double { bits: EIGENVALUE_FLOOR })
    }

    /// See [`Residual::resolved`].
    pub fn is_resolved(&self) -> (r: bool)
        ensures
            r == self.resolved(),
    {
        let edge = Double { bits: MINUS_EPSILON };
        let floor = Double { bits: EIGENVALUE_FLOOR };
        !(self.xx.lt(&edge) || self.yy.lt(&edge) || self.lam_minor.lt(&floor))
    }

    /// The ellipse of a resolved residual; otherwise a zero beam or an error.
    pub open spec fn outcome_spec(self, failure_returns_zero: bool) -> Result<Beam, BeamError> {
        if self.resolved() {
            Ok(self.ellipse)
        } else if failure_returns_zero {
            Ok(Beam::zero_spec())
        } else {
            Err(BeamError::DeconvolveFailed)
        }
    }

    /// What deconvolving comes to, given the residual covariance.
    pub fn outcome(&self, failure_returns_zero: bool) -> (r: Result<Beam, BeamError>)
        ensures
            r == self.outcome_spec(failure_returns_zero),
    {
        if self.is_resolved() {
            Ok(self.ellipse)
        } else if failure_returns_zero {
            Ok(Beam::zero())
        } else {
            Err(BeamError::DeconvolveFailed)
        }
    }
}

impl Beam {
    /// All three values are finite and the minor axis is not the larger one.
    pub open spec fn valid(self) -> bool {
        &&& self.all_finite()
        &&& self.minor_deg.units() <= self.major_deg.units()
    }

    pub open spec fn all_finite(self) -> bool {
        self.major_deg.finite() && self.minor_deg.finite() && self.pa_deg.finite()
    }

    /// A beam with a size: finite values and a positive major axis.
    pub open spec fn usable(self) -> bool {
        self.all_finite() && self.major_deg.units() > 0
    }

    /// Both axes are zero: the beam of a masked channel.
    pub open spec fn masked(self) -> bool {
        &&& !self.major_deg.nan() && self.major_deg.units() == 0
        &&& !self.minor_deg.nan() && self.minor_deg.units() == 0
    }

    /// The axes differ by no more than `rtol` of the major axis.
    pub open spec fn circular<K: BeamKernel>(self, k: &K, rtol: Double) -> bool {
        (!self.major_deg.nan() && self.major_deg.units() == 0) || spread_of(k, self).at_most(rtol)
    }

    /// The beams agree within the tolerance; the angle of a circular beam does
    /// not count.
    pub open spec fn close_to<K: BeamKernel>(self, k: &K, other: Beam) -> bool {
        let atol = Double { bits: ATOL };
        let d = difference_of(k, self, other);
        &&& d.major_deg.below(atol)
        &&& d.minor_deg.below(atol)
        &&& self.circular(k, Double { bits: CIRCULAR_RTOL }) || d.pa_deg.below(atol)
    }

    /// The values of both beams are `close`, one by one.
    pub open spec fn near(self, other: Beam, close: spec_fn(Double, Double) -> bool) -> bool {
        &&& close(self.major_deg, other.major_deg)
        &&& close(self.minor_deg, other.minor_deg)
        &&& close(self.pa_deg, other.pa_deg)
    }

    /// The beam with no extent.
    pub open spec fn zero_spec() -> Beam {
        Beam {
            major_deg: Double::zero_spec(),
            minor_deg: Double::zero_spec(),
            pa_deg: Double::zero_spec(),
        }
    }

    /// What [`Beam::new`] returns.
    pub open spec fn new_spec(major_deg: Double, minor_deg: Double, pa_deg: Double) -> Result<
        Beam,
        BeamError,
    > {
        let beam = Beam { major_deg, minor_deg, pa_deg };
        if !beam.all_finite() {
            Err(BeamError::NotFinite)
        } else if major_deg.units() < minor_deg.units() {
            Err(BeamError::InvalidAxes { major: major_deg, minor: minor_deg })
        } else {
            Ok(beam)
        }
    }

    /// What [`Beam::from_arcsec`] returns.
    pub open spec fn arcsec_spec<K: BeamKernel>(
        k: &K,
        major_arcsec: Double,
        minor_arcsec: Double,
        pa_deg: Double,
    ) -> Result<Beam, BeamError> {
        Self::new_spec(degrees_of(k, major_arcsec), degrees_of(k, minor_arcsec), pa_deg)
    }

    /// What [`Beam::deconvolve`] returns.
    pub open spec fn deconvolve_spec<K: BeamKernel>(self, k: &K, other: Beam) -> Result<
        Beam,
        BeamError,
    > {
        residual_of(k, self, other).outcome_spec(false)
    }

    /// A beam of the given axes and angle, in degrees.
    pub fn new(major_deg: Double, minor_deg: Double, pa_deg: Double) -> (r: Result<Self, BeamError>)
        ensures
            r == Self::new_spec(major_deg, minor_deg, pa_deg),
            r matches Ok(b) ==> b.valid(),
    {
        if !major_deg.is_finite() || !minor_deg.is_finite() || !pa_deg.is_finite() {
            return Err(BeamError::NotFinite);
        }
        if major_deg.lt(&minor_deg) {
            return Err(BeamError::InvalidAxes { major: major_deg, minor: minor_deg });
        }
        Ok(Beam { major_deg, minor_deg, pa_deg })
    }

    /// A beam of axes in arcseconds and an angle in degrees.
    pub fn from_arcsec<K: BeamKernel>(
        k: &K,
        major_arcsec: Double,
        minor_arcsec: Double,
        pa_deg: Double,
    ) -> (r: Result<Self, BeamError>)
        requires
            beam_kernel_is_function(k),
        ensures
            r == Self::arcsec_spec(k, major_arcsec, minor_arcsec, pa_deg),
            r matches Ok(b) ==> b.valid(),
    {
        let major_deg = k.degrees(major_arcsec);
        let minor_deg = k.degrees(minor_arcsec);
        Self::new(major_deg, minor_deg, pa_deg)
    }

    pub fn zero() -> (r: Self)
        ensures
            r == Self::zero_spec(),
            r.masked(),
            !r.usable(),
    {
        proof {
            Double::constants_are_distinct();
        }
        Beam { major_deg: Double::zero(), minor_deg: Double::zero(), pa_deg: Double::zero() }
    }

    pub fn is_finite(&self) -> (r: bool)
        ensures
            r == self.usable(),
    {
        let zero = Double::zero();
        proof {
            Double::constants_are_distinct();
        }
        self.major_deg.is_finite() && self.minor_deg.is_finite() && self.pa_deg.is_finite()
            && zero.lt(&self.major_deg)
    }

    pub fn is_zero(&self) -> (r: bool)
        ensures
            r == self.masked(),
    {
        self.major_deg.is_zero() && self.minor_deg.is_zero()
    }

    /// True if the axes differ by no more than `rtol` of the major axis.
    pub fn is_circular<K: BeamKernel>(&self, k: &K, rtol: Double) -> (r: bool)
        requires
            beam_kernel_is_function(k),
        ensures
            r == self.circular(k, rtol),
    {
        if self.major_deg.is_zero() {
            return true;
        }
        let spread = k.spread(self);
        spread.le(&rtol)
    }

    /// Deconvolve `other` from `self` (i.e. `self` = result ⊛ `other`).
    ///
    /// Fails if the residual covariance is no resolved ellipse.
    pub fn deconvolve<K: BeamKernel>(&self, k: &K, other: &Beam) -> (r: Result<Beam, BeamError>)
        requires
            beam_kernel_is_function(k),
        ensures
            r == self.deconvolve_spec(k, *other),
    {
        deconvolve_deg(k, self, other, false)
    }

    /// Like `deconvolve` but returns a zero beam on failure instead of an error.
    pub fn deconvolve_or_zero<K: BeamKernel>(&self, k: &K, other: &Beam) -> (r: Beam)
        requires
            beam_kernel_is_function(k),
        ensures
            r == (match self.deconvolve_spec(k, *other) {
                Ok(b) => b,
                Err(_) => Beam::zero_spec(),
            }),
    {
        match self.deconvolve(k, other) {
            Ok(b) => b,
            Err(_) => Beam::zero(),
        }
    }

    /// Approximate equality with a tolerance of 1e-10 degrees.
    pub fn approx_eq<K: BeamKernel>(&self, k: &K, other: &Beam) -> (r: bool)
        requires
            beam_kernel_is_function(k),
        ensures
            r == self.close_to(k, *other),
    {
        let atol = Double { bits: ATOL };
        let d = k.difference(self, other);
        let pa_eq = self.is_circular(k, Double { bits: CIRCULAR_RTOL }) || d.pa_deg.lt(&atol);
        d.major_deg.lt(&atol) && d.minor_deg.lt(&atol) && pa_eq
    }
}

/// Deconvolve `small` from `large`, reporting failure as an error or, when
/// `failure_returns_zero` is set, as a zero beam.
pub fn deconvolve_deg<K: BeamKernel>(
    k: &K,
    large: &Beam,
    small: &Beam,
    failure_returns_zero: bool,
) -> (r: Result<Beam, BeamError>)
    requires
        beam_kernel_is_function(k),
    ensures
        r == residual_of(k, *large, *small).outcome_spec(failure_returns_zero),
{
    let residual = k.residual(large, small);
    residual.outcome(failure_returns_zero)
}

/// A beam with a size is not the zero beam, so no channel is both usable and
/// masked.
pub proof fn law_usable_is_not_masked(b: Beam)
    requires
        b.usable(),
    ensures
        !b.masked(),
{
}

/// Where the smaller eigenvalue of the residual is not positive, as when a beam is
/// deconvolved from itself or from a smaller one, nothing is left: deconvolution
/// fails, and the beam to convolve with is the zero beam.
pub proof fn law_nothing_left_is_a_failure<K: BeamKernel>(k: &K, large: Beam, small: Beam)
    requires
        !residual_of(k, large, small).lam_minor.nan(),
        residual_of(k, large, small).lam_minor.units() <= 0,
    ensures
        large.deconvolve_spec(k, small) == Err::<Beam, BeamError>(BeamError::DeconvolveFailed),
        residual_of(k, large, small).outcome_spec(true) == Ok::<Beam, BeamError>(
            Beam::zero_spec(),
        ),
{
    let floor = Double { bits: EIGENVALUE_FLOOR };
    law_magnitude_orders_values(0, floor.magnitude(), 52);
}

/// Whether anything is left decides what deconvolving gives, with the flag set or
/// not: an error or the zero beam where nothing is left, and the same ellipse either
/// way where something is.
///
/// An ellipse that is read off with a positive major axis is not the zero beam, so
/// the zero beam then says that nothing is left.
pub proof fn law_deconvolving_fails_or_resolves<K: BeamKernel>(k: &K, large: Beam, small: Beam)
    ensures
        ({
            let left = residual_of(k, large, small);
            let strict = left.outcome_spec(false);
            let lenient = left.outcome_spec(true);
            &&& strict is Err <==> !left.resolved()
            &&& strict is Err ==> strict == Err::<Beam, BeamError>(BeamError::DeconvolveFailed)
            &&& strict is Err ==> lenient == Ok::<Beam, BeamError>(Beam::zero_spec())
            &&& strict is Ok ==> strict == Ok::<Beam, BeamError>(left.ellipse) && lenient == strict
            &&& (left.resolved() ==> left.ellipse.major_deg.units() > 0) ==> (strict is Err
                <==> lenient == Ok::<Beam, BeamError>(Beam::zero_spec()))
        }),
{
    Double::constants_are_distinct();
}

/// Where the smaller eigenvalue is no larger than either variance, as it is in any
/// covariance, it alone decides whether something is left.
pub proof fn law_smaller_eigenvalue_decides(left: Residual)
    requires
        left.lam_minor.at_most(left.xx),
        left.lam_minor.at_most(left.yy),
    ensures
        left.resolved() <==> !left.lam_minor.below(Double { bits: EIGENVALUE_FLOOR }),
{
    let floor = Double { bits: EIGENVALUE_FLOOR };
    let edge = Double { bits: MINUS_EPSILON };
    law_magnitude_orders_values(0, floor.magnitude(), 52);
    law_magnitude_orders_values(0, edge.magnitude(), 52);
}

} // verus!
