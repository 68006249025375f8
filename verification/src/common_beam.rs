//! Common beam algorithms.
//!
//! - [`find_commonbeam_between`]: analytic CASA algorithm for exactly 2 beams.
//! - [`common_manybeams_mve`]: minimum-volume enclosing ellipse for N beams.
//! - [`common_beam`]: dispatcher that picks the appropriate algorithm.
use vstd::prelude::*;

use crate::beam::{
    area_of, beam_kernel_is_function, deconvolve_deg, residual_of, Beam, BeamError, BeamKernel,
    CIRCULAR_RTOL,
};
use crate::ellipse::{
    boundary_points, collect_ellipse_points, convex_hull_2d, ellipse_kernel_is_function,
    ellipse_kernel_is_ordered, hull_of, min_vol_ellipse, min_vol_ellipse_spec, Ellipse,
    EllipseKernel, FitFailure, MINUS_PI, PI,
};
use crate::ieee::{Double, FftFloat};
use crate::order::{comparable, last_max, last_max_index};

verus! {

/// How close to a right angle (1e-9 rad) two beams count as perpendicular.
pub const PERPENDICULAR: u64 = 0x3e11_2e0b_e826_d695;

/// Times the beams are inflated further when a fit does not hold them all.
pub const MAX_INFLATIONS: usize = 10;

#[derive(Clone, Copy, Debug, PartialEq, Eq, Structural)]
pub enum CommonBeamError {
    /// No beams were given.
    NoBeans,
    /// All beams are invalid or flagged.
    AllFlagged,
    /// The Khachiyan iteration did not settle within this many steps.
    NoConvergence(usize),
    /// No ellipse was found that all inputs can be convolved to.
    DeconvFailed(FitFailure),
    /// The candidate beam is not a valid one.
    Beam(BeamError),
}

/// What the analytic two-beam solution reads off its beams.
#[derive(Clone, Copy, Debug, PartialEq, Eq, Structural)]
pub struct PairGeometry {
    /// Major axes in arcseconds.
    pub large_major: Double,
    pub small_major: Double,
    /// The same axes, back in degrees.
    pub large_major_deg: Double,
    pub small_major_deg: Double,
    /// How far the angle between the beams is from a right one, in radians.
    pub from_perpendicular: Double,
    /// Enclosing ellipse found in the frame where the large beam is round, in
    /// degrees.
    pub enclosing_major_deg: Double,
    pub enclosing_minor_deg: Double,
    pub enclosing_pa_deg: Double,
}

/// The formulas of the common-beam search, in floating point.
pub trait CommonBeamKernel: EllipseKernel {
    fn pair(&self, large: &Beam, small: &Beam) -> PairGeometry;

    /// The inflation to try after `epsilon` failed in attempt `step`.
    fn next_epsilon(&self, epsilon: Double, step: usize) -> Double;
}

pub open spec fn pair_of<K: CommonBeamKernel>(k: &K, large: Beam, small: Beam) -> PairGeometry {
    choose|x: PairGeometry| call_ensures(K::pair, (k, &large, &small), x)
}

pub open spec fn next_epsilon_of<K: CommonBeamKernel>(k: &K, epsilon: Double, step: usize) -> Double {
    choose|x: Double| call_ensures(K::next_epsilon, (k, epsilon, step), x)
}

/// The same arguments give the same numbers, and those that are ordered compare.
pub open spec fn kernel_is_sound<K: CommonBeamKernel>(k: &K) -> bool {
    &&& beam_kernel_is_function(k)
    &&& ellipse_kernel_is_function(k)
    &&& ellipse_kernel_is_ordered(k)
    &&& forall|a: Beam, b: Beam, x: PairGeometry, y: PairGeometry|
        #![trigger call_ensures(K::pair, (k, &a, &b), x), call_ensures(K::pair, (k, &a, &b), y)]
        call_ensures(K::pair, (k, &a, &b), x) && call_ensures(K::pair, (k, &a, &b), y) ==> x == y
    &&& forall|e: Double, s: usize, x: Double, y: Double|
        #![trigger call_ensures(K::next_epsilon, (k, e, s), x), call_ensures(K::next_epsilon, (k, e, s), y)]
        call_ensures(K::next_epsilon, (k, e, s), x) && call_ensures(K::next_epsilon, (k, e, s), y)
            ==> x == y
}

// ── Containment ─────────────────────────────────────────────────────────────

/// `x > 0.0`.
pub open spec fn positive(x: Double) -> bool {
    !x.nan() && x.units() > 0
}

/// `b` can be convolved to `large`: they agree, or a beam with a size is left
/// when `b` is deconvolved from `large`.
pub open spec fn reaches<K: BeamKernel>(k: &K, b: Beam, large: Beam) -> bool {
    let left = residual_of(k, large, b);
    b.close_to(k, large) || (left.resolved() && positive(left.ellipse.major_deg) && positive(
        left.ellipse.minor_deg,
    ))
}

/// Every beam can be convolved to `large`.
pub open spec fn all_reach<K: BeamKernel>(k: &K, beams: Seq<Beam>, large: Beam) -> bool {
    forall|i: int| 0 <= i < beams.len() ==> reaches(k, #[trigger] beams[i], large)
}

/// True if all beams can be deconvolved from `large_beam`.
pub fn fits_in_beam<K: BeamKernel>(k: &K, beams: &Vec<Beam>, large_beam: &Beam) -> (r: bool)
    requires
        beam_kernel_is_function(k),
    ensures
        r == all_reach(k, beams@, *large_beam),
{
    let zero = Double::zero();
    proof {
        Double::constants_are_distinct();
    }
    let mut i: usize = 0;
    while i < beams.len()
        invariant
            i <= beams.len(),
            beam_kernel_is_function(k),
            zero == Double::zero_spec(),
            !zero.nan(),
            zero.units() == 0,
            forall|j: int| 0 <= j < i ==> reaches(k, #[trigger] beams@[j], *large_beam),
        decreases beams.len() - i,
    {
        let b = beams[i];
        let mut fits = b.approx_eq(k, large_beam);
        if !fits {
            fits = match deconvolve_deg(k, large_beam, &b, true) {
                Ok(left) => zero.lt(&left.major_deg) && zero.lt(&left.minor_deg),
                Err(_) => false,
            };
        }
        if !fits {
            assert(!reaches(k, beams@[i as int], *large_beam));
            return false;
        }
        i = i + 1;
    }
    true
}

/// Beams fit where each one does: it agrees with the large beam, or deconvolving it
/// from that succeeds, as far as what is left then has positive axes.  No beams fit
/// everywhere, and two lists of beams fit together where each of them fits.
pub proof fn law_beams_fit_one_by_one<K: BeamKernel>(
    k: &K,
    xs: Seq<Beam>,
    ys: Seq<Beam>,
    large: Beam,
)
    ensures
        all_reach(k, Seq::<Beam>::empty(), large),
        all_reach(k, xs + ys, large) <==> all_reach(k, xs, large) && all_reach(k, ys, large),
        (forall|b: Beam|
            #![trigger residual_of(k, large, b)]
            residual_of(k, large, b).resolved() ==> positive(
                residual_of(k, large, b).ellipse.major_deg,
            ) && positive(residual_of(k, large, b).ellipse.minor_deg)) ==> (all_reach(k, xs, large)
            <==> forall|i: int|
            0 <= i < xs.len() ==> (#[trigger] xs[i]).close_to(k, large) || large.deconvolve_spec(
                k,
                xs[i],
            ) is Ok),
{
    let both = xs + ys;
    if all_reach(k, both, large) {
        assert forall|i: int| 0 <= i < xs.len() implies reaches(k, #[trigger] xs[i], large) by {
            assert(both[i] == xs[i]);
        }
        assert forall|i: int| 0 <= i < ys.len() implies reaches(k, #[trigger] ys[i], large) by {
            assert(both[xs.len() + i] == ys[i]);
        }
    }
    if all_reach(k, xs, large) {
        assert forall|i: int| 0 <= i < xs.len() implies (#[trigger] xs[i]).close_to(k, large)
            || large.deconvolve_spec(k, xs[i]) is Ok by {
            assert(reaches(k, xs[i], large));
        }
    }
}

/// The solid angles of the beams.
pub open spec fn areas_of<K: BeamKernel>(k: &K, beams: Seq<Beam>) -> Seq<Double> {
    Seq::new(beams.len(), |i: int| area_of(k, beams[i]))
}

/// No solid angle of the beams is a NaN.
pub open spec fn areas_compare<K: BeamKernel>(k: &K, beams: Seq<Beam>) -> bool {
    forall|i: int, x: Double|
        0 <= i < beams.len() && #[trigger] call_ensures(K::area_sr, (k, &beams[i]), x) ==> !x.nan()
}

/// The beam with the largest solid angle, the last one where several tie.
pub open spec fn largest<K: BeamKernel>(k: &K, beams: Seq<Beam>) -> Beam {
    beams[last_max(areas_of(k, beams))]
}

/// The beam with the largest solid angle.
pub fn largest_beam<K: BeamKernel>(k: &K, beams: &Vec<Beam>) -> (r: Beam)
    requires
        beam_kernel_is_function(k),
        beams.len() > 0,
        beams.len() > 1 ==> areas_compare(k, beams@),
    ensures
        r == largest(k, beams@),
{
    let mut areas: Vec<Double> = Vec::new();
    let mut i: usize = 0;
    while i < beams.len()
        invariant
            i <= beams.len(),
            beam_kernel_is_function(k),
            areas@ == areas_of(k, beams@).take(i as int),
            beams.len() > 1 ==> areas_compare(k, beams@),
            beams.len() > 1 ==> comparable(areas@),
        decreases beams.len() - i,
    {
        let a = k.area_sr(&beams[i]);
        areas.push(a);
        proof {
            let all = areas_of(k, beams@);
            assert(all[i as int] == a);
            assert(all.take(i + 1) =~= all.take(i as int).push(all[i as int]));
        }
        i = i + 1;
    }
    assert(areas@ =~= areas_of(k, beams@));
    beams[last_max_index(&areas)]
}

// ── 2-beam analytic algorithm ───────────────────────────────────────────────

/// An error of [`Beam::new`] as one of the search.
pub open spec fn as_common(r: Result<Beam, BeamError>) -> Result<Beam, CommonBeamError> {
    match r {
        Ok(b) => Ok(b),
        Err(e) => Err(CommonBeamError::Beam(e)),
    }
}

/// The common beam of two beams of which neither holds the other, from what was
/// read off them.
pub open spec fn pair_outcome(
    large: Beam,
    small: Beam,
    small_is_round: bool,
    g: PairGeometry,
) -> Result<Beam, CommonBeamError> {
    if small_is_round {
        as_common(Beam::new_spec(g.large_major_deg, g.small_major_deg, large.pa_deg))
    } else if g.from_perpendicular.below(Double { bits: PERPENDICULAR }) {
        if g.small_major.at_most(g.large_major) {
            as_common(Beam::new_spec(g.large_major_deg, g.small_major_deg, large.pa_deg))
        } else {
            as_common(Beam::new_spec(g.small_major_deg, g.large_major_deg, small.pa_deg))
        }
    } else {
        as_common(
            Beam::new_spec(g.enclosing_major_deg, g.enclosing_minor_deg, g.enclosing_pa_deg),
        )
    }
}

/// The common beam of two beams.
pub open spec fn between<K: CommonBeamKernel>(k: &K, b1: Beam, b2: Beam) -> Result<
    Beam,
    CommonBeamError,
> {
    let first = area_of(k, b2).at_most(area_of(k, b1));
    let large = if first {
        b1
    } else {
        b2
    };
    let small = if first {
        b2
    } else {
        b1
    };
    let left = residual_of(k, large, small);
    if b1.close_to(k, b2) {
        Ok(b1)
    } else if left.resolved() && left.ellipse.usable() {
        Ok(large)
    } else {
        pair_outcome(
            large,
            small,
            small.circular(k, Double { bits: CIRCULAR_RTOL }),
            pair_of(k, large, small),
        )
    }
}

fn into_common(r: Result<Beam, BeamError>) -> (c: Result<Beam, CommonBeamError>)
    ensures
        c == as_common(r),
{
    match r {
        Ok(b) => Ok(b),
        Err(e) => Err(CommonBeamError::Beam(e)),
    }
}

/// The common beam of two beams of which neither holds the other, given the
/// geometry of the pair.
pub fn solve_pair(large: &Beam, small: &Beam, small_is_round: bool, g: &PairGeometry) -> (r: Result<
    Beam,
    CommonBeamError,
>)
    ensures
        r == pair_outcome(*large, *small, small_is_round, *g),
{
    // A round small beam only widens the minor axis.
    if small_is_round {
        return into_common(Beam::new(g.large_major_deg, g.small_major_deg, large.pa_deg));
    }
    // The common beam of perpendicular beams has the two major axes.
    if g.from_perpendicular.lt(&Double { bits: PERPENDICULAR }) {
        return if g.small_major.le(&g.large_major) {
            into_common(Beam::new(g.large_major_deg, g.small_major_deg, large.pa_deg))
        } else {
            into_common(Beam::new(g.small_major_deg, g.large_major_deg, small.pa_deg))
        };
    }
    into_common(Beam::new(g.enclosing_major_deg, g.enclosing_minor_deg, g.enclosing_pa_deg))
}

/// Find the common beam between exactly 2 beams using the CASA analytic method.
pub fn find_commonbeam_between<K: CommonBeamKernel>(k: &K, beam1: &Beam, beam2: &Beam) -> (r: Result<
    Beam,
    CommonBeamError,
>)
    requires
        kernel_is_sound(k),
    ensures
        r == between(k, *beam1, *beam2),
{
    if beam1.approx_eq(k, beam2) {
        return Ok(*beam1);
    }
    let a1 = k.area_sr(beam1);
    let a2 = k.area_sr(beam2);
    let (large, small) = if a2.le(&a1) {
        (*beam1, *beam2)
    } else {
        (*beam2, *beam1)
    };
    // If the large beam already contains the small beam, it is the answer.
    let left = large.deconvolve_or_zero(k, &small);
    proof {
        Double::constants_are_distinct();
        assert(!Beam::zero_spec().usable());
    }
    if left.is_finite() {
        return Ok(large);
    }
    let round = small.is_circular(k, Double { bits: CIRCULAR_RTOL });
    let g = k.pair(&large, &small);
    solve_pair(&large, &small, round, &g)
}

// ── Enclosing ellipse ───────────────────────────────────────────────────────

/// A fit failure as an error of the search.
pub open spec fn fit_error(f: FitFailure) -> CommonBeamError {
    match f {
        FitFailure::NoConvergence(n) => CommonBeamError::NoConvergence(n),
        other => CommonBeamError::DeconvFailed(other),
    }
}

/// The beam of an enclosing ellipse: the larger semi-axis is the major one, and
/// an angle of half a turn is none.
pub open spec fn beam_of_ellipse(e: Ellipse) -> Result<Beam, CommonBeamError> {
    let half_turn = e.pa_rad.same_number(Double { bits: PI }) || e.pa_rad.same_number(
        Double { bits: MINUS_PI },
    );
    let pa = if half_turn {
        Double::zero_spec()
    } else {
        e.pa_deg
    };
    if e.r1.at_most(e.r0) {
        as_common(Beam::new_spec(e.r0, e.r1, pa))
    } else {
        as_common(Beam::new_spec(e.r1, e.r0, pa))
    }
}

/// The candidate beam that one attempt gives.
pub open spec fn candidate<K: CommonBeamKernel>(
    k: &K,
    beams: Seq<Beam>,
    tolerance: Double,
    nsamps: usize,
    epsilon: Double,
) -> Result<Beam, CommonBeamError> {
    let hull = hull_of(k, boundary_points(k, beams, nsamps, epsilon));
    match min_vol_ellipse_spec(k, hull, tolerance) {
        Ok(e) => beam_of_ellipse(e),
        Err(f) => Err(fit_error(f)),
    }
}

/// Attempts from number `step` on, with ever more inflation, until a candidate
/// holds all beams.
pub open spec fn inflate<K: CommonBeamKernel>(
    k: &K,
    beams: Seq<Beam>,
    tolerance: Double,
    nsamps: usize,
    epsilon: Double,
    step: nat,
) -> Result<Beam, CommonBeamError>
    decreases MAX_INFLATIONS - step,
{
    match candidate(k, beams, tolerance, nsamps, epsilon) {
        Err(e) => Err(e),
        Ok(b) => if all_reach(k, beams, b) {
            Ok(b)
        } else if step >= MAX_INFLATIONS {
            Err(CommonBeamError::DeconvFailed(FitFailure::EpsilonExhausted))
        } else {
            inflate(
                k,
                beams,
                tolerance,
                nsamps,
                next_epsilon_of(k, epsilon, step as usize),
                step + 1,
            )
        },
    }
}

/// The beam of an enclosing ellipse (see [`beam_of_ellipse`]).
pub fn ellipse_beam(e: &Ellipse) -> (r: Result<Beam, CommonBeamError>)
    ensures
        r == beam_of_ellipse(*e),
{
    let pi = Double { bits: PI };
    let minus_pi = Double { bits: MINUS_PI };
    let half_turn = (e.pa_rad.le(&pi) && pi.le(&e.pa_rad)) || (e.pa_rad.le(&minus_pi)
        && minus_pi.le(&e.pa_rad));
    let pa = if half_turn {
        Double::zero()
    } else {
        e.pa_deg
    };
    if e.r1.le(&e.r0) {
        into_common(Beam::new(e.r0, e.r1, pa))
    } else {
        into_common(Beam::new(e.r1, e.r0, pa))
    }
}

/// Find the common beam using the minimum-volume enclosing ellipse of sampled
/// beam boundary points.
pub fn common_manybeams_mve<K: CommonBeamKernel>(
    k: &K,
    beams: &Vec<Beam>,
    tolerance: Double,
    nsamps: usize,
    epsilon: Double,
) -> (r: Result<Beam, CommonBeamError>)
    requires
        kernel_is_sound(k),
    ensures
        r == inflate(k, beams@, tolerance, nsamps, epsilon, 0),
{
    let mut eps = epsilon;
    let mut step: usize = 0;
    loop
        invariant
            step <= MAX_INFLATIONS,
            kernel_is_sound(k),
            inflate(k, beams@, tolerance, nsamps, epsilon, 0) == inflate(
                k,
                beams@,
                tolerance,
                nsamps,
                eps,
                step as nat,
            ),
        decreases MAX_INFLATIONS - step,
    {
        let points = collect_ellipse_points(k, beams, nsamps, eps);
        let hull = convex_hull_2d(k, &points);
        let ellipse = match min_vol_ellipse(k, &hull, tolerance) {
            Ok(e) => e,
            Err(f) => {
                let e = match f {
                    FitFailure::NoConvergence(n) => CommonBeamError::NoConvergence(n),
                    other => CommonBeamError::DeconvFailed(other),
                };
                return Err(e);
            },
        };
        let beam = match ellipse_beam(&ellipse) {
            Ok(b) => b,
            Err(e) => {
                return Err(e);
            },
        };
        if fits_in_beam(k, beams, &beam) {
            return Ok(beam);
        }
        if step == MAX_INFLATIONS {
            return Err(CommonBeamError::DeconvFailed(FitFailure::EpsilonExhausted));
        }
        eps = k.next_epsilon(eps, step);
        step = step + 1;
    }
}

// ── Dispatcher ──────────────────────────────────────────────────────────────

/// The smallest beam that all beams can be convolved to.
pub open spec fn common<K: CommonBeamKernel>(
    k: &K,
    beams: Seq<Beam>,
    tolerance: Double,
    nsamps: usize,
    epsilon: Double,
) -> Result<Beam, CommonBeamError> {
    if beams.len() == 0 {
        Err(CommonBeamError::NoBeans)
    } else if beams.len() == 1 {
        Ok(beams[0])
    } else if all_reach(k, beams, largest(k, beams)) {
        Ok(largest(k, beams))
    } else if beams.len() == 2 && between(k, beams[0], beams[1]) is Ok {
        between(k, beams[0], beams[1])
    } else {
        inflate(k, beams, tolerance, nsamps, epsilon, 0)
    }
}

/// Find the smallest beam that all `beams` can be convolved to.
///
/// Uses the 2-beam analytic algorithm for two beams, otherwise the
/// minimum-volume enclosing ellipse.
pub fn common_beam<K: CommonBeamKernel>(
    k: &K,
    beams: &Vec<Beam>,
    tolerance: Double,
    nsamps: usize,
    epsilon: Double,
) -> (r: Result<Beam, CommonBeamError>)
    requires
        kernel_is_sound(k),
        beams.len() > 1 ==> areas_compare(k, beams@),
    ensures
        r == common(k, beams@, tolerance, nsamps, epsilon),
{
    if beams.len() == 0 {
        return Err(CommonBeamError::NoBeans);
    }
    if beams.len() == 1 {
        return Ok(beams[0]);
    }
    // The largest beam may already contain all others.
    let large = largest_beam(k, beams);
    if fits_in_beam(k, beams, &large) {
        return Ok(large);
    }
    if beams.len() == 2 {
        let pair = find_commonbeam_between(k, &beams[0], &beams[1]);
        if let Ok(b) = pair {
            return Ok(b);
        }
    }
    common_manybeams_mve(k, beams, tolerance, nsamps, epsilon)
}

/// The common beam of a single beam is that beam; that of several is one that every
/// beam can be convolved to, unless it is the analytic answer for two beams, which
/// is not held against its inputs.
pub proof fn law_common_beam_is_reached<K: CommonBeamKernel>(
    k: &K,
    beams: Seq<Beam>,
    tolerance: Double,
    nsamps: usize,
    epsilon: Double,
)
    ensures
        common(k, beams, tolerance, nsamps, epsilon) matches Ok(b) ==> {
            ||| beams.len() == 1 && b == beams[0]
            ||| beams.len() == 2 && between(k, beams[0], beams[1]) == Ok::<Beam, CommonBeamError>(b)
            ||| beams.len() > 1 && all_reach(k, beams, b)
        },
{
    lemma_inflate_is_reached(k, beams, tolerance, nsamps, epsilon, 0);
}

/// There is no common beam of no beams, and only then is that the error.
pub proof fn law_no_beams_no_common_beam<K: CommonBeamKernel>(
    k: &K,
    beams: Seq<Beam>,
    tolerance: Double,
    nsamps: usize,
    epsilon: Double,
)
    ensures
        beams.len() == 0 <==> common(k, beams, tolerance, nsamps, epsilon) == Err::<
            Beam,
            CommonBeamError,
        >(CommonBeamError::NoBeans),
{
    lemma_inflate_has_beams(k, beams, tolerance, nsamps, epsilon, 0);
}

proof fn lemma_inflate_has_beams<K: CommonBeamKernel>(
    k: &K,
    beams: Seq<Beam>,
    tolerance: Double,
    nsamps: usize,
    epsilon: Double,
    step: nat,
)
    ensures
        inflate(k, beams, tolerance, nsamps, epsilon, step) != Err::<Beam, CommonBeamError>(
            CommonBeamError::NoBeans,
        ),
    decreases MAX_INFLATIONS - step,
{
    if step < MAX_INFLATIONS {
        lemma_inflate_has_beams(
            k,
            beams,
            tolerance,
            nsamps,
            next_epsilon_of(k, epsilon, step as usize),
            step + 1,
        );
    }
}

proof fn lemma_inflate_is_reached<K: CommonBeamKernel>(
    k: &K,
    beams: Seq<Beam>,
    tolerance: Double,
    nsamps: usize,
    epsilon: Double,
    step: nat,
)
    ensures
        inflate(k, beams, tolerance, nsamps, epsilon, step) matches Ok(b) ==> all_reach(k, beams, b),
    decreases MAX_INFLATIONS - step,
{
    if step < MAX_INFLATIONS {
        lemma_inflate_is_reached(
            k,
            beams,
            tolerance,
            nsamps,
            next_epsilon_of(k, epsilon, step as usize),
            step + 1,
        );
    }
}

/// Where the largest beam holds all others it is the common beam, whatever the
/// number of beams and the settings of the fit.
pub proof fn law_containing_beam_is_common<K: CommonBeamKernel>(
    k: &K,
    beams: Seq<Beam>,
    tolerance: Double,
    nsamps: usize,
    epsilon: Double,
)
    requires
        beams.len() > 0,
        all_reach(k, beams, largest(k, beams)),
    ensures
        common(k, beams, tolerance, nsamps, epsilon) == Ok::<Beam, CommonBeamError>(
            largest(k, beams),
        ),
{
}

/// Every beam the enclosing-ellipse search returns is a valid one.
pub proof fn law_fitted_beam_is_valid(e: Ellipse)
    ensures
        beam_of_ellipse(e) matches Ok(b) ==> b.valid(),
{
}

} // verus!
