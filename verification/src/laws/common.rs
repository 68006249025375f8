//! Laws of the common beam.
use vstd::prelude::*;

use crate::beam::{area_of, Beam, BeamError, BeamKernel};
use crate::common_beam::{
    all_reach, common_beam, common_manybeams_mve, ellipse_beam, find_commonbeam_between,
    fits_in_beam, inflate, kernel_is_sound, largest_beam, next_epsilon_of, pair_of, reaches,
    solve_pair, CommonBeamError, CommonBeamKernel, PairGeometry,
};
use crate::ellipse::{
    advance_is, advance_of, angle_of, boundary_point_of, boundary_points, collect_ellipse_points,
    convex_hull_2d, cross_of, ellipse_is, ellipse_kernel_is_function, ellipse_of, equal_weight_of,
    min_vol_ellipse, score_view, scores_are, scores_of, settle, Advance, Ellipse, EllipseKernel,
    FitFailure, Point,
};
use crate::ieee::{Double, FftFloat};
use crate::order::{last_max, law_last_max};
use crate::plane::lemma_cell;

verus! {

// ── Names ───────────────────────────────────────────────────────────────────

/// The names of the search formulas stand for what the kernel returns for the same
/// arguments.
pub proof fn law_search_names<K: CommonBeamKernel>(
    k: &K,
    large: Beam,
    small: Beam,
    g: PairGeometry,
    epsilon: Double,
    step: usize,
    x: Double,
)
    requires
        kernel_is_sound(k),
    ensures
        call_ensures(K::pair, (k, &large, &small), g) ==> pair_of(k, large, small) == g,
        call_ensures(K::next_epsilon, (k, epsilon, step), x) ==> next_epsilon_of(k, epsilon, step)
            == x,
{
}

/// The names of the fit formulas stand for what the kernel returns for the same
/// arguments.
pub proof fn law_fit_names<K: EllipseKernel>(
    k: &K,
    b: Beam,
    i: usize,
    n: usize,
    epsilon: Double,
    o: Point,
    p: Point,
    q: Point,
    x: Double,
    points: Vec<Point>,
    weights: Vec<Double>,
    scores: Result<Vec<Double>, FitFailure>,
    advance: Advance,
    ellipse: Result<Ellipse, FitFailure>,
)
    requires
        ellipse_kernel_is_function(k),
    ensures
        call_ensures(K::boundary_point, (k, &b, i, n, epsilon), p) ==> boundary_point_of(
            k,
            b,
            i,
            n,
            epsilon,
        ) == p,
        call_ensures(K::angle, (k, &o, &p), x) ==> angle_of(k, o, p) == x,
        call_ensures(K::cross, (k, &o, &p, &q), x) ==> cross_of(k, o, p, q) == x,
        call_ensures(K::equal_weight, (k, n), x) ==> equal_weight_of(k, n) == x,
        call_ensures(K::scores, (k, &points, &weights), scores) ==> match scores {
            Ok(m) => scores_of(k, points@, weights@) == Ok::<Seq<Double>, FitFailure>(m@),
            Err(e) => scores_of(k, points@, weights@) == Err::<Seq<Double>, FitFailure>(e),
        },
        call_ensures(K::advance, (k, &weights, i, x), advance) ==> advance_of(k, weights@, i, x)
            == (advance.weights@, advance.err),
        call_ensures(K::ellipse, (k, &points, &weights, x), ellipse) ==> ellipse_of(
            k,
            points@,
            weights@,
            x,
        ) == ellipse,
{
    if call_ensures(K::scores, (k, &points, &weights), scores) {
        assert(scores_are(k, points@, weights@, score_view(scores)));
    }
    if call_ensures(K::advance, (k, &weights, i, x), advance) {
        assert(advance_is(k, weights@, i, x, (advance.weights@, advance.err)));
    }
    if call_ensures(K::ellipse, (k, &points, &weights, x), ellipse) {
        assert(ellipse_is(k, points@, weights@, x, ellipse));
    }
}

// ── Containment and size ────────────────────────────────────────────────────

/// Beams fit in a large one where each of them agrees with it, or leaves an ellipse of
/// positive axes when it is deconvolved from it.
pub proof fn law_fitting<K: BeamKernel>(k: &K, beams: Vec<Beam>, large: Beam, r: bool)
    requires
        call_ensures(fits_in_beam::<K>, (k, &beams, &large), r),
    ensures
        r <==> forall|i: int|
            0 <= i < beams@.len() ==> {
                ||| (#[trigger] beams@[i]).close_to(k, large)
                ||| large.deconvolve_spec(k, beams@[i]) matches Ok(left) && !left.major_deg.nan()
                    && left.major_deg.units() > 0 && !left.minor_deg.nan()
                    && left.minor_deg.units() > 0
            },
        r <==> all_reach(k, beams@, large),
{
    assert forall|i: int| 0 <= i < beams@.len() implies (reaches(k, #[trigger] beams@[i], large)
        <==> {
        ||| beams@[i].close_to(k, large)
        ||| large.deconvolve_spec(k, beams@[i]) matches Ok(left) && !left.major_deg.nan()
            && left.major_deg.units() > 0 && !left.minor_deg.nan() && left.minor_deg.units() > 0
    }) by {}
    if r {
        assert forall|i: int| 0 <= i < beams@.len() implies {
            ||| (#[trigger] beams@[i]).close_to(k, large)
            ||| large.deconvolve_spec(k, beams@[i]) matches Ok(left) && !left.major_deg.nan()
                && left.major_deg.units() > 0 && !left.minor_deg.nan()
                && left.minor_deg.units() > 0
        } by {
            assert(reaches(k, beams@[i], large));
        }
    }
}

/// The largest beam is one of the beams; none has a larger solid angle, and none behind
/// it one as large.
pub proof fn law_largest<K: BeamKernel>(k: &K, beams: Vec<Beam>, r: Beam) -> (at: int)
    requires
        call_ensures(largest_beam::<K>, (k, &beams), r),
        beams@.len() > 0,
    ensures
        0 <= at < beams@.len(),
        r == beams@[at],
        forall|i: int|
            0 <= i < beams@.len() ==> area_of(k, #[trigger] beams@[i]).units() <= area_of(
                k,
                r,
            ).units(),
        forall|i: int|
            at < i < beams@.len() ==> area_of(k, #[trigger] beams@[i]).units() < area_of(
                k,
                r,
            ).units(),
{
    let areas = crate::common_beam::areas_of(k, beams@);
    law_last_max(areas);
    let at = last_max(areas);
    assert forall|i: int| 0 <= i < beams@.len() implies area_of(k, #[trigger] beams@[i]).units()
        <= area_of(k, r).units() by {
        assert(areas[i].units() <= areas[at].units());
    }
    assert forall|i: int| at < i < beams@.len() implies area_of(k, #[trigger] beams@[i]).units()
        < area_of(k, r).units() by {
        assert(areas[i].units() < areas[at].units());
    }
    at
}

// ── Two beams ───────────────────────────────────────────────────────────────

/// What a search makes of the beam that it found, or of what is wrong with it.
pub open spec fn finds(made: Result<Beam, BeamError>, r: Result<Beam, CommonBeamError>) -> bool {
    match made {
        Ok(b) => r == Ok::<Beam, CommonBeamError>(b),
        Err(e) => r == Err::<Beam, CommonBeamError>(CommonBeamError::Beam(e)),
    }
}

/// The common beam of a pair of which neither holds the other.  A round small beam
/// widens the minor axis of the large one.  Perpendicular beams make a beam of their
/// two major axes, at the angle of the longer one.  Any other pair has the ellipse that
/// was found for it.
pub proof fn law_pair(
    large: Beam,
    small: Beam,
    round: bool,
    g: PairGeometry,
    r: Result<Beam, CommonBeamError>,
    along_large: Result<Beam, BeamError>,
    along_small: Result<Beam, BeamError>,
    enclosing: Result<Beam, BeamError>,
)
    requires
        call_ensures(solve_pair, (&large, &small, round, &g), r),
        call_ensures(Beam::new, (g.large_major_deg, g.small_major_deg, large.pa_deg), along_large),
        call_ensures(Beam::new, (g.small_major_deg, g.large_major_deg, small.pa_deg), along_small),
        call_ensures(
            Beam::new,
            (g.enclosing_major_deg, g.enclosing_minor_deg, g.enclosing_pa_deg),
            enclosing,
        ),
    ensures
        ({
            // 1e-9
            let perpendicular = g.from_perpendicular.below(Double { bits: 0x3e11_2e0b_e826_d695 });
            &&& round ==> finds(along_large, r)
            &&& !round && perpendicular && g.small_major.at_most(g.large_major) ==> finds(
                along_large,
                r,
            )
            &&& !round && perpendicular && !g.small_major.at_most(g.large_major) ==> finds(
                along_small,
                r,
            )
            &&& !round && !perpendicular ==> finds(enclosing, r)
        }),
{
}

/// The common beam of two beams: the first where they agree; the one with the larger
/// solid angle, the first where they tie, where the other leaves a usable beam when it
/// is deconvolved from it; and else that of the pair.
pub proof fn law_two_beams<K: CommonBeamKernel>(
    k: &K,
    b1: Beam,
    b2: Beam,
    r: Result<Beam, CommonBeamError>,
    large: Beam,
    small: Beam,
    left: Beam,
    holds: bool,
    agree: bool,
    round: bool,
    g: PairGeometry,
    pair: Result<Beam, CommonBeamError>,
)
    requires
        call_ensures(find_commonbeam_between::<K>, (k, &b1, &b2), r),
        call_ensures(Beam::approx_eq::<K>, (&b1, k, &b2), agree),
        (large == b1 && small == b2 && area_of(k, b2).at_most(area_of(k, b1))) || (large == b2
            && small == b1 && !area_of(k, b2).at_most(area_of(k, b1))),
        call_ensures(Beam::deconvolve_or_zero::<K>, (&large, k, &small), left),
        call_ensures(Beam::is_finite, (&left,), holds),
        call_ensures(
            Beam::is_circular::<K>,
            (&small, k, Double { bits: 0x3eb0_c6f7_a0b5_ed8d }),
            round,
        ),
        g == pair_of(k, large, small),
        call_ensures(solve_pair, (&large, &small, round, &g), pair),
    ensures
        agree ==> r == Ok::<Beam, CommonBeamError>(b1),
        !agree && holds ==> r == Ok::<Beam, CommonBeamError>(large),
        !agree && !holds ==> r == pair,
{
    Double::constants_are_distinct();
}

// ── Enclosing ellipse ───────────────────────────────────────────────────────

/// The beam of an ellipse has both of its semi-axes, the larger one as the major axis,
/// and its angle, or none where that is half a turn.  So it is circular only where the
/// ellipse is, and two ellipses of one angle that differ in an axis have different
/// beams.
pub proof fn law_ellipse_beam_has_both_axes(e: Ellipse, r: Result<Beam, CommonBeamError>)
    requires
        call_ensures(ellipse_beam, (&e,), r),
    ensures
        r matches Ok(b) ==> {
            &&& (b.major_deg == e.r0 && b.minor_deg == e.r1) || (b.major_deg == e.r1 && b.minor_deg
                == e.r0)
            &&& b.major_deg.units() >= b.minor_deg.units()
            &&& b.major_deg == b.minor_deg <==> e.r0 == e.r1
            &&& b.major_deg.units() == b.minor_deg.units() <==> e.r0.units() == e.r1.units()
            &&& b.major_deg.units() * b.minor_deg.units() == e.r0.units() * e.r1.units()
            &&& e.pa_rad == (Double { bits: 0x4009_21fb_5444_2d18 }) || e.pa_rad == (Double {
                bits: 0xc009_21fb_5444_2d18,
            }) ==> b.pa_deg == Double::zero_spec()
            &&& b.pa_deg == e.pa_deg || b.pa_deg == Double::zero_spec()
            &&& !e.pa_rad.same_number(Double { bits: 0x4009_21fb_5444_2d18 })
                && !e.pa_rad.same_number(Double { bits: 0xc009_21fb_5444_2d18 }) ==> b.pa_deg
                == e.pa_deg
        },
        e.r0.finite() && e.r1.finite() && e.pa_deg.finite() ==> r is Ok,
        r matches Err(x) ==> x == CommonBeamError::Beam(BeamError::NotFinite),
{
    Double::constants_are_distinct();
    if let Ok(b) = r {
        vstd::arithmetic::mul::lemma_mul_is_commutative(e.r0.units(), e.r1.units());
    }
}

/// The boundary points of beams: for each beam in turn, its points in turn.
pub proof fn law_boundary_points<K: EllipseKernel>(
    k: &K,
    beams: Vec<Beam>,
    nsamps: usize,
    epsilon: Double,
    r: Vec<Point>,
    n: int,
    i: int,
)
    requires
        call_ensures(collect_ellipse_points::<K>, (k, &beams, nsamps, epsilon), r),
        0 <= n < beams@.len(),
        0 <= i < nsamps,
    ensures
        r@.len() == beams@.len() * nsamps,
        r@[n * nsamps + i] == boundary_point_of(k, beams@[n], i as usize, nsamps, epsilon),
{
    lemma_boundary_points(k, beams@, nsamps, epsilon, n, i);
}

proof fn lemma_boundary_points<K: EllipseKernel>(
    k: &K,
    beams: Seq<Beam>,
    nsamps: usize,
    epsilon: Double,
    n: int,
    i: int,
)
    requires
        0 <= n < beams.len(),
        0 <= i < nsamps,
    ensures
        boundary_points(k, beams, nsamps, epsilon).len() == beams.len() * nsamps,
        boundary_points(k, beams, nsamps, epsilon)[n * nsamps + i] == boundary_point_of(
            k,
            beams[n],
            i as usize,
            nsamps,
            epsilon,
        ),
    decreases beams.len(),
{
    let front = beams.drop_last();
    let m = beams.len() as int;
    lemma_boundary_len(k, front, nsamps, epsilon);
    lemma_cell(n, i, m, nsamps as int);
    assert((m - 1) * nsamps + nsamps == m * nsamps) by (nonlinear_arith);
    if n < m - 1 {
        lemma_boundary_points(k, front, nsamps, epsilon, n, i);
        lemma_cell(n, i, m - 1, nsamps as int);
    }
}

proof fn lemma_boundary_len<K: EllipseKernel>(
    k: &K,
    beams: Seq<Beam>,
    nsamps: usize,
    epsilon: Double,
)
    ensures
        boundary_points(k, beams, nsamps, epsilon).len() == beams.len() * nsamps,
    decreases beams.len(),
{
    if beams.len() > 0 {
        lemma_boundary_len(k, beams.drop_last(), nsamps, epsilon);
        assert((beams.len() - 1) * nsamps + nsamps == beams.len() * nsamps) by (nonlinear_arith);
    } else {
        assert(0 * nsamps == 0);
    }
}

/// Up to three points are their own hull; a hull of more holds given points only, and
/// starts at one that none lies below, or as low and further left.
pub proof fn law_hull_of_few_points<K: EllipseKernel>(k: &K, pts: Vec<Point>, r: Vec<Point>)
    requires
        call_ensures(convex_hull_2d::<K>, (k, &pts), r),
    ensures
        pts@.len() <= 3 ==> r@ == pts@,
        forall|i: int| 0 <= i < r@.len() ==> pts@.contains(#[trigger] r@[i]),
        pts@.len() > 3 ==> forall|i: int|
            0 <= i < pts@.len() ==> {
                ||| r@[0].y.units() < (#[trigger] pts@[i]).y.units()
                ||| r@[0].y.units() == pts@[i].y.units() && r@[0].x.units() <= pts@[i].x.units()
            },
        pts@.len() > 3 ==> forall|i: int|
            2 <= i < r@.len() ==> !cross_of(k, r@[i - 2], r@[i - 1], #[trigger] r@[i]).at_most(
                Double::zero_spec(),
            ),
        r@ == crate::ellipse::hull_of(k, pts@),
{
    if pts@.len() > 3 {
        crate::ellipse::law_pivot_is_lowest(pts@);
        assert forall|i: int| 0 <= i < pts@.len() implies {
            ||| r@[0].y.units() < (#[trigger] pts@[i]).y.units()
            ||| r@[0].y.units() == pts@[i].y.units() && r@[0].x.units() <= pts@[i].x.units()
        } by {
            assert(!crate::ellipse::lower_left(pts@[i], r@[0]));
        }
    }
}

/// A run of the ellipse fit: the weights and how far they moved, step by step, from
/// equal weights and a move of one on.  Each step moves weight to the point with the
/// highest score, the last of them where several have it.
pub open spec fn is_fit_run<K: EllipseKernel>(
    k: &K,
    points: Seq<Point>,
    tolerance: Double,
    weights: Seq<Seq<Double>>,
    moved: Seq<Double>,
) -> bool {
    &&& weights.len() == moved.len()
    &&& weights.len() > 0
    &&& weights[0].len() == points.len()
    &&& forall|i: int|
        0 <= i < points.len() ==> (#[trigger] weights[0][i]) == equal_weight_of(
            k,
            points.len() as usize,
        )
    &&& moved[0] == Double::one_spec()
    &&& forall|s: int|
        0 <= s < weights.len() - 1 ==> #[trigger] steps_on(
            k,
            points,
            tolerance,
            weights[s],
            moved[s],
            weights[s + 1],
            moved[s + 1],
        )
}

pub open spec fn steps_on<K: EllipseKernel>(
    k: &K,
    points: Seq<Point>,
    tolerance: Double,
    weights: Seq<Double>,
    moved: Double,
    next: Seq<Double>,
    next_moved: Double,
) -> bool {
    &&& tolerance.below(moved)
    &&& scores_of(k, points, weights) matches Ok(m) && exists|j: int|
        0 <= j < m.len() && (forall|i: int|
            0 <= i < m.len() ==> (#[trigger] m[i]).units() <= m[j].units()) && (forall|i: int|
            j < i < m.len() ==> (#[trigger] m[i]).units() < m[j].units()) && (next, next_moved)
            == #[trigger] advance_of(k, weights, j as usize, m[j])
}

proof fn lemma_settle_steps<K: EllipseKernel>(
    k: &K,
    points: Seq<Point>,
    tolerance: Double,
    weights: Seq<Seq<Double>>,
    moved: Seq<Double>,
    s: int,
)
    requires
        is_fit_run(k, points, tolerance, weights, moved),
        weights.len() <= 100_000,
        0 <= s < weights.len(),
    ensures
        settle(k, points, weights[0], moved[0], tolerance, 0) == settle(
            k,
            points,
            weights[s],
            moved[s],
            tolerance,
            s as nat,
        ),
    decreases s,
{
    if s > 0 {
        lemma_settle_steps(k, points, tolerance, weights, moved, s - 1);
        assert(steps_on(
            k,
            points,
            tolerance,
            weights[s - 1],
            moved[s - 1],
            weights[s - 1 + 1],
            moved[s - 1 + 1],
        ));
        lemma_one_step(
            k,
            points,
            tolerance,
            weights[s - 1],
            moved[s - 1],
            weights[s],
            moved[s],
            (s - 1) as nat,
        );
    }
}

proof fn lemma_one_step<K: EllipseKernel>(
    k: &K,
    points: Seq<Point>,
    tolerance: Double,
    weights: Seq<Double>,
    moved: Double,
    next: Seq<Double>,
    next_moved: Double,
    s: nat,
)
    requires
        steps_on(k, points, tolerance, weights, moved, next, next_moved),
        s < 100_000,
    ensures
        s + 1 < 100_000 ==> settle(k, points, weights, moved, tolerance, s) == settle(
            k,
            points,
            next,
            next_moved,
            tolerance,
            s + 1,
        ),
        s + 1 >= 100_000 ==> settle(k, points, weights, moved, tolerance, s) == Err::<
            Seq<Double>,
            FitFailure,
        >(FitFailure::NoConvergence(100_000)),
{
    let m = scores_of(k, points, weights)->Ok_0;
    let j = choose|j: int|
        0 <= j < m.len() && (forall|i: int|
            0 <= i < m.len() ==> (#[trigger] m[i]).units() <= m[j].units()) && (forall|i: int|
            j < i < m.len() ==> (#[trigger] m[i]).units() < m[j].units()) && (next, next_moved)
            == #[trigger] advance_of(k, weights, j as usize, m[j]);
    law_last_max(m);
    assert(last_max(m) == j) by {
        if last_max(m) < j {
            assert(m[j].units() < m[last_max(m)].units());
        } else if last_max(m) > j {
            assert(m[last_max(m)].units() < m[j].units());
        }
    }
}

/// The ellipse of points is that of the weights at which the fit settles: those of the
/// first step that moved them no further than the tolerance.  A fit whose scores cannot
/// be had fails as they do, and one that takes 100000 steps has not converged.
pub proof fn law_ellipse_of_settled_weights<K: EllipseKernel>(
    k: &K,
    points: Vec<Point>,
    tolerance: Double,
    r: Result<Ellipse, FitFailure>,
    weights: Seq<Seq<Double>>,
    moved: Seq<Double>,
)
    requires
        call_ensures(min_vol_ellipse::<K>, (k, &points, tolerance), r),
        is_fit_run(k, points@, tolerance, weights, moved),
        weights.len() <= 100_001,
    ensures
        weights.len() == 100_001 ==> r == Err::<Ellipse, FitFailure>(
            FitFailure::NoConvergence(100_000),
        ),
        weights.len() <= 100_000 && !tolerance.below(moved.last()) ==> r == ellipse_of(
            k,
            points@,
            weights.last(),
            tolerance,
        ),
        weights.len() <= 100_000 && tolerance.below(moved.last()) ==> (scores_of(
            k,
            points@,
            weights.last(),
        ) matches Err(e) ==> r == Err::<Ellipse, FitFailure>(e)),
{
    let start = Seq::new(points@.len(), |i: int| equal_weight_of(k, points@.len() as usize));
    assert(weights[0] =~= start);
    let n = weights.len() as int;
    if n <= 100_000 {
        lemma_settle_steps(k, points@, tolerance, weights, moved, n - 1);
    } else {
        let front = weights.drop_last();
        let before = moved.drop_last();
        assert forall|s: int| 0 <= s < front.len() - 1 implies #[trigger] steps_on(
            k,
            points@,
            tolerance,
            front[s],
            before[s],
            front[s + 1],
            before[s + 1],
        ) by {
            assert(steps_on(
                k,
                points@,
                tolerance,
                weights[s],
                moved[s],
                weights[s + 1],
                moved[s + 1],
            ));
        }
        assert(front[0] == weights[0]);
        lemma_settle_steps(k, points@, tolerance, front, before, n - 2);
        assert(steps_on(
            k,
            points@,
            tolerance,
            weights[n - 2],
            moved[n - 2],
            weights[n - 2 + 1],
            moved[n - 2 + 1],
        ));
        lemma_one_step(
            k,
            points@,
            tolerance,
            weights[n - 2],
            moved[n - 2],
            weights[n - 1],
            moved[n - 1],
            (n - 2) as nat,
        );
    }
}

/// One attempt at the common beam of many, each step of it one call: boundary points,
/// their hull, its ellipse, and the beam of that.
pub open spec fn attempts<K: CommonBeamKernel>(
    k: &K,
    beams: Seq<Beam>,
    tolerance: Double,
    nsamps: usize,
    epsilon: Double,
    r: Result<Beam, CommonBeamError>,
) -> bool {
    exists|v: Vec<Beam>, points: Vec<Point>, hull: Vec<Point>, fit: Result<Ellipse, FitFailure>|
        {
            &&& v@ == beams
            &&& #[trigger] call_ensures(
                collect_ellipse_points::<K>,
                (k, &v, nsamps, epsilon),
                points,
            )
            &&& #[trigger] call_ensures(convex_hull_2d::<K>, (k, &points), hull)
            &&& #[trigger] call_ensures(min_vol_ellipse::<K>, (k, &hull, tolerance), fit)
            &&& match fit {
                Ok(e) => call_ensures(ellipse_beam, (&e,), r),
                Err(FitFailure::NoConvergence(n)) => r == Err::<Beam, CommonBeamError>(
                    CommonBeamError::NoConvergence(n),
                ),
                Err(f) => r == Err::<Beam, CommonBeamError>(CommonBeamError::DeconvFailed(f)),
            }
        }
}

/// The beams of the attempts at ever larger inflations, from `epsilon` on.
pub open spec fn is_search_run<K: CommonBeamKernel>(
    k: &K,
    beams: Seq<Beam>,
    tolerance: Double,
    nsamps: usize,
    epsilon: Double,
    inflations: Seq<Double>,
    found: Seq<Result<Beam, CommonBeamError>>,
) -> bool {
    &&& 0 < inflations.len() == found.len() <= 11
    &&& inflations[0] == epsilon
    &&& forall|s: int|
        1 <= s < inflations.len() ==> (#[trigger] inflations[s]) == next_epsilon_of(
            k,
            inflations[s - 1],
            (s - 1) as usize,
        )
    &&& forall|s: int|
        0 <= s < found.len() ==> attempts(
            k,
            beams,
            tolerance,
            nsamps,
            inflations[s],
            #[trigger] found[s],
        )
    &&& forall|s: int|
        0 <= s < found.len() - 1 ==> (#[trigger] found[s]) is Ok && !all_reach(
            k,
            beams,
            found[s]->Ok_0,
        )
}

proof fn lemma_search<K: CommonBeamKernel>(
    k: &K,
    beams: Seq<Beam>,
    tolerance: Double,
    nsamps: usize,
    epsilon: Double,
    inflations: Seq<Double>,
    found: Seq<Result<Beam, CommonBeamError>>,
    s: int,
)
    requires
        is_search_run(k, beams, tolerance, nsamps, epsilon, inflations, found),
        0 <= s < found.len(),
    ensures
        inflate(k, beams, tolerance, nsamps, epsilon, 0) == inflate(
            k,
            beams,
            tolerance,
            nsamps,
            inflations[s],
            s as nat,
        ),
    decreases s,
{
    if s > 0 {
        lemma_search(k, beams, tolerance, nsamps, epsilon, inflations, found, s - 1);
        assert(found[s - 1] is Ok);
        assert(inflations[s] == next_epsilon_of(k, inflations[s - 1], (s - 1) as usize));
    }
}

/// The common beam of many is that of the first attempt that failed, as an error, or
/// that holds all beams; after ten inflations that did not help, the search gives up.
pub proof fn law_first_attempt_that_holds<K: CommonBeamKernel>(
    k: &K,
    beams: Vec<Beam>,
    tolerance: Double,
    nsamps: usize,
    epsilon: Double,
    r: Result<Beam, CommonBeamError>,
    inflations: Seq<Double>,
    found: Seq<Result<Beam, CommonBeamError>>,
)
    requires
        call_ensures(common_manybeams_mve::<K>, (k, &beams, tolerance, nsamps, epsilon), r),
        is_search_run(k, beams@, tolerance, nsamps, epsilon, inflations, found),
    ensures
        match found.last() {
            Err(e) => r == Err::<Beam, CommonBeamError>(e),
            Ok(b) => {
                &&& all_reach(k, beams@, b) ==> r == Ok::<Beam, CommonBeamError>(b)
                &&& !all_reach(k, beams@, b) && found.len() == 11 ==> r == Err::<
                    Beam,
                    CommonBeamError,
                >(CommonBeamError::DeconvFailed(FitFailure::EpsilonExhausted))
            },
        },
{
    let n = found.len() as int;
    lemma_search(k, beams@, tolerance, nsamps, epsilon, inflations, found, n - 1);
    assert(attempts(k, beams@, tolerance, nsamps, inflations[n - 1], found[n - 1]));
}

// ── Any number of beams ─────────────────────────────────────────────────────

/// The common beam of beams: none of none, a single one itself; the largest where all
/// fit in it; for two, what the analytic solution gives where it gives a beam; and else
/// that of the fit.
pub proof fn law_common_beam_is_chosen<K: CommonBeamKernel>(
    k: &K,
    beams: Vec<Beam>,
    tolerance: Double,
    nsamps: usize,
    epsilon: Double,
    r: Result<Beam, CommonBeamError>,
    large: Beam,
    fits: bool,
    pair: Result<Beam, CommonBeamError>,
    fitted: Result<Beam, CommonBeamError>,
)
    requires
        call_ensures(common_beam::<K>, (k, &beams, tolerance, nsamps, epsilon), r),
        call_ensures(largest_beam::<K>, (k, &beams), large),
        call_ensures(fits_in_beam::<K>, (k, &beams, &large), fits),
        beams@.len() == 2 ==> call_ensures(
            find_commonbeam_between::<K>,
            (k, &beams@[0], &beams@[1]),
            pair,
        ),
        call_ensures(common_manybeams_mve::<K>, (k, &beams, tolerance, nsamps, epsilon), fitted),
    ensures
        beams@.len() == 0 <==> r == Err::<Beam, CommonBeamError>(CommonBeamError::NoBeans),
        beams@.len() == 1 ==> r == Ok::<Beam, CommonBeamError>(beams@[0]),
        beams@.len() > 1 && fits ==> r == Ok::<Beam, CommonBeamError>(large),
        beams@.len() == 2 && !fits && pair is Ok ==> r == pair,
        beams@.len() == 2 && !fits && pair is Err ==> r == fitted,
        beams@.len() > 2 && !fits ==> r == fitted,
{
    crate::common_beam::law_no_beams_no_common_beam(k, beams@, tolerance, nsamps, epsilon);
}

} // verus!
