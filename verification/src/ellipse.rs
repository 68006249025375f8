//! Minimum-volume enclosing ellipse of a set of beams.
//!
//! Points on the beam boundaries are reduced to their convex hull (Graham scan),
//! whose smallest enclosing ellipse the Khachiyan iteration approaches.  The
//! formulas are an [`EllipseKernel`]'s; the scan, the iteration and their ends
//! are decided here.
use vstd::prelude::*;

use crate::beam::{Beam, BeamKernel};
use crate::geometry::{
    above, below, det, fanned, law_scan_goes_round, law_side_shifts, scanned, side, turned,
};
use crate::ieee::{Double, FftFloat};
use crate::order::{
    comparable, is_stable_order, last_max, last_max_index, law_stable_order_exists, precedes,
    stable_order, stable_order_of,
};

verus! {

/// Khachiyan iterations after which the fit is given up.
pub const MAX_ITERATIONS: usize = 100_000;

/// The bit pattern of pi.
pub const PI: u64 = 0x4009_21fb_5444_2d18;

/// The bit pattern of minus pi.
pub const MINUS_PI: u64 = 0xc009_21fb_5444_2d18;

/// A point of the plane.
#[derive(Clone, Copy, Debug, PartialEq, Eq, Structural)]
pub struct Point {
    pub x: Double,
    pub y: Double,
}

/// Why an enclosing ellipse could not be found.
#[derive(Clone, Copy, Debug, PartialEq, Eq, Structural)]
pub enum FitFailure {
    /// The weighted moment matrix of the iteration has no inverse.
    Singular3x3,
    /// The covariance of the fitted points has no inverse.
    Singular2x2,
    /// The iteration did not settle within this many steps.
    NoConvergence(usize),
    /// No inflation of the beams up to the limit gave a common beam.
    EpsilonExhausted,
}

/// An enclosing ellipse: semi-axes and orientation.
#[derive(Clone, Copy, Debug, PartialEq, Eq, Structural)]
pub struct Ellipse {
    pub r0: Double,
    pub r1: Double,
    /// Position angle in radians.
    pub pa_rad: Double,
    /// The same angle in degrees.
    pub pa_deg: Double,
}

/// New weights of the points, and how far they moved.
pub struct Advance {
    pub weights: Vec<Double>,
    pub err: Double,
}

/// The formulas of the ellipse fit, in floating point.
pub trait EllipseKernel: BeamKernel {
    /// Point `i` of `nsamps` on the boundary of `beam`, inflated by `epsilon`.
    fn boundary_point(&self, beam: &Beam, i: usize, nsamps: usize, epsilon: Double) -> Point;

    /// Direction from `pivot` to `p`.
    fn angle(&self, pivot: &Point, p: &Point) -> Double;

    /// Cross product of `a - o` and `b - o`.
    fn cross(&self, o: &Point, a: &Point, b: &Point) -> Double;

    /// Equal weight of each of `n` points.
    fn equal_weight(&self, n: usize) -> Double;

    /// For each point its quadratic form in the inverse moment matrix.
    fn scores(&self, points: &Vec<Point>, weights: &Vec<Double>) -> Result<Vec<Double>, FitFailure>;

    /// Shift weight towards point `j`, whose score is `maximum`.
    fn advance(&self, weights: &Vec<Double>, j: usize, maximum: Double) -> Advance;

    /// The ellipse of the weighted points.
    fn ellipse(&self, points: &Vec<Point>, weights: &Vec<Double>, tolerance: Double) -> Result<
        Ellipse,
        FitFailure,
    >;
}

/// The scores as a sequence.
pub open spec fn score_view(r: Result<Vec<Double>, FitFailure>) -> Result<Seq<Double>, FitFailure> {
    match r {
        Ok(v) => Ok(v@),
        Err(e) => Err(e),
    }
}

pub open spec fn boundary_point_of<K: EllipseKernel>(
    k: &K,
    b: Beam,
    i: usize,
    nsamps: usize,
    epsilon: Double,
) -> Point {
    choose|x: Point| call_ensures(K::boundary_point, (k, &b, i, nsamps, epsilon), x)
}

pub open spec fn angle_of<K: EllipseKernel>(k: &K, pivot: Point, p: Point) -> Double {
    choose|x: Double| call_ensures(K::angle, (k, &pivot, &p), x)
}

pub open spec fn cross_of<K: EllipseKernel>(k: &K, o: Point, a: Point, b: Point) -> Double {
    choose|x: Double| call_ensures(K::cross, (k, &o, &a, &b), x)
}

pub open spec fn equal_weight_of<K: EllipseKernel>(k: &K, n: usize) -> Double {
    choose|x: Double| call_ensures(K::equal_weight, (k, n), x)
}

pub open spec fn scores_are<K: EllipseKernel>(
    k: &K,
    points: Seq<Point>,
    weights: Seq<Double>,
    r: Result<Seq<Double>, FitFailure>,
) -> bool {
    exists|p: Vec<Point>, w: Vec<Double>, o: Result<Vec<Double>, FitFailure>|
        p@ == points && w@ == weights && score_view(o) == r && #[trigger] call_ensures(
            K::scores,
            (k, &p, &w),
            o,
        )
}

pub open spec fn scores_of<K: EllipseKernel>(
    k: &K,
    points: Seq<Point>,
    weights: Seq<Double>,
) -> Result<Seq<Double>, FitFailure> {
    choose|r: Result<Seq<Double>, FitFailure>| scores_are(k, points, weights, r)
}

pub open spec fn advance_is<K: EllipseKernel>(
    k: &K,
    weights: Seq<Double>,
    j: usize,
    maximum: Double,
    r: (Seq<Double>, Double),
) -> bool {
    exists|w: Vec<Double>, o: Advance|
        w@ == weights && o.weights@ == r.0 && o.err == r.1 && #[trigger] call_ensures(
            K::advance,
            (k, &w, j, maximum),
            o,
        )
}

pub open spec fn advance_of<K: EllipseKernel>(
    k: &K,
    weights: Seq<Double>,
    j: usize,
    maximum: Double,
) -> (Seq<Double>, Double) {
    choose|r: (Seq<Double>, Double)| advance_is(k, weights, j, maximum, r)
}

pub open spec fn ellipse_is<K: EllipseKernel>(
    k: &K,
    points: Seq<Point>,
    weights: Seq<Double>,
    tolerance: Double,
    r: Result<Ellipse, FitFailure>,
) -> bool {
    exists|p: Vec<Point>, w: Vec<Double>|
        p@ == points && w@ == weights && #[trigger] call_ensures(
            K::ellipse,
            (k, &p, &w, tolerance),
            r,
        )
}

pub open spec fn ellipse_of<K: EllipseKernel>(
    k: &K,
    points: Seq<Point>,
    weights: Seq<Double>,
    tolerance: Double,
) -> Result<Ellipse, FitFailure> {
    choose|r: Result<Ellipse, FitFailure>| ellipse_is(k, points, weights, tolerance, r)
}

/// The same arguments give the same results.
pub open spec fn ellipse_kernel_is_function<K: EllipseKernel>(k: &K) -> bool {
    &&& forall|b: Beam, i: usize, n: usize, e: Double, x: Point, y: Point|
        #![trigger call_ensures(K::boundary_point, (k, &b, i, n, e), x), call_ensures(K::boundary_point, (k, &b, i, n, e), y)]
        call_ensures(K::boundary_point, (k, &b, i, n, e), x) && call_ensures(
            K::boundary_point,
            (k, &b, i, n, e),
            y,
        ) ==> x == y
    &&& forall|o: Point, p: Point, x: Double, y: Double|
        #![trigger call_ensures(K::angle, (k, &o, &p), x), call_ensures(K::angle, (k, &o, &p), y)]
        call_ensures(K::angle, (k, &o, &p), x) && call_ensures(K::angle, (k, &o, &p), y) ==> x == y
    &&& forall|o: Point, a: Point, b: Point, x: Double, y: Double|
        #![trigger call_ensures(K::cross, (k, &o, &a, &b), x), call_ensures(K::cross, (k, &o, &a, &b), y)]
        call_ensures(K::cross, (k, &o, &a, &b), x) && call_ensures(K::cross, (k, &o, &a, &b), y)
            ==> x == y
    &&& forall|n: usize, x: Double, y: Double|
        #![trigger call_ensures(K::equal_weight, (k, n), x), call_ensures(K::equal_weight, (k, n), y)]
        call_ensures(K::equal_weight, (k, n), x) && call_ensures(K::equal_weight, (k, n), y) ==> x
            == y
    &&& forall|p: Seq<Point>, w: Seq<Double>, x: Result<Seq<Double>, FitFailure>, y: Result<Seq<Double>, FitFailure>|
        #![trigger scores_are(k, p, w, x), scores_are(k, p, w, y)]
        scores_are(k, p, w, x) && scores_are(k, p, w, y) ==> x == y
    &&& forall|w: Seq<Double>, j: usize, m: Double, x: (Seq<Double>, Double), y: (Seq<Double>, Double)|
        #![trigger advance_is(k, w, j, m, x), advance_is(k, w, j, m, y)]
        advance_is(k, w, j, m, x) && advance_is(k, w, j, m, y) ==> x == y
    &&& forall|p: Seq<Point>, w: Seq<Double>, t: Double, x: Result<Ellipse, FitFailure>, y: Result<Ellipse, FitFailure>|
        #![trigger ellipse_is(k, p, w, t, x), ellipse_is(k, p, w, t, y)]
        ellipse_is(k, p, w, t, x) && ellipse_is(k, p, w, t, y) ==> x == y
}

/// Points, directions and scores compare: none is a NaN, and scores are given
/// one per point and only where there are points.
pub open spec fn ellipse_kernel_is_ordered<K: EllipseKernel>(k: &K) -> bool {
    &&& forall|b: Beam, i: usize, n: usize, e: Double, x: Point| #[trigger]
        call_ensures(K::boundary_point, (k, &b, i, n, e), x) ==> !x.x.nan() && !x.y.nan()
    &&& forall|o: Point, p: Point, x: Double| #[trigger]
        call_ensures(K::angle, (k, &o, &p), x) ==> !x.nan()
    &&& forall|p: Seq<Point>, w: Seq<Double>, m: Seq<Double>| #[trigger]
        scores_are(k, p, w, Ok::<Seq<Double>, FitFailure>(m)) ==> m.len() == p.len() && m.len() > 0
            && comparable(m)
}

// ── Sampling the boundaries ─────────────────────────────────────────────────

/// `nsamps` points on the boundary of each beam, beam by beam.
pub open spec fn boundary_points<K: EllipseKernel>(
    k: &K,
    beams: Seq<Beam>,
    nsamps: usize,
    epsilon: Double,
) -> Seq<Point>
    decreases beams.len(),
{
    if beams.len() == 0 {
        Seq::empty()
    } else {
        boundary_points(k, beams.drop_last(), nsamps, epsilon) + Seq::new(
            nsamps as nat,
            |i: int| boundary_point_of(k, beams.last(), i as usize, nsamps, epsilon),
        )
    }
}

/// Sample `nsamps` points on the edge of each beam's ellipse, inflated by
/// `epsilon`.
pub fn collect_ellipse_points<K: EllipseKernel>(
    k: &K,
    beams: &Vec<Beam>,
    nsamps: usize,
    epsilon: Double,
) -> (r: Vec<Point>)
    requires
        ellipse_kernel_is_function(k),
    ensures
        r@ == boundary_points(k, beams@, nsamps, epsilon),
        ellipse_kernel_is_ordered(k) ==> points_compare(r@),
{
    let mut r: Vec<Point> = Vec::new();
    let mut n: usize = 0;
    assert(beams@.take(0) =~= Seq::<Beam>::empty());
    while n < beams.len()
        invariant
            n <= beams.len(),
            ellipse_kernel_is_function(k),
            r@ == boundary_points(k, beams@.take(n as int), nsamps, epsilon),
            ellipse_kernel_is_ordered(k) ==> points_compare(r@),
        decreases beams.len() - n,
    {
        let ghost before = r@;
        let ghost edge = |i: int| boundary_point_of(k, beams@[n as int], i as usize, nsamps, epsilon);
        let mut i: usize = 0;
        assert(r@ =~= before + Seq::new(0, edge));
        while i < nsamps
            invariant
                n < beams.len(),
                i <= nsamps,
                ellipse_kernel_is_function(k),
                edge == (|i: int|
                    boundary_point_of(k, beams@[n as int], i as usize, nsamps, epsilon)),
                r@ == before + Seq::new(i as nat, edge),
                ellipse_kernel_is_ordered(k) ==> points_compare(r@),
            decreases nsamps - i,
        {
            let p = k.boundary_point(&beams[n], i, nsamps, epsilon);
            r.push(p);
            assert(r@ =~= before + Seq::new((i + 1) as nat, edge));
            i = i + 1;
        }
        proof {
            let t = beams@.take(n + 1);
            assert(t.drop_last() =~= beams@.take(n as int));
            assert(t.last() == beams@[n as int]);
            assert(r@ =~= boundary_points(k, t, nsamps, epsilon));
        }
        n = n + 1;
    }
    assert(beams@.take(beams@.len() as int) =~= beams@);
    r
}

// ── Convex hull ─────────────────────────────────────────────────────────────

pub open spec fn points_compare(pts: Seq<Point>) -> bool {
    forall|i: int| 0 <= i < pts.len() ==> !(#[trigger] pts[i]).x.nan() && !pts[i].y.nan()
}

/// `a` lies lower than `b`, or as low and further left.
pub open spec fn lower_left(a: Point, b: Point) -> bool {
    a.y.units() < b.y.units() || (a.y.units() == b.y.units() && a.x.units() < b.x.units())
}

/// Both have the same coordinates.
pub open spec fn same_place(a: Point, b: Point) -> bool {
    a.x.units() == b.x.units() && a.y.units() == b.y.units()
}

/// Position of the lowest, then leftmost point; the first one where several
/// coincide.
pub open spec fn pivot_index(pts: Seq<Point>) -> int
    decreases pts.len(),
{
    if pts.len() <= 1 {
        0
    } else {
        let r = pivot_index(pts.drop_last());
        if lower_left(pts.last(), pts[r]) {
            pts.len() - 1
        } else {
            r
        }
    }
}

/// No point lies below or left of the pivot.
pub proof fn law_pivot_is_lowest(pts: Seq<Point>)
    requires
        pts.len() > 0,
    ensures
        0 <= pivot_index(pts) < pts.len(),
        forall|j: int| 0 <= j < pts.len() ==> !lower_left(#[trigger] pts[j], pts[pivot_index(pts)]),
    decreases pts.len(),
{
    if pts.len() > 1 {
        let front = pts.drop_last();
        law_pivot_is_lowest(front);
        assert(front[pivot_index(front)] == pts[pivot_index(front)]);
        assert forall|j: int| 0 <= j < pts.len() implies !lower_left(
            #[trigger] pts[j],
            pts[pivot_index(pts)],
        ) by {
            if j < front.len() {
                assert(front[j] == pts[j]);
            }
        }
    }
}

/// The points that do not coincide with the pivot, in their order.
pub open spec fn others(pts: Seq<Point>, pivot: Point) -> Seq<Point>
    decreases pts.len(),
{
    if pts.len() == 0 {
        Seq::empty()
    } else if same_place(pts.last(), pivot) {
        others(pts.drop_last(), pivot)
    } else {
        others(pts.drop_last(), pivot).push(pts.last())
    }
}

/// Directions of the points as seen from the pivot.
pub open spec fn directions<K: EllipseKernel>(k: &K, pivot: Point, pts: Seq<Point>) -> Seq<Double> {
    Seq::new(pts.len(), |i: int| angle_of(k, pivot, pts[i]))
}

/// The points in stable order of their keys.
pub open spec fn arranged(pts: Seq<Point>, keys: Seq<Double>) -> Seq<Point> {
    Seq::new(pts.len(), |i: int| pts[stable_order(keys)[i] as int])
}

pub open spec fn abscissas(pts: Seq<Point>) -> Seq<Double> {
    Seq::new(pts.len(), |i: int| pts[i].x)
}

pub open spec fn ordinates(pts: Seq<Point>) -> Seq<Double> {
    Seq::new(pts.len(), |i: int| pts[i].y)
}

/// The points from the lowest up, and from left to right where they are as high.
/// Of points in one direction from the pivot, which none is below, the farther comes
/// later.
pub open spec fn upwards(pts: Seq<Point>) -> Seq<Point> {
    let rightwards = arranged(pts, abscissas(pts));
    arranged(rightwards, ordinates(rightwards))
}

/// The points in order of their direction, and of their distance in one direction.
pub open spec fn by_direction<K: EllipseKernel>(k: &K, pivot: Point, pts: Seq<Point>) -> Seq<Point> {
    arranged(upwards(pts), directions(k, pivot, upwards(pts)))
}

/// Put `p` on the hull, first dropping the points at which the turn towards `p`
/// is not to the left.
pub open spec fn turn_left<K: EllipseKernel>(k: &K, hull: Seq<Point>, p: Point) -> Seq<Point>
    decreases hull.len(),
{
    if hull.len() > 1 && cross_of(k, hull[hull.len() - 2], hull[hull.len() - 1], p).at_most(
        Double::zero_spec(),
    ) {
        turn_left(k, hull.drop_last(), p)
    } else {
        hull.push(p)
    }
}

/// The Graham scan over ordered points.
pub open spec fn scan<K: EllipseKernel>(k: &K, pivot: Point, pts: Seq<Point>) -> Seq<Point>
    decreases pts.len(),
{
    if pts.len() == 0 {
        seq![pivot]
    } else {
        turn_left(k, scan(k, pivot, pts.drop_last()), pts.last())
    }
}

/// The convex hull: up to three points are their own hull.
pub open spec fn hull_of<K: EllipseKernel>(k: &K, pts: Seq<Point>) -> Seq<Point> {
    if pts.len() <= 3 {
        pts
    } else {
        let pivot = pts[pivot_index(pts)];
        scan(k, pivot, by_direction(k, pivot, others(pts, pivot)))
    }
}

/// At every corner the path turns left.
pub open spec fn turns_left<K: EllipseKernel>(k: &K, path: Seq<Point>) -> bool {
    forall|i: int|
        #![trigger path[i]]
        2 <= i < path.len() ==> !cross_of(k, path[i - 2], path[i - 1], path[i]).at_most(
            Double::zero_spec(),
        )
}

proof fn lemma_turn_left_keeps_turning<K: EllipseKernel>(k: &K, hull: Seq<Point>, p: Point)
    requires
        turns_left(k, hull),
    ensures
        turns_left(k, turn_left(k, hull, p)),
        hull.len() > 0 ==> turn_left(k, hull, p).len() > 1 && turn_left(k, hull, p)[0] == hull[0],
    decreases hull.len(),
{
    let r = turn_left(k, hull, p);
    if hull.len() > 1 && cross_of(k, hull[hull.len() - 2], hull[hull.len() - 1], p).at_most(
        Double::zero_spec(),
    ) {
        let front = hull.drop_last();
        assert forall|i: int|
            #![trigger front[i]]
            2 <= i < front.len() implies !cross_of(k, front[i - 2], front[i - 1], front[i]).at_most(
            Double::zero_spec(),
        ) by {
            assert(front[i] == hull[i]);
        }
        lemma_turn_left_keeps_turning(k, front, p);
    } else {
        assert forall|i: int|
            #![trigger r[i]]
            2 <= i < r.len() implies !cross_of(k, r[i - 2], r[i - 1], r[i]).at_most(
            Double::zero_spec(),
        ) by {
            if i < hull.len() {
                assert(r[i] == hull[i]);
            }
        }
    }
}

/// The scan starts at the pivot and turns left at every corner.
pub proof fn law_scan_turns_left<K: EllipseKernel>(k: &K, pivot: Point, pts: Seq<Point>)
    ensures
        turns_left(k, scan(k, pivot, pts)),
        scan(k, pivot, pts).len() > 0,
        scan(k, pivot, pts)[0] == pivot,
    decreases pts.len(),
{
    if pts.len() > 0 {
        law_scan_turns_left(k, pivot, pts.drop_last());
        lemma_turn_left_keeps_turning(k, scan(k, pivot, pts.drop_last()), pts.last());
    }
}

fn is_lower_left(a: &Point, b: &Point) -> (r: bool)
    requires
        !a.x.nan() && !a.y.nan() && !b.x.nan() && !b.y.nan(),
    ensures
        r == lower_left(*a, *b),
{
    a.y.lt(&b.y) || (!b.y.lt(&a.y) && a.x.lt(&b.x))
}

fn pivot_of(pts: &Vec<Point>) -> (r: usize)
    requires
        pts.len() > 0,
        points_compare(pts@),
    ensures
        r == pivot_index(pts@),
        r < pts.len(),
{
    let mut r: usize = 0;
    let mut i: usize = 1;
    assert(pts@.take(1).len() == 1);
    while i < pts.len()
        invariant
            1 <= i <= pts.len(),
            r < i,
            points_compare(pts@),
            r == pivot_index(pts@.take(i as int)),
        decreases pts.len() - i,
    {
        proof {
            let t = pts@.take(i + 1);
            assert(t.drop_last() =~= pts@.take(i as int));
            assert(t.last() == pts@[i as int]);
            assert(t[r as int] == pts@[r as int]);
            assert(!pts@[r as int].x.nan());
        }
        if is_lower_left(&pts[i], &pts[r]) {
            r = i;
        }
        i = i + 1;
    }
    assert(pts@.take(pts@.len() as int) =~= pts@);
    r
}

/// Arrange points by their keys (see [`arranged`]).
fn arrange(pts: &Vec<Point>, keys: &Vec<Double>) -> (r: Vec<Point>)
    requires
        comparable(keys@),
        keys.len() == pts.len(),
    ensures
        r@ == arranged(pts@, keys@),
        forall|i: int| 0 <= i < r.len() ==> pts@.contains(#[trigger] r@[i]),
{
    let order = stable_order_of(keys);
    let mut r: Vec<Point> = Vec::new();
    let mut i: usize = 0;
    while i < order.len()
        invariant
            i <= order.len(),
            order.len() == pts.len(),
            order@ == stable_order(keys@),
            forall|j: int| 0 <= j < order.len() ==> (#[trigger] order@[j]) < pts.len(),
            r@ == arranged(pts@, keys@).take(i as int),
            forall|j: int| 0 <= j < r.len() ==> pts@.contains(#[trigger] r@[j]),
        decreases order.len() - i,
    {
        let ghost all = arranged(pts@, keys@);
        let p = pts[order[i]];
        assert(pts@.contains(pts@[order@[i as int] as int]));
        r.push(p);
        assert(all.take(i + 1) =~= all.take(i as int).push(all[i as int]));
        i = i + 1;
    }
    assert(arranged(pts@, keys@).take(i as int) =~= arranged(pts@, keys@));
    r
}

/// Arrange points from the lowest up (see [`upwards`]).
fn arrange_upwards(pts: &Vec<Point>) -> (r: Vec<Point>)
    requires
        points_compare(pts@),
    ensures
        r@ == upwards(pts@),
        forall|i: int| 0 <= i < r.len() ==> pts@.contains(#[trigger] r@[i]),
{
    let mut xs: Vec<Double> = Vec::new();
    let mut i: usize = 0;
    while i < pts.len()
        invariant
            i <= pts.len(),
            xs@ == abscissas(pts@).take(i as int),
        decreases pts.len() - i,
    {
        xs.push(pts[i].x);
        assert(abscissas(pts@).take(i + 1) =~= abscissas(pts@).take(i as int).push(
            abscissas(pts@)[i as int],
        ));
        i = i + 1;
    }
    assert(xs@ =~= abscissas(pts@));
    assert forall|j: int| 0 <= j < xs.len() implies !(#[trigger] xs@[j]).nan() by {
        assert(!pts@[j].x.nan());
    }
    let rightwards = arrange(pts, &xs);
    let mut ys: Vec<Double> = Vec::new();
    i = 0;
    while i < rightwards.len()
        invariant
            i <= rightwards.len(),
            ys@ == ordinates(rightwards@).take(i as int),
        decreases rightwards.len() - i,
    {
        ys.push(rightwards[i].y);
        assert(ordinates(rightwards@).take(i + 1) =~= ordinates(rightwards@).take(i as int).push(
            ordinates(rightwards@)[i as int],
        ));
        i = i + 1;
    }
    assert(ys@ =~= ordinates(rightwards@));
    assert forall|j: int| 0 <= j < ys.len() implies !(#[trigger] ys@[j]).nan() by {
        assert(pts@.contains(rightwards@[j]));
    }
    let r = arrange(&rightwards, &ys);
    assert forall|j: int| 0 <= j < r.len() implies pts@.contains(#[trigger] r@[j]) by {
        assert(rightwards@.contains(r@[j]));
    }
    r
}

/// 2D convex hull by Graham scan.  Returns the hull vertices.
pub fn convex_hull_2d<K: EllipseKernel>(k: &K, pts: &Vec<Point>) -> (r: Vec<Point>)
    requires
        ellipse_kernel_is_function(k),
        ellipse_kernel_is_ordered(k),
        pts.len() > 3 ==> points_compare(pts@),
    ensures
        r@ == hull_of(k, pts@),
        forall|i: int| 0 <= i < r.len() ==> pts@.contains(#[trigger] r@[i]),
        pts.len() > 3 ==> turns_left(k, r@) && r@[0] == pts@[pivot_index(pts@)],
{
    if pts.len() <= 3 {
        let mut copy: Vec<Point> = Vec::new();
        let mut i: usize = 0;
        while i < pts.len()
            invariant
                i <= pts.len(),
                copy@ == pts@.take(i as int),
            decreases pts.len() - i,
        {
            copy.push(pts[i]);
            assert(pts@.take(i + 1) =~= pts@.take(i as int).push(pts@[i as int]));
            i = i + 1;
        }
        assert(pts@.take(pts@.len() as int) =~= pts@);
        assert forall|i: int| 0 <= i < copy.len() implies pts@.contains(#[trigger] copy@[i]) by {
            assert(pts@[i] == copy@[i]);
        }
        return copy;
    }
    let at = pivot_of(pts);
    let pivot = pts[at];
    assert(!pts@[at as int].x.nan());
    // The other points, in order of their direction.
    let mut rest: Vec<Point> = Vec::new();
    let mut i: usize = 0;
    assert(pts@.take(0) =~= Seq::<Point>::empty());
    while i < pts.len()
        invariant
            i <= pts.len(),
            points_compare(pts@),
            !pivot.x.nan() && !pivot.y.nan(),
            rest@ == others(pts@.take(i as int), pivot),
            forall|j: int| 0 <= j < rest.len() ==> pts@.contains(#[trigger] rest@[j]),
        decreases pts.len() - i,
    {
        let p = pts[i];
        proof {
            let t = pts@.take(i + 1);
            assert(t.drop_last() =~= pts@.take(i as int));
            assert(t.last() == p);
            assert(!pts@[i as int].x.nan());
            assert(pts@.contains(p));
        }
        let same = p.x.le(&pivot.x) && pivot.x.le(&p.x) && p.y.le(&pivot.y) && pivot.y.le(&p.y);
        if !same {
            rest.push(p);
        }
        i = i + 1;
    }
    assert(pts@.take(pts@.len() as int) =~= pts@);
    assert forall|j: int| 0 <= j < rest.len() implies !(#[trigger] rest@[j]).x.nan()
        && !rest@[j].y.nan() by {
        assert(pts@.contains(rest@[j]));
    }
    let rising = arrange_upwards(&rest);
    let mut keys: Vec<Double> = Vec::new();
    i = 0;
    while i < rising.len()
        invariant
            i <= rising.len(),
            ellipse_kernel_is_function(k),
            ellipse_kernel_is_ordered(k),
            keys@ == directions(k, pivot, rising@).take(i as int),
            comparable(keys@),
        decreases rising.len() - i,
    {
        let a = k.angle(&pivot, &rising[i]);
        keys.push(a);
        assert(directions(k, pivot, rising@).take(i + 1) =~= directions(
            k,
            pivot,
            rising@,
        ).take(i as int).push(directions(k, pivot, rising@)[i as int]));
        i = i + 1;
    }
    assert(keys@ =~= directions(k, pivot, rising@));
    let ordered = arrange(&rising, &keys);
    let ghost sorted = by_direction(k, pivot, rest@);
    assert forall|j: int| 0 <= j < ordered.len() implies pts@.contains(#[trigger] ordered@[j]) by {
        assert(rising@.contains(ordered@[j]));
        let a = choose|a: int| 0 <= a < rising.len() && rising@[a] == ordered@[j];
        assert(rest@.contains(rising@[a]));
    }
    let mut hull: Vec<Point> = Vec::new();
    hull.push(pivot);
    let mut n: usize = 0;
    assert(sorted.take(0) =~= Seq::<Point>::empty());
    assert(hull@ =~= seq![pivot]);
    assert(pts@.contains(pts@[at as int]));
    while n < ordered.len()
        invariant
            n <= ordered.len(),
            sorted == ordered@,
            ellipse_kernel_is_function(k),
            hull@ == scan(k, pivot, sorted.take(n as int)),
            forall|j: int| 0 <= j < ordered.len() ==> pts@.contains(#[trigger] ordered@[j]),
            forall|j: int| 0 <= j < hull.len() ==> pts@.contains(#[trigger] hull@[j]),
        decreases ordered.len() - n,
    {
        let p = ordered[n];
        proof {
            let t = sorted.take(n + 1);
            assert(t.drop_last() =~= sorted.take(n as int));
            assert(t.last() == p);
            assert(pts@.contains(ordered@[n as int]));
        }
        let ghost full = hull@;
        let mut done = hull.len() <= 1;
        while !done
            invariant
                done ==> (hull.len() <= 1 || turn_left(k, hull@, p) == hull@.push(p)),
                !done ==> hull.len() > 1,
                forall|j: int| 0 <= j < hull.len() ==> pts@.contains(#[trigger] hull@[j]),
                ellipse_kernel_is_function(k),
                turn_left(k, full, p) == turn_left(k, hull@, p),
            decreases
                hull.len(),
                (if done {
                    0int
                } else {
                    1int
                }),
        {
            let m = hull.len();
            let c = k.cross(&hull[m - 2], &hull[m - 1], &p);
            if c.le(&Double::zero()) {
                let ghost h = hull@;
                hull.pop();
                assert(hull@ =~= h.drop_last());
                done = hull.len() <= 1;
            } else {
                done = true;
            }
        }
        hull.push(p);
        n = n + 1;
    }
    assert(sorted.take(n as int) =~= sorted);
    proof {
        law_scan_turns_left(k, pivot, sorted);
    }
    hull
}

// ── The hull holds every point ──────────────────────────────────────────────

/// Where a point lies, in exact steps.
pub open spec fn spot(p: Point) -> (int, int) {
    (p.x.units(), p.y.units())
}

/// The cross products of the points have the right sign.
pub open spec fn crosses_are_right<K: EllipseKernel>(k: &K, pts: Seq<Point>) -> bool {
    forall|a: Point, b: Point, c: Point|
        #![trigger cross_of(k, a, b, c)]
        pts.contains(a) && pts.contains(b) && pts.contains(c) ==> (cross_of(k, a, b, c).at_most(
            Double::zero_spec(),
        ) <==> side(spot(a), spot(b), spot(c)) <= 0)
}

/// The directions from the pivot to the points compare as they do in the plane.
pub open spec fn directions_are_right<K: EllipseKernel>(k: &K, pts: Seq<Point>) -> bool {
    let pivot = pts[pivot_index(pts)];
    forall|p: Point, q: Point|
        #![trigger angle_of(k, pivot, p), angle_of(k, pivot, q)]
        pts.contains(p) && pts.contains(q) && !same_place(p, pivot) && !same_place(q, pivot) ==> (
        angle_of(k, pivot, p).units() <= angle_of(k, pivot, q).units() <==> side(
            spot(pivot),
            spot(p),
            spot(q),
        ) >= 0)
}

/// Where a point lies as seen from another.
spec fn seen(o: Point, p: Point) -> (int, int) {
    (spot(p).0 - spot(o).0, spot(p).1 - spot(o).1)
}

spec fn all_seen(o: Point, pts: Seq<Point>) -> Seq<(int, int)> {
    Seq::new(pts.len(), |i: int| seen(o, pts[i]))
}

/// Both hold the same points.
spec fn same_points(a: Seq<Point>, b: Seq<Point>) -> bool {
    forall|p: Point| a.contains(p) <==> b.contains(p)
}

proof fn lemma_arranged(pts: Seq<Point>, keys: Seq<Double>)
    requires
        pts.len() == keys.len(),
        pts.len() <= usize::MAX,
    ensures
        is_stable_order(keys, stable_order(keys)),
        arranged(pts, keys).len() == pts.len(),
        same_points(arranged(pts, keys), pts),
{
    law_stable_order_exists(keys);
    let order = stable_order(keys);
    let out = arranged(pts, keys);
    assert forall|p: Point| out.contains(p) <==> pts.contains(p) by {
        if out.contains(p) {
            let i = choose|i: int| 0 <= i < out.len() && out[i] == p;
            assert(order[i] < keys.len());
            assert(pts[order[i] as int] == p);
        }
        if pts.contains(p) {
            let i = choose|i: int| 0 <= i < pts.len() && pts[i] == p;
            assert(order.contains(i as usize));
            let j = choose|j: int| 0 <= j < order.len() && order[j] == i as usize;
            assert(out[j] == p);
        }
    }
}

proof fn lemma_upwards(pts: Seq<Point>)
    requires
        pts.len() <= usize::MAX,
    ensures
        upwards(pts).len() == pts.len(),
        same_points(upwards(pts), pts),
        forall|i: int, j: int|
            #![trigger upwards(pts)[i], upwards(pts)[j]]
            0 <= i < j < pts.len() ==> !lower_left(upwards(pts)[j], upwards(pts)[i]),
{
    let right = arranged(pts, abscissas(pts));
    lemma_arranged(pts, abscissas(pts));
    lemma_arranged(right, ordinates(right));
    let across = stable_order(abscissas(pts));
    let up = stable_order(ordinates(right));
    let out = upwards(pts);
    assert forall|i: int, j: int|
        #![trigger out[i], out[j]]
        0 <= i < j < pts.len() implies !lower_left(out[j], out[i]) by {
        let a = up[i] as int;
        let b = up[j] as int;
        assert(precedes(ordinates(right), a, b));
        if a < b {
            assert(precedes(abscissas(pts), across[a] as int, across[b] as int));
        }
    }
}

proof fn lemma_others(pts: Seq<Point>, pivot: Point, p: Point)
    ensures
        others(pts, pivot).len() <= pts.len(),
        others(pts, pivot).contains(p) <==> pts.contains(p) && !same_place(p, pivot),
    decreases pts.len(),
{
    if pts.len() > 0 {
        let front = pts.drop_last();
        lemma_others(front, pivot, p);
        let before = others(front, pivot);
        let after = others(pts, pivot);
        if front.contains(p) {
            let i = choose|i: int| 0 <= i < front.len() && front[i] == p;
            assert(pts[i] == p);
        }
        if pts.contains(p) {
            let i = choose|i: int| 0 <= i < pts.len() && pts[i] == p;
            if i < front.len() {
                assert(front[i] == p);
            }
        }
        if before.contains(p) {
            let i = choose|i: int| 0 <= i < before.len() && before[i] == p;
            assert(after[i] == p);
        }
        if p == pts.last() {
            assert(pts[pts.len() - 1] == p);
            if !same_place(p, pivot) {
                assert(after[before.len() as int] == p);
            }
        }
        if after.contains(p) {
            let i = choose|i: int| 0 <= i < after.len() && after[i] == p;
            if i < before.len() {
                assert(before[i] == p);
            } else {
                assert(p == pts.last());
            }
        }
    }
}

/// Seen from the pivot, the points stand in order of their direction.
proof fn lemma_fanned<K: EllipseKernel>(k: &K, pts: Seq<Point>)
    requires
        0 < pts.len() <= usize::MAX,
        directions_are_right(k, pts),
    ensures
        ({
            let pivot = pts[pivot_index(pts)];
            let sorted = by_direction(k, pivot, others(pts, pivot));
            &&& fanned(all_seen(pivot, sorted))
            &&& forall|p: Point|
                #![trigger sorted.contains(p)]
                sorted.contains(p) <==> pts.contains(p) && !same_place(p, pivot)
        }),
{
    let pivot = pts[pivot_index(pts)];
    let rest = others(pts, pivot);
    let rising = upwards(rest);
    let keys = directions(k, pivot, rising);
    let sorted = by_direction(k, pivot, rest);
    let order = stable_order(keys);
    law_pivot_is_lowest(pts);
    lemma_others(pts, pivot, pivot);
    lemma_upwards(rest);
    lemma_arranged(rising, keys);
    assert forall|p: Point| #![trigger sorted.contains(p)] sorted.contains(p) <==> pts.contains(p)
        && !same_place(p, pivot) by {
        lemma_others(pts, pivot, p);
        assert(sorted.contains(p) <==> rising.contains(p));
        assert(rising.contains(p) <==> rest.contains(p));
    }
    let s = all_seen(pivot, sorted);
    assert forall|i: int| 0 <= i < s.len() implies above(#[trigger] s[i]) by {
        let p = sorted[i];
        assert(sorted.contains(p));
        let j = choose|j: int| 0 <= j < pts.len() && pts[j] == p;
        assert(!lower_left(pts[j], pivot));
    }
    assert forall|i: int, j: int|
        #![trigger s[i], s[j]]
        0 <= i < j < s.len() implies det(s[i], s[j]) >= 0 && (det(s[i], s[j]) == 0 ==> !below(
        s[j],
        s[i],
    )) by {
        let p = sorted[i];
        let q = sorted[j];
        assert(sorted.contains(p) && sorted.contains(q));
        let a = order[i] as int;
        let b = order[j] as int;
        assert(precedes(keys, a, b));
        assert(keys[a] == angle_of(k, pivot, p) && keys[b] == angle_of(k, pivot, q));
        law_side_shifts(spot(pivot), spot(pivot), spot(p), spot(q));
        assert(side(spot(pivot), spot(p), spot(q)) == det(s[i], s[j]));
        assert(side(spot(pivot), spot(q), spot(p)) == -det(s[i], s[j]));
        if det(s[i], s[j]) == 0 {
            assert(angle_of(k, pivot, q).units() <= angle_of(k, pivot, p).units());
            assert(a < b);
            assert(!lower_left(rising[b], rising[a]));
        }
    }
}

/// Turning among the points is turning in the plane.
proof fn lemma_turn_seen<K: EllipseKernel>(
    k: &K,
    pts: Seq<Point>,
    o: Point,
    hull: Seq<Point>,
    p: Point,
)
    requires
        crosses_are_right(k, pts),
        pts.contains(p),
        forall|i: int| 0 <= i < hull.len() ==> pts.contains(#[trigger] hull[i]),
    ensures
        all_seen(o, turn_left(k, hull, p)) == turned(all_seen(o, hull), seen(o, p)),
        forall|i: int|
            0 <= i < turn_left(k, hull, p).len() ==> pts.contains(
                #[trigger] turn_left(k, hull, p)[i],
            ),
    decreases hull.len(),
{
    let v = all_seen(o, hull);
    if hull.len() > 1 {
        let a = hull[hull.len() - 2];
        let b = hull[hull.len() - 1];
        assert(pts.contains(a) && pts.contains(b));
        law_side_shifts(spot(o), spot(a), spot(b), spot(p));
        assert(side(v[v.len() - 2], v[v.len() - 1], seen(o, p)) == side(spot(a), spot(b), spot(p)));
        if cross_of(k, a, b, p).at_most(Double::zero_spec()) {
            let front = hull.drop_last();
            assert forall|i: int| 0 <= i < front.len() implies pts.contains(#[trigger] front[i]) by {
                assert(front[i] == hull[i]);
            }
            lemma_turn_seen(k, pts, o, front, p);
            assert(all_seen(o, front) =~= v.drop_last());
        } else {
            assert(all_seen(o, hull.push(p)) =~= v.push(seen(o, p)));
        }
    } else {
        assert(all_seen(o, hull.push(p)) =~= v.push(seen(o, p)));
    }
}

proof fn lemma_scan_seen<K: EllipseKernel>(k: &K, pts: Seq<Point>, o: Point, s: Seq<Point>)
    requires
        crosses_are_right(k, pts),
        pts.contains(o),
        forall|i: int| 0 <= i < s.len() ==> pts.contains(#[trigger] s[i]),
    ensures
        all_seen(o, scan(k, o, s)) == scanned(all_seen(o, s)),
        forall|i: int| 0 <= i < scan(k, o, s).len() ==> pts.contains(#[trigger] scan(k, o, s)[i]),
    decreases s.len(),
{
    if s.len() == 0 {
        assert(all_seen(o, scan(k, o, s)) =~= seq![(0int, 0int)]);
    } else {
        let front = s.drop_last();
        assert forall|i: int| 0 <= i < front.len() implies pts.contains(#[trigger] front[i]) by {
            assert(front[i] == s[i]);
        }
        lemma_scan_seen(k, pts, o, front);
        assert(pts.contains(s[s.len() - 1]));
        lemma_turn_seen(k, pts, o, scan(k, o, front), s.last());
        assert(all_seen(o, s).drop_last() =~= all_seen(o, front));
    }
}

/// The hull is convex and goes round all points: where cross products have the right
/// sign and directions compare as they should, no point lies right of an edge from a
/// vertex of the hull to the next, or from the last to the first.  A hull of two
/// vertices is the whole length of the points on one line.
pub proof fn law_hull_holds_all_points<K: EllipseKernel>(k: &K, pts: Seq<Point>, q: Point, i: int)
    requires
        3 < pts.len() <= usize::MAX,
        crosses_are_right(k, pts),
        directions_are_right(k, pts),
        pts.contains(q),
        0 <= i < hull_of(k, pts).len(),
    ensures
        ({
            let hull = hull_of(k, pts);
            let next = if i + 1 < hull.len() {
                hull[i + 1]
            } else {
                hull[0]
            };
            &&& pts.contains(hull[i])
            &&& side(spot(hull[i]), spot(next), spot(q)) >= 0
            &&& hull.len() <= 2 ==> !lower_left(q, hull[0]) && !lower_left(hull.last(), q)
        }),
{
    let hull = hull_of(k, pts);
    let pivot = pts[pivot_index(pts)];
    let sorted = by_direction(k, pivot, others(pts, pivot));
    let s = all_seen(pivot, sorted);
    law_pivot_is_lowest(pts);
    law_scan_turns_left(k, pivot, sorted);
    lemma_fanned(k, pts);
    assert forall|j: int| 0 <= j < sorted.len() implies pts.contains(#[trigger] sorted[j]) by {
        assert(sorted.contains(sorted[j]));
    }
    lemma_scan_seen(k, pts, pivot, sorted);
    let v = all_seen(pivot, hull);
    assert(v == scanned(s));
    if same_place(q, pivot) {
        assert(seen(pivot, q) == (0int, 0int));
    } else {
        assert(sorted.contains(q));
        let j = choose|j: int| 0 <= j < sorted.len() && sorted[j] == q;
        assert(s[j] == seen(pivot, q));
        assert(s.contains(seen(pivot, q)));
    }
    law_scan_goes_round(s, seen(pivot, q), i);
    let next = if i + 1 < hull.len() {
        hull[i + 1]
    } else {
        hull[0]
    };
    law_side_shifts(spot(pivot), spot(hull[i]), spot(next), spot(q));
    let j = choose|j: int| 0 <= j < pts.len() && pts[j] == q;
    assert(!lower_left(pts[j], pivot));
}

// ── Khachiyan iteration ─────────────────────────────────────────────────────

/// The weights at which the iteration settles, from weights that last moved by
/// `err` in step `iter`.
pub open spec fn settle<K: EllipseKernel>(
    k: &K,
    points: Seq<Point>,
    weights: Seq<Double>,
    err: Double,
    tolerance: Double,
    iter: nat,
) -> Result<Seq<Double>, FitFailure>
    decreases MAX_ITERATIONS - iter,
{
    if !tolerance.below(err) {
        Ok(weights)
    } else {
        match scores_of(k, points, weights) {
            Err(e) => Err(e),
            Ok(m) => {
                let j = last_max(m);
                let next = advance_of(k, weights, j as usize, m[j]);
                if iter + 1 >= MAX_ITERATIONS {
                    Err(FitFailure::NoConvergence(MAX_ITERATIONS))
                } else {
                    settle(k, points, next.0, next.1, tolerance, iter + 1)
                }
            },
        }
    }
}

/// The minimum-volume ellipse of the points: equal weights to start with, moved
/// until they settle.
pub open spec fn min_vol_ellipse_spec<K: EllipseKernel>(
    k: &K,
    points: Seq<Point>,
    tolerance: Double,
) -> Result<Ellipse, FitFailure> {
    let n = points.len();
    let start = Seq::new(n, |i: int| equal_weight_of(k, n as usize));
    match settle(k, points, start, Double::one_spec(), tolerance, 0) {
        Ok(weights) => ellipse_of(k, points, weights, tolerance),
        Err(e) => Err(e),
    }
}

/// Khachiyan algorithm: minimum-volume enclosing ellipse of 2D points.
pub fn min_vol_ellipse<K: EllipseKernel>(k: &K, points: &Vec<Point>, tolerance: Double) -> (r: Result<
    Ellipse,
    FitFailure,
>)
    requires
        ellipse_kernel_is_function(k),
        ellipse_kernel_is_ordered(k),
    ensures
        r == min_vol_ellipse_spec(k, points@, tolerance),
{
    let n = points.len();
    let w = k.equal_weight(n);
    let mut weights: Vec<Double> = Vec::new();
    let mut i: usize = 0;
    while i < n
        invariant
            i <= n,
            weights@.len() == i,
            forall|j: int| 0 <= j < i ==> weights@[j] == w,
        decreases n - i,
    {
        weights.push(w);
        i = i + 1;
    }
    assert(w == equal_weight_of(k, n));
    let ghost start = Seq::new(points@.len(), |i: int| equal_weight_of(k, points@.len() as usize));
    assert(weights@ =~= start);
    let mut err = Double::one();
    let mut iter: usize = 0;
    while tolerance.lt(&err)
        invariant
            iter < MAX_ITERATIONS,
            ellipse_kernel_is_function(k),
            ellipse_kernel_is_ordered(k),
            settle(k, points@, start, Double::one_spec(), tolerance, 0) == settle(
                k,
                points@,
                weights@,
                err,
                tolerance,
                iter as nat,
            ),
            start == Seq::new(points@.len(), |i: int| equal_weight_of(k, points@.len() as usize)),
        decreases MAX_ITERATIONS - iter,
    {
        let outcome = k.scores(points, &weights);
        assert(scores_are(k, points@, weights@, score_view(outcome)));
        assert(score_view(outcome) == scores_of(k, points@, weights@));
        match outcome {
            Err(e) => {
                return Err(e);
            },
            Ok(m) => {
                assert(scores_are(k, points@, weights@, Ok::<Seq<Double>, FitFailure>(m@)));
                let j = last_max_index(&m);
                let next = k.advance(&weights, j, m[j]);
                assert(advance_is(k, weights@, j, m@[j as int], (next.weights@, next.err)));
                assert(advance_of(k, weights@, j, m@[j as int]) == (next.weights@, next.err));
                iter = iter + 1;
                if iter >= MAX_ITERATIONS {
                    return Err(FitFailure::NoConvergence(MAX_ITERATIONS));
                }
                weights = next.weights;
                err = next.err;
            },
        }
    }
    let r = k.ellipse(points, &weights, tolerance);
    assert(ellipse_is(k, points@, weights@, tolerance, r));
    r
}

} // verus!
