//! Points of the integer plane, and why a left-turning scan goes round all of them.
use vstd::arithmetic::mul::{lemma_mul_is_associative, lemma_mul_is_commutative};
use vstd::prelude::*;

verus! {

/// Cross product of two vectors.
#[verifier::opaque]
pub open spec fn det(a: (int, int), b: (int, int)) -> int {
    a.0 * b.1 - a.1 * b.0
}

/// Twice the area of the triangle, positive where `c` lies to the left of the way
/// from `a` to `b`, zero where it lies on the line through both.
#[verifier::opaque]
pub open spec fn side(a: (int, int), b: (int, int), c: (int, int)) -> int {
    (b.0 - a.0) * (c.1 - a.1) - (b.1 - a.1) * (c.0 - a.0)
}

/// Above the origin, or as high and right of it.
pub open spec fn above(a: (int, int)) -> bool {
    a.1 > 0 || (a.1 == 0 && a.0 > 0)
}

/// `a` lies lower than `b`, or as low and further left.
pub open spec fn below(a: (int, int), b: (int, int)) -> bool {
    a.1 < b.1 || (a.1 == b.1 && a.0 < b.0)
}

/// The vectors point above the origin and stand in order of their direction; of two
/// in one direction the nearer stands first.
pub open spec fn fanned(s: Seq<(int, int)>) -> bool {
    &&& forall|i: int| 0 <= i < s.len() ==> above(#[trigger] s[i])
    &&& forall|i: int, j: int|
        #![trigger s[i], s[j]]
        0 <= i < j < s.len() ==> det(s[i], s[j]) >= 0 && (det(s[i], s[j]) == 0 ==> !below(
            s[j],
            s[i],
        ))
}

/// Put `p` at the end, first dropping the corners at which the way to `p` does not
/// turn left.
pub open spec fn turned(h: Seq<(int, int)>, p: (int, int)) -> Seq<(int, int)>
    decreases h.len(),
{
    if h.len() > 1 && side(h[h.len() - 2], h[h.len() - 1], p) <= 0 {
        turned(h.drop_last(), p)
    } else {
        h.push(p)
    }
}

/// The scan from the origin over ordered vectors.
pub open spec fn scanned(s: Seq<(int, int)>) -> Seq<(int, int)>
    decreases s.len(),
{
    if s.len() == 0 {
        seq![(0int, 0int)]
    } else {
        turned(scanned(s.drop_last()), s.last())
    }
}

spec fn turns_at(h: Seq<(int, int)>, i: int) -> bool {
    det(h[i], h[i + 1]) > 0
}

spec fn bends_at(h: Seq<(int, int)>, i: int) -> bool {
    side(h[i], h[i + 1], h[i + 2]) > 0
}

spec fn has_left(h: Seq<(int, int)>, i: int, q: (int, int)) -> bool {
    side(h[i], h[i + 1], q) >= 0
}

/// What holds of the scan after each point.
spec fn goes_round(h: Seq<(int, int)>, s: Seq<(int, int)>) -> bool {
    &&& h.len() >= 1
    &&& h[0] == (0int, 0int)
    &&& s.len() == 0 ==> h.len() == 1
    &&& s.len() > 0 ==> h.len() >= 2 && h.last() == s.last()
    &&& forall|i: int| 1 <= i < h.len() ==> above(#[trigger] h[i]) && s.contains(h[i])
    &&& forall|i: int| 1 <= i < h.len() - 1 ==> #[trigger] turns_at(h, i)
    &&& forall|i: int| 0 <= i < h.len() - 2 ==> #[trigger] bends_at(h, i)
    &&& forall|i: int, j: int|
        0 <= i < h.len() - 1 && 0 <= j < s.len() ==> #[trigger] has_left(h, i, s[j])
}

proof fn lemma_product(a: int, b: int, c: int, d: int)
    ensures
        (a - b) * (c - d) == a * c - a * d - b * c + b * d,
{
    assert((a - b) * (c - d) == a * c - a * d - b * c + b * d) by (nonlinear_arith);
}

proof fn lemma_det(a: (int, int), b: (int, int))
    ensures
        det(b, a) == -det(a, b),
        det(a, a) == 0,
        det(a, (0int, 0int)) == 0,
        det((0int, 0int), a) == 0,
{
    reveal(det);
    lemma_mul_is_commutative(a.0, b.1);
    lemma_mul_is_commutative(a.1, b.0);
    lemma_mul_is_commutative(a.0, a.1);
}

proof fn lemma_side_sum(a: (int, int), b: (int, int), c: (int, int))
    ensures
        side(a, b, c) == det(a, b) + det(b, c) + det(c, a),
{
    reveal(det);
    reveal(side);
    lemma_product(b.0, a.0, c.1, a.1);
    lemma_product(b.1, a.1, c.0, a.0);
    lemma_mul_is_commutative(a.0, b.1);
    lemma_mul_is_commutative(a.1, b.0);
    lemma_mul_is_commutative(c.0, a.1);
    lemma_mul_is_commutative(c.1, a.0);
    lemma_mul_is_commutative(a.0, a.1);
}

proof fn lemma_side(a: (int, int), b: (int, int), c: (int, int))
    ensures
        side(a, b, c) == det(a, b) + det(b, c) + det(c, a),
        side(a, b, c) == side(b, c, a),
        side(a, c, b) == -side(a, b, c),
        det(b, a) == -det(a, b),
        side((0int, 0int), a, b) == det(a, b),
        side(a, b, (0int, 0int)) == det(a, b),
        side(b, (0int, 0int), a) == det(a, b),
        side(a, b, b) == 0,
        side(a, b, a) == 0,
        det(a, a) == 0,
        det(a, (0int, 0int)) == 0,
        det((0int, 0int), a) == 0,
{
    let o = (0int, 0int);
    lemma_side_sum(a, b, c);
    lemma_side_sum(b, c, a);
    lemma_side_sum(a, c, b);
    lemma_side_sum(o, a, b);
    lemma_side_sum(a, b, o);
    lemma_side_sum(b, o, a);
    lemma_side_sum(a, b, b);
    lemma_side_sum(a, b, a);
    lemma_det(a, b);
    lemma_det(b, b);
    lemma_det(c, a);
    lemma_det(c, b);
}

/// Moving all points alike changes no side; seen from its first point, a triangle is
/// a product of two vectors.
pub proof fn law_side_shifts(o: (int, int), a: (int, int), b: (int, int), c: (int, int))
    ensures
        side((a.0 - o.0, a.1 - o.1), (b.0 - o.0, b.1 - o.1), (c.0 - o.0, c.1 - o.1)) == side(
            a,
            b,
            c,
        ),
        det((b.0 - a.0, b.1 - a.1), (c.0 - a.0, c.1 - a.1)) == side(a, b, c),
        side(a, c, b) == -side(a, b, c),
{
    reveal(det);
    reveal(side);
    lemma_side(a, b, c);
}

proof fn lemma_swap(a: int, b: int, c: int, d: int)
    ensures
        (a * b) * (c * d) == (a * d) * (c * b),
        (a * b) * (c * d) == (a * c) * (d * b),
        (a * b) * (c * d) == (a * c) * (b * d),
{
    lemma_mul_is_associative(a, b, c * d);
    lemma_mul_is_associative(b, c, d);
    lemma_mul_is_commutative(b, c);
    lemma_mul_is_commutative(c * b, d);
    lemma_mul_is_associative(a, d, c * b);
    lemma_mul_is_associative(a, c, d * b);
    lemma_mul_is_associative(c, d, b);
    lemma_mul_is_commutative(c * d, b);
    lemma_mul_is_commutative(b, d);
}

/// How products of four vectors hang together.
proof fn lemma_four(c: (int, int), o: (int, int), p: (int, int), q: (int, int))
    ensures
        det(c, o) * det(p, q) == det(c, q) * det(p, o) - det(c, p) * det(q, o),
{
    reveal(det);
    lemma_product(c.0 * o.1, c.1 * o.0, p.0 * q.1, p.1 * q.0);
    lemma_product(c.0 * q.1, c.1 * q.0, p.0 * o.1, p.1 * o.0);
    lemma_product(c.0 * p.1, c.1 * p.0, q.0 * o.1, q.1 * o.0);
    lemma_swap(c.0, o.1, p.0, q.1);
    lemma_swap(c.1, o.0, p.1, q.0);
    lemma_swap(c.0, o.1, p.1, q.0);
    lemma_swap(c.1, o.0, p.0, q.1);
    lemma_swap(c.0, q.1, p.1, o.0);
    lemma_swap(c.1, q.0, p.0, o.1);
}

/// Vectors in one direction stretch a product alike.
proof fn lemma_parallel(a: (int, int), b: (int, int), q: (int, int))
    requires
        above(a),
        above(b),
        det(a, b) == 0,
    ensures
        det(a, q) >= 0 ==> det(b, q) >= 0,
        det(a, q) >= 0 && !below(b, a) ==> det(b, q) >= det(a, q),
        det(a, q) >= 0 && !below(a, b) ==> det(b, q) <= det(a, q),
{
    let d = det(a, q);
    let e = det(b, q);
    let right = (1int, 0int);
    let up = (0int, 1int);
    lemma_four(a, right, b, q);
    lemma_four(a, up, b, q);
    assert(det(a, right) == -a.1 && det(b, right) == -b.1) by {
        reveal(det);
    }
    assert(det(a, up) == a.0 && det(b, up) == b.0) by {
        reveal(det);
    }
    assert(det(a, b) == a.0 * b.1 - a.1 * b.0) by {
        reveal(det);
    }
    if d >= 0 {
        if a.1 > 0 {
            assert(a.1 * e == b.1 * d) by (nonlinear_arith)
                requires
                    (-a.1) * e == d * (-b.1),
            ;
            lemma_ratio(a.1, b.1, d, e);
        } else {
            assert(b.1 == 0) by (nonlinear_arith)
                requires
                    a.0 * b.1 - a.1 * b.0 == 0,
                    a.1 == 0,
                    a.0 > 0,
            ;
            lemma_mul_is_commutative(d, b.0);
            lemma_ratio(a.0, b.0, d, e);
        }
    }
}

proof fn lemma_ratio(a: int, b: int, d: int, e: int)
    requires
        a > 0,
        b >= 0,
        d >= 0,
        a * e == b * d,
    ensures
        e >= 0,
        b >= a ==> e >= d,
        b <= a ==> e <= d,
{
    assert(e >= 0) by (nonlinear_arith)
        requires
            a > 0,
            b >= 0,
            d >= 0,
            a * e == b * d,
    ;
    if b >= a {
        assert(e >= d) by (nonlinear_arith)
            requires
                a > 0,
                b >= a,
                d >= 0,
                a * e == b * d,
        ;
    }
    if b <= a {
        assert(e <= d) by (nonlinear_arith)
            requires
                a > 0,
                b <= a,
                d >= 0,
                a * e == b * d,
        ;
    }
}

proof fn lemma_signs(a: int, b: int)
    ensures
        (a >= 0 && b >= 0) || (a <= 0 && b <= 0) ==> a * b >= 0,
        (a >= 0 && b <= 0) || (a <= 0 && b >= 0) ==> a * b <= 0,
{
    assert(((a >= 0 && b >= 0) || (a <= 0 && b <= 0)) ==> a * b >= 0) by (nonlinear_arith);
    assert(((a >= 0 && b <= 0) || (a <= 0 && b >= 0)) ==> a * b <= 0) by (nonlinear_arith);
}

proof fn lemma_quotient(a: int, b: int)
    ensures
        a > 0 && a * b >= 0 ==> b >= 0,
        a < 0 && a * b <= 0 ==> b >= 0,
{
    assert(a > 0 && a * b >= 0 ==> b >= 0) by (nonlinear_arith);
    assert(a < 0 && a * b <= 0 ==> b >= 0) by (nonlinear_arith);
}

/// How the triangles that four points make with a fifth hang together.
proof fn lemma_four_sides(
    g: (int, int),
    c: (int, int),
    o: (int, int),
    p: (int, int),
    q: (int, int),
)
    ensures
        side(g, c, o) * side(g, p, q) == side(g, c, q) * side(g, p, o) - side(g, c, p) * side(
            g,
            q,
            o,
        ),
{
    reveal(det);
    reveal(side);
    let rel = |z: (int, int)| (z.0 - g.0, z.1 - g.1);
    lemma_four(rel(c), rel(o), rel(p), rel(q));
}

/// A point that is left of the edge from `b` to `c`, and not clockwise of `b`, is
/// left of the edge before it too.
proof fn lemma_earlier_edge(a: (int, int), b: (int, int), c: (int, int), p: (int, int))
    requires
        det(b, c) > 0,
        side(a, b, c) > 0,
        det(b, p) >= 0,
        det(a, b) >= 0,
        side(b, c, p) >= 0,
    ensures
        side(a, b, p) >= 0,
{
    let o = (0int, 0int);
    lemma_four_sides(b, c, o, p, a);
    lemma_side(a, b, p);
    lemma_side(a, b, c);
    lemma_side(b, c, o);
    lemma_side(b, p, o);
    lemma_side(b, a, o);
    lemma_side(a, b, o);
    let abp = side(b, p, a);
    let bc = side(b, c, o);
    let abc = side(b, c, a);
    let bp = side(b, p, o);
    let bcp = side(b, c, p);
    let ba = side(b, a, o);
    assert(bc == det(b, c) && bp == det(b, p) && ba == det(b, a));
    lemma_signs(abc, bp);
    lemma_signs(bcp, ba);
    lemma_quotient(bc, abp);
}

/// The new edge from `g` to `p` has `q` on its left, given a point `e` (the corner
/// before `g`, or the one that was dropped behind it) that says so.
proof fn lemma_new_edge(g: (int, int), e: (int, int), p: (int, int), q: (int, int))
    requires
        det(g, p) > 0,
        ({
            &&& det(g, e) > 0
            &&& side(g, e, q) >= 0
            &&& side(g, e, p) <= 0
            &&& det(g, q) >= 0
        }) || ({
            &&& det(g, e) < 0
            &&& side(g, e, q) <= 0
            &&& side(g, e, p) <= 0
            &&& det(g, q) <= 0
        }),
    ensures
        side(g, p, q) >= 0,
{
    let o = (0int, 0int);
    lemma_four_sides(g, e, o, p, q);
    lemma_side(g, e, o);
    lemma_side(g, p, o);
    lemma_side(g, q, o);
    lemma_side(o, g, e);
    lemma_side(o, g, p);
    lemma_side(o, g, q);
    let eo = side(g, e, o);
    let pq = side(g, p, q);
    let eq = side(g, e, q);
    let po = side(g, p, o);
    let ep = side(g, e, p);
    let qo = side(g, q, o);
    assert(eo == det(g, e) && po == det(g, p) && qo == det(g, q));
    assert(eo * pq == eq * po - ep * qo);
    lemma_signs(eq, po);
    lemma_signs(ep, qo);
    lemma_quotient(eo, pq);
}

/// Turning keeps the first `m` corners: the last of them is the first at which the
/// way to `p` turns left.
proof fn lemma_turned(h: Seq<(int, int)>, p: (int, int)) -> (m: int)
    requires
        h.len() >= 1,
    ensures
        1 <= m <= h.len(),
        turned(h, p) == h.take(m).push(p),
        m >= 2 ==> side(h[m - 2], h[m - 1], p) > 0,
        m < h.len() ==> side(h[m - 1], h[m], p) <= 0,
    decreases h.len(),
{
    if h.len() > 1 && side(h[h.len() - 2], h[h.len() - 1], p) <= 0 {
        let front = h.drop_last();
        let m = lemma_turned(front, p);
        assert(front.take(m) =~= h.take(m));
        m
    } else {
        assert(h.take(h.len() as int) =~= h);
        h.len() as int
    }
}

/// `p` is left of every edge that is kept.
proof fn lemma_kept_edges(h: Seq<(int, int)>, s: Seq<(int, int)>, p: (int, int), m: int, i: int)
    requires
        goes_round(h, s),
        fanned(s.push(p)),
        2 <= m <= h.len(),
        side(h[m - 2], h[m - 1], p) > 0,
        0 <= i <= m - 2,
    ensures
        side(h[i], h[i + 1], p) >= 0,
    decreases m - i,
{
    if i < m - 2 {
        lemma_kept_edges(h, s, p, m, i + 1);
        let a = h[i];
        let b = h[i + 1];
        let c = h[i + 2];
        lemma_corner_before(s, p, b);
        assert(turns_at(h, i + 1));
        assert(bends_at(h, i));
        if i == 0 {
            lemma_side(a, b, a);
            assert(det(a, b) == 0);
        } else {
            assert(turns_at(h, i));
        }
        lemma_earlier_edge(a, b, c, p);
    }
}

/// A corner stands before the point that is added.
proof fn lemma_corner_before(s: Seq<(int, int)>, p: (int, int), b: (int, int))
    requires
        fanned(s.push(p)),
        s.contains(b),
    ensures
        above(b),
        above(p),
        det(b, p) >= 0,
        det(b, p) == 0 ==> !below(p, b),
{
    let all = s.push(p);
    let j = choose|j: int| 0 <= j < s.len() && s[j] == b;
    assert(all[j] == b && all[s.len() as int] == p);
    assert(det(all[j], all[s.len() as int]) >= 0);
}

/// The way to `p` goes counterclockwise from the last corner that is kept.
proof fn lemma_last_kept(h: Seq<(int, int)>, s: Seq<(int, int)>, p: (int, int), m: int)
    requires
        goes_round(h, s),
        fanned(s.push(p)),
        2 <= m <= h.len(),
        side(h[m - 2], h[m - 1], p) > 0,
    ensures
        det(h[m - 1], p) > 0,
{
    let f = h[m - 2];
    let g = h[m - 1];
    lemma_corner_before(s, p, g);
    lemma_side(f, g, p);
    lemma_side(g, p, f);
    if det(g, p) == 0 {
        if m == 2 {
            lemma_side(p, g, f);
            assert(f == (0int, 0int));
        } else {
            assert(turns_at(h, m - 2));
            lemma_side(g, f, p);
            lemma_side(p, f, g);
            // In the opposite sense, so that products with `f` are not negative.
            let r = (-f.0, -f.1);
            assert(det(g, r) == det(f, g) && det(p, r) == det(f, p)) by {
                lemma_opposite(f, g);
                lemma_opposite(f, p);
            }
            lemma_parallel(g, p, r);
            assert(det(f, p) >= det(f, g));
            assert(det(p, f) == -det(f, p));
        }
    }
}

proof fn lemma_opposite(f: (int, int), g: (int, int))
    ensures
        det(g, (-f.0, -f.1)) == det(f, g),
{
    reveal(det);
    let (fx, fy) = f;
    let (gx, gy) = g;
    assert(gx * (-fy) - gy * (-fx) == fx * gy - fy * gx) by (nonlinear_arith);
}

/// The new edge has every earlier point on its left.
proof fn lemma_added_edge(
    h: Seq<(int, int)>,
    s: Seq<(int, int)>,
    p: (int, int),
    m: int,
    j: int,
)
    requires
        goes_round(h, s),
        fanned(s.push(p)),
        1 <= m <= h.len(),
        m >= 2 ==> side(h[m - 2], h[m - 1], p) > 0,
        m < h.len() ==> side(h[m - 1], h[m], p) <= 0,
        0 <= j < s.len(),
    ensures
        side(h[m - 1], p, s[j]) >= 0,
{
    let o = (0int, 0int);
    let all = s.push(p);
    let q = s[j];
    let g = h[m - 1];
    assert(all[j] == q);
    assert(s.contains(q));
    lemma_corner_before(s, p, q);
    if m == 1 {
        // Only the origin is left: everything lies in one direction.
        let c = h[1];
        lemma_corner_before(s, p, c);
        lemma_side(c, p, o);
        lemma_side(c, q, o);
        lemma_side(p, q, o);
        assert(det(c, p) == 0);
        assert(has_left(h, 0, s[j]));
        assert(det(c, q) >= 0);
        lemma_parallel(c, p, q);
    } else {
        let f = h[m - 2];
        lemma_last_kept(h, s, p, m);
        assert(has_left(h, m - 2, s[j]));
        lemma_side(f, g, q);
        lemma_side(g, f, q);
        lemma_side(f, g, p);
        lemma_side(g, f, p);
        lemma_side(g, q, o);
        lemma_side(q, g, o);
        lemma_side(g, p, q);
        if m < h.len() && det(g, q) >= 0 {
            let c = h[m];
            assert(has_left(h, m - 1, s[j]));
            assert(turns_at(h, m - 1));
            lemma_new_edge(g, c, p, q);
        } else {
            if m == h.len() {
                assert(s.last() == g);
                assert(det(q, g) >= 0 && (det(q, g) == 0 ==> !below(g, q))) by {
                    if j < s.len() - 1 {
                        assert(all[s.len() - 1] == g);
                        assert(det(all[j], all[s.len() - 1]) >= 0);
                    } else {
                        lemma_side(g, g, g);
                    }
                }
            }
            if m == 2 {
                assert(m == h.len() && det(g, q) == 0);
                lemma_corner_before(s, p, g);
                lemma_parallel(g, q, p);
                lemma_side(q, p, g);
                assert(det(q, p) <= det(g, p));
            } else {
                assert(turns_at(h, m - 2));
                lemma_side(g, f, o);
                lemma_new_edge(g, f, p, q);
            }
        }
    }
}

proof fn lemma_step(h: Seq<(int, int)>, s: Seq<(int, int)>, p: (int, int))
    requires
        goes_round(h, s),
        fanned(s.push(p)),
    ensures
        goes_round(turned(h, p), s.push(p)),
{
    let m = lemma_turned(h, p);
    let r = turned(h, p);
    let all = s.push(p);
    assert(all[s.len() as int] == p);
    assert(above(all[s.len() as int]));
    assert forall|i: int| 1 <= i < r.len() implies above(#[trigger] r[i]) && all.contains(r[i]) by {
        if i < m {
            assert(r[i] == h[i]);
            let j = choose|j: int| 0 <= j < s.len() && s[j] == h[i];
            assert(all[j] == r[i]);
        }
    }
    assert forall|i: int| 1 <= i < r.len() - 1 implies #[trigger] turns_at(r, i) by {
        if i < m - 1 {
            assert(turns_at(h, i));
        } else {
            lemma_last_kept(h, s, p, m);
        }
    }
    assert forall|i: int| 0 <= i < r.len() - 2 implies #[trigger] bends_at(r, i) by {
        if i < m - 2 {
            assert(bends_at(h, i));
        }
    }
    assert forall|i: int, j: int|
        0 <= i < r.len() - 1 && 0 <= j < all.len() implies #[trigger] has_left(r, i, all[j]) by {
        if i < m - 1 {
            if j < s.len() {
                assert(has_left(h, i, s[j]));
            } else {
                lemma_kept_edges(h, s, p, m, i);
            }
        } else if j < s.len() {
            lemma_added_edge(h, s, p, m, j);
        } else {
            lemma_side(r[i], p, p);
        }
    }
}

proof fn lemma_scan_goes_round(s: Seq<(int, int)>)
    requires
        fanned(s),
    ensures
        goes_round(scanned(s), s),
    decreases s.len(),
{
    if s.len() > 0 {
        let front = s.drop_last();
        assert(front.push(s.last()) =~= s);
        assert(fanned(front)) by {
            assert forall|i: int| 0 <= i < front.len() implies above(#[trigger] front[i]) by {
                assert(front[i] == s[i]);
            }
            assert forall|i: int, j: int|
                #![trigger front[i], front[j]]
                0 <= i < j < front.len() implies det(front[i], front[j]) >= 0 && (det(
                front[i],
                front[j],
            ) == 0 ==> !below(front[j], front[i])) by {
                assert(front[i] == s[i] && front[j] == s[j]);
            }
        }
        lemma_scan_goes_round(front);
        lemma_step(scanned(front), front, s.last());
    }
}

/// A left-turning scan over vectors in order of their direction goes round all of
/// them: no vector, nor the origin, lies right of an edge, the one that leads back to
/// the origin included.  Where the scan keeps one vector only, it is the farthest.
pub proof fn law_scan_goes_round(s: Seq<(int, int)>, q: (int, int), i: int)
    requires
        fanned(s),
        s.contains(q) || q == (0int, 0int),
        0 <= i < scanned(s).len(),
    ensures
        ({
            let h = scanned(s);
            let next = if i + 1 < h.len() {
                h[i + 1]
            } else {
                h[0]
            };
            &&& side(h[i], next, q) >= 0
            &&& h.len() <= 2 ==> !below(h.last(), q)
        }),
{
    let o = (0int, 0int);
    let h = scanned(s);
    lemma_scan_goes_round(s);
    if q == o {
        if i + 1 < h.len() {
            lemma_side(o, h[i], h[i + 1]);
            lemma_side(h[i], h[i + 1], o);
            if i > 0 {
                assert(turns_at(h, i));
            } else {
                lemma_side(h[i + 1], o, o);
                lemma_side(o, h[i + 1], o);
            }
        } else {
            lemma_side(h[i], o, o);
        }
        if s.len() > 0 {
            assert(above(h[h.len() - 1]));
        }
    } else {
        let j = choose|j: int| 0 <= j < s.len() && s[j] == q;
        let last = s[s.len() - 1];
        assert(h.last() == last);
        assert(above(s[j]));
        assert(det(q, last) >= 0 && (det(q, last) == 0 ==> !below(last, q))) by {
            if j < s.len() - 1 {
                assert(det(s[j], s[s.len() - 1]) >= 0);
            } else {
                lemma_side(q, q, q);
            }
        }
        if i + 1 < h.len() {
            assert(has_left(h, i, s[j]));
        } else {
            lemma_side(q, last, o);
        }
        if h.len() == 2 {
            assert(has_left(h, 0, s[j]));
            lemma_side(last, q, o);
        }
    }
}

} // verus!
