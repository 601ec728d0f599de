use vstd::prelude::*;
use crate::containment::{all_wf, in_diameter_circle};
use crate::geometry::{dist_sq, lemma_mul_bound, orient, orient2d, Point, COORD_LIMIT};

verus! {

/// Largest denominator of a circle built from grid points.
pub const DENOM_LIMIT: i128 = 0x100_0000_0000;

/// Largest magnitude of a scaled center coordinate of such a circle.
pub const CENTER_LIMIT: i128 = 0x1000_0000_0000_0000;

/// A circle with a rational center and a rational squared radius over one
/// common denominator: the center is `(center_x / denom, center_y / denom)`
/// and the squared radius is `radius_sq / (denom * denom)`.
#[derive(Clone, Copy, Debug, PartialEq, Eq)]
pub struct Circle {
    pub center_x: i128,
    pub center_y: i128,
    pub denom: i128,
    pub radius_sq: i128,
}

/// Why no circle could be built.
#[derive(Clone, Copy, Debug, PartialEq, Eq)]
pub enum CircleError {
    /// The three support points are collinear, so they have no circumcircle.
    DegenerateGeometry,
}

impl Circle {
    /// The denominator is positive and every scaled quantity stays within
    /// the bounds of a circle built from grid points.
    pub open spec fn wf(self) -> bool {
        &&& 0 < self.denom <= DENOM_LIMIT
        &&& -CENTER_LIMIT <= self.center_x <= CENTER_LIMIT
        &&& -CENTER_LIMIT <= self.center_y <= CENTER_LIMIT
    }

    /// Squared distance from `p` to the center, scaled by `denom * denom`.
    pub open spec fn offset_sq(self, p: Point) -> int {
        let ex = p.x * self.denom - self.center_x;
        let ey = p.y * self.denom - self.center_y;
        ex * ex + ey * ey
    }

    /// `p` lies inside or on the circle.
    pub open spec fn contains(self, p: Point) -> bool {
        self.offset_sq(p) <= self.radius_sq
    }

    /// `p` lies on the circle.
    pub open spec fn passes_through(self, p: Point) -> bool {
        self.offset_sq(p) == self.radius_sq
    }
}

/// The circle of radius zero at the origin.
pub open spec fn origin_circle() -> Circle {
    Circle { center_x: 0, center_y: 0, denom: 1, radius_sq: 0 }
}

/// The circle of radius zero at `p`.
pub open spec fn point_circle(p: Point) -> Circle {
    Circle { center_x: p.x as i128, center_y: p.y as i128, denom: 1, radius_sq: 0 }
}

/// The circle whose diameter is the segment `a`–`b`: its center is the
/// midpoint, kept exact with denominator two.
pub open spec fn diameter_circle(a: Point, b: Point) -> Circle {
    Circle {
        center_x: (a.x + b.x) as i128,
        center_y: (a.y + b.y) as i128,
        denom: 2,
        radius_sq: dist_sq(a, b) as i128,
    }
}

/// The containment test against a two-point boundary agrees with the circle
/// built on that diameter: `p` passes the test exactly when that circle
/// contains it, and both endpoints always do.
pub proof fn lemma_diameter_test_matches_circle(p: Point, a: Point, b: Point)
    requires
        p.wf(),
        a.wf(),
        b.wf(),
    ensures
        in_diameter_circle(p, a, b) == diameter_circle(a, b).contains(p),
        diameter_circle(a, b).contains(a),
        diameter_circle(a, b).contains(b),
{
    let c = diameter_circle(a, b);
    let e: int = 2 * COORD_LIMIT;
    lemma_mul_bound(a.x - b.x, a.x - b.x, e, e);
    lemma_mul_bound(a.y - b.y, a.y - b.y, e, e);
    assert(e * e == 0x40_0000_0000) by (nonlinear_arith)
        requires
            e == 524288,
    ;
    assert(c.center_x == a.x + b.x && c.center_y == a.y + b.y && c.denom == 2);
    assert(-0x100_0000_0000 <= dist_sq(a, b) <= 0x100_0000_0000);
    assert(c.radius_sq == dist_sq(a, b));
    assert((b.x - a.x) * (b.x - a.x) + (b.y - a.y) * (b.y - a.y) == dist_sq(a, b))
        by (nonlinear_arith);
}

/// The denominator of the circumcircle of three points: twice the magnitude
/// of their orientation.
pub open spec fn circumcircle_denom(a: Point, b: Point, c: Point) -> int {
    let o = orient(a, b, c);
    2 * (if o < 0 {
        -o
    } else {
        o
    })
}

/// `r` is the circle that the support set `bd` of up to three points
/// determines: the zero circle at the origin for none, the zero circle at
/// the point for one, the circle on the diameter for two, and for three
/// either the failure of a collinear triple or the circle through all three
/// over the denominator `circumcircle_denom`, which fixes it as a value.
pub open spec fn is_circle_of(r: Result<Circle, CircleError>, bd: Seq<Point>) -> bool {
    if bd.len() == 0 {
        r == Ok::<Circle, CircleError>(origin_circle())
    } else if bd.len() == 1 {
        r == Ok::<Circle, CircleError>(point_circle(bd[0]))
    } else if bd.len() == 2 {
        r == Ok::<Circle, CircleError>(diameter_circle(bd[0], bd[1]))
    } else if orient(bd[0], bd[1], bd[2]) == 0 {
        r == Err::<Circle, CircleError>(CircleError::DegenerateGeometry)
    } else {
        &&& r is Ok
        &&& r->Ok_0.wf()
        &&& r->Ok_0.denom == circumcircle_denom(bd[0], bd[1], bd[2])
        &&& r->Ok_0.passes_through(bd[0])
        &&& r->Ok_0.passes_through(bd[1])
        &&& r->Ok_0.passes_through(bd[2])
    }
}

/// The radius of `c1` is at least that of `c2`, compared exactly across the
/// two denominators.
pub open spec fn radius_at_least(c1: Circle, c2: Circle) -> bool {
    c1.radius_sq * (c2.denom * c2.denom) >= c2.radius_sq * (c1.denom * c1.denom)
}

/// No circle that contains both ends of a segment is smaller than the
/// circle on that segment as a diameter.
pub proof fn lemma_diameter_circle_is_smallest(a: Point, b: Point, c: Circle)
    requires
        a.wf(),
        b.wf(),
        c.denom > 0,
        c.contains(a),
        c.contains(b),
    ensures
        radius_at_least(c, diameter_circle(a, b)),
{
    let d = c.denom as int;
    let ux = a.x * d - c.center_x;
    let uy = a.y * d - c.center_y;
    let vx = b.x * d - c.center_x;
    let vy = b.y * d - c.center_y;
    let r = c.radius_sq as int;
    assert((ux - vx) * (ux - vx) <= 2 * (ux * ux) + 2 * (vx * vx)) by (nonlinear_arith);
    assert((uy - vy) * (uy - vy) <= 2 * (uy * uy) + 2 * (vy * vy)) by (nonlinear_arith);
    assert(ux - vx == (a.x - b.x) * d) by (nonlinear_arith)
        requires
            ux == a.x * d - c.center_x,
            vx == b.x * d - c.center_x,
    ;
    assert(uy - vy == (a.y - b.y) * d) by (nonlinear_arith)
        requires
            uy == a.y * d - c.center_y,
            vy == b.y * d - c.center_y,
    ;
    assert(dist_sq(a, b) * (d * d) == (ux - vx) * (ux - vx) + (uy - vy) * (uy - vy))
        by (nonlinear_arith)
        requires
            ux - vx == (a.x - b.x) * d,
            uy - vy == (a.y - b.y) * d,
    ;
    let e: int = 2 * COORD_LIMIT;
    lemma_mul_bound(a.x - b.x, a.x - b.x, e, e);
    lemma_mul_bound(a.y - b.y, a.y - b.y, e, e);
    assert(e * e == 0x40_0000_0000) by (nonlinear_arith)
        requires
            e == 524288,
    ;
    let m = diameter_circle(a, b);
    assert(m.radius_sq == dist_sq(a, b) && m.denom == 2);
    assert(r * 4 >= dist_sq(a, b) * (d * d));
}

/// Whether `p` lies inside or on `c`, decided exactly.
pub fn is_in_circle(p: Point, c: &Circle) -> (r: bool)
    requires
        p.wf(),
        c.wf(),
    ensures
        r == c.contains(p),
{
    proof {
        lemma_mul_bound(p.x as int, c.denom as int, COORD_LIMIT as int, DENOM_LIMIT as int);
        lemma_mul_bound(p.y as int, c.denom as int, COORD_LIMIT as int, DENOM_LIMIT as int);
    }
    let ex = (p.x as i128) * c.denom - c.center_x;
    let ey = (p.y as i128) * c.denom - c.center_y;
    let ghost e: int = 2 * CENTER_LIMIT;
    proof {
        lemma_mul_bound(ex as int, ex as int, e, e);
        lemma_mul_bound(ey as int, ey as int, e, e);
    }
    ex * ex + ey * ey <= c.radius_sq
}

/// The scaled circumcenter `u / d` of the origin, `(bx, by)` and `(cx, cy)`
/// is as far from `(bx, by)` as from the origin.
proof fn lemma_circumcenter_equidistant(
    bx: int,
    by: int,
    cx: int,
    cy: int,
    s: int,
    d: int,
    ux: int,
    uy: int,
)
    requires
        s * s == 1,
        d == 2 * (s * (bx * cy - by * cx)),
        ux == s * (cy * (bx * bx + by * by) - by * (cx * cx + cy * cy)),
        uy == s * (bx * (cx * cx + cy * cy) - cx * (bx * bx + by * by)),
    ensures
        (bx * d - ux) * (bx * d - ux) + (by * d - uy) * (by * d - uy) == ux * ux + uy * uy,
{
    let bb = bx * bx + by * by;
    let cc = cx * cx + cy * cy;
    let v = cy * bb - by * cc;
    let w = bx * cc - cx * bb;
    let dd = bx * cy - by * cx;
    assert(bx * v == bx * cy * bb - bx * by * cc) by (nonlinear_arith)
        requires
            v == cy * bb - by * cc,
    ;
    assert(by * w == bx * by * cc - by * cx * bb) by (nonlinear_arith)
        requires
            w == bx * cc - cx * bb,
    ;
    assert(bb * dd == bx * cy * bb - by * cx * bb) by (nonlinear_arith)
        requires
            dd == bx * cy - by * cx,
    ;
    let t = bx * ux + by * uy;
    assert(t == s * (bx * v + by * w)) by (nonlinear_arith)
        requires
            ux == s * v,
            uy == s * w,
            t == bx * ux + by * uy,
    ;
    assert(bb * d == 2 * t) by (nonlinear_arith)
        requires
            d == 2 * (s * dd),
            t == s * (bb * dd),
    ;
    assert((bx * d - ux) * (bx * d - ux) == bx * bx * (d * d) - 2 * d * (bx * ux) + ux * ux)
        by (nonlinear_arith);
    assert((by * d - uy) * (by * d - uy) == by * by * (d * d) - 2 * d * (by * uy) + uy * uy)
        by (nonlinear_arith);
    assert(bb * (d * d) == bx * bx * (d * d) + by * by * (d * d)) by (nonlinear_arith)
        requires
            bb == bx * bx + by * by,
    ;
    assert(bb * (d * d) == 2 * d * t) by (nonlinear_arith)
        requires
            bb * d == 2 * t,
    ;
    assert(2 * d * t == 2 * d * (bx * ux) + 2 * d * (by * uy)) by (nonlinear_arith)
        requires
            t == bx * ux + by * uy,
    ;
}

/// Moving the scaled center by `a * d` leaves the scaled offset of `p`
/// unchanged once `p` is moved by `a` too.
proof fn lemma_shift(px: int, ax: int, d: int, ux: int)
    by (nonlinear_arith)
    ensures
        px * d - (ax * d + ux) == (px - ax) * d - ux,
{
}

/// The circumcircle of three points. Fails exactly when they are collinear;
/// otherwise the circle passes through all three, over the denominator
/// `2 * |orient(p1, p2, p3)|`.
pub fn circle_through_3_points(p1: Point, p2: Point, p3: Point) -> (r: Result<Circle, CircleError>)
    requires
        p1.wf(),
        p2.wf(),
        p3.wf(),
    ensures
        r is Err <==> orient(p1, p2, p3) == 0,
        r matches Err(e) ==> e == CircleError::DegenerateGeometry,
        r matches Ok(c) ==> {
            &&& c.wf()
            &&& c.denom == circumcircle_denom(p1, p2, p3)
            &&& c.passes_through(p1)
            &&& c.passes_through(p2)
            &&& c.passes_through(p3)
        },
{
    let o = orient2d(p1, p2, p3);
    if o == 0 {
        return Err(CircleError::DegenerateGeometry);
    }
    let ghost e: int = 2 * COORD_LIMIT;
    proof {
        lemma_mul_bound(p1.x - p3.x, p2.y - p3.y, e, e);
        lemma_mul_bound(p1.y - p3.y, p2.x - p3.x, e, e);
    }
    let bx = (p2.x - p1.x) as i128;
    let by = (p2.y - p1.y) as i128;
    let cx = (p3.x - p1.x) as i128;
    let cy = (p3.y - p1.y) as i128;
    proof {
        lemma_mul_bound(bx as int, bx as int, e, e);
        lemma_mul_bound(by as int, by as int, e, e);
        lemma_mul_bound(cx as int, cx as int, e, e);
        lemma_mul_bound(cy as int, cy as int, e, e);
    }
    let bb = bx * bx + by * by;
    let cc = cx * cx + cy * cy;
    let ghost s2: int = 2 * e * e;
    proof {
        lemma_mul_bound(cy as int, bb as int, e, s2);
        lemma_mul_bound(by as int, cc as int, e, s2);
        lemma_mul_bound(bx as int, cc as int, e, s2);
        lemma_mul_bound(cx as int, bb as int, e, s2);
    }
    let mut d = 2 * (o as i128);
    let mut ux = cy * bb - by * cc;
    let mut uy = bx * cc - cx * bb;
    let ghost mut s: int = 1;
    if d < 0 {
        d = -d;
        ux = -ux;
        uy = -uy;
        proof {
            s = -1;
        }
    }
    let ghost u: int = 2 * e * s2;
    proof {
        lemma_mul_bound(p1.x as int, d as int, COORD_LIMIT as int, DENOM_LIMIT as int);
        lemma_mul_bound(p1.y as int, d as int, COORD_LIMIT as int, DENOM_LIMIT as int);
        lemma_mul_bound(ux as int, ux as int, u, u);
        lemma_mul_bound(uy as int, uy as int, u, u);
    }
    let center_x = (p1.x as i128) * d + ux;
    let center_y = (p1.y as i128) * d + uy;
    let radius_sq = ux * ux + uy * uy;
    let c = Circle { center_x, center_y, denom: d, radius_sq };
    proof {
        assert(o == bx * cy - by * cx) by (nonlinear_arith)
            requires
                o == (p1.x - p3.x) * (p2.y - p3.y) - (p1.y - p3.y) * (p2.x - p3.x),
                bx == p2.x - p1.x,
                by == p2.y - p1.y,
                cx == p3.x - p1.x,
                cy == p3.y - p1.y,
        ;
        lemma_circumcenter_equidistant(
            bx as int,
            by as int,
            cx as int,
            cy as int,
            s,
            d as int,
            ux as int,
            uy as int,
        );
        lemma_circumcenter_equidistant(
            cx as int,
            cy as int,
            bx as int,
            by as int,
            -s,
            d as int,
            ux as int,
            uy as int,
        );
        lemma_shift(p1.x as int, p1.x as int, d as int, ux as int);
        lemma_shift(p1.y as int, p1.y as int, d as int, uy as int);
        lemma_shift(p2.x as int, p1.x as int, d as int, ux as int);
        lemma_shift(p2.y as int, p1.y as int, d as int, uy as int);
        lemma_shift(p3.x as int, p1.x as int, d as int, ux as int);
        lemma_shift(p3.y as int, p1.y as int, d as int, uy as int);
        assert((0 * d - ux) * (0 * d - ux) + (0 * d - uy) * (0 * d - uy) == radius_sq)
            by (nonlinear_arith)
            requires
                radius_sq == ux * ux + uy * uy,
        ;
        assert(c.wf());
        assert(c.passes_through(p1));
        assert(c.passes_through(p2));
        assert(c.passes_through(p3));
    }
    Ok(c)
}

} // verus!

verus! {

/// The circle that a support set of up to three points determines: none
/// gives the zero circle at the origin, one point a zero circle at that
/// point, two points the circle on their diameter, and three points their
/// circumcircle, which fails exactly when they are collinear. Every support
/// point lies on the circle that is returned.
pub fn circle_from(points: &[Point]) -> (r: Result<Circle, CircleError>)
    requires
        points@.len() <= 3,
        all_wf(points@),
    ensures
        points@.len() == 0 ==> r == Ok::<Circle, CircleError>(origin_circle()),
        points@.len() == 1 ==> r == Ok::<Circle, CircleError>(point_circle(points@[0])),
        points@.len() == 2 ==> r == Ok::<Circle, CircleError>(
            diameter_circle(points@[0], points@[1]),
        ),
        points@.len() == 3 ==> (r is Err <==> orient(points@[0], points@[1], points@[2]) == 0),
        is_circle_of(r, points@),
        r matches Err(e) ==> e == CircleError::DegenerateGeometry,
        r matches Ok(c) ==> c.wf() && forall|k: int|
            0 <= k < points@.len() ==> c.passes_through(#[trigger] points@[k]),
{
    if points.len() == 0 {
        Ok(Circle { center_x: 0, center_y: 0, denom: 1, radius_sq: 0 })
    } else if points.len() == 1 {
        let p = points[0];
        assert(p.wf());
        let c = Circle { center_x: p.x as i128, center_y: p.y as i128, denom: 1, radius_sq: 0 };
        assert(c.offset_sq(p) == 0) by (nonlinear_arith)
            requires
                c.denom == 1,
                c.center_x == p.x,
                c.center_y == p.y,
        ;
        assert(c.passes_through(points@[0]));
        assert forall|k: int| 0 <= k < points@.len() implies c.passes_through(
            #[trigger] points@[k],
        ) by {
            assert(k == 0);
        }
        Ok(c)
    } else if points.len() == 2 {
        let a = points[0];
        let b = points[1];
        assert(a.wf() && b.wf());
        let c = Circle {
            center_x: (a.x + b.x) as i128,
            center_y: (a.y + b.y) as i128,
            denom: 2,
            radius_sq: a.distance_squared_to(&b) as i128,
        };
        proof {
            assert((b.x - a.x) * (b.x - a.x) + (b.y - a.y) * (b.y - a.y) == dist_sq(a, b))
                by (nonlinear_arith);
            assert(c.passes_through(points@[0]));
            assert(c.passes_through(points@[1]));
            assert forall|k: int| 0 <= k < points@.len() implies c.passes_through(
                #[trigger] points@[k],
            ) by {
                assert(k == 0 || k == 1);
            }
        }
        Ok(c)
    } else {
        assert(points@[0].wf() && points@[1].wf() && points@[2].wf());
        let r = circle_through_3_points(points[0], points[1], points[2]);
        proof {
            if let Ok(c) = r {
                assert forall|k: int| 0 <= k < points@.len() implies c.passes_through(
                    #[trigger] points@[k],
                ) by {
                    assert(k == 0 || k == 1 || k == 2);
                }
            }
        }
        r
    }
}

} // verus!
