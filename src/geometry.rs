use vstd::prelude::*;

verus! {

/// Largest magnitude of a coordinate. The bound keeps every determinant used
/// by the library, up to the sixth degree in the coordinates, inside `i128`.
pub const COORD_LIMIT: i64 = 262144;

/// A point of the integer grid.
#[derive(Clone, Copy, Debug, PartialEq, Eq)]
pub struct Point {
    pub x: i64,
    pub y: i64,
}

impl Point {
    /// Both coordinates lie within `COORD_LIMIT` of the origin.
    pub open spec fn wf(self) -> bool {
        -COORD_LIMIT <= self.x <= COORD_LIMIT && -COORD_LIMIT <= self.y <= COORD_LIMIT
    }

    /// Squared Euclidean distance to `other`.
    pub fn distance_squared_to(&self, other: &Point) -> (r: i64)
        requires
            self.wf(),
            other.wf(),
        ensures
            r == dist_sq(*self, *other),
    {
        let dx = self.x - other.x;
        let dy = self.y - other.y;
        proof {
            lemma_mul_bound(dx as int, dx as int, 2 * COORD_LIMIT, 2 * COORD_LIMIT);
            lemma_mul_bound(dy as int, dy as int, 2 * COORD_LIMIT, 2 * COORD_LIMIT);
        }
        dx * dx + dy * dy
    }
}

/// Squared Euclidean distance between two points.
pub open spec fn dist_sq(p: Point, q: Point) -> int {
    (p.x - q.x) * (p.x - q.x) + (p.y - q.y) * (p.y - q.y)
}

/// Twice the signed area of the triangle `(a, b, c)`: positive when the
/// three points turn counter-clockwise, negative when clockwise, zero when
/// they are collinear.
pub open spec fn orient(a: Point, b: Point, c: Point) -> int {
    (a.x - c.x) * (b.y - c.y) - (a.y - c.y) * (b.x - c.x)
}

/// The in-circle determinant of `d` against `(a, b, c)`, each point
/// translated so that `d` is the origin. For `(a, b, c)` counter-clockwise
/// it is positive when `d` lies strictly inside their circumcircle, zero on
/// it and negative outside.
pub open spec fn incircle_det(a: Point, b: Point, c: Point, d: Point) -> int {
    let adx = a.x - d.x;
    let ady = a.y - d.y;
    let bdx = b.x - d.x;
    let bdy = b.y - d.y;
    let cdx = c.x - d.x;
    let cdy = c.y - d.y;
    let adist = adx * adx + ady * ady;
    let bdist = bdx * bdx + bdy * bdy;
    let cdist = cdx * cdx + cdy * cdy;
    adx * (bdy * cdist - cdy * bdist) - ady * (bdx * cdist - cdx * bdist) + adist * (bdx * cdy
        - bdy * cdx)
}

/// Bounds a product by the product of the bounds of its factors.
pub proof fn lemma_mul_bound(a: int, b: int, ba: int, bb: int)
    by (nonlinear_arith)
    requires
        -ba <= a <= ba,
        -bb <= b <= bb,
    ensures
        -(ba * bb) <= a * b <= ba * bb,
{
}

/// The orientation of `(a, b, c)`, computed exactly.
pub fn orient2d(a: Point, b: Point, c: Point) -> (r: i64)
    requires
        a.wf(),
        b.wf(),
        c.wf(),
    ensures
        r == orient(a, b, c),
{
    let acx = a.x - c.x;
    let acy = a.y - c.y;
    let bcx = b.x - c.x;
    let bcy = b.y - c.y;
    proof {
        lemma_mul_bound(acx as int, bcy as int, 2 * COORD_LIMIT, 2 * COORD_LIMIT);
        lemma_mul_bound(acy as int, bcx as int, 2 * COORD_LIMIT, 2 * COORD_LIMIT);
    }
    acx * bcy - acy * bcx
}

/// Whether `d` lies inside or on the circle through `a`, `b`, `c`, which
/// are expected in counter-clockwise order: the in-circle determinant is
/// not negative.
pub fn incircle(a: Point, b: Point, c: Point, d: Point) -> (r: bool)
    requires
        a.wf(),
        b.wf(),
        c.wf(),
        d.wf(),
    ensures
        r == (incircle_det(a, b, c, d) >= 0),
{
    let adx = (a.x - d.x) as i128;
    let ady = (a.y - d.y) as i128;
    let bdx = (b.x - d.x) as i128;
    let bdy = (b.y - d.y) as i128;
    let cdx = (c.x - d.x) as i128;
    let cdy = (c.y - d.y) as i128;
    let ghost e: int = 2 * COORD_LIMIT;
    proof {
        lemma_mul_bound(adx as int, adx as int, e, e);
        lemma_mul_bound(ady as int, ady as int, e, e);
        lemma_mul_bound(bdx as int, bdx as int, e, e);
        lemma_mul_bound(bdy as int, bdy as int, e, e);
        lemma_mul_bound(cdx as int, cdx as int, e, e);
        lemma_mul_bound(cdy as int, cdy as int, e, e);
    }
    let adist = adx * adx + ady * ady;
    let bdist = bdx * bdx + bdy * bdy;
    let cdist = cdx * cdx + cdy * cdy;
    let ghost s: int = 2 * e * e;
    proof {
        lemma_mul_bound(bdy as int, cdist as int, e, s);
        lemma_mul_bound(cdy as int, bdist as int, e, s);
        lemma_mul_bound(bdx as int, cdist as int, e, s);
        lemma_mul_bound(cdx as int, bdist as int, e, s);
        lemma_mul_bound(bdx as int, cdy as int, e, e);
        lemma_mul_bound(bdy as int, cdx as int, e, e);
    }
    let m1 = bdy * cdist - cdy * bdist;
    let m2 = bdx * cdist - cdx * bdist;
    let m3 = bdx * cdy - bdy * cdx;
    proof {
        lemma_mul_bound(adx as int, m1 as int, e, 2 * e * s);
        lemma_mul_bound(ady as int, m2 as int, e, 2 * e * s);
        lemma_mul_bound(adist as int, m3 as int, s, 2 * e * e);
    }
    let det = adx * m1 - ady * m2 + adist * m3;
    det >= 0
}

} // verus!
