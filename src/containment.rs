use vstd::prelude::*;
use crate::geometry::{incircle, incircle_det, orient, orient2d, dist_sq, Point, COORD_LIMIT, lemma_mul_bound};

verus! {

/// Whether `p` lies inside or on the circle whose diameter is `a`–`b`,
/// scaled by four so that the midpoint stays on the grid.
pub open spec fn in_diameter_circle(p: Point, a: Point, b: Point) -> bool {
    let ex = 2 * p.x - a.x - b.x;
    let ey = 2 * p.y - a.y - b.y;
    ex * ex + ey * ey <= dist_sq(a, b)
}

/// Whether `p` counts as enclosed by the circle that a boundary of up to
/// three points determines. An empty or one-point boundary encloses
/// nothing, two points span a diameter, and three points span their
/// circumcircle unless they are collinear, in which case nothing is
/// enclosed.
pub open spec fn boundary_encloses(p: Point, bd: Seq<Point>) -> bool {
    if bd.len() == 2 {
        in_diameter_circle(p, bd[0], bd[1])
    } else if bd.len() == 3 {
        let o = orient(bd[0], bd[1], bd[2]);
        if o == 0 {
            false
        } else if o > 0 {
            incircle_det(bd[0], bd[1], bd[2], p) >= 0
        } else {
            incircle_det(bd[2], bd[1], bd[0], p) >= 0
        }
    } else {
        false
    }
}

/// Every point of `s` lies on the grid within the coordinate bound.
pub open spec fn all_wf(s: Seq<Point>) -> bool {
    forall|k: int| 0 <= k < s.len() ==> #[trigger] s[k].wf()
}

/// The containment test of `p` against a boundary of at most three points.
pub fn point_in_circle(p: Point, boundary: &[Point]) -> (r: bool)
    requires
        p.wf(),
        boundary@.len() <= 3,
        all_wf(boundary@),
    ensures
        r == boundary_encloses(p, boundary@),
{
    if boundary.len() == 2 {
        let a = boundary[0];
        let b = boundary[1];
        assert(boundary@[0].wf() && boundary@[1].wf());
        let ex = 2 * p.x - a.x - b.x;
        let ey = 2 * p.y - a.y - b.y;
        let ghost e: int = 4 * COORD_LIMIT;
        proof {
            lemma_mul_bound(ex as int, ex as int, e, e);
            lemma_mul_bound(ey as int, ey as int, e, e);
        }
        ex * ex + ey * ey <= a.distance_squared_to(&b)
    } else if boundary.len() == 3 {
        let a = boundary[0];
        let b = boundary[1];
        let c = boundary[2];
        assert(boundary@[0].wf() && boundary@[1].wf() && boundary@[2].wf());
        let o = orient2d(a, b, c);
        if o == 0 {
            false
        } else if o > 0 {
            incircle(a, b, c, p)
        } else {
            incircle(c, b, a, p)
        }
    } else {
        false
    }
}

} // verus!
