use vstd::prelude::*;
use rand::rngs::StdRng;
use rand::seq::SliceRandom;
use crate::circle::{circle_from, diameter_circle, is_circle_of, lemma_diameter_circle_is_smallest, lemma_diameter_test_matches_circle, radius_at_least, origin_circle, point_circle, Circle, CircleError};
use crate::containment::{all_wf, boundary_encloses};
use crate::geometry::{dist_sq, orient, Point};
use crate::welzl::{scan_result, support_points, valid_support, welzl};

verus! {

/// rand's standard seedable generator, carried through without looking inside.
#[verifier::external_type_specification]
#[verifier::external_body]
pub struct ExStdRng(StdRng);

/// Relies on rand's `SliceRandom::shuffle`, which reorders the slice in
/// place by swapping elements: the result is a permutation of the input.
#[verifier::external_body]
fn shuffle_points(points: &mut Vec<Point>, rng: &mut StdRng)
    ensures
        final(points)@.to_multiset() == old(points)@.to_multiset(),
{
    points.shuffle(rng);
}

/// Two sequences of two points that hold the same points hold them in the
/// same order or swapped.
proof fn lemma_pair_reordered(a: Seq<Point>, b: Seq<Point>)
    requires
        a.len() == 2,
        b.len() == 2,
        forall|x: Point| a.contains(x) <==> b.contains(x),
    ensures
        (b[0] == a[0] && b[1] == a[1]) || (b[0] == a[1] && b[1] == a[0]),
{
    assert(a.contains(a[0]) && a.contains(a[1]) && b.contains(b[0]) && b.contains(b[1]));
    assert(b.contains(a[0]) && b.contains(a[1]) && a.contains(b[0]) && a.contains(b[1]));
}

/// The circle on a diameter does not depend on the order of its endpoints.
proof fn lemma_diameter_symmetric(a: Point, b: Point)
    ensures
        diameter_circle(a, b) == diameter_circle(b, a),
{
    assert(dist_sq(a, b) == dist_sq(b, a)) by (nonlinear_arith);
}

/// A circle built from a support set of at most two points contains every
/// point that is in the set or passes the containment test against it.
proof fn lemma_small_support_encloses(p: Point, bd: Seq<Point>, c: Circle)
    requires
        p.wf(),
        all_wf(bd),
        bd.len() <= 2,
        is_circle_of(Ok(c), bd),
        bd.contains(p) || boundary_encloses(p, bd),
    ensures
        c.contains(p),
{
    if bd.len() == 2 {
        assert(bd[0].wf() && bd[1].wf());
        lemma_diameter_test_matches_circle(p, bd[0], bd[1]);
    } else if bd.len() == 1 {
        assert(p == bd[0]);
        assert(c.offset_sq(p) == 0) by (nonlinear_arith)
            requires
                c.denom == 1,
                c.center_x == p.x,
                c.center_y == p.y,
        ;
    }
}

/// `s` is a support set taken from `pts`: at most three of its points, and
/// at least one unless `pts` is empty.
pub open spec fn drawn_from(s: Seq<Point>, pts: Seq<Point>) -> bool {
    &&& s.len() <= 3
    &&& (pts.len() > 0 <==> s.len() > 0)
    &&& forall|k: int| 0 <= k < s.len() ==> pts.contains(#[trigger] s[k])
}

/// The minimum enclosing circle of `points`, found by the incremental scan
/// over a random permutation drawn from `rng`. An empty input gives the
/// zero circle at the origin, one point the zero circle at that point, and
/// two points the circle on their diameter. Otherwise the circle passes
/// through every point of a support set of two or three input points; the
/// one failure is a final support set of three collinear input points. In
/// every case the result is exactly the circle of the support set with which
/// the scan ends on some permutation of the input. When that set has at most
/// two points the circle contains every input point, and when it has two, no
/// circle that contains every input point is smaller.
pub fn get_min_enclosing_circle(points: Vec<Point>, rng: &mut StdRng) -> (r: Result<
    Circle,
    CircleError,
>)
    requires
        all_wf(points@),
    ensures
        points@.len() == 0 ==> r == Ok::<Circle, CircleError>(origin_circle()),
        points@.len() == 1 ==> r == Ok::<Circle, CircleError>(point_circle(points@[0])),
        points@.len() == 2 ==> r == Ok::<Circle, CircleError>(
            diameter_circle(points@[0], points@[1]),
        ),
        r matches Ok(c) ==> c.wf() && exists|s: Seq<Point>|
            {
                &&& drawn_from(s, points@)
                &&& forall|k: int| 0 <= k < s.len() ==> c.passes_through(#[trigger] s[k])
            },
        r matches Err(e) ==> e == CircleError::DegenerateGeometry && exists|s: Seq<Point>|
            {
                &&& drawn_from(s, points@)
                &&& s.len() == 3
                &&& orient(s[0], s[1], s[2]) == 0
            },
        exists|q: Seq<Point>, s: Seq<usize>|
            {
                &&& q.to_multiset() == points@.to_multiset()
                &&& scan_result(q, s)
                &&& valid_support(s, q.len())
                &&& is_circle_of(r, support_points(q, s))
                &&& (s.len() < 3 ==> (r matches Ok(c) ==> forall|k: int|
                    0 <= k < points@.len() ==> c.contains(#[trigger] points@[k])))
                &&& (s.len() == 2 ==> (r matches Ok(c) ==> forall|c2: Circle|
                    c2.denom > 0 && (forall|k: int|
                        0 <= k < points@.len() ==> c2.contains(#[trigger] points@[k]))
                        ==> #[trigger] radius_at_least(c2, c)))
            },
{
    let ghost orig = points@;
    let mut pts = points;
    shuffle_points(&mut pts, rng);
    proof {
        broadcast use vstd::seq_lib::group_to_multiset_ensures;

        assert(pts@.to_multiset().len() == orig.to_multiset().len());
        assert(pts@.len() == orig.len());
        assert forall|x: Point| pts@.contains(x) implies orig.contains(x) by {
            assert(pts@.to_multiset().count(x) > 0);
            assert(orig.to_multiset().count(x) > 0);
        }
        assert forall|x: Point| orig.contains(x) implies pts@.contains(x) by {
            assert(orig.to_multiset().count(x) > 0);
            assert(pts@.to_multiset().count(x) > 0);
        }
        assert forall|k: int| 0 <= k < pts@.len() implies #[trigger] pts@[k].wf() by {
            assert(pts@.contains(pts@[k]));
            assert(orig.contains(pts@[k]));
            let j = choose|j: int| 0 <= j < orig.len() && orig[j] == pts@[k];
            assert(orig[j].wf());
        }
    }
    let ghost shuffled = pts@;
    let ghost n_pts: usize = pts.len();
    let support = welzl(pts);
    let ghost s = choose|s: Seq<usize>|
        {
            &&& scan_result(shuffled, s)
            &&& valid_support(s, shuffled.len())
            &&& (shuffled.len() > 0 <==> s.len() > 0)
            &&& (shuffled.len() >= 2 ==> s.len() >= 2)
            &&& support@ == support_points(shuffled, s)
            &&& (s.len() < 3 ==> forall|k: int|
                0 <= k < shuffled.len() ==> s.contains(k as usize) || boundary_encloses(
                    #[trigger] shuffled[k],
                    support@,
                ))
        };
    proof {
        assert forall|k: int| 0 <= k < support@.len() implies orig.contains(
            #[trigger] support@[k],
        ) by {
            assert(s[k] < shuffled.len());
            assert(shuffled.contains(shuffled[s[k] as int]));
        }
        assert(drawn_from(support@, orig));
        assert forall|k: int| 0 <= k < support@.len() implies #[trigger] support@[k].wf() by {
            assert(shuffled[s[k] as int].wf());
        }
        if orig.len() == 1 {
            assert(s[0] == 0);
            assert(s.len() == 1) by {
                if s.len() > 1 {
                    assert(s[0] > s[1]);
                }
            }
            assert(orig.contains(shuffled[0]));
            assert(support@[0] == orig[0]);
        }
        if orig.len() == 2 {
            assert(s.len() == 2) by {
                if s.len() > 2 {
                    assert(s[0] > s[1] && s[1] > s[2]);
                }
            }
            assert(s[0] > s[1]);
            assert(support@[0] == shuffled[1] && support@[1] == shuffled[0]);
            lemma_pair_reordered(orig, shuffled);
            lemma_diameter_symmetric(orig[0], orig[1]);
        }
    }
    let r = circle_from(support.as_slice());
    proof {
        if r is Ok && s.len() < 3 {
            let c = r->Ok_0;
            assert forall|k: int| 0 <= k < orig.len() implies c.contains(#[trigger] orig[k]) by {
                assert(orig.contains(orig[k]));
                assert(shuffled.contains(orig[k]));
                assert(shuffled.len() == n_pts);
                let j = choose|j: int| 0 <= j < shuffled.len() && shuffled[j] == orig[k];
                assert(s.contains(j as usize) || boundary_encloses(shuffled[j], support@));
                if s.contains(j as usize) {
                    let m = choose|m: int| 0 <= m < s.len() && s[m] == j as usize;
                    assert(s[m] as int == j);
                    assert(support@[m] == shuffled[s[m] as int]);
                    assert(support@[m] == orig[k]);
                    assert(support@.contains(orig[k]));
                }
                lemma_small_support_encloses(orig[k], support@, c);
            }
        }
        if r is Ok && s.len() == 2 {
            let c = r->Ok_0;
            assert forall|c2: Circle|
                c2.denom > 0 && (forall|k: int|
                    0 <= k < orig.len() ==> c2.contains(#[trigger] orig[k])) implies
                #[trigger] radius_at_least(c2, c) by {
                assert(orig.contains(support@[0]) && orig.contains(support@[1]));
                let k0 = choose|k: int| 0 <= k < orig.len() && orig[k] == support@[0];
                let k1 = choose|k: int| 0 <= k < orig.len() && orig[k] == support@[1];
                assert(c2.contains(orig[k0]) && c2.contains(orig[k1]));
                lemma_diameter_circle_is_smallest(support@[0], support@[1], c2);
            }
        }
    }
    r
}

} // verus!
