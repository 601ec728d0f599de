use vstd::prelude::*;
use crate::containment::{all_wf, boundary_encloses, point_in_circle};
use crate::geometry::Point;

verus! {

/// A support set over `n` input points: at most three indices, each below
/// `n`, in strictly decreasing order.
pub open spec fn valid_support(s: Seq<usize>, n: nat) -> bool {
    &&& s.len() <= 3
    &&& forall|k: int| 0 <= k < s.len() ==> #[trigger] s[k] < n
    &&& forall|k: int, l: int| 0 <= k < l < s.len() ==> #[trigger] s[k] > #[trigger] s[l]
}

/// The points that a support set refers to, in its order.
pub open spec fn support_points(points: Seq<Point>, s: Seq<usize>) -> Seq<Point> {
    s.map_values(|j: usize| points[j as int])
}

/// One more than the index at position `k` of the support set, or zero
/// where the set is shorter. The support set only ever grows in the
/// lexicographic order of these slots, which bounds the number of restarts.
pub open spec fn slot(s: Seq<usize>, k: int) -> int {
    if k < s.len() {
        s[k] + 1
    } else {
        0
    }
}

/// Holds of the indices above `i`.
pub open spec fn above(i: int) -> spec_fn(usize) -> bool {
    |j: usize| j > i
}

/// One step of the scan from support set `s` with the cursor at `i`. A
/// point already in the set, or enclosed by the circle that the set
/// determines, moves the cursor on. Any other point joins the set after
/// every index not above it has left; with fewer than three indices the
/// cursor then goes back to the front.
pub open spec fn scan_step(points: Seq<Point>, s: Seq<usize>, i: int) -> (Seq<usize>, int) {
    if s.contains(i as usize) || boundary_encloses(points[i], support_points(points, s)) {
        (s, i + 1)
    } else {
        let t = s.filter(above(i)).push(i as usize);
        (t, if t.len() < 3 {
            0
        } else {
            i + 1
        })
    }
}

/// `trace` is a run of the scan over `points`: it starts from the empty set
/// at the front, each later state is one step from the state before, and
/// only the last state has the cursor past the end.
pub open spec fn is_scan_run(points: Seq<Point>, trace: Seq<(Seq<usize>, int)>) -> bool {
    &&& trace.len() > 0
    &&& trace[0] == (Seq::<usize>::empty(), 0int)
    &&& forall|k: int| 0 <= k < trace.len() - 1 ==> #[trigger] trace[k].1 < points.len()
    &&& forall|k: int|
        0 <= k < trace.len() - 1 ==> #[trigger] trace[k + 1] == scan_step(
            points,
            trace[k].0,
            trace[k].1,
        )
    &&& trace.last().1 == points.len()
}

/// `s` is the support set with which the scan over `points` ends.
pub open spec fn scan_result(points: Seq<Point>, s: Seq<usize>) -> bool {
    exists|trace: Seq<(Seq<usize>, int)>| is_scan_run(points, trace) && trace.last().0 == s
}

/// Whether index `i` is one of the support set's.
fn holds_index(idxs: &Vec<usize>, i: usize) -> (r: bool)
    ensures
        r == idxs@.contains(i),
{
    let mut k: usize = 0;
    while k < idxs.len()
        invariant
            k <= idxs@.len(),
            forall|m: int| 0 <= m < k ==> idxs@[m] != i,
        decreases idxs@.len() - k,
    {
        if idxs[k] == i {
            return true;
        }
        k = k + 1;
    }
    false
}

/// The points that the support set refers to.
fn gather(points: &Vec<Point>, idxs: &Vec<usize>) -> (r: Vec<Point>)
    requires
        valid_support(idxs@, points@.len()),
        all_wf(points@),
    ensures
        r@ == support_points(points@, idxs@),
        all_wf(r@),
        r@.len() <= 3,
{
    let mut r: Vec<Point> = Vec::new();
    let mut k: usize = 0;
    while k < idxs.len()
        invariant
            k <= idxs@.len(),
            valid_support(idxs@, points@.len()),
            all_wf(points@),
            r@ == support_points(points@, idxs@.subrange(0, k as int)),
        decreases idxs@.len() - k,
    {
        let j = idxs[k];
        r.push(points[j]);
        k = k + 1;
        assert(idxs@.subrange(0, k as int) == idxs@.subrange(0, k - 1).push(j));
    }
    assert(idxs@.subrange(0, k as int) == idxs@);
    r
}

/// The move-to-front incremental scan. A cursor walks over the points; a
/// point that is neither in the support set nor enclosed by the circle the
/// set determines joins the set, which first drops every index not above the
/// cursor. The scan restarts from the front whenever the set is left with
/// fewer than three points. Returns the final support set, which is empty
/// exactly when there are no points and holds at least two indices when
/// there are at least two points.
pub fn welzl_indices(points: &Vec<Point>) -> (r: Vec<usize>)
    requires
        all_wf(points@),
    ensures
        scan_result(points@, r@),
        valid_support(r@, points@.len()),
        points@.len() > 0 <==> r@.len() > 0,
        points@.len() >= 2 ==> r@.len() >= 2,
        r@.len() < 3 ==> forall|k: int|
            0 <= k < points@.len() ==> r@.contains(k as usize) || boundary_encloses(
                #[trigger] points@[k],
                support_points(points@, r@),
            ),
{
    let n = points.len();
    let mut idxs: Vec<usize> = Vec::new();
    let mut i: usize = 0;
    let ghost mut trace: Seq<(Seq<usize>, int)> = seq![(Seq::<usize>::empty(), 0int)];
    while i < n
        invariant
            trace.len() > 0,
            trace[0] == (Seq::<usize>::empty(), 0int),
            forall|k: int| 0 <= k < trace.len() - 1 ==> #[trigger] trace[k].1 < points@.len(),
            forall|k: int|
                0 <= k < trace.len() - 1 ==> #[trigger] trace[k + 1] == scan_step(
                    points@,
                    trace[k].0,
                    trace[k].1,
                ),
            trace.last() == (idxs@, i as int),
            n == points@.len(),
            all_wf(points@),
            valid_support(idxs@, n as nat),
            i <= n,
            idxs@.len() == 3 ==> idxs@[2] < i,
            i > 0 ==> idxs@.len() >= 2 || (idxs@ == seq![0usize] && i == 1),
            idxs@.len() < 3 ==> forall|k: int|
                0 <= k < i ==> idxs@.contains(k as usize) || boundary_encloses(
                    #[trigger] points@[k],
                    support_points(points@, idxs@),
                ),
        decreases
            n + 1 - slot(idxs@, 0),
            n + 1 - slot(idxs@, 1),
            n + 1 - slot(idxs@, 2),
            n - i,
    {
        let ghost prev_s = idxs@;
        let ghost prev_i = i as int;
        let mut advance = true;
        let ghost mut passed = true;
        if !holds_index(&idxs, i) {
            let bd = gather(points, &idxs);
            if !point_in_circle(points[i], bd.as_slice()) {
                proof {
                    passed = false;
                }
                let mut kept: Vec<usize> = Vec::new();
                let mut k: usize = 0;
                while k < idxs.len()
                    invariant
                        k <= idxs@.len(),
                        valid_support(idxs@, n as nat),
                        kept@ == idxs@.subrange(0, k as int).filter(above(i as int)),
                        kept@.len() <= k,
                        kept@ == idxs@.subrange(0, kept@.len() as int),
                        forall|m: int| 0 <= m < kept@.len() ==> idxs@[m] > i,
                        forall|m: int| kept@.len() <= m < k ==> idxs@[m] <= i,
                    decreases idxs@.len() - k,
                {
                    let j = idxs[k];
                    proof {
                        assert(idxs@.subrange(0, k + 1) == idxs@.subrange(0, k as int).push(j));
                        idxs@.subrange(0, k as int).lemma_filter_push(j, above(i as int));
                    }
                    if j > i {
                        if kept.len() < k {
                            assert(idxs@[kept@.len() as int] > idxs@[k as int]);
                        }
                        kept.push(j);
                        assert(kept@ == idxs@.subrange(0, kept@.len() as int));
                    }
                    k = k + 1;
                }
                assert(idxs@.subrange(0, k as int) == idxs@);
                let m = kept.len();
                let ghost prev = idxs@;
                kept.push(i);
                idxs = kept;
                proof {
                    assert(m < prev.len() ==> prev[m as int] < i);
                    assert(idxs@ == prev.subrange(0, m as int).push(i));
                    assert(m <= 2);
                    assert(slot(idxs@, m as int) > slot(prev, m as int));
                    assert(forall|l: int| 0 <= l < m ==> slot(idxs@, l) == slot(prev, l));
                }
                if idxs.len() < 3 {
                    i = 0;
                } else {
                    i = i + 1;
                }
                advance = false;
            }
        }
        if advance {
            i = i + 1;
        }
        proof {
            if passed {
                assert(prev_s.contains(prev_i as usize) || boundary_encloses(
                    points@[prev_i],
                    support_points(points@, prev_s),
                ));
            }
            assert(trace.last() == (prev_s, prev_i));
            assert((idxs@, i as int) == scan_step(points@, prev_s, prev_i));
            let old_trace = trace;
            trace = trace.push((idxs@, i as int));
            assert forall|k: int| 0 <= k < trace.len() - 1 implies #[trigger] trace[k].1
                < points@.len() by {
                if k < old_trace.len() - 1 {
                    assert(trace[k] == old_trace[k]);
                } else {
                    assert(trace[k] == old_trace.last());
                }
            }
            assert forall|k: int| 0 <= k < trace.len() - 1 implies #[trigger] trace[k + 1]
                == scan_step(points@, trace[k].0, trace[k].1) by {
                if k < old_trace.len() - 1 {
                    assert(trace[k] == old_trace[k] && trace[k + 1] == old_trace[k + 1]);
                } else {
                    assert(trace[k] == old_trace.last());
                }
            }
        }
    }
    assert(idxs@.len() > 0 ==> idxs@[0] < n);
    assert(is_scan_run(points@, trace));
    idxs
}

/// The points of the support set with which the incremental scan ends: at most
/// three of the input points, taken at strictly decreasing positions; none
/// exactly when the input is empty, and at least two when it has two points
/// or more. When the scan ends on fewer than three support points, every
/// input point is one of them or passes the containment test against them.
pub fn welzl(points: Vec<Point>) -> (r: Vec<Point>)
    requires
        all_wf(points@),
    ensures
        exists|s: Seq<usize>|
            {
                &&& scan_result(points@, s)
                &&& valid_support(s, points@.len())
                &&& (points@.len() > 0 <==> s.len() > 0)
                &&& (points@.len() >= 2 ==> s.len() >= 2)
                &&& r@ == support_points(points@, s)
                &&& (s.len() < 3 ==> forall|k: int|
                    0 <= k < points@.len() ==> s.contains(k as usize) || boundary_encloses(
                        #[trigger] points@[k],
                        r@,
                    ))
            },
{
    let idxs = welzl_indices(&points);
    gather(&points, &idxs)
}

} // verus!
