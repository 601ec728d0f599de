use rand::rngs::StdRng;
use rand::{Rng, SeedableRng};
use smallest_enclosing_circle::{
    circle_from, circle_through_3_points, get_min_enclosing_circle, incircle, is_in_circle,
    orient2d, point_in_circle, welzl, welzl_indices, Circle, CircleError, Point, COORD_LIMIT,
};

fn pt(x: i64, y: i64) -> Point {
    Point { x, y }
}

fn center_f64(c: &Circle) -> (f64, f64) {
    (c.center_x as f64 / c.denom as f64, c.center_y as f64 / c.denom as f64)
}

fn radius_f64(c: &Circle) -> f64 {
    (c.radius_sq as f64).sqrt() / c.denom as f64
}

fn mec(points: &[Point], seed: u64) -> Result<Circle, CircleError> {
    let mut rng = StdRng::seed_from_u64(seed);
    get_min_enclosing_circle(points.to_vec(), &mut rng)
}

/// Random grid points: the coordinates of `[-100, 100)` in thousandths.
fn seeded_points(n: usize, seed: u64) -> Vec<Point> {
    let mut rng = StdRng::seed_from_u64(seed);
    (0..n)
        .map(|_| {
            let x: f64 = rng.random_range(-100.0..100.0);
            let y: f64 = rng.random_range(-100.0..100.0);
            pt((x * 1000.0).round() as i64, (y * 1000.0).round() as i64)
        })
        .collect()
}

fn small_points(n: usize, seed: u64, span: i64) -> Vec<Point> {
    let mut rng = StdRng::seed_from_u64(seed);
    (0..n).map(|_| pt(rng.random_range(-span..=span), rng.random_range(-span..=span))).collect()
}

/// Same geometric circle, compared exactly by cross-multiplying.
fn same_circle(a: &Circle, b: &Circle) -> bool {
    a.center_x * b.denom == b.center_x * a.denom
        && a.center_y * b.denom == b.center_y * a.denom
        && a.radius_sq * b.denom * b.denom == b.radius_sq * a.denom * a.denom
}

#[test]
fn test_point_midpoint() {
    let p1 = pt(0, 0);
    let p2 = pt(2, 2);
    let c = circle_from(&[p1, p2]).unwrap();
    assert_eq!(center_f64(&c), (1.0, 1.0));
}

#[test]
fn test_point_distance() {
    let p1 = pt(0, 0);
    let p2 = pt(3, 4);
    assert_eq!(p1.distance_squared_to(&p2), 25);
    assert_eq!((p1.distance_squared_to(&p2) as f64).sqrt(), 5.0);
}

#[test]
fn test_circle_through_3_points() {
    let p1 = pt(0, -1);
    let p2 = pt(1, 0);
    let p3 = pt(0, 1);
    let circle = circle_through_3_points(p1, p2, p3).unwrap();
    let (cx, cy) = center_f64(&circle);
    assert!((cx - 0.0).abs() < 1e-6);
    assert!((cy - 0.0).abs() < 1e-6);
    assert!((radius_f64(&circle) - 1.0).abs() < 1e-6);
}

#[test]
fn test_is_in_circle() {
    // The unit circle and the points (0.5, 0.5), (2, 2), on a grid of halves.
    let c = Circle { center_x: 0, center_y: 0, denom: 1, radius_sq: 4 };
    let inside = pt(1, 1);
    let outside = pt(4, 4);
    assert!(is_in_circle(inside, &c));
    assert!(!is_in_circle(outside, &c));
}

fn square() -> Vec<Point> {
    vec![pt(1, 0), pt(0, 1), pt(-1, 0), pt(0, -1)]
}

#[test]
fn lib_test_welzl_deterministic() {
    let points = square();
    let circle = mec(&points, 1).unwrap();
    for p in points {
        assert!(is_in_circle(p, &circle));
    }
}

#[test]
fn circle_tests_test_welzl_deterministic() {
    let points = square();
    let circle = mec(&points, 2).unwrap();
    for p in points {
        assert!(is_in_circle(p, &circle));
    }
}

#[test]
fn lib_test_random_points_with_seed() {
    let points = seeded_points(100, 42);
    let circle = mec(&points, 42).unwrap();
    for p in points {
        assert!(is_in_circle(p, &circle));
    }
}

#[test]
fn circle_tests_test_random_points_with_seed() {
    let points = seeded_points(100, 42);
    let circle = mec(&points, 7).unwrap();
    for p in points {
        assert!(is_in_circle(p, &circle));
    }
}

#[test]
fn containment_over_many_sets() {
    for seed in 0..200u64 {
        let n = 1 + (seed as usize % 40);
        let points = small_points(n, seed, if seed % 2 == 0 { 5 } else { 1000 });
        let circle = mec(&points, seed + 1000).unwrap();
        for p in &points {
            assert!(is_in_circle(*p, &circle), "seed {}", seed);
        }
    }
}

#[test]
fn containment_at_the_coordinate_limit() {
    let l = COORD_LIMIT;
    let points = vec![pt(l, l), pt(-l, -l), pt(l, -l), pt(-l, l), pt(0, l), pt(3, -7)];
    let circle = mec(&points, 5).unwrap();
    for p in &points {
        assert!(is_in_circle(*p, &circle));
    }
    assert_eq!(center_f64(&circle), (0.0, 0.0));
    assert_eq!(radius_f64(&circle), ((2 * l * l) as f64).sqrt());
}

#[test]
fn permutation_invariance_over_seeds() {
    for set in 0..20u64 {
        let points = small_points(12, set, 1000);
        let first = mec(&points, 0).unwrap();
        for seed in 1..10u64 {
            let other = mec(&points, seed).unwrap();
            assert!(same_circle(&first, &other), "set {} seed {}", set, seed);
        }
    }
}

#[test]
fn minimality_against_all_small_subsets() {
    for set in 0..60u64 {
        let n = 1 + (set as usize % 8);
        let points = small_points(n, set + 500, 6);
        let best = mec(&points, set).unwrap();
        let mut subsets: Vec<Vec<Point>> = Vec::new();
        for i in 0..n {
            subsets.push(vec![points[i]]);
            for j in (i + 1)..n {
                subsets.push(vec![points[i], points[j]]);
                for k in (j + 1)..n {
                    subsets.push(vec![points[i], points[j], points[k]]);
                }
            }
        }
        for s in subsets {
            if let Ok(c) = circle_from(&s) {
                if points.iter().all(|p| is_in_circle(*p, &c)) {
                    // No enclosing circle through a subset is smaller.
                    assert!(
                        c.radius_sq * best.denom * best.denom >= best.radius_sq * c.denom * c.denom,
                        "set {}",
                        set
                    );
                }
            }
        }
    }
}

#[test]
fn empty_set_has_zero_radius() {
    let c = mec(&[], 3).unwrap();
    assert_eq!(c, Circle { center_x: 0, center_y: 0, denom: 1, radius_sq: 0 });
    assert_eq!(radius_f64(&c), 0.0);
}

#[test]
fn single_point_is_its_own_center() {
    let c = mec(&[pt(5, 5)], 3).unwrap();
    assert_eq!(center_f64(&c), (5.0, 5.0));
    assert_eq!(radius_f64(&c), 0.0);
}

#[test]
fn two_points_span_a_diameter() {
    for seed in 0..5u64 {
        let c = mec(&[pt(0, 0), pt(4, 0)], seed).unwrap();
        assert_eq!(center_f64(&c), (2.0, 0.0));
        assert_eq!(radius_f64(&c), 2.0);
    }
}

#[test]
fn symmetric_square_gives_unit_circle() {
    for seed in 0..10u64 {
        let c = mec(&square(), seed).unwrap();
        let (cx, cy) = center_f64(&c);
        assert!(cx.abs() < 1e-9 && cy.abs() < 1e-9);
        assert!((radius_f64(&c) - 1.0).abs() < 1e-9);
    }
}

#[test]
fn collinear_triple_gives_the_extreme_pair_circle() {
    for seed in 0..10u64 {
        let c = mec(&[pt(0, 0), pt(1, 1), pt(2, 2)], seed).unwrap();
        assert_eq!(center_f64(&c), (1.0, 1.0));
        assert!((radius_f64(&c) - 2f64.sqrt()).abs() < 1e-12);
        assert!(is_in_circle(pt(0, 0), &c) && is_in_circle(pt(2, 2), &c));
    }
}

#[test]
fn collinear_support_is_degenerate_geometry() {
    assert_eq!(
        circle_through_3_points(pt(0, 0), pt(1, 1), pt(2, 2)),
        Err(CircleError::DegenerateGeometry)
    );
    assert_eq!(circle_from(&[pt(3, 0), pt(1, 0), pt(-5, 0)]), Err(CircleError::DegenerateGeometry));
}

#[test]
fn circumcircle_exact_values() {
    let c = circle_through_3_points(pt(0, 0), pt(4, 0), pt(0, 2)).unwrap();
    // Center (2, 1), squared radius 5, over the denominator 2 * |orient| = 16.
    assert_eq!(c, Circle { center_x: 32, center_y: 16, denom: 16, radius_sq: 5 * 256 });
    let clockwise = circle_through_3_points(pt(0, 2), pt(4, 0), pt(0, 0)).unwrap();
    assert_eq!(clockwise.denom, 16);
    assert!(same_circle(&c, &clockwise));
}

#[test]
fn circle_from_small_sets() {
    assert_eq!(circle_from(&[]).unwrap(), Circle { center_x: 0, center_y: 0, denom: 1, radius_sq: 0 });
    assert_eq!(
        circle_from(&[pt(-3, 7)]).unwrap(),
        Circle { center_x: -3, center_y: 7, denom: 1, radius_sq: 0 }
    );
    assert_eq!(
        circle_from(&[pt(1, 1), pt(4, 5)]).unwrap(),
        Circle { center_x: 5, center_y: 6, denom: 2, radius_sq: 25 }
    );
}

#[test]
fn orientation_signs() {
    assert_eq!(orient2d(pt(0, 0), pt(1, 0), pt(0, 1)), 1);
    assert_eq!(orient2d(pt(0, 1), pt(1, 0), pt(0, 0)), -1);
    assert_eq!(orient2d(pt(0, 0), pt(1, 1), pt(2, 2)), 0);
    assert_eq!(orient2d(pt(0, 0), pt(4, 0), pt(0, 3)), 12);
}

#[test]
fn incircle_inside_on_and_outside() {
    let (a, b, c) = (pt(1, 0), pt(0, 1), pt(-1, 0));
    assert!(incircle(a, b, c, pt(0, 0)));
    assert!(incircle(a, b, c, pt(0, -1)));
    assert!(!incircle(a, b, c, pt(1, 1)));
}

#[test]
fn containment_test_by_boundary_size() {
    let p = pt(0, 0);
    assert!(!point_in_circle(p, &[]));
    assert!(!point_in_circle(p, &[pt(0, 0)]));
    assert!(point_in_circle(p, &[pt(-1, 0), pt(1, 0)]));
    assert!(point_in_circle(pt(0, 1), &[pt(-1, 0), pt(1, 0)]));
    assert!(!point_in_circle(pt(1, 1), &[pt(-1, 0), pt(1, 0)]));
    // Either winding of the same triangle gives the same answer.
    assert!(point_in_circle(p, &[pt(1, 0), pt(0, 1), pt(-1, 0)]));
    assert!(point_in_circle(p, &[pt(-1, 0), pt(0, 1), pt(1, 0)]));
    assert!(!point_in_circle(pt(3, 3), &[pt(-1, 0), pt(0, 1), pt(1, 0)]));
    // A collinear boundary encloses nothing.
    assert!(!point_in_circle(pt(1, 0), &[pt(0, 0), pt(1, 0), pt(2, 0)]));
}

#[test]
fn welzl_support_sets() {
    assert!(welzl(Vec::new()).is_empty());
    assert_eq!(welzl(vec![pt(9, 9)]), vec![pt(9, 9)]);
    let points = square();
    let idxs = welzl_indices(&points);
    assert!(!idxs.is_empty() && idxs.len() <= 3);
    assert!(idxs.windows(2).all(|w| w[0] > w[1]));
    let support = welzl(points.clone());
    assert_eq!(support, idxs.iter().map(|&j| points[j]).collect::<Vec<_>>());
}

#[test]
fn scan_ends_with_known_support_sets() {
    assert_eq!(welzl_indices(&square()), vec![2, 0]);
    assert_eq!(welzl_indices(&vec![pt(0, 0), pt(1, 1), pt(2, 2)]), vec![2, 0]);
    assert_eq!(welzl_indices(&vec![pt(1, 1), pt(0, 0), pt(2, 2)]), vec![2, 1]);
    assert_eq!(welzl_indices(&vec![pt(0, 0), pt(4, 0)]), vec![1, 0]);
    assert_eq!(welzl_indices(&vec![pt(7, -2)]), vec![0]);
    assert!(welzl_indices(&Vec::new()).is_empty());
}

#[test]
fn circle_from_three_points_equals_the_circumcircle() {
    let (a, b, c) = (pt(0, 0), pt(4, 0), pt(0, 2));
    assert_eq!(circle_from(&[a, b, c]), circle_through_3_points(a, b, c));
    assert_eq!(circle_from(&[c, b, a]), circle_through_3_points(c, b, a));
}
