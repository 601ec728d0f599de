//! Minimum enclosing circle of a finite set of grid points.
//!
//! Points carry integer coordinates of bounded magnitude, so every predicate
//! (orientation, in-circle, containment) is decided exactly rather than within
//! a tolerance band. Circles are returned with a rational center and a
//! rational squared radius over one common positive denominator.
//!
//! The modules, leaves first: `geometry` (points and the exact predicates),
//! `containment` (the test of a point against a boundary of up to three
//! points), `circle` (explicit circles built from a support set), `welzl`
//! (the incremental scan that finds the support set) and `driver` (shuffle,
//! scan, build).
pub mod circle;
pub mod containment;
pub mod driver;
pub mod geometry;
pub mod welzl;

pub use circle::{circle_from, circle_through_3_points, is_in_circle, Circle, CircleError};
pub use containment::point_in_circle;
pub use driver::get_min_enclosing_circle;
pub use geometry::{incircle, orient2d, Point, COORD_LIMIT};
pub use welzl::{welzl, welzl_indices};
