//! The trajectory engine behind the pointer: a pre-trained model would
//! generate statistically unique paths; without a model file, the
//! physics-based neuromotor engine stands in. No model backend is wired
//! in this build, so the fallback always runs.

use vstd::prelude::*;

verus! {

use crate::mouse::{PointM, TrajectoryPoint, point_in_range};
use crate::ghost_mouse::NeuromotorMouse;

/// A point in milli-pixels with a distance metric.
#[derive(Clone, Copy, Debug, PartialEq, Eq, Structural)]
pub struct Point {
    /// Horizontal coordinate in milli-pixels.
    pub x: i64,
    /// Vertical coordinate in milli-pixels.
    pub y: i64,
}

impl Point {
    /// A point from its coordinates.
    pub fn new(x: i64, y: i64) -> (r: Self)
        ensures
            r.x == x,
            r.y == y,
    {
        Point { x, y }
    }

    /// The Euclidean distance to another point, rounded down, in
    /// milli-pixels.
    pub fn distance_to(&self, other: &Point) -> (r: u64)
        requires
            point_in_range(PointM { x: self.x, y: self.y }),
            point_in_range(PointM { x: other.x, y: other.y }),
        ensures
            r <= 300_000_000,
    {
        crate::mouse::distance_milli(
            PointM { x: self.x, y: self.y },
            PointM { x: other.x, y: other.y },
        )
    }
}

/// The trajectory engine: holds the configured model path; with no model
/// backend in this build, the physics fallback is always used.
pub struct DiffusionMouse {
    /// Configured model path, kept for a future backend.
    pub model_path: Option<String>,
    /// Whether the physics fallback is in use.
    pub use_fallback: bool,
}

impl DiffusionMouse {
    /// Create the engine; no model backend exists in this build, so the
    /// fallback is always selected.
    pub fn new(model_path: Option<String>) -> (r: Self)
        ensures
            r.use_fallback,
            r.model_path == model_path,
    {
        DiffusionMouse { model_path, use_fallback: true }
    }

    /// Whether a model is loaded; never, in this build.
    pub fn has_model(&self) -> (r: bool)
        ensures
            r == false,
    {
        false
    }

    /// The tracked position; the engine itself tracks none.
    pub fn current_position(&self) -> (r: Option<Point>)
        ensures
            r is None,
    {
        None
    }

    /// Generate a trajectory: the physics-based neuromotor path, whose
    /// last point lands within two pixels of the target on each axis.
    pub fn generate_trajectory(&self, start: Point, end: Point, target_size: u64, now_ms: u64) -> (tr: Vec<
        TrajectoryPoint,
    >)
        requires
            point_in_range(PointM { x: start.x, y: start.y }),
            point_in_range(PointM { x: end.x, y: end.y }),
        ensures
            tr@.len() >= 1,
            -2000 <= tr@.last().x - end.x <= 2000,
            -2000 <= tr@.last().y - end.y <= 2000,
    {
        let mut engine = NeuromotorMouse::new(start.x, start.y);
        engine.generate_human_path(end.x, end.y, target_size, now_ms)
    }
}

} // verus!
