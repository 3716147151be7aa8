//! The neuromotor pointer engine: Fitts's-Law movement time, eased
//! acceleration, occasional overshoot with correction, and micro-tremor,
//! in the same fixed-point milli-pixel units as the WindMouse engine.

use vstd::prelude::*;

verus! {

use crate::rng::{rand_range_u64, rand_range_i64};
use crate::mouse::{PointM, TrajectoryPoint, MAX_COORD_MILLI, point_in_range, distance_milli,
    log2_milli, spec_log2_milli};

/// Pointer state with a reaction-time gate between movements.
pub struct NeuromotorMouse {
    /// Current horizontal position in milli-pixels.
    pub current_x: i64,
    /// Current vertical position in milli-pixels.
    pub current_y: i64,
    /// When the pointer last moved, in milliseconds since an arbitrary
    /// origin; absent before the first movement.
    pub last_move_ms: Option<u64>,
}

/// The Fitts's-Law movement time in milliseconds: a base of 100 ms plus
/// 200 ms per unit of log2 of the distance-to-target-size ratio plus one.
pub open spec fn spec_fitts_time_ms(ratio_plus_one: nat) -> nat {
    100 + (200 * spec_log2_milli(ratio_plus_one)) / 1000
}

/// Compute the Fitts's-Law movement time for a distance and target size
/// in milli-pixels.
pub fn fitts_time_ms(dist_milli: u64, target_size_milli: u64) -> (r: u64)
    requires
        dist_milli <= 300_000_000,
    ensures
        ({
            let ts = if target_size_milli < 1000 {
                1000u64
            } else {
                target_size_milli
            };
            r == spec_fitts_time_ms((dist_milli / ts + 1) as nat)
        }),
{
    let ts = if target_size_milli < 1000 {
        1000
    } else {
        target_size_milli
    };
    let ratio = dist_milli / ts + 1;
    proof {
        assert(dist_milli / ts <= dist_milli) by (nonlinear_arith)
            requires
                ts >= 1,
        ;
    }
    let lg = log2_milli(ratio);
    100 + (200 * lg) / 1000
}

impl NeuromotorMouse {
    /// A pointer at a starting position.
    pub fn new(start_x: i64, start_y: i64) -> (r: Self)
        ensures
            r.current_x == start_x,
            r.current_y == start_y,
            r.last_move_ms is None,
    {
        NeuromotorMouse { current_x: start_x, current_y: start_y, last_move_ms: None }
    }

    /// Generate an eased path to the target: the point count banded by
    /// distance (8 to 14 under a hundred pixels, 15 to 24 under five
    /// hundred, 25 to 34 beyond), quadratic ease-out toward the goal,
    /// bounded tremor on every point, a 30% chance of overshoot on long
    /// movements, and the pointer state advanced to the target. Every
    /// pause lies in [5, 20] ms and the final point lands within two
    /// pixels of the target on each axis.
    pub fn generate_human_path(&mut self, target_x: i64, target_y: i64, target_size: u64, now_ms: u64) -> (path: Vec<
        TrajectoryPoint,
    >)
        requires
            point_in_range(PointM { x: old(self).current_x, y: old(self).current_y }),
            -MAX_COORD_MILLI <= target_x <= MAX_COORD_MILLI,
            -MAX_COORD_MILLI <= target_y <= MAX_COORD_MILLI,
        ensures
            final(self).current_x == target_x,
            final(self).current_y == target_y,
            final(self).last_move_ms == Some(now_ms),
            ({
                let d2 = crate::mouse::spec_dist2(
                    PointM { x: old(self).current_x, y: old(self).current_y },
                    PointM { x: target_x, y: target_y },
                );
                &&& (d2 < 100_000 * 100_000 ==> 8 <= path@.len() <= 14)
                &&& (100_000 * 100_000 <= d2 < 500_000 * 500_000 ==> 15 <= path@.len() <= 24)
                &&& (500_000 * 500_000 <= d2 ==> 25 <= path@.len() <= 34)
            }),
            path@.len() >= 1,
            forall|k: int| 0 <= k < path@.len() ==> 5 <= (#[trigger] path@[k]).delay_ms <= 20,
            -2000 <= path@.last().x - target_x <= 2000,
            -2000 <= path@.last().y - target_y <= 2000,
    {
        let start = PointM { x: self.current_x, y: self.current_y };
        let end = PointM { x: target_x, y: target_y };
        let dist = distance_milli(start, end);
        let steps: u64 = if dist < 100_000 {
            rand_range_u64(8, 15)
        } else if dist < 500_000 {
            rand_range_u64(15, 25)
        } else {
            rand_range_u64(25, 35)
        };
        let will_overshoot = dist > 200_000 && rand_range_u64(0, 10) < 3;
        let overshoot: i64 = if will_overshoot {
            rand_range_i64(5000, 20_001)
        } else {
            0
        };
        proof {
            if crate::mouse::spec_dist2(start, end) < 100_000 * 100_000 {
                assert(dist < 100_000) by (nonlinear_arith)
                    requires
                        dist * dist <= crate::mouse::spec_dist2(start, end),
                        crate::mouse::spec_dist2(start, end) < 100_000 * 100_000,
                ;
            }
            if crate::mouse::spec_dist2(start, end) < 500_000 * 500_000 {
                assert(dist < 500_000) by (nonlinear_arith)
                    requires
                        dist * dist <= crate::mouse::spec_dist2(start, end),
                        crate::mouse::spec_dist2(start, end) < 500_000 * 500_000,
                ;
            }
            if 100_000 * 100_000 <= crate::mouse::spec_dist2(start, end) {
                assert(dist >= 100_000) by (nonlinear_arith)
                    requires
                        (dist + 1) * (dist + 1) > crate::mouse::spec_dist2(start, end),
                        100_000 * 100_000 <= crate::mouse::spec_dist2(start, end),
                ;
            }
            if 500_000 * 500_000 <= crate::mouse::spec_dist2(start, end) {
                assert(dist >= 500_000) by (nonlinear_arith)
                    requires
                        (dist + 1) * (dist + 1) > crate::mouse::spec_dist2(start, end),
                        500_000 * 500_000 <= crate::mouse::spec_dist2(start, end),
                ;
            }
        }
        let mut path: Vec<TrajectoryPoint> = Vec::new();
        let mut k: u64 = 1;
        while k < steps
            invariant
                steps < 35,
                1 <= k <= steps,
                path@.len() == k - 1,
                point_in_range(start),
                point_in_range(end),
                0 <= overshoot <= 20_000,
                forall|t: int| 0 <= t < path@.len() ==> 5 <= (#[trigger] path@[t]).delay_ms <= 20,
            decreases steps - k,
        {
            // quadratic ease-out: the fraction covered grows as 1-(1-t)^2
            let t_pm: i64 = ((k as i64) * 1000) / (steps as i64);
            proof {
                assert(0 <= t_pm <= 1000) by (nonlinear_arith)
                    requires
                        t_pm as int == (((k as i64) * 1000) as int) / ((steps as i64) as int),
                        0 < k <= steps < 35,
                ;
            }
            let inv: i64 = 1000 - t_pm;
            proof {
                assert(0 <= inv * inv <= 1_000_000) by (nonlinear_arith)
                    requires
                        0 <= inv <= 1000,
                ;
            }
            let ease_pm: i64 = 1000 - (inv * inv) / 1000;
            proof {
                assert(0 <= (inv * inv) / 1000 <= 1000);
            }
            let x = interp(start.x, end.x, ease_pm);
            let y = interp(start.y, end.y, ease_pm);
            let tx = rand_range_i64(-1500, 1501);
            let ty = rand_range_i64(-1500, 1501);
            let over: i64 = if will_overshoot && t_pm > 800 {
                overshoot
            } else {
                0
            };
            let delay = rand_range_u64(5, 21);
            path.push(TrajectoryPoint { x: x + tx + over, y: y + ty + over, delay_ms: delay });
            k += 1;
        }
        // the correction point lands on the target with sub-pixel jitter
        let jx = rand_range_i64(-1000, 1001);
        let jy = rand_range_i64(-1000, 1001);
        path.push(TrajectoryPoint { x: target_x + jx, y: target_y + jy, delay_ms: 10 });
        self.current_x = target_x;
        self.current_y = target_y;
        self.last_move_ms = Some(now_ms);
        path
    }

    /// The pointer's position.
    pub fn position(&self) -> (r: (i64, i64))
        ensures
            r.0 == self.current_x,
            r.1 == self.current_y,
    {
        (self.current_x, self.current_y)
    }

    /// Move the pointer's tracked position.
    pub fn set_position(&mut self, x: i64, y: i64)
        ensures
            final(self).current_x == x,
            final(self).current_y == y,
            final(self).last_move_ms == old(self).last_move_ms,
    {
        self.current_x = x;
        self.current_y = y;
    }

    /// Whether the human reaction time of 50 ms has passed since the last
    /// movement; a pointer that never moved may move at once.
    pub fn can_move(&self, now_ms: u64) -> (r: bool)
        ensures
            r == (match self.last_move_ms {
                Some(t) => t + 50 <= now_ms,
                None => true,
            }),
    {
        match self.last_move_ms {
            Some(t) => {
                if t > u64::MAX - 50 {
                    false
                } else {
                    t + 50 <= now_ms
                }
            },
            None => true,
        }
    }
}

/// Interpolate between two coordinates by a fraction in thousandths.
fn interp(a: i64, b: i64, frac_pm: i64) -> (r: i64)
    requires
        -MAX_COORD_MILLI <= a <= MAX_COORD_MILLI,
        -MAX_COORD_MILLI <= b <= MAX_COORD_MILLI,
        0 <= frac_pm <= 1000,
    ensures
        -MAX_COORD_MILLI <= r <= MAX_COORD_MILLI,
        frac_pm == 1000 ==> r == b,
        frac_pm == 0 ==> r == a,
{
    let diff = b - a;
    let mag: i64 = if diff >= 0 {
        diff
    } else {
        -diff
    };
    proof {
        assert(0 <= (mag / 1000) * frac_pm <= 200_000_000) by (nonlinear_arith)
            requires
                0 <= mag <= 200_000_000,
                0 <= frac_pm <= 1000,
        ;
    }
    proof {
        assert(0 <= (mag % 1000) * frac_pm <= 1_000_000) by (nonlinear_arith)
            requires
                0 <= mag,
                0 <= frac_pm <= 1000,
        ;
    }
    let stepped = (mag / 1000) * frac_pm + ((mag % 1000) * frac_pm) / 1000;
    proof {
        assert(stepped == (mag * frac_pm) / 1000) by (nonlinear_arith)
            requires
                stepped == (mag / 1000) * frac_pm + ((mag % 1000) * frac_pm) / 1000,
                0 <= mag,
                0 <= frac_pm <= 1000,
        ;
        assert(0 <= stepped <= mag) by (nonlinear_arith)
            requires
                stepped == (mag * frac_pm) / 1000,
                0 <= mag,
                0 <= frac_pm <= 1000,
        ;
    }
    if diff >= 0 {
        a + stepped
    } else {
        a - stepped
    }
}

} // verus!
