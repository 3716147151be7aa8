//! The humanized motor: WindMouse pointer trajectories, Hick's-Law think
//! delays, keystroke cadence, non-linear scrolling, and micro-fidgets.
//!
//! Geometry is fixed-point: coordinates are in thousandths of a pixel, so
//! that sub-pixel drift and tremor stay in integer arithmetic. Callers
//! convert to the pointer's native units at the edge.

use vstd::prelude::*;

verus! {

use crate::rng::{rand_range_u64, rand_range_i64};

/// Milli-pixels per pixel.
pub const MILLI: i64 = 1000;

/// Largest coordinate the motor plans over, in milli-pixels.
pub const MAX_COORD_MILLI: i64 = 100_000_000;

/// A point in milli-pixels.
#[derive(Clone, Copy, Debug, PartialEq, Eq, Structural)]
pub struct PointM {
    /// Horizontal coordinate in milli-pixels.
    pub x: i64,
    /// Vertical coordinate in milli-pixels.
    pub y: i64,
}

/// One emitted trajectory point with the pause that follows it.
#[derive(Clone, Copy, Debug, PartialEq, Eq, Structural)]
pub struct TrajectoryPoint {
    /// Horizontal coordinate in milli-pixels.
    pub x: i64,
    /// Vertical coordinate in milli-pixels.
    pub y: i64,
    /// Pause before the next point, in milliseconds.
    pub delay_ms: u64,
}

/// A point the motor accepts: within the planning range.
pub open spec fn point_in_range(p: PointM) -> bool {
    -MAX_COORD_MILLI <= p.x <= MAX_COORD_MILLI && -MAX_COORD_MILLI <= p.y <= MAX_COORD_MILLI
}

/// Integer square root: the greatest value whose square is within `n`.
pub fn isqrt(n: u64) -> (r: u64)
    ensures
        r * r <= n,
        (r + 1) * (r + 1) > n,
{
    let mut lo: u64 = 0;
    let mut hi: u64 = 0x1_0000_0000;
    proof {
        assert(hi * hi > n) by (nonlinear_arith)
            requires
                hi == 0x1_0000_0000,
                n <= u64::MAX,
        ;
    }
    while lo + 1 < hi
        invariant
            lo < hi <= 0x1_0000_0000,
            lo * lo <= n,
            hi * hi > n,
        decreases hi - lo,
    {
        let mid = lo + (hi - lo) / 2;
        proof {
            assert(lo < mid < hi);
            assert(mid * mid < 0x1_0000_0000 * 0x1_0000_0000) by (nonlinear_arith)
                requires
                    mid < 0x1_0000_0000,
            ;
        }
        if mid * mid <= n {
            lo = mid;
        } else {
            hi = mid;
        }
    }
    lo
}

/// Squared distance between two points in range.
pub open spec fn spec_dist2(a: PointM, b: PointM) -> int {
    (a.x - b.x) * (a.x - b.x) + (a.y - b.y) * (a.y - b.y)
}

/// Euclidean distance in milli-pixels, rounded down.
pub fn distance_milli(a: PointM, b: PointM) -> (r: u64)
    requires
        point_in_range(a),
        point_in_range(b),
    ensures
        r * r <= spec_dist2(a, b),
        (r + 1) * (r + 1) > spec_dist2(a, b),
        r <= 300_000_000,
{
    let dx: u64 = if a.x >= b.x {
        (a.x - b.x) as u64
    } else {
        (b.x - a.x) as u64
    };
    let dy: u64 = if a.y >= b.y {
        (a.y - b.y) as u64
    } else {
        (b.y - a.y) as u64
    };
    proof {
        assert(dx <= 200_000_000 && dy <= 200_000_000);
        assert(dx * dx <= 200_000_000 * 200_000_000) by (nonlinear_arith)
            requires
                dx <= 200_000_000,
        ;
        assert(dy * dy <= 200_000_000 * 200_000_000) by (nonlinear_arith)
            requires
                dy <= 200_000_000,
        ;
        assert(dx * dx == (a.x - b.x) * (a.x - b.x)) by (nonlinear_arith)
            requires
                dx == if a.x >= b.x {
                    a.x - b.x
                } else {
                    b.x - a.x
                },
        ;
        assert(dy * dy == (a.y - b.y) * (a.y - b.y)) by (nonlinear_arith)
            requires
                dy == if a.y >= b.y {
                    a.y - b.y
                } else {
                    b.y - a.y
                },
        ;
    }
    let r = isqrt(dx * dx + dy * dy);
    proof {
        assert(r <= 300_000_000) by (nonlinear_arith)
            requires
                r * r <= 2 * (200_000_000 * 200_000_000),
        ;
    }
    r
}

/// The delays a WindMouse trajectory may carry, in milliseconds.
pub open spec fn windmouse_delay_ok(d: u64) -> bool {
    5 <= d < 15
}

/// A coordinate clamped to the planning range.
pub open spec fn spec_clamp_coord(v: int) -> int {
    if v < -(MAX_COORD_MILLI as int) {
        -(MAX_COORD_MILLI as int)
    } else if v > MAX_COORD_MILLI as int {
        MAX_COORD_MILLI as int
    } else {
        v
    }
}

/// Clamping never spreads two values further apart.
proof fn lemma_clamp_close(a: int, b: int, d: int)
    requires
        -d <= a - b <= d,
        0 <= d,
    ensures
        -d <= spec_clamp_coord(a) - spec_clamp_coord(b) <= d,
{
}

/// A WindMouse trajectory from `start` to `end`: non-empty and bounded in
/// length by the distance band; every pause within the per-step delay
/// band; every hop between consecutive points, the landing hop aside,
/// within the maximum step of ten pixels plus tremor; and the last point
/// within one pixel of the goal on each axis.
pub open spec fn windmouse_trajectory_ok(
    tr: Seq<TrajectoryPoint>,
    start: PointM,
    end: PointM,
) -> bool {
    &&& 1 <= tr.len() <= 52
    &&& (spec_dist2(start, end) < 100_000 * 100_000 ==> tr.len() <= 22)
    &&& (spec_dist2(start, end) < 500_000 * 500_000 ==> tr.len() <= 37)
    &&& (forall|k: int| 0 <= k < tr.len() ==> windmouse_delay_ok(#[trigger] tr[k].delay_ms))
    &&& (forall|k: int|
        0 < k < tr.len() - 1 ==> -11_000 <= (#[trigger] tr[k]).x - tr[k - 1].x <= 11_000
            && -11_000 <= tr[k].y - tr[k - 1].y <= 11_000)
    &&& -MILLI <= tr.last().x - end.x <= MILLI
    &&& -MILLI <= tr.last().y - end.y <= MILLI
}

/// Perturb a click target by the precision-scaled human inaccuracy: the
/// lower the precision, the further the aimed point may drift, up to five
/// pixels at zero precision; the result stays within the planning range.
pub fn perturb_target(end: PointM, precision_permille: u32) -> (r: PointM)
    requires
        point_in_range(end),
        precision_permille <= 1000,
    ensures
        point_in_range(r),
        -(1000 - precision_permille) * 5 <= r.x - end.x <= (1000 - precision_permille) * 5,
        -(1000 - precision_permille) * 5 <= r.y - end.y <= (1000 - precision_permille) * 5,
{
    let max_off: i64 = ((1000 - precision_permille) as i64) * 5;
    let dx = rand_range_i64(-max_off, max_off + 1);
    let dy = rand_range_i64(-max_off, max_off + 1);
    let rx = clamp_coord(end.x + dx);
    let ry = clamp_coord(end.y + dy);
    proof {
        lemma_clamp_close(end.x + dx, end.x as int, max_off as int);
        lemma_clamp_close(end.y + dy, end.y as int, max_off as int);
    }
    PointM { x: rx, y: ry }
}

/// Generate a WindMouse trajectory from `start` to `end`: velocity
/// accumulates a gravity pull toward the goal and a random wind drift, is
/// clamped to a maximum step, and every emitted point carries bounded
/// tremor; near the goal a small overshoot and a correction are emitted,
/// and the trajectory always ends within a pixel of the goal.
///
/// Two calls on the same inputs draw fresh randomness and are expected to
/// differ; the exact shape is random, the frame above holds of every
/// outcome.
pub fn windmouse_trajectory(start: PointM, end: PointM) -> (tr: Vec<TrajectoryPoint>)
    requires
        point_in_range(start),
        point_in_range(end),
    ensures
        windmouse_trajectory_ok(tr@, start, end),
{
    let dist = distance_milli(start, end);
    let steps: u64 = if dist < 100_000 {
        rand_range_u64(10, 20)
    } else if dist < 500_000 {
        rand_range_u64(20, 35)
    } else {
        rand_range_u64(35, 50)
    };
    let wind: i64 = rand_range_i64(0, 10_001);
    let mut tr: Vec<TrajectoryPoint> = Vec::new();
    let mut cx: i64 = start.x;
    let mut cy: i64 = start.y;
    let mut vx: i64 = 0;
    let mut vy: i64 = 0;
    let mut k: u64 = 0;
    while k < steps
        invariant_except_break
            tr@.len() == k,
            k >= 1 ==> tr@.last().x == spec_clamp_coord(cx as int) && tr@.last().y
                == spec_clamp_coord(cy as int),
        invariant
            steps < 50,
            dist < 100_000 ==> steps < 20,
            dist < 500_000 ==> steps < 35,
            dist * dist <= spec_dist2(start, end),
            0 <= wind <= 10_000,
            k <= steps,
            -10_000 <= vx <= 10_000,
            -10_000 <= vy <= 10_000,
            -100_000_000 - (k as int) * 11_000 <= cx <= 100_000_000 + (k as int) * 11_000,
            -100_000_000 - (k as int) * 11_000 <= cy <= 100_000_000 + (k as int) * 11_000,
            point_in_range(end),
            forall|t: int| 0 <= t < tr@.len() ==> windmouse_delay_ok(#[trigger] tr@[t].delay_ms),
            forall|t: int|
                0 < t < tr@.len() ==> -11_000 <= (#[trigger] tr@[t]).x - tr@[t - 1].x <= 11_000
                    && -11_000 <= tr@[t].y - tr@[t - 1].y <= 11_000,
        ensures
            tr@.len() <= steps + 2,
            forall|t: int| 0 <= t < tr@.len() ==> windmouse_delay_ok(#[trigger] tr@[t].delay_ms),
            forall|t: int|
                0 < t < tr@.len() ==> -11_000 <= (#[trigger] tr@[t]).x - tr@[t - 1].x <= 11_000
                    && -11_000 <= tr@[t].y - tr@[t - 1].y <= 11_000,
        decreases steps - k,
    {
        let cur = PointM { x: clamp_coord(cx), y: clamp_coord(cy) };
        let rem = distance_milli(cur, end);
        if rem < 3000 {
            if rem > 1000 {
                proof {
                    assert((cur.x - end.x) * (cur.x - end.x) >= 0 && (cur.y - end.y) * (cur.y
                        - end.y) >= 0) by (nonlinear_arith);
                    assert(spec_dist2(cur, end) < (rem + 1) * (rem + 1));
                    assert((rem + 1) * (rem + 1) <= 3000 * 3000) by (nonlinear_arith)
                        requires
                            rem < 3000,
                    ;
                    assert(-3000 <= cur.x - end.x <= 3000) by (nonlinear_arith)
                        requires
                            (cur.x - end.x) * (cur.x - end.x) < 3000 * 3000,
                    ;
                    assert(-3000 <= cur.y - end.y <= 3000) by (nonlinear_arith)
                        requires
                            (cur.y - end.y) * (cur.y - end.y) < 3000 * 3000,
                    ;
                }
                // overshoot past the goal along the approach, then correct
                let overshoot = rand_range_i64(2000, 4001);
                let ox = clamp_coord(cx + (if end.x >= cx {
                    overshoot
                } else {
                    -overshoot
                }));
                let oy = clamp_coord(cy + (if end.y >= cy {
                    overshoot
                } else {
                    -overshoot
                }));
                proof {
                    lemma_clamp_close(
                        cx + (if end.x >= cx {
                            overshoot as int
                        } else {
                            -(overshoot as int)
                        }),
                        cx as int,
                        overshoot as int,
                    );
                    lemma_clamp_close(
                        cy + (if end.y >= cy {
                            overshoot as int
                        } else {
                            -(overshoot as int)
                        }),
                        cy as int,
                        overshoot as int,
                    );
                }
                let d1 = rand_range_u64(5, 15);
                tr.push(TrajectoryPoint { x: ox, y: oy, delay_ms: d1 });
                let jx = rand_range_i64(-1000, 1001);
                let jy = rand_range_i64(-1000, 1001);
                let d2 = rand_range_u64(5, 15);
                tr.push(TrajectoryPoint { x: end.x + jx, y: end.y + jy, delay_ms: d2 });
            }
            break ;
        }
        let wx = rand_range_i64(-wind, wind + 1);
        let wy = rand_range_i64(-wind, wind + 1);
        // gravity of nine pixels per step, pointed at the goal
        let rem_px: i64 = (rem / 1000) as i64 + 1;
        let gx = gravity_component(end.x - cx, rem_px);
        let gy = gravity_component(end.y - cy, rem_px);
        vx = clamp_step(vx + gx + wx);
        vy = clamp_step(vy + gy + wy);
        let tx = rand_range_i64(-900, 901);
        let ty = rand_range_i64(-900, 901);
        let ghost pcx = cx as int;
        let ghost pcy = cy as int;
        cx = cx + vx + tx;
        cy = cy + vy + ty;
        proof {
            lemma_clamp_close(cx as int, pcx, 10_900);
            lemma_clamp_close(cy as int, pcy, 10_900);
        }
        let delay = rand_range_u64(5, 15);
        tr.push(TrajectoryPoint { x: clamp_coord(cx), y: clamp_coord(cy), delay_ms: delay });
        k += 1;
    }
    // land on the goal with sub-pixel jitter
    let jx = rand_range_i64(-1000, 1001);
    let jy = rand_range_i64(-1000, 1001);
    let d3 = rand_range_u64(5, 15);
    tr.push(TrajectoryPoint { x: end.x + jx, y: end.y + jy, delay_ms: d3 });
    proof {
        if spec_dist2(start, end) < 100_000 * 100_000 {
            assert(dist < 100_000) by (nonlinear_arith)
                requires
                    dist * dist <= spec_dist2(start, end),
                    spec_dist2(start, end) < 100_000 * 100_000,
            ;
        }
        if spec_dist2(start, end) < 500_000 * 500_000 {
            assert(dist < 500_000) by (nonlinear_arith)
                requires
                    dist * dist <= spec_dist2(start, end),
                    spec_dist2(start, end) < 500_000 * 500_000,
            ;
        }
    }
    tr
}

/// Clamp a point to the planning range; a point already in range is
/// returned unchanged.
pub fn clamp_point(p: PointM) -> (r: PointM)
    requires
        -0x4000_0000_0000_0000 <= p.x <= 0x4000_0000_0000_0000,
        -0x4000_0000_0000_0000 <= p.y <= 0x4000_0000_0000_0000,
    ensures
        point_in_range(r),
        point_in_range(p) ==> r == p,
{
    PointM { x: clamp_coord(p.x), y: clamp_coord(p.y) }
}

/// Clamp a coordinate to the planning range.
fn clamp_coord(v: i64) -> (r: i64)
    requires
        -0x4000_0000_0000_0000 <= v <= 0x4000_0000_0000_0000,
    ensures
        r as int == spec_clamp_coord(v as int),
        -MAX_COORD_MILLI <= r <= MAX_COORD_MILLI,
        -MAX_COORD_MILLI <= v <= MAX_COORD_MILLI ==> r == v,
{
    if v < -MAX_COORD_MILLI {
        -MAX_COORD_MILLI
    } else if v > MAX_COORD_MILLI {
        MAX_COORD_MILLI
    } else {
        v
    }
}

/// The gravity pull along one axis: the difference spread over the
/// remaining distance in pixels, nine pixels of pull per step, clamped to
/// the maximum step.
fn gravity_component(diff: i64, rem_px: i64) -> (r: i64)
    requires
        -0x1_0000_0000 <= diff <= 0x1_0000_0000,
        1 <= rem_px <= 0x1_0000_0000,
    ensures
        -10_000 <= r <= 10_000,
{
    let mag: i64 = if diff >= 0 {
        diff
    } else {
        -diff
    };
    let q = mag / rem_px;
    proof {
        assert(0 <= q <= mag) by (nonlinear_arith)
            requires
                q == mag / rem_px,
                0 <= mag,
                1 <= rem_px,
        ;
    }
    let pulled = if q > 1_111 {
        10_000
    } else {
        q * 9
    };
    if diff >= 0 {
        pulled
    } else {
        -pulled
    }
}

/// Clamp a velocity component to the maximum step of ten pixels.
fn clamp_step(v: i64) -> (r: i64)
    requires
        -0x4000_0000_0000_0000 <= v <= 0x4000_0000_0000_0000,
    ensures
        -10_000 <= r <= 10_000,
        -10_000 <= v <= 10_000 ==> r == v,
{
    if v < -10_000 {
        -10_000
    } else if v > 10_000 {
        10_000
    } else {
        v
    }
}

/// The sign of a difference.
fn sign_of(v: i64) -> (r: i64)
    ensures
        -1 <= r <= 1,
        v > 0 ==> r == 1,
        v < 0 ==> r == -1,
        v == 0 ==> r == 0,
{
    if v > 0 {
        1
    } else if v < 0 {
        -1
    } else {
        0
    }
}

// ---------------------------------------------------------------------------
// Hick's-Law think delay
// ---------------------------------------------------------------------------

/// Power of two.
pub open spec fn pow2(k: nat) -> nat
    decreases k,
{
    if k == 0 {
        1
    } else {
        2 * pow2((k - 1) as nat)
    }
}

/// Floor of the base-two logarithm.
pub open spec fn spec_log2_floor(m: nat) -> nat
    decreases m,
{
    if m < 2 {
        0
    } else {
        1 + spec_log2_floor(m / 2)
    }
}

/// The base-two logarithm in thousandths: the floor part plus a linear
/// interpolation within the octave.
pub open spec fn spec_log2_milli(m: nat) -> nat {
    let k = spec_log2_floor(m);
    (1000 * k + ((m - pow2(k)) * 1000) / (pow2(k) as int)) as nat
}

/// Compute the base-two logarithm in thousandths.
pub fn log2_milli(m: u64) -> (r: u64)
    requires
        1 <= m <= 0x1_0000_0000,
    ensures
        r == spec_log2_milli(m as nat),
        r <= 1000 * 0x1_0000_0000 + 999,
{
    let mut k: u64 = 0;
    let mut p: u64 = 1;
    while p <= m / 2
        invariant
            1 <= m <= 0x1_0000_0000,
            p == pow2(k as nat),
            p <= m,
            k < p || k == 0,
            k == spec_log2_floor(p as nat),
        decreases m - p,
    {
        proof {
            lemma_log2_floor_double(p as nat);
        }
        p = p * 2;
        k += 1;
    }
    proof {
        lemma_log2_floor_between(m as nat, p as nat, k as nat);
        assert((((m - p) * 1000) as int) / (p as int) < 1000) by (nonlinear_arith)
            requires
                0 < p,
                m - p < p,
                p <= m,
        ;
    }
    let frac = ((m - p) * 1000) / p;
    k * 1000 + frac
}

/// Doubling a power of two raises its floor logarithm by one.
proof fn lemma_log2_floor_double(p: nat)
    requires
        p >= 1,
    ensures
        spec_log2_floor(2 * p) == 1 + spec_log2_floor(p),
{
    assert((2 * p) / 2 == p);
}

/// Between consecutive powers of two, the floor logarithm is that of the
/// lower one.
proof fn lemma_log2_floor_between(m: nat, p: nat, k: nat)
    requires
        p == pow2(k),
        p <= m,
        m / 2 < p,
        k == spec_log2_floor(p),
    ensures
        spec_log2_floor(m) == k,
        pow2(spec_log2_floor(m)) == p,
        m - p < p,
    decreases k,
{
    if k == 0 {
        assert(m < 2);
    } else {
        let p2 = p / 2;
        assert(pow2((k - 1) as nat) == p2);
        assert(spec_log2_floor(p) == 1 + spec_log2_floor(p2));
        lemma_log2_floor_between(m / 2, p2, (k - 1) as nat);
        assert(spec_log2_floor(m) == 1 + spec_log2_floor(m / 2));
    }
}

/// The floor logarithm brackets its argument between powers of two.
proof fn lemma_log2_floor_bounds(m: nat)
    requires
        m >= 1,
    ensures
        pow2(spec_log2_floor(m)) <= m,
        m < 2 * pow2(spec_log2_floor(m)),
    decreases m,
{
    if m < 2 {
    } else {
        lemma_log2_floor_bounds(m / 2);
    }
}

/// The milli-logarithm splits into its floor part and a fraction below
/// one thousand.
proof fn lemma_log2_milli_parts(m: nat)
    requires
        m >= 1,
    ensures
        spec_log2_milli(m) / 1000 == spec_log2_floor(m),
        spec_log2_milli(m) < 1000 * (spec_log2_floor(m) + 1),
{
    let k = spec_log2_floor(m);
    let p = pow2(k);
    lemma_log2_floor_bounds(m);
    lemma_pow2_positive(k);
    let frac = (((m - p) * 1000) as int) / (p as int);
    assert(frac < 1000) by (nonlinear_arith)
        requires
            frac == (((m - p) * 1000) as int) / (p as int),
            0 < p,
            m - p < p,
            p <= m,
    ;
    assert(spec_log2_milli(m) == 1000 * k + frac);
    assert((1000 * k + frac) / 1000 == k) by (nonlinear_arith)
        requires
            0 <= frac < 1000,
            0 <= k,
    ;
}

/// Powers of two are positive.
proof fn lemma_pow2_positive(k: nat)
    ensures
        pow2(k) >= 1,
    decreases k,
{
    if k > 0 {
        lemma_pow2_positive((k - 1) as nat);
    }
}

/// The base-two logarithm in thousandths, rounded up: the chord
/// interpolation within the octave plus the chord's largest shortfall
/// against the logarithm (87 thousandths), capped at the octave's top.
/// The curve of the logarithm lies between the chord and this value, so a
/// floor computed from it never undercuts one computed from the exact
/// logarithm.
pub open spec fn spec_log2_milli_hi(m: nat) -> nat {
    let capped = 1000 * (spec_log2_floor(m) + 1);
    if spec_log2_milli(m) + 87 > capped {
        capped
    } else {
        spec_log2_milli(m) + 87
    }
}

/// Compute the upward-rounded base-two logarithm in thousandths.
pub fn log2_milli_hi(m: u64) -> (r: u64)
    requires
        1 <= m <= 0x1_0000_0000,
    ensures
        r == spec_log2_milli_hi(m as nat),
        r <= 1000 * 0x1_0000_0000 + 1087,
{
    let lo = log2_milli(m);
    proof {
        lemma_log2_milli_parts(m as nat);
    }
    let k = lo / 1000;
    let capped = 1000 * (k + 1);
    if lo + 87 > capped {
        capped
    } else {
        lo + 87
    }
}

/// The fixed base of the think delay, in thousandths of a millisecond:
/// 200 ms plus 100 ms per unit of the upward-rounded log2(n + 1), so the
/// delay's floor never undercuts the law stated over the exact logarithm.
pub open spec fn spec_think_base_milli(n: nat) -> nat {
    200_000 + 100 * spec_log2_milli_hi(n + 1)
}

/// The Hick's-Law think delay for `n` clickable elements: the base scaled
/// by a variance factor drawn in [0.7, 1.3], plus a jitter below 150 ms.
/// The result never undercuts seven tenths of the base.
pub fn think_delay_ms(n: u64) -> (r: u64)
    requires
        n < 0x1_0000_0000,
    ensures
        r >= (spec_think_base_milli(n as nat) * 700) / 1_000_000,
        r <= (spec_think_base_milli(n as nat) * 1300) / 1_000_000 + 150,
{
    let lg = log2_milli_hi(n + 1);
    let base_milli: u64 = 200_000 + 100 * lg;
    let variance = rand_range_u64(700, 1301);
    proof {
        assert(base_milli * variance <= 0x1000_0000_0000_0000) by (nonlinear_arith)
            requires
                base_milli <= 0x2_0000_0000_0000,
                variance <= 1300,
        ;
    }
    let total = (base_milli * variance) / 1_000_000;
    let jitter = rand_range_u64(0, 150);
    proof {
        assert(base_milli * 700 <= base_milli * variance <= base_milli * 1300) by (nonlinear_arith)
            requires
                700 <= variance <= 1300,
                base_milli >= 0,
        ;
        vstd::arithmetic::div_mod::lemma_div_is_ordered(
            (base_milli * 700) as int,
            (base_milli * variance) as int,
            1_000_000,
        );
        vstd::arithmetic::div_mod::lemma_div_is_ordered(
            (base_milli * variance) as int,
            (base_milli * 1300) as int,
            1_000_000,
        );
    }
    total + jitter
}

/// The pre-press pause of a humanized click, at least 50 ms.
pub fn pre_press_delay_ms() -> (r: u64)
    ensures
        50 <= r < 150,
{
    rand_range_u64(50, 150)
}

/// The button hold time of a humanized click.
pub fn hold_delay_ms() -> (r: u64)
    ensures
        50 <= r < 200,
{
    rand_range_u64(50, 200)
}

// ---------------------------------------------------------------------------
// Keystroke cadence, scrolling, fidgets
// ---------------------------------------------------------------------------

/// Per-character delays for humanized typing: one pause per character,
/// each drawn in [50, 200) ms.
pub fn type_delays(char_count: usize) -> (r: Vec<u64>)
    ensures
        r@.len() == char_count,
        forall|k: int| 0 <= k < r@.len() ==> 50 <= #[trigger] r@[k] < 200,
{
    let mut r: Vec<u64> = Vec::new();
    let mut i: usize = 0;
    while i < char_count
        invariant
            i <= char_count,
            r@.len() == i,
            forall|k: int| 0 <= k < r@.len() ==> 50 <= #[trigger] r@[k] < 200,
        decreases char_count - i,
    {
        r.push(rand_range_u64(50, 200));
        i += 1;
    }
    r
}

/// One sub-step of a humanized scroll.
#[derive(Clone, Copy, Debug, PartialEq, Eq, Structural)]
pub struct ScrollStep {
    /// Vertical delta of this sub-step, in milli-pixels.
    pub dy: i64,
    /// Pause after this sub-step, in milliseconds.
    pub delay_ms: u64,
}

/// The speed-curve factor of one scroll sub-step, in thousandths:
/// acceleration over the first half, deceleration over the second.
pub open spec fn spec_scroll_factor(i: int, k: int) -> int {
    let t = (i * 1000) / k;
    if t < 500 {
        1000 + ((1000 - 2 * t) * 500) / 1000
    } else {
        1000 - ((2 * t - 1000) * 300) / 1000
    }
}

/// The deterministic share of one scroll sub-step: the per-step base of
/// the requested delta, scaled by the speed-curve factor, signed as the
/// delta is.
pub open spec fn spec_scroll_share(delta: int, k: int, i: int) -> int {
    let mag = if delta >= 0 {
        delta
    } else {
        -delta
    };
    let scaled = ((mag / k) / 1000) * spec_scroll_factor(i, k);
    if delta >= 0 {
        scaled
    } else {
        -scaled
    }
}

/// Split a scroll delta into 3 to 7 sub-steps: each sub-step's delta is
/// the per-step share of the requested delta scaled by the speed curve
/// (accelerating over the first half, decelerating over the second),
/// within two pixels of jitter; each pause lies in [20, 80) ms.
pub fn scroll_steps(delta_y: i64) -> (r: Vec<ScrollStep>)
    requires
        -MAX_COORD_MILLI <= delta_y <= MAX_COORD_MILLI,
    ensures
        3 <= r@.len() < 8,
        forall|t: int| 0 <= t < r@.len() ==> 20 <= #[trigger] r@[t].delay_ms < 80,
        forall|t: int|
            0 <= t < r@.len() ==> -2000 <= (#[trigger] r@[t]).dy - spec_scroll_share(
                delta_y as int,
                r@.len() as int,
                t,
            ) <= 2000,
{
    let k = rand_range_u64(3, 8);
    let mag0: i64 = if delta_y >= 0 {
        delta_y
    } else {
        -delta_y
    };
    let stepm = mag0 / (k as i64);
    proof {
        assert(0 <= stepm <= 100_000_000) by (nonlinear_arith)
            requires
                stepm == mag0 / (k as i64),
                0 <= mag0 <= 100_000_000,
                3 <= k < 8,
        ;
    }
    let mut r: Vec<ScrollStep> = Vec::new();
    let mut i: u64 = 0;
    while i < k
        invariant
            3 <= k < 8,
            i <= k,
            r@.len() == i,
            -MAX_COORD_MILLI <= delta_y <= MAX_COORD_MILLI,
            mag0 == (if delta_y >= 0 {
                delta_y as int
            } else {
                -(delta_y as int)
            }),
            stepm == mag0 / (k as i64),
            0 <= stepm <= 100_000_000,
            forall|t: int| 0 <= t < r@.len() ==> 20 <= #[trigger] r@[t].delay_ms < 80,
            forall|t: int|
                0 <= t < r@.len() ==> -2000 <= (#[trigger] r@[t]).dy - spec_scroll_share(
                    delta_y as int,
                    k as int,
                    t,
                ) <= 2000,
        decreases k - i,
    {
        let t_permille: i64 = ((i as i64) * 1000) / (k as i64);
        proof {
            assert(0 <= t_permille < 1000) by (nonlinear_arith)
                requires
                    t_permille as int == (((i as i64) * 1000) as int) / ((k as i64) as int),
                    0 <= i < k < 8,
            ;
        }
        let factor: i64 = if t_permille < 500 {
            1000 + ((1000 - 2 * t_permille) * 500) / 1000
        } else {
            1000 - ((2 * t_permille - 1000) * 300) / 1000
        };
        proof {
            assert(400 <= factor <= 1500);
            assert(factor == spec_scroll_factor(i as int, k as int));
        }
        let part = stepm / 1000;
        proof {
            assert(0 <= part <= 100_000) by (nonlinear_arith)
                requires
                    part == stepm / 1000,
                    0 <= stepm <= 100_000_000,
            ;
            assert(0 <= part * factor <= 150_000_000) by (nonlinear_arith)
                requires
                    0 <= part <= 100_000,
                    400 <= factor <= 1500,
            ;
        }
        let scaled = part * factor;
        let jitter = rand_range_i64(-2000, 2001);
        let dy = (if delta_y >= 0 {
            scaled
        } else {
            -scaled
        }) + jitter;
        proof {
            assert(dy - spec_scroll_share(delta_y as int, k as int, i as int) == jitter);
        }
        let delay = rand_range_u64(20, 80);
        r.push(ScrollStep { dy, delay_ms: delay });
        i += 1;
    }
    r
}

/// A coordinate clamped to a viewport span.
pub open spec fn spec_clamp_vp(v: int, hi: int) -> int {
    if v < 0 {
        0
    } else if v > hi {
        hi
    } else {
        v
    }
}

/// One micro-fidget: the pointer's position moved by at most three pixels
/// per axis, then clamped to the viewport.
pub fn fidget_step(cur: PointM, viewport_w: i64, viewport_h: i64) -> (r: PointM)
    requires
        0 < viewport_w <= MAX_COORD_MILLI,
        0 < viewport_h <= MAX_COORD_MILLI,
        point_in_range(cur),
    ensures
        0 <= r.x <= viewport_w,
        0 <= r.y <= viewport_h,
        exists|dx: int, dy: int|
            -3000 <= dx <= 3000 && -3000 <= dy <= 3000 && r.x == #[trigger] spec_clamp_vp(
                cur.x + dx,
                viewport_w as int,
            ) && r.y == #[trigger] spec_clamp_vp(cur.y + dy, viewport_h as int),
{
    let dx = rand_range_i64(-3000, 3001);
    let dy = rand_range_i64(-3000, 3001);
    let nx = cur.x + dx;
    let ny = cur.y + dy;
    let rx = if nx < 0 {
        0
    } else if nx > viewport_w {
        viewport_w
    } else {
        nx
    };
    let ry = if ny < 0 {
        0
    } else if ny > viewport_h {
        viewport_h
    } else {
        ny
    };
    proof {
        assert(rx as int == spec_clamp_vp(cur.x + dx as int, viewport_w as int));
        assert(ry as int == spec_clamp_vp(cur.y + dy as int, viewport_h as int));
    }
    PointM { x: rx, y: ry }
}

/// The pause between micro-fidgets, in [50, 200) ms.
pub fn fidget_pause_ms() -> (r: u64)
    ensures
        50 <= r < 200,
{
    rand_range_u64(50, 200)
}

} // verus!
