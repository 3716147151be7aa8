use chimera::diffusion_mouse::{DiffusionMouse, Point};
use chimera::ghost_mouse::{fitts_time_ms, NeuromotorMouse};
use chimera::mouse::{
    clamp_point, distance_milli, fidget_step, hold_delay_ms, isqrt, log2_milli, log2_milli_hi,
    perturb_target, pre_press_delay_ms, scroll_steps, think_delay_ms, type_delays,
    windmouse_trajectory, PointM,
};

#[test]
fn trajectories_with_identical_inputs_differ() {
    // trajectory nondeterminism is a required property: two runs on the
    // same inputs must almost surely differ
    let start = PointM { x: 100_000, y: 100_000 };
    let end = PointM { x: 700_000, y: 450_000 };
    let mut distinct = 0;
    let total = 40;
    for _ in 0..total {
        let a = windmouse_trajectory(start, end);
        let b = windmouse_trajectory(start, end);
        if a != b {
            distinct += 1;
        }
    }
    assert!(distinct * 100 >= total * 95, "only {} of {} pairs differed", distinct, total);
}

#[test]
fn trajectory_ends_at_goal_with_banded_delays() {
    let start = PointM { x: 0, y: 0 };
    let end = PointM { x: 900_000, y: 100_000 };
    for _ in 0..10 {
        let tr = windmouse_trajectory(start, end);
        assert!(!tr.is_empty());
        let last = tr[tr.len() - 1];
        assert!((last.x - end.x).abs() <= 1000);
        assert!((last.y - end.y).abs() <= 1000);
        for p in &tr {
            assert!(p.delay_ms >= 5 && p.delay_ms < 15);
        }
        // a hop never exceeds the max step plus tremor, the landing aside
        for k in 1..tr.len().saturating_sub(1) {
            assert!((tr[k].x - tr[k - 1].x).abs() <= 11_000);
            assert!((tr[k].y - tr[k - 1].y).abs() <= 11_000);
        }
    }
    // a short movement stays within its band's point budget
    let near = windmouse_trajectory(PointM { x: 0, y: 0 }, PointM { x: 50_000, y: 0 });
    assert!(near.len() <= 22);
}

#[test]
fn perturbation_respects_precision() {
    let end = PointM { x: 400_000, y: 300_000 };
    for _ in 0..20 {
        // full precision never moves the aim; low precision stays within
        // the five-pixel envelope
        let exact = perturb_target(end, 1000);
        assert_eq!((exact.x, exact.y), (end.x, end.y));
        let loose = perturb_target(end, 0);
        assert!((loose.x - end.x).abs() <= 5000);
        assert!((loose.y - end.y).abs() <= 5000);
    }
    let inside = clamp_point(PointM { x: 7, y: 9 });
    assert_eq!((inside.x, inside.y), (7, 9));
    let outside = clamp_point(PointM { x: 10_i64.pow(12), y: -(10_i64.pow(12)) });
    assert_eq!((outside.x, outside.y), (100_000_000, -100_000_000));
}

#[test]
fn isqrt_exact_values() {
    assert_eq!(isqrt(0), 0);
    assert_eq!(isqrt(1), 1);
    assert_eq!(isqrt(3), 1);
    assert_eq!(isqrt(4), 2);
    assert_eq!(isqrt(99), 9);
    assert_eq!(isqrt(100), 10);
    assert_eq!(isqrt(u64::MAX), 0xFFFF_FFFF);
}

#[test]
fn distance_is_euclidean() {
    let a = PointM { x: 0, y: 0 };
    let b = PointM { x: 3000, y: 4000 };
    assert_eq!(distance_milli(a, b), 5000);
}

#[test]
fn log2_milli_exact_values() {
    assert_eq!(log2_milli(1), 0);
    assert_eq!(log2_milli(2), 1000);
    // between 2 and 4 the chord interpolates: 3 sits halfway
    assert_eq!(log2_milli(3), 1500);
    assert_eq!(log2_milli(4), 2000);
    assert_eq!(log2_milli(1024), 10_000);
    // the upward-rounded variant adds the chord's shortfall, capped at
    // the octave's top, so it dominates the exact logarithm
    assert_eq!(log2_milli_hi(2), 1087);
    assert_eq!(log2_milli_hi(3), 1587);
    assert_eq!(log2_milli_hi(4), 2087);
    assert_eq!(log2_milli_hi(1), 87);
}

#[test]
fn think_delay_respects_the_law_floor() {
    // base for n = 7 clickables: 200 + 100*log2(8) = 500 ms; the variance
    // floor is 0.7, so every draw stays at or above 350 ms (the rounded-up
    // logarithm makes the computed floor 356)
    for _ in 0..50 {
        let d = think_delay_ms(7);
        assert!(d >= 350, "delay {} under the floor", d);
        assert!(d <= 508_700 * 1300 / 1_000_000 + 150);
    }
    // and the pre-press pause adds at least 50 ms before the button goes down
    for _ in 0..20 {
        assert!(pre_press_delay_ms() >= 50);
        let h = hold_delay_ms();
        assert!(h >= 50 && h < 200);
    }
}

#[test]
fn typing_cadence_bands() {
    let d = type_delays(12);
    assert_eq!(d.len(), 12);
    for x in &d {
        assert!(*x >= 50 && *x < 200);
    }
}

#[test]
fn scroll_splits_into_banded_steps() {
    for _ in 0..10 {
        let delta = 500_000_i64;
        let steps = scroll_steps(delta);
        let k = steps.len() as i64;
        assert!((3..8).contains(&k));
        for (i, s) in steps.iter().enumerate() {
            assert!(s.delay_ms >= 20 && s.delay_ms < 80);
            // each sub-step is its speed-curve share of the delta, within
            // two pixels of jitter
            let t = (i as i64) * 1000 / k;
            let factor = if t < 500 {
                1000 + (1000 - 2 * t) * 500 / 1000
            } else {
                1000 - (2 * t - 1000) * 300 / 1000
            };
            let share = delta / k / 1000 * factor;
            assert!((s.dy - share).abs() <= 2000, "step {} drifted", i);
        }
    }
}

#[test]
fn fidget_stays_in_viewport_and_near_pointer() {
    let cur = PointM { x: 960_000, y: 540_000 };
    for _ in 0..20 {
        let p = fidget_step(cur, 1_920_000, 1_080_000);
        assert!(p.x >= 0 && p.x <= 1_920_000);
        assert!(p.y >= 0 && p.y <= 1_080_000);
        assert!((p.x - cur.x).abs() <= 3000);
        assert!((p.y - cur.y).abs() <= 3000);
    }
}

#[test]
fn fitts_time_grows_with_the_distance_ratio() {
    // ratio 1: log2(1) = 0, so only the base remains
    assert_eq!(fitts_time_ms(0, 1000), 100);
    // ratio 101: the milli-log2 is 6578, so 100 + 200*6.578 = 1415
    assert_eq!(fitts_time_ms(100_000, 1000), 1415);
    // a sub-pixel target size is lifted to one pixel
    assert_eq!(fitts_time_ms(0, 0), 100);
}

#[test]
fn neuromotor_path_reaches_target() {
    let mut m = NeuromotorMouse::new(0, 0);
    assert!(m.can_move(0));
    let path = m.generate_human_path(500_000, 250_000, 50_000, 1000);
    assert!(!path.is_empty());
    let last = path[path.len() - 1];
    assert!((last.x - 500_000).abs() <= 2000);
    assert!((last.y - 250_000).abs() <= 2000);
    assert_eq!(m.position(), (500_000, 250_000));
    assert!(!m.can_move(1010));
    assert!(m.can_move(1050));
}

#[test]
fn diffusion_engine_falls_back_to_physics() {
    let e = DiffusionMouse::new(None);
    assert!(!e.has_model());
    assert!(e.current_position().is_none());
    let tr = e.generate_trajectory(Point::new(0, 0), Point::new(300_000, 300_000), 50_000, 0);
    let last = tr[tr.len() - 1];
    assert!((last.x - 300_000).abs() <= 2000);
    let a = Point::new(0, 0);
    let b = Point::new(3000, 4000);
    assert_eq!(a.distance_to(&b), 5000);
}
