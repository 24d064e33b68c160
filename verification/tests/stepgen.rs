use els_core::gearbox::Target;
use els_core::stepgen::{isqrt, Segment, StepGen, StepGenConfig};

// 10 MHz ticks, 250 µs segments, 2.5 µs pulses, 10 µs DIR setup.
const CFG: StepGenConfig = StepGenConfig {
    tick_hz: 10_000_000,
    segment_ticks: 2_500,
    pulse_ticks: 25,
    dir_setup_ticks: 100,
    start_speed: 800,
    max_speed: 20_000,
    acceleration: 50_000,
};

/// Absolute step times (ticks) and signs, plus final position.
fn run(g: &mut StepGen, segments: usize, target: impl Fn(usize) -> Target) -> Vec<(i64, i8)> {
    let mut out = Vec::new();
    for i in 0..segments {
        let seg = g.next_segment(target(i));
        let items = seg.items(&CFG);
        let total: u32 = items.iter().map(|i| i.idle as u32 + i.pulse as u32).sum();
        assert_eq!(total, CFG.segment_ticks, "segment {i} must fill exactly");
        assert!(items.iter().all(|i| i.idle > 0));
        for &s in seg.steps.iter() {
            out.push((i as i64 * CFG.segment_ticks as i64 + s as i64, if seg.positive { 1 } else { -1 }));
        }
    }
    out
}

fn final_target(pos: i64) -> impl Fn(usize) -> Target {
    move |_| Target::whole(pos, true)
}

#[test]
fn moves_to_final_target_without_overshoot() {
    let mut g = StepGen::new(CFG);
    let steps = run(&mut g, 4_000, final_target(5_000));
    assert_eq!(g.pos(), 5_000);
    assert!(steps.iter().all(|&(_, d)| d == 1), "no reversals");
    assert_eq!(steps.len(), 5_000);
    assert_eq!(g.speed(), 0);
}

#[test]
fn respects_max_speed_and_pulse_gap() {
    let mut g = StepGen::new(CFG);
    let steps = run(&mut g, 2_000, final_target(20_000));
    let min_interval = steps.windows(2).map(|w| w[1].0 - w[0].0).min().unwrap();
    // 20k steps/s = 500 ticks; allow one tick of rounding.
    assert!(min_interval >= 497, "min interval {min_interval}");
    assert!(min_interval > CFG.pulse_ticks as i64);
}

/// Spindle-like target: ramps from rest to `v_end` steps/s over `ramp`
/// segments, then runs steadily. Fixed point positions per segment.
fn ramp_target(v_end: i64, ramp: usize) -> impl Fn(usize) -> Target {
    move |i| {
        let seg = (1i64 << 32) / 4_000; // one 250 µs segment, fixed point seconds
        let n = (i + 1) as i64;
        let r = ramp as i64;
        let fp = if n <= r { v_end * n * n / (2 * r) * seg } else { (v_end * r / 2 + v_end * (n - r)) * seg };
        Target { pos: fp >> 32, frac: fp as u32, is_final: false }
    }
}

#[test]
fn follows_constant_velocity_evenly_across_segments() {
    // Spindle spins up over 0.5 s, then 6,000 steps/s = 1.5 steps per segment.
    let mut g = StepGen::new(CFG);
    let steps = run(&mut g, 6_000, ramp_target(6_000, 2_000));
    let settled = 2_500 * CFG.segment_ticks as i64;
    let late: Vec<i64> = steps.windows(2).filter(|w| w[0].0 > settled).map(|w| w[1].0 - w[0].0).collect();
    let (min, max) = (*late.iter().min().unwrap(), *late.iter().max().unwrap());
    // Ideal interval is 1666.67 ticks (166.7 µs).
    assert!(min >= 1_665 && max <= 1_668, "interval spread {min}..{max}");
}

#[test]
fn tracks_spindle_acceleration_without_lag() {
    // 0 → 8,000 steps/s over 1 s (well within the 50,000 steps/s² limit).
    let mut g = StepGen::new(CFG);
    let target = ramp_target(8_000, 4_000);
    let mut worst = 0i64;
    for i in 0..8_000usize {
        let t = target(i);
        g.next_segment(t);
        worst = worst.max((t.pos - g.pos()).abs());
    }
    assert!(worst <= 1, "lag {worst} steps");
}

#[test]
fn reversal_waits_for_dir_setup() {
    let mut g = StepGen::new(CFG);
    run(&mut g, 200, final_target(300));
    let mut first_back = None;
    for _ in 0..200 {
        let seg = g.next_segment(Target::whole(0, true));
        if !seg.positive && !seg.steps.is_empty() {
            first_back = Some(seg.steps[0]);
            break;
        }
    }
    assert!(first_back.unwrap() >= CFG.dir_setup_ticks);
}

#[test]
fn speed_cap_below_start_speed() {
    let mut g = StepGen::new(CFG);
    g.set_speed_cap(Some(100));
    let steps = run(&mut g, 4_000, final_target(1_000_000));
    // 100 steps/s over 1 s of segments.
    assert!((99..=101).contains(&steps.len()), "{} steps", steps.len());
}

#[test]
fn acceleration_is_limited() {
    let mut g = StepGen::new(CFG);
    let mut last = 0u32;
    for _ in 0..400 {
        g.next_segment(Target::whole(1_000_000, false));
        let s = g.speed();
        // dv per segment = 50000 * 250e-6 = 12.5 steps/s, plus start jump.
        assert!(s <= last.max(CFG.start_speed) + 13, "{last} -> {s}");
        last = s;
    }
}

#[test]
fn braking_steps_estimate() {
    let mut g = StepGen::new(CFG);
    run(&mut g, 4_000, |_| Target::whole(10_000_000, false));
    assert!((19_999..=20_000).contains(&g.speed()));
    // (20000² - 800²) / (2 * 50000) = 3994
    assert!((3_993..=3_994).contains(&g.braking_steps()));
}

#[test]
fn isqrt_is_the_floor_square_root() {
    assert_eq!(isqrt(0), 0);
    assert_eq!(isqrt(1), 1);
    assert_eq!(isqrt(15), 3);
    assert_eq!(isqrt(16), 4);
    assert_eq!(isqrt(1 << 64), 1 << 32);
    assert_eq!(isqrt(u128::MAX), u64::MAX as u128);
}

#[test]
fn config_limits() {
    assert_eq!(CFG.pulse_limited_speed(), 384_615);
    assert_eq!(CFG.max_steps_per_segment(), 6);
}

#[test]
fn empty_segment_idles_for_the_whole_segment() {
    let seg = Segment::default();
    assert!(seg.positive && seg.steps.is_empty());
    let items = seg.items(&CFG);
    assert_eq!(items.len(), 1);
    assert_eq!((items[0].idle, items[0].pulse), (2_500, 0));
}

#[test]
fn idle_generator_stays_put() {
    let mut g = StepGen::new(CFG);
    for _ in 0..10 {
        let seg = g.next_segment(Target::whole(0, true));
        assert!(seg.steps.is_empty());
    }
    assert_eq!((g.pos(), g.speed(), g.braking_steps()), (0, 0, 0));
}

#[test]
fn speed_stays_under_cap() {
    let mut g = StepGen::new(CFG);
    g.set_speed_cap(Some(1_000));
    for _ in 0..4_000 {
        g.next_segment(Target::whole(1_000_000, false));
        assert!(g.speed() <= 1_000, "{}", g.speed());
    }
    g.set_speed_cap(Some(5_000));
    for _ in 0..4_000 {
        g.next_segment(Target::whole(1_000_000, false));
        assert!(g.speed() <= 5_000);
    }
}
