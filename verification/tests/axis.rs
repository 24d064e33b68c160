use els_core::gearbox::{Gearbox, Side, Target};
use els_core::jog::{Bounds, Jog, JogConfig, JogView};
use els_core::stepper::{Action, Stepper, StepperConfig};
use els_core::Machine;

// 1200 PPR encoder, 800 steps/rev, 4mm screw: 200 steps/mm.
const M: Machine = Machine { counts_per_rev: 2400, motor_steps: 800, screw_du: 40_000 };

fn engaged_1mm() -> Gearbox {
    let mut g = Gearbox::new(M);
    g.set_pitch_du(10_000, 0);
    g.engage(0, 0);
    g
}

#[test]
fn follows_spindle() {
    let mut g = engaged_1mm();
    assert_eq!(g.update(1200), Target::whole(100, false));
    // 1/12 step per count: 6 counts is half a step.
    assert_eq!(g.update(1206), Target { pos: 100, frac: 1 << 31, is_final: false });
    assert_eq!(g.update(2400).pos, 200);
    assert_eq!(g.update(-2400).pos, -200);
}

#[test]
fn disengaged_holds() {
    let mut g = Gearbox::new(M);
    g.set_pitch_du(10_000, 0);
    assert_eq!(g.update(5000), Target::whole(0, true));
    g.engage(5000, 42);
    assert_eq!(g.update(5000 + 2400).pos, 242);
    g.disengage(242);
    assert_eq!(g.update(20_000).pos, 242);
}

#[test]
fn reversed_pitch_moves_other_way() {
    let mut g = Gearbox::new(M);
    g.set_pitch_du(-10_000, 0);
    g.engage(0, 0);
    assert_eq!(g.update(2400).pos, -200);
}

#[test]
fn stop_discards_whole_turns_and_keeps_phase() {
    let mut g = engaged_1mm();
    g.toggle_stop(Side::Left, 0, 100); // arrival at s=1200
    assert_eq!(g.update(7200), Target::whole(100, true));
    // Reverse: leaves the stop at s=6000, i.e. 1200 mod 2400 like the arrival.
    assert_eq!(g.update(6100).pos, 100);
    assert_eq!(g.update(5760).pos, 80);
}

#[test]
fn removing_stop_waits_for_thread_phase() {
    let mut g = engaged_1mm();
    g.toggle_stop(Side::Left, 0, 100);
    g.update(7200);
    g.toggle_stop(Side::Left, 7200, 100);
    assert!(g.syncing());
    assert_eq!(g.update(7300), Target::whole(100, true));
    assert_eq!(g.update(8399).pos, 100);
    // Phase reached (8400 = 1200 mod 2400): continue from the stop position.
    assert_eq!(g.update(8400).pos, 100);
    assert!(!g.syncing());
    assert_eq!(g.update(8520).pos, 110);
}

#[test]
fn sync_also_resolves_when_spindle_reverses() {
    let mut g = engaged_1mm();
    g.toggle_stop(Side::Left, 0, 100);
    g.update(7200);
    g.toggle_stop(Side::Left, 7200, 100);
    assert_eq!(g.update(6100).pos, 100);
    assert!(g.syncing());
    // Crossing 6000 (= 1200 mod 2400) re-syncs and follows backwards.
    assert_eq!(g.update(5880).pos, 90);
    assert!(!g.syncing());
}

#[test]
fn right_stop_clamps() {
    let mut g = engaged_1mm();
    g.toggle_stop(Side::Right, 0, -50);
    assert_eq!(g.update(-24_000), Target::whole(-50, true));
    // Overshoot was trimmed to 1800 counts; 1200 counts forward is still on the stop.
    assert_eq!(g.update(-24_000 + 1200).pos, -50);
    assert_eq!(g.update(-24_000 + 2400).pos, 0);
}

#[test]
fn pitch_change_while_engaged_does_not_jump() {
    let mut g = engaged_1mm();
    assert_eq!(g.update(2400).pos, 200);
    g.set_pitch_du(20_000, 2400);
    assert_eq!(g.update(2400).pos, 200);
    assert_eq!(g.update(4800).pos, 600);
    g.set_pitch_du(-20_000, 4800);
    assert_eq!(g.update(7200).pos, 200);
}

#[test]
fn long_runs_do_not_overflow_or_drift() {
    let mut g = engaged_1mm();
    let s = 2400 * 10_000_000i64; // ten million turns
    assert_eq!(g.update(s).pos, 200 * 10_000_000);
    assert_eq!(g.update(s + 1200).pos, 200 * 10_000_000 + 100);
}

#[test]
fn inch_pitch_ratio() {
    let mut g = Gearbox::new(M);
    g.set_pitch_du(254_000, 0); // 1" per rev = 25.4mm = 5080 steps
    g.engage(0, 0);
    assert_eq!(g.update(2400).pos, 5080);
}

#[test]
fn stops_are_set_and_cleared() {
    let mut g = engaged_1mm();
    assert_eq!(g.stop(Side::Left), None);
    g.toggle_stop(Side::Left, 0, 100);
    g.toggle_stop(Side::Right, 0, -30);
    assert_eq!(g.stop(Side::Left), Some(100));
    assert_eq!(g.stop(Side::Right), Some(-30));
    g.toggle_stop(Side::Right, 0, 0);
    assert_eq!(g.stop(Side::Right), None);
    assert!(g.engaged());
    g.disengage(0);
    assert!(!g.engaged());
}

const CFG: JogConfig = JogConfig { hold_after_us: 400_000, level_every_us: 1_000_000, speeds: [100, 400, 1600, 5000] };
const FREE: Bounds = Bounds { lo: i64::MIN, hi: i64::MAX };

#[test]
fn tap_moves_exact_distance() {
    let mut j = Jog::new(CFG);
    j.press(1, 20, 3, 100, 0, 0);
    j.release(100, 0, 50_000);
    assert_eq!(j.update(100, FREE, 60_000), (Target::whole(120, true), Some(5000)));
    // Still held long after the move is done: no hold because it was released.
    assert_eq!(j.update(120, FREE, 900_000).0.pos, 120);
    assert!(!j.active());
}

#[test]
fn repeated_taps_accumulate() {
    let mut j = Jog::new(CFG);
    j.press(-1, 20, 3, 0, 0, 0);
    j.release(0, 0, 10);
    j.press(-1, 20, 3, -5, 0, 20);
    j.release(-5, 0, 30);
    assert_eq!(j.update(-5, FREE, 40).0.pos, -40);
}

#[test]
fn hold_ramps_speed_then_brakes_on_release() {
    let mut j = Jog::new(CFG);
    j.press(1, 20, 0, 0, 0, 0);
    assert_eq!(j.update(0, FREE, 399_999).1, Some(100)); // still a tap, at level 0
    let (t, cap) = j.update(10, FREE, 400_000);
    assert!(t.pos > 1_000_000);
    assert_eq!(cap, Some(100));
    assert_eq!(j.update(50, FREE, 1_400_000).1, Some(400));
    assert_eq!(j.update(500, FREE, 2_400_000).1, Some(1600));
    assert_eq!(j.update(900, FREE, 9_000_000).1, Some(5000));
    j.release(1000, 30, 9_000_001);
    assert_eq!(j.update(1000, FREE, 9_000_002), (Target::whole(1030, true), Some(5000)));
    j.update(1030, FREE, 9_000_100);
    assert!(!j.active());
}

#[test]
fn view_follows_state() {
    let mut j = Jog::new(CFG);
    let b = Bounds::new(None, Some(15));
    assert_eq!(j.view(0, b, 0), JogView::Idle);
    j.press(1, 20, 0, 0, 0, 0);
    assert_eq!(j.view(5, b, 1), JogView::Tap { remaining: 10 }); // clamped by the stop at 15
    j.update(5, FREE, 400_000);
    assert_eq!(j.view(10, FREE, 400_000), JogView::Hold { level: 1 });
    assert_eq!(j.view(10, FREE, 2_500_000), JogView::Hold { level: 3 });
    assert_eq!(j.view(10, FREE, 99_000_000), JogView::Hold { level: 4 });
    j.release(10, 30, 99_000_001);
    assert_eq!(j.view(12, FREE, 99_000_002), JogView::Braking);
}

#[test]
fn hold_starts_at_selected_level_and_caps_at_fastest() {
    let mut j = Jog::new(CFG);
    j.press(1, 20, 2, 0, 0, 0);
    assert_eq!(j.update(0, FREE, 1).1, Some(1600)); // tap at level 2
    assert_eq!(j.update(0, FREE, 400_000).1, Some(1600)); // hold starts there
    assert_eq!(j.update(0, FREE, 1_399_999).1, Some(1600));
    assert_eq!(j.update(0, FREE, 1_400_000).1, Some(5000)); // next level after 1 s
    assert_eq!(j.update(0, FREE, 60_000_000).1, Some(5000)); // and no further
    assert_eq!(j.view(0, FREE, 60_000_000), JogView::Hold { level: 4 });
}

#[test]
fn stops_limit_jog() {
    let mut j = Jog::new(CFG);
    let b = Bounds::new(Some(-10), Some(50));
    j.press(1, 100, 3, 0, 0, 0);
    assert_eq!(j.update(0, b, 1).0.pos, 50);
    j.update(0, b, 500_000);
    assert_eq!(j.update(20, b, 500_001).0.pos, 50);
}

#[test]
fn opposite_press_brakes() {
    let mut j = Jog::new(CFG);
    j.press(1, 20, 3, 0, 0, 0);
    j.update(0, FREE, 500_000); // now holding
    j.press(-1, 20, 3, 300, 12, 600_000);
    assert_eq!(j.update(300, FREE, 600_001).0.pos, 312);
}

#[test]
fn cancel_returns_to_idle() {
    let mut j = Jog::new(CFG);
    j.press(1, 20, 1, 0, 0, 0);
    assert!(j.active());
    j.cancel();
    assert!(!j.active());
    assert_eq!(j.view(0, FREE, 5), JogView::Idle);
    assert_eq!(j.update(7, FREE, 6), (Target::whole(7, true), None));
}

const SCFG: StepperConfig = StepperConfig { start_speed: 800, max_speed: 6400, acceleration: 20_000 };

fn target(pos: i64, is_final: bool) -> Target {
    Target { pos, frac: 0, is_final }
}

/// Run with a 20us tick until the target is reached; returns step times.
fn run(s: &mut Stepper, t: Target, mut now: u64) -> Vec<u64> {
    let mut steps = Vec::new();
    while s.pos != t.pos {
        if s.poll(now, t) == Action::Step {
            steps.push(now);
        }
        now += 20;
        assert!(now < 10_000_000, "did not converge");
    }
    steps
}

#[test]
fn sets_direction_before_stepping() {
    let mut s = Stepper::new(SCFG);
    assert_eq!(s.poll(0, target(5, false)), Action::SetDirection(true));
    assert_eq!(s.poll(0, target(5, false)), Action::Idle);
    assert_eq!(s.poll(20, target(5, false)), Action::Step);
    assert_eq!(s.pos, 1);
    assert_eq!(s.poll(40, target(-5, false)), Action::SetDirection(false));
}

#[test]
fn accelerates_to_max_and_brakes_on_final_target() {
    let mut s = Stepper::new(SCFG);
    let steps = run(&mut s, target(4000, true), 0);
    assert_eq!(steps.len(), 4000);
    // Peak speed reached somewhere in the middle.
    let min_gap = steps.windows(2).map(|w| w[1] - w[0]).min().unwrap();
    assert!(min_gap <= 180, "min gap {min_gap}");
    // Last steps are slow again.
    let last_gap = steps[3999] - steps[3998];
    assert!(last_gap >= 900, "last gap {last_gap}");
}

#[test]
fn average_rate_not_limited_by_tick() {
    // 6400 steps/s is a 156us interval, not a multiple of the 20us tick.
    let mut s = Stepper::new(StepperConfig { start_speed: 6400, max_speed: 6400, acceleration: 1 });
    let steps = run(&mut s, target(6401, false), 0);
    let elapsed = steps[6400] - steps[0];
    assert!((990_000..=1_010_000).contains(&elapsed), "elapsed {elapsed}");
}

#[test]
fn speed_cap_limits_and_braking_distance() {
    let mut s = Stepper::new(SCFG);
    s.set_speed_cap(Some(2000));
    let steps = run(&mut s, target(3000, false), 0);
    let min_gap = steps.windows(2).map(|w| w[1] - w[0]).min().unwrap();
    assert!(min_gap >= 480, "min gap {min_gap}");
    // (2000^2 - 800^2) / (2 * 20000) = 84
    assert_eq!(s.braking_steps(), 84);
}

#[test]
fn cap_below_start_speed_runs_slower() {
    let mut s = Stepper::new(SCFG);
    s.set_speed_cap(Some(100));
    let steps = run(&mut s, target(11, false), 0);
    assert_eq!(steps[10] - steps[0], 100_000);
}

#[test]
fn idle_gap_resets_speed() {
    let mut s = Stepper::new(SCFG);
    run(&mut s, target(2000, false), 0);
    assert!(s.speed() > 5000);
    // Pause, then continue: must restart near start speed.
    s.poll(5_000_000, target(2010, false));
    assert!(s.speed() < 1000, "speed {}", s.speed());
}

#[test]
fn fresh_stepper_is_at_rest() {
    let s = Stepper::new(SCFG);
    assert_eq!(s.pos, 0);
    assert_eq!(s.speed(), 800);
    assert_eq!(s.braking_steps(), 0);
}

#[test]
fn syncing_only_while_engaged() {
    let mut g = engaged_1mm();
    assert!(!g.syncing());
    g.toggle_stop(Side::Left, 0, 100);
    g.update(7200);
    g.toggle_stop(Side::Left, 7200, 100);
    assert!(g.syncing() && g.engaged());
    g.disengage(100);
    assert!(!g.syncing() && !g.engaged());
    g.engage(7200, 100);
    assert!(!g.syncing());
}

#[test]
fn jog_cap_is_a_configured_speed_and_absent_when_idle() {
    let mut j = Jog::new(CFG);
    assert_eq!(j.update(5, FREE, 0), (Target::whole(5, true), None));
    j.press(1, 20, 1, 5, 0, 10);
    for now in [11u64, 400_010, 1_400_010, 2_400_010, 90_000_000] {
        let (t, cap) = j.update(5, FREE, now);
        assert!(t.is_final && t.frac == 0);
        assert!(CFG.speeds.contains(&cap.unwrap()));
    }
    j.release(5, 0, 90_000_001);
    let (_, cap) = j.update(5, FREE, 90_000_002);
    assert!(CFG.speeds.contains(&cap.unwrap()));
}

#[test]
fn stepper_never_passes_target_and_waits_after_dir_change() {
    let mut s = Stepper::new(SCFG);
    let mut now = 0u64;
    let mut dir_at: Option<(u64, bool)> = None;
    for (goal, is_final) in [(300i64, false), (-200, true), (50, true)] {
        let t = target(goal, is_final);
        let start = s.pos;
        while s.pos != goal {
            let before = s.pos;
            match s.poll(now, t) {
                Action::SetDirection(d) => dir_at = Some((now, d)),
                Action::Step => {
                    let (at, d) = dir_at.unwrap();
                    assert!(now >= at + 10);
                    assert_eq!(d, goal > before);
                }
                Action::Idle => {}
            }
            let (lo, hi) = if start <= goal { (start, goal) } else { (goal, start) };
            assert!(lo <= s.pos && s.pos <= hi);
            assert!(s.speed() >= 1 && s.speed() <= SCFG.max_speed);
            now += 20;
        }
    }
}
