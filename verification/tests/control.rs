use els_core::display::Status;
use els_core::gearbox::Side;
use els_core::jog::JogView;
use els_core::motion::{Motion, SpindlePredictor};
use els_core::panel::{Panel, NOTICE_MS, RESTART_DELAY_MS, STATE_SAVE_DELAY_MS};
use els_core::pitch::{Pitch, Unit};
use els_core::settings::{OperatorState, Origin, Settings, Timing};
use els_core::ui::{Command, Key};
use els_core::Machine;

const TIMING: Timing = Timing { tick_hz: 10_000_000, segment_ticks: 2_500 };

const DEFAULTS: Settings = Settings {
    encoder_ppr: 1200,
    encoder_backlash: 3,
    encoder_filter_cycles: 40,
    invert_spindle: false,
    screw_du: 40_000,
    motor_steps: 800,
    speed_start: 800,
    speed_max: 30_000,
    acceleration: 20_000,
    max_pitch_du: 254_000,
    invert_dir: false,
    invert_enable: false,
    step_active_low: true,
    step_pulse_ns: 2_500,
    dir_setup_ns: 10_000,
    jog_speeds_du_per_s: [5_000, 20_000, 80_000, 250_000],
    jog_hold_after_ms: 400,
    jog_level_every_ms: 1_000,
};

const M: Machine = Machine { counts_per_rev: 2400, motor_steps: 800, screw_du: 40_000 };

const IDLE: Status = Status {
    engaged: false,
    syncing: false,
    jogging: false,
    jog: JogView::Idle,
    pos: 0,
    z_zero: 0,
    left_stop: None,
    right_stop: None,
    rpm: 0,
    turn_counts: 0,
};

#[test]
fn predictor_extrapolates_from_eight_segments_back() {
    let mut p = SpindlePredictor::new();
    // Nothing recorded yet: the prediction is the count itself.
    for k in 1..=8i64 {
        assert_eq!(p.predict(1_000 * k as u64, 10 * k, 500), 10 * k);
    }
    // Ninth sample: 80 counts over 8 ms, half a millisecond ahead.
    assert_eq!(p.predict(9_000, 90, 500), 95);
    assert_eq!(p.predict(10_000, 100, 1_000), 110);
}

#[test]
fn predictor_rounds_towards_zero_and_survives_a_stalled_clock() {
    let mut p = SpindlePredictor::new();
    for k in 1..=8i64 {
        p.predict(1_000 * k as u64, -3 * k, 500);
    }
    // -24 counts over 8 ms, 0.5 ms ahead: -1.5 → -1.
    assert_eq!(p.predict(9_000, -27, 500), -28);
    let mut q = SpindlePredictor::new();
    for _ in 0..8 {
        q.predict(5, 0, 500);
    }
    assert_eq!(q.predict(5, 40, 500), 40);
}

fn motion() -> Motion {
    Motion::new(&DEFAULTS, TIMING, 250, 250_000, 80, 1)
}

#[test]
fn first_tick_reports_rest() {
    let mut m = motion();
    let (seg, status) = m.tick(250, 0, &[]);
    assert!(seg.steps.is_empty());
    assert_eq!(status, Some(IDLE));
    // The next status comes after another 80 segments.
    for k in 2..=80u64 {
        assert_eq!(m.tick(250 * k, 0, &[]).1, None);
    }
    assert!(m.tick(250 * 81, 0, &[]).1.is_some());
}

#[test]
fn jog_command_moves_the_carriage() {
    let mut m = motion();
    // 0.1 mm towards the left stop: 20 steps.
    let jog = [Command::Jog { left: true, distance_du: 1_000 }, Command::JogRelease];
    let mut steps = 0usize;
    let (seg, _) = m.tick(250, 0, &jog);
    steps += seg.steps.len();
    assert!(seg.positive);
    let mut last = None;
    for k in 2..=4_000u64 {
        let (seg, st) = m.tick(250 * k, 0, &[]);
        steps += seg.steps.len();
        if st.is_some() {
            last = st;
        }
    }
    assert_eq!(steps, 20);
    let st = last.unwrap();
    assert_eq!((st.pos, st.jogging, st.jog), (20, false, JogView::Idle));
}

#[test]
fn engaged_carriage_follows_the_spindle() {
    let mut m = motion();
    let cmds = [Command::SetPitchDu(10_000), Command::Engage, Command::ZeroTurns, Command::ToggleStop(Side::Right)];
    m.tick(250, 0, &cmds);
    // One turn of the spindle (2400 counts) at 1 mm pitch is 200 steps.
    let mut raw: i16 = 0;
    for k in 2..=2_000u64 {
        if k <= 241 {
            raw = raw.wrapping_add(10);
        }
        m.tick(250 * k, raw, &[]);
    }
    let (_, st) = (2_001..=2_081u64).map(|k| m.tick(250 * k, raw, &[])).find(|(_, s)| s.is_some()).unwrap();
    let st = st.unwrap();
    assert!(st.engaged);
    assert_eq!(st.pos, 200);
    assert_eq!(st.turn_counts, 2_400);
    assert_eq!(st.right_stop, Some(0));
}

#[test]
fn jog_is_ignored_while_engaged() {
    let mut m = motion();
    m.tick(250, 0, &[Command::SetPitchDu(10_000), Command::Engage]);
    let mut moved = 0;
    for k in 2..=400u64 {
        let cmds: &[Command] = if k == 2 { &[Command::Jog { left: true, distance_du: 10_000 }] } else { &[] };
        moved += m.tick(250 * k, 0, cmds).0.steps.len();
    }
    assert_eq!(moved, 0);
}

#[test]
fn panel_starts_with_restored_selections_and_notice() {
    let st = OperatorState { pitch: Pitch { magnitude_milli: 1_500, reversed: false, unit: Unit::Mm }, step_idx: 1, jog_idx: 2 };
    let (p, cmd) = Panel::new(254_000, Some(st), Origin::Corrupt, 1_000);
    assert_eq!(cmd, Command::SetPitchDu(15_000));
    assert_eq!(p.ui.operator_state(), st);
    assert_eq!(p.ui.message(1_000), Some("Settings damaged: defaults"));
    assert_eq!(p.ui.message(1_000 + NOTICE_MS), None);
    let (p, cmd) = Panel::new(254_000, None, Origin::Saved, 0);
    assert_eq!(cmd, Command::SetPitchDu(0));
    assert_eq!(p.ui.message(0), None);
}

#[test]
fn panel_resends_only_changed_fields() {
    let (mut p, _) = Panel::new(254_000, None, Origin::FirstBoot, 0);
    let all = p.refresh(&IDLE, &M, 0, "");
    assert_eq!(all.len(), 12);
    assert!(p.refresh(&IDLE, &M, 10, "").is_empty());
    let moved = Status { pos: 200, ..IDLE };
    let out = p.refresh(&moved, &M, 20, "");
    assert_eq!(out.len(), 1);
    assert_eq!(&out[0][..], b"tZPos.txt=\"Z POS 1.000mm\"\xFF\xFF\xFF");
    // Every field again once the full refresh period has passed.
    assert_eq!(p.refresh(&moved, &M, 5_000, "").len(), 12);
}

#[test]
fn panel_remembers_selections_once_settled_and_idle() {
    let (mut p, _) = Panel::new(254_000, None, Origin::Saved, 0);
    assert_eq!(p.state_to_save(0, true), None);
    p.key(Key::StepSize(0), 100, &IDLE);
    assert_eq!(p.state_to_save(100, true), None);
    assert_eq!(p.state_to_save(100 + STATE_SAVE_DELAY_MS - 1, true), None);
    assert_eq!(p.state_to_save(100 + STATE_SAVE_DELAY_MS, false), None);
    let saved = p.state_to_save(100 + STATE_SAVE_DELAY_MS, true).unwrap();
    assert_eq!(saved.step_idx, 0);
    assert_eq!(p.state_to_save(200 + STATE_SAVE_DELAY_MS, true), None);
}

#[test]
fn panel_saves_only_when_idle_and_restarts_after_saving() {
    assert!(Panel::may_save(&IDLE));
    assert!(!Panel::may_save(&Status { engaged: true, ..IDLE }));
    assert!(!Panel::may_save(&Status { jogging: true, ..IDLE }));
    let (mut p, _) = Panel::new(254_000, None, Origin::Saved, 0);
    p.settings_saved(false, 10);
    assert!(!p.restart_due(u64::MAX));
    p.settings_saved(true, 10);
    assert_eq!(p.ui.message(10), Some("Settings saved: restarting"));
    assert!(!p.restart_due(10 + RESTART_DELAY_MS - 1));
    assert!(p.restart_due(10 + RESTART_DELAY_MS));
}
