use els_core::display::{
    field_colours, fixed, render, trim_zeros, Status, StopState, CURSOR_BLINK_MS, PITCH_COLOURS, REVERSE_COLOURS,
    STOP_COLOURS,
};
use els_core::gearbox::Side;
use els_core::jog::JogView;
use els_core::pitch::{Pitch, Unit};
use els_core::settings::OperatorState;
use els_core::ui::{Action, Command, Key, Outcome, Ui, MESSAGE_MS};
use els_core::Machine;

const MAX: i64 = 254_000;

const IDLE: Status = Status {
    engaged: false,
    syncing: false,
    jogging: false,
    jog: JogView::Idle,
    pos: 0,
    z_zero: 0,
    left_stop: None,
    right_stop: None,
    rpm: 0,
    turn_counts: 0,
};

const M: Machine = Machine { counts_per_rev: 2400, motor_steps: 800, screw_du: 40_000 };

fn press(ui: &mut Ui, keys: &[Key]) -> Vec<Outcome> {
    keys.iter().map(|&k| ui.handle(k, 0, &IDLE)).collect()
}

#[test]
fn plus_minus_use_selected_step() {
    let mut ui = Ui::new(MAX);
    let out = press(&mut ui, &[Key::StepSize(3), Key::Plus, Key::StepSize(0), Key::Plus, Key::Plus]);
    assert_eq!(out[1].command, Some(Command::SetPitchDu(10_000)));
    assert_eq!(ui.pitch.magnitude_milli, 1_002);
    press(&mut ui, &[Key::StepSize(3), Key::Minus, Key::Minus]);
    assert_eq!(ui.pitch.magnitude_milli, 0);
}

#[test]
fn reverse_flips_sign() {
    let mut ui = Ui::new(MAX);
    press(&mut ui, &[Key::StepSize(3), Key::Plus]);
    let out = ui.handle(Key::Reverse, 0, &IDLE);
    assert_eq!(out.command, Some(Command::SetPitchDu(-10_000)));
    // +/- change the magnitude and keep the direction.
    assert_eq!(ui.handle(Key::Plus, 0, &IDLE).command, Some(Command::SetPitchDu(-20_000)));
}

#[test]
fn unit_toggle_keeps_number() {
    let mut ui = Ui::new(MAX);
    press(&mut ui, &[Key::StepSize(2), Key::Plus]);
    assert_eq!(ui.handle(Key::ToggleUnit, 0, &IDLE).command, Some(Command::SetPitchDu(25_400)));
    assert_eq!(ui.pitch.magnitude_milli, 100);
    assert_eq!(ui.pitch.unit, Unit::Inch);
}

#[test]
fn unit_toggle_refused_when_too_large() {
    let mut ui = Ui::new(MAX);
    press(&mut ui, &[Key::StepSize(4), Key::Plus]); // 10mm
    let out = ui.handle(Key::ToggleUnit, 0, &IDLE);
    assert!(out.beep);
    assert_eq!(ui.pitch.unit, Unit::Mm);
    assert_eq!(ui.message(0), Some("Pitch too large"));
    assert_eq!(ui.message(MESSAGE_MS), None);
}

#[test]
fn keypad_entry() {
    let mut ui = Ui::new(MAX);
    let out = press(&mut ui, &[Key::Digit(1), Key::Point, Key::Digit(2), Key::Digit(5)]);
    assert!(out.iter().all(|o| o.command.is_none()));
    assert_eq!(ui.entry(), Some("1.25"));
    assert_eq!(ui.handle(Key::Enter, 0, &IDLE).command, Some(Command::SetPitchDu(12_500)));
    assert_eq!(ui.entry(), None);
}

#[test]
fn keypad_limits_decimals_and_backspace() {
    let mut ui = Ui::new(MAX);
    let out = press(&mut ui, &[Key::Point, Key::Digit(1), Key::Digit(2), Key::Digit(3), Key::Digit(4)]);
    assert!(out[4].beep);
    assert_eq!(ui.entry(), Some(".123"));
    press(&mut ui, &[Key::Backspace, Key::Backspace, Key::Backspace, Key::Backspace]);
    assert_eq!(ui.entry(), None);
    assert!(ui.handle(Key::Point, 0, &IDLE) == Outcome::default());
    assert!(ui.handle(Key::Point, 0, &IDLE).beep);
}

#[test]
fn engage_blocked_during_entry_and_other_keys_cancel_it() {
    let mut ui = Ui::new(MAX);
    ui.handle(Key::Digit(2), 0, &IDLE);
    assert!(ui.handle(Key::Engage, 0, &IDLE).beep);
    assert_eq!(ui.handle(Key::StopLeft, 0, &IDLE).command, Some(Command::ToggleStop(Side::Left)));
    assert_eq!(ui.entry(), None);
    assert_eq!(ui.handle(Key::Engage, 0, &IDLE).command, Some(Command::Engage));
}

#[test]
fn jog_press_release_and_cycle() {
    let mut ui = Ui::new(MAX);
    let left = |pressed| Key::Jog { left: true, pressed };
    assert_eq!(ui.handle(left(true), 0, &IDLE).command, Some(Command::Jog { left: true, distance_du: 1_000 }));
    assert_eq!(ui.handle(left(false), 0, &IDLE).command, Some(Command::JogRelease));
    press(&mut ui, &[Key::JogCycle, Key::ToggleUnit]);
    assert_eq!(ui.jog_milli(), 1_000);
    assert_eq!(ui.handle(left(true), 0, &IDLE).command, Some(Command::Jog { left: true, distance_du: 254_000 }));
    let engaged = Status { engaged: true, ..IDLE };
    assert!(ui.handle(left(true), 0, &engaged).beep);
    assert_eq!(ui.handle(left(false), 0, &engaged).command, Some(Command::JogRelease));
    let jogging = Status { jogging: true, ..IDLE };
    assert!(ui.handle(Key::Engage, 0, &jogging).beep);
}

#[test]
fn entry_keeps_direction_and_rejects_too_large() {
    let mut ui = Ui::new(MAX);
    press(&mut ui, &[Key::Plus, Key::Reverse]);
    press(&mut ui, &[Key::Digit(2)]);
    assert_eq!(ui.handle(Key::Enter, 0, &IDLE).command, Some(Command::SetPitchDu(-20_000)));
    press(&mut ui, &[Key::Digit(3), Key::Digit(0)]);
    assert!(ui.handle(Key::Enter, 0, &IDLE).beep);
    assert_eq!(ui.pitch.magnitude_milli, 2_000);
}

#[test]
fn new_ui_starts_at_defaults() {
    let ui = Ui::new(MAX);
    assert_eq!(ui.pitch(), Pitch { magnitude_milli: 0, reversed: false, unit: Unit::Mm });
    assert_eq!((ui.step_milli(), ui.jog_milli()), (100, 100));
    assert_eq!(ui.entry(), None);
    assert_eq!(ui.message(0), None);
    assert!(!ui.setup_active());
}

#[test]
fn setup_key_starts_and_leaves_setup() {
    let mut ui = Ui::new(MAX);
    let out = ui.handle(Key::Setup, 0, &IDLE);
    assert_eq!(out.action, Some(Action::StartSetup));
    assert!(ui.setup_active());
    let out = ui.handle(Key::Setup, 0, &IDLE);
    assert_eq!(out.action, Some(Action::ExitSetup));
}

#[test]
fn operator_state_restores_pitch_and_sizes() {
    let mut ui = Ui::new(MAX);
    let st = OperatorState { pitch: Pitch { magnitude_milli: 750, reversed: true, unit: Unit::Inch }, step_idx: 0, jog_idx: 3 };
    ui.restore(st);
    assert_eq!(ui.operator_state(), st);
    assert_eq!((ui.step_milli(), ui.jog_milli()), (1, 10_000));
    ui.notify("Saved", 100, 50);
    assert_eq!(ui.message(149), Some("Saved"));
    assert_eq!(ui.message(150), None);
}

#[test]
fn other_keys_send_their_commands() {
    let mut ui = Ui::new(MAX);
    assert_eq!(ui.handle(Key::Disengage, 0, &IDLE).command, Some(Command::Disengage));
    assert_eq!(ui.handle(Key::StopRight, 0, &IDLE).command, Some(Command::ToggleStop(Side::Right)));
    assert_eq!(ui.handle(Key::ZeroZ, 0, &IDLE).command, Some(Command::ZeroZ));
    assert_eq!(ui.handle(Key::ZeroTurns, 0, &IDLE).command, Some(Command::ZeroTurns));
    ui.handle(Key::CycleStep, 0, &IDLE);
    assert_eq!(ui.step_milli(), 1_000);
}

#[test]
fn fixed_formats() {
    assert_eq!(fixed(1250, 3), "1.250");
    assert_eq!(fixed(-5, 3), "-0.005");
    assert_eq!(fixed(0, 2), "0.00");
    assert_eq!(fixed(7, 0), "7");
    assert_eq!(trim_zeros(fixed(10_000, 3)), "10");
    assert_eq!(trim_zeros(fixed(10, 3)), "0.01");
}

#[test]
fn fixed_handles_extremes() {
    assert_eq!(fixed(i64::MIN, 18), "-9.223372036854775808");
    assert_eq!(fixed(-1, 0), "-1");
    assert_eq!(trim_zeros(fixed(0, 3)), "0");
    assert_eq!(trim_zeros(fixed(1200, 0)), "1200");
}

#[test]
fn renders_all_fields() {
    let mut ui = Ui::new(254_000);
    ui.handle(Key::StepSize(3), 0, &IDLE);
    ui.handle(Key::Plus, 0, &IDLE);
    ui.handle(Key::Reverse, 0, &IDLE);
    let st = Status {
        engaged: true,
        pos: 250,
        z_zero: 50,
        left_stop: Some(450),
        right_stop: None,
        rpm: 300,
        turn_counts: 3600,
        ..IDLE
    };
    let f = render(&ui, &st, &M, 0, "");
    let f: Vec<&str> = f.iter().map(|t| t.as_str()).collect();
    assert_eq!(
        f,
        [
            "Disengage",
            "PITCH -1.000mm",
            "UNIT: MM",
            "RPM 300",
            "TURNS 1.50",
            "ANGLE 180.00°",
            "Z POS 1.000mm",
            "|< 2.000mm",
            "Set stop >|",
            "JOG DIST 0.1mm",
            "",
            "REVERSE",
        ]
    );
}

#[test]
fn stop_states_captions_and_colours() {
    let ui = Ui::new(254_000);
    let st = Status { pos: 250, z_zero: 50, left_stop: Some(250), right_stop: Some(-1_000_000), ..IDLE };
    assert_eq!(st.stop_state(Side::Left), StopState::Parked);
    assert_eq!(st.stop_state(Side::Right), StopState::Armed);
    let f = render(&ui, &st, &M, 0, "");
    assert_eq!(f[7], "|< AT STOP");
    assert_eq!(f[8], "-5000.250mm >|");
    assert!(f[8].chars().count() <= 15);
    assert_eq!(field_colours(&ui, &st)[..2], [STOP_COLOURS[2], STOP_COLOURS[1]]);
    assert_eq!(field_colours(&ui, &IDLE)[..2], [STOP_COLOURS[0]; 2]);
    assert_eq!(render(&ui, &IDLE, &M, 0, "")[7], "|< Set stop");
}

/// WCAG 2 contrast ratio of two RGB565 colours.
fn contrast(a: u16, b: u16) -> f64 {
    fn luminance(c: u16) -> f64 {
        let ch = |v: u16, max: f64| {
            let v = v as f64 / max;
            if v <= 0.04045 {
                v / 12.92
            } else {
                ((v + 0.055) / 1.055).powf(2.4)
            }
        };
        0.2126 * ch(c >> 11, 31.0) + 0.7152 * ch((c >> 5) & 63, 63.0) + 0.0722 * ch(c & 31, 31.0)
    }
    let (la, lb) = (luminance(a), luminance(b));
    (la.max(lb) + 0.05) / (la.min(lb) + 0.05)
}

#[test]
fn colours_meet_wcag_aaa() {
    for (bco, pco) in STOP_COLOURS.into_iter().chain(PITCH_COLOURS).chain(REVERSE_COLOURS) {
        let r = contrast(bco, pco);
        assert!(r >= 7.0, "{bco:#06x} on {pco:#06x} is only {r:.2}:1");
    }
    // The old bright red with black text would fail.
    assert!(contrast(0xF800, 0x0000) < 7.0);
}

#[test]
fn jog_caption_follows_jog_state() {
    let ui = Ui::new(254_000);
    let cap = |jog| render(&ui, &Status { jog, ..IDLE }, &M, 0, "")[9].clone();
    assert_eq!(cap(JogView::Idle), "JOG DIST 0.1mm");
    assert_eq!(cap(JogView::Tap { remaining: 60 }), "JOG 0.300mm");
    assert_eq!(cap(JogView::Hold { level: 2 }), "HOLD SPEED 2/4");
    assert_eq!(cap(JogView::Braking), "STOPPING");
    for jog in [JogView::Tap { remaining: 200_000 }, JogView::Hold { level: 4 }] {
        assert!(cap(jog).chars().count() <= 15, "{}", cap(jog));
    }
}

#[test]
fn renders_inch_and_entry() {
    let mut ui = Ui::new(254_000);
    ui.handle(Key::ToggleUnit, 0, &IDLE);
    ui.handle(Key::Digit(4), 0, &IDLE);
    let st = Status { pos: 254, ..IDLE }; // 254 steps = 1.27mm = 0.05"
    let f = render(&ui, &st, &M, 0, "");
    assert_eq!(f[2], "UNIT: IN");
    assert_eq!(f[6], "Z POS 0.0500in");
    assert_eq!(f[9], "JOG DIST 0.1in");
    assert_eq!(f[1], "PITCH 4_");
    assert_eq!(render(&ui, &st, &M, CURSOR_BLINK_MS, "")[1], "PITCH 4");
    assert_eq!(f[10], "OK to apply, <- delete, hold <- clear");
    assert_eq!(field_colours(&ui, &st)[2], PITCH_COLOURS[1]);
    assert!(f[10].chars().count() <= 40);
}

#[test]
fn reverse_colour_and_setup_banner() {
    let mut ui = Ui::new(254_000);
    assert_eq!(field_colours(&ui, &IDLE)[3], REVERSE_COLOURS[0]);
    ui.handle(Key::Reverse, 0, &IDLE);
    assert_eq!(field_colours(&ui, &IDLE)[3], REVERSE_COLOURS[1]);
    assert_eq!(render(&ui, &IDLE, &M, 0, "Setup: join ELS-Setup")[10], "Set pitch");
    ui.handle(Key::Setup, 0, &IDLE);
    assert_eq!(render(&ui, &IDLE, &M, 0, "Setup: join ELS-Setup")[10], "Setup: join ELS-Setup");
}
