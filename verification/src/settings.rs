//! Machine settings editable from the setup web page, and operator state
//! remembered across power cycles. Both are persisted with [`crate::record`].
use vstd::prelude::*;
use crate::Machine;
use crate::jog::JogConfig;
use crate::stepgen::{StepGenConfig, MAX_STEPS_PER_SEGMENT};
use crate::pitch::{Pitch, Unit, STEP_SIZES_MILLI, JOG_SIZES_MILLI};
use crate::record::{self, Loaded, LoadedView, Reader, RecordView, Writer, le16, le32, from_le16, from_le32, record_bytes};

verus! {

/// `b"LELS"` read as a little-endian `u32`.
pub const SETTINGS_MAGIC: u32 = 0x534C_454C;
pub const SETTINGS_VERSION: u16 = 1;
/// `b"LEOP"` read as a little-endian `u32`.
pub const STATE_MAGIC: u32 = 0x504F_454C;
pub const STATE_VERSION: u16 = 1;
/// Upper bound on an encoded record (header + payload) of either kind.
pub const MAX_RECORD_LEN: usize = 128;

/// Machine and motion settings. Pins are fixed in the firmware.
#[derive(Clone, Copy, Debug, PartialEq, Eq)]
pub struct Settings {
    pub encoder_ppr: u32,
    pub encoder_backlash: u32,
    pub encoder_filter_cycles: u16,
    pub invert_spindle: bool,
    pub screw_du: u32,
    pub motor_steps: u32,
    pub speed_start: u32,
    pub speed_max: u32,
    pub acceleration: u32,
    pub max_pitch_du: u32,
    pub invert_dir: bool,
    pub invert_enable: bool,
    pub step_active_low: bool,
    pub step_pulse_ns: u32,
    pub dir_setup_ns: u32,
    pub jog_speeds_du_per_s: [u32; 4],
    pub jog_hold_after_ms: u32,
    pub jog_level_every_ms: u32,
}

/// Fixed motion timing from the firmware, needed to validate settings.
#[derive(Clone, Copy, Debug)]
pub struct Timing {
    pub tick_hz: u32,
    pub segment_ticks: u32,
}

/// Where the settings in use came from.
#[derive(Clone, Copy, Debug, PartialEq, Eq, Structural)]
pub enum Origin {
    Saved,
    /// Nothing saved yet: firmware defaults.
    FirstBoot,
    /// Saved data was damaged or failed validation: firmware defaults.
    Corrupt,
    /// Saved by a newer firmware with an unknown format: firmware defaults.
    Unsupported,
}

/// How a setting is shown and entered on the web page.
#[derive(Clone, Copy, Debug, PartialEq, Eq, Structural)]
pub enum Kind {
    Integer,
    /// Stored in 1/10000ths (du for mm, du/s for mm/s), shown with 4 decimals.
    Decimal4,
    Flag,
}

/// One editable setting. `get`/`set` work on the stored integer.
#[derive(Clone, Copy, Debug, PartialEq, Eq)]
pub struct Field {
    pub key: &'static str,
    pub section: &'static str,
    pub label: &'static str,
    pub unit: &'static str,
    pub help: &'static str,
    pub kind: Kind,
    pub min: i64,
    pub max: i64,
}

pub const ENC: &'static str = "Spindle encoder";
pub const SCREW: &'static str = "Lead screw and motor";
pub const DRIVER: &'static str = "Driver signals";
pub const JOG: &'static str = "Jogging";

/// Number of editable settings.
pub const FIELD_COUNT: usize = 21;

/// Section headings in page order.
pub const SECTIONS: [&'static str; 4] = [ENC, SCREW, DRIVER, JOG];

/// The editable settings, in page order.
pub open spec fn field_spec(i: usize) -> Field {
    match i {
        0 => Field { key: "encoder_ppr", section: ENC, label: "Encoder lines per revolution", unit: "lines", help: "From the encoder datasheet. Two counts are taken per line.", kind: Kind::Integer, min: 1, max: 15000 },
        1 => Field { key: "encoder_backlash", section: ENC, label: "Encoder backlash", unit: "counts", help: "Reversal the carriage ignores, to filter encoder jitter.", kind: Kind::Integer, min: 0, max: 1000 },
        2 => Field { key: "encoder_filter", section: ENC, label: "Encoder glitch filter", unit: "12.5 ns cycles", help: "Pulses shorter than this are ignored. 40 = 0.5 µs.", kind: Kind::Integer, min: 0, max: 1023 },
        3 => Field { key: "invert_spindle", section: ENC, label: "Invert spindle direction", unit: "", help: "Tick if a positive pitch drives the carriage the wrong way (or swap A/B).", kind: Kind::Flag, min: 0, max: 1 },
        4 => Field { key: "screw_pitch", section: SCREW, label: "Lead screw pitch", unit: "mm", help: "Carriage travel per lead screw turn. Inch screw: 25.4 / TPI.", kind: Kind::Decimal4, min: 100, max: 10000000 },
        5 => Field { key: "motor_steps", section: SCREW, label: "Motor steps per screw turn", unit: "steps", help: "Full steps × microsteps × gear ratio. 200 × 4 = 800.", kind: Kind::Integer, min: 1, max: 1000000 },
        6 => Field { key: "speed_start", section: SCREW, label: "Start speed", unit: "steps/s", help: "Speed the motor can start and stop at without ramping.", kind: Kind::Integer, min: 1, max: 1000000 },
        7 => Field { key: "speed_max", section: SCREW, label: "Max speed", unit: "steps/s", help: "Highest step rate the motor and driver can follow.", kind: Kind::Integer, min: 1, max: 1000000 },
        8 => Field { key: "acceleration", section: SCREW, label: "Acceleration", unit: "steps/s²", help: "Higher feels snappier; too high loses steps.", kind: Kind::Integer, min: 1, max: 100000000 },
        9 => Field { key: "max_pitch", section: SCREW, label: "Largest pitch", unit: "mm", help: "Pitch entries above this are refused.", kind: Kind::Decimal4, min: 10, max: 1000000 },
        10 => Field { key: "invert_dir", section: DRIVER, label: "Invert DIR", unit: "", help: "Tick if the carriage moves opposite to the pitch sign.", kind: Kind::Flag, min: 0, max: 1 },
        11 => Field { key: "invert_enable", section: DRIVER, label: "Invert ENABLE", unit: "", help: "Tick if the driver's enable input is active-low.", kind: Kind::Flag, min: 0, max: 1 },
        12 => Field { key: "step_active_low", section: DRIVER, label: "STEP pulses low", unit: "", help: "Tick if STEP idles high and pulses low (NanoEls H5).", kind: Kind::Flag, min: 0, max: 1 },
        13 => Field { key: "step_pulse", section: DRIVER, label: "STEP pulse width", unit: "ns", help: "Driver datasheet minimum, with margin.", kind: Kind::Integer, min: 100, max: 100000 },
        14 => Field { key: "dir_setup", section: DRIVER, label: "DIR setup time", unit: "ns", help: "DIR must be stable this long before a STEP edge.", kind: Kind::Integer, min: 0, max: 100000 },
        15 => Field { key: "jog_speed_1", section: JOG, label: "Hold speed 1", unit: "mm/s", help: "First speed while a jog button is held.", kind: Kind::Decimal4, min: 1, max: 10000000 },
        16 => Field { key: "jog_speed_2", section: JOG, label: "Hold speed 2", unit: "mm/s", help: "", kind: Kind::Decimal4, min: 1, max: 10000000 },
        17 => Field { key: "jog_speed_3", section: JOG, label: "Hold speed 3", unit: "mm/s", help: "", kind: Kind::Decimal4, min: 1, max: 10000000 },
        18 => Field { key: "jog_speed_4", section: JOG, label: "Hold speed 4", unit: "mm/s", help: "Also the speed of a single tap move.", kind: Kind::Decimal4, min: 1, max: 10000000 },
        19 => Field { key: "jog_hold_after", section: JOG, label: "Hold after", unit: "ms", help: "Press longer than this to run continuously.", kind: Kind::Integer, min: 50, max: 5000 },
        20 => Field { key: "jog_level_every", section: JOG, label: "Speed up every", unit: "ms", help: "Time at each hold speed before the next.", kind: Kind::Integer, min: 100, max: 60000 },
        _ => Field { key: "", section: "", label: "", unit: "", help: "", kind: Kind::Integer, min: 0, max: 0 },
    }
}

/// Stored integer of setting `i`.
pub open spec fn field_value(s: Settings, i: usize) -> int {
    match i {
        0 => s.encoder_ppr as int,
        1 => s.encoder_backlash as int,
        2 => s.encoder_filter_cycles as int,
        3 => if s.invert_spindle { 1 } else { 0 },
        4 => s.screw_du as int,
        5 => s.motor_steps as int,
        6 => s.speed_start as int,
        7 => s.speed_max as int,
        8 => s.acceleration as int,
        9 => s.max_pitch_du as int,
        10 => if s.invert_dir { 1 } else { 0 },
        11 => if s.invert_enable { 1 } else { 0 },
        12 => if s.step_active_low { 1 } else { 0 },
        13 => s.step_pulse_ns as int,
        14 => s.dir_setup_ns as int,
        15 => s.jog_speeds_du_per_s[0] as int,
        16 => s.jog_speeds_du_per_s[1] as int,
        17 => s.jog_speeds_du_per_s[2] as int,
        18 => s.jog_speeds_du_per_s[3] as int,
        19 => s.jog_hold_after_ms as int,
        20 => s.jog_level_every_ms as int,
        _ => 0,
    }
}

/// `v` as a `u32`, or 0 if it doesn't fit.
pub open spec fn spec_to_u32(v: i64) -> u32 {
    if 0 <= v <= u32::MAX { v as u32 } else { 0 }
}

/// `v` as a `u16`, or 0 if it doesn't fit.
pub open spec fn spec_to_u16(v: i64) -> u16 {
    if 0 <= v <= u16::MAX { v as u16 } else { 0 }
}

fn to_u32(v: i64) -> (r: u32)
    ensures
        r == spec_to_u32(v),
{
    if 0 <= v && v <= u32::MAX as i64 { v as u32 } else { 0 }
}

fn to_u16(v: i64) -> (r: u16)
    ensures
        r == spec_to_u16(v),
{
    if 0 <= v && v <= u16::MAX as i64 { v as u16 } else { 0 }
}

/// Settings with setting `i` set from `v` (flags: nonzero; integers: `v` if
/// it fits the stored type, else 0).
pub open spec fn field_set(s: Settings, i: usize, v: i64) -> Settings {
    match i {
        0 => Settings { encoder_ppr: spec_to_u32(v), ..s },
        1 => Settings { encoder_backlash: spec_to_u32(v), ..s },
        2 => Settings { encoder_filter_cycles: spec_to_u16(v), ..s },
        3 => Settings { invert_spindle: v != 0, ..s },
        4 => Settings { screw_du: spec_to_u32(v), ..s },
        5 => Settings { motor_steps: spec_to_u32(v), ..s },
        6 => Settings { speed_start: spec_to_u32(v), ..s },
        7 => Settings { speed_max: spec_to_u32(v), ..s },
        8 => Settings { acceleration: spec_to_u32(v), ..s },
        9 => Settings { max_pitch_du: spec_to_u32(v), ..s },
        10 => Settings { invert_dir: v != 0, ..s },
        11 => Settings { invert_enable: v != 0, ..s },
        12 => Settings { step_active_low: v != 0, ..s },
        13 => Settings { step_pulse_ns: spec_to_u32(v), ..s },
        14 => Settings { dir_setup_ns: spec_to_u32(v), ..s },
        15 => Settings { jog_speeds_du_per_s: [spec_to_u32(v), s.jog_speeds_du_per_s[1], s.jog_speeds_du_per_s[2], s.jog_speeds_du_per_s[3]], ..s },
        16 => Settings { jog_speeds_du_per_s: [s.jog_speeds_du_per_s[0], spec_to_u32(v), s.jog_speeds_du_per_s[2], s.jog_speeds_du_per_s[3]], ..s },
        17 => Settings { jog_speeds_du_per_s: [s.jog_speeds_du_per_s[0], s.jog_speeds_du_per_s[1], spec_to_u32(v), s.jog_speeds_du_per_s[3]], ..s },
        18 => Settings { jog_speeds_du_per_s: [s.jog_speeds_du_per_s[0], s.jog_speeds_du_per_s[1], s.jog_speeds_du_per_s[2], spec_to_u32(v)], ..s },
        19 => Settings { jog_hold_after_ms: spec_to_u32(v), ..s },
        20 => Settings { jog_level_every_ms: spec_to_u32(v), ..s },
        _ => s,
    }
}

/// Setting `i` of the table.
pub fn field(i: usize) -> (f: Field)
    requires
        i < FIELD_COUNT,
    ensures
        f == field_spec(i),
{
    match i {
        0 => Field { key: "encoder_ppr", section: ENC, label: "Encoder lines per revolution", unit: "lines", help: "From the encoder datasheet. Two counts are taken per line.", kind: Kind::Integer, min: 1, max: 15000 },
        1 => Field { key: "encoder_backlash", section: ENC, label: "Encoder backlash", unit: "counts", help: "Reversal the carriage ignores, to filter encoder jitter.", kind: Kind::Integer, min: 0, max: 1000 },
        2 => Field { key: "encoder_filter", section: ENC, label: "Encoder glitch filter", unit: "12.5 ns cycles", help: "Pulses shorter than this are ignored. 40 = 0.5 µs.", kind: Kind::Integer, min: 0, max: 1023 },
        3 => Field { key: "invert_spindle", section: ENC, label: "Invert spindle direction", unit: "", help: "Tick if a positive pitch drives the carriage the wrong way (or swap A/B).", kind: Kind::Flag, min: 0, max: 1 },
        4 => Field { key: "screw_pitch", section: SCREW, label: "Lead screw pitch", unit: "mm", help: "Carriage travel per lead screw turn. Inch screw: 25.4 / TPI.", kind: Kind::Decimal4, min: 100, max: 10000000 },
        5 => Field { key: "motor_steps", section: SCREW, label: "Motor steps per screw turn", unit: "steps", help: "Full steps × microsteps × gear ratio. 200 × 4 = 800.", kind: Kind::Integer, min: 1, max: 1000000 },
        6 => Field { key: "speed_start", section: SCREW, label: "Start speed", unit: "steps/s", help: "Speed the motor can start and stop at without ramping.", kind: Kind::Integer, min: 1, max: 1000000 },
        7 => Field { key: "speed_max", section: SCREW, label: "Max speed", unit: "steps/s", help: "Highest step rate the motor and driver can follow.", kind: Kind::Integer, min: 1, max: 1000000 },
        8 => Field { key: "acceleration", section: SCREW, label: "Acceleration", unit: "steps/s²", help: "Higher feels snappier; too high loses steps.", kind: Kind::Integer, min: 1, max: 100000000 },
        9 => Field { key: "max_pitch", section: SCREW, label: "Largest pitch", unit: "mm", help: "Pitch entries above this are refused.", kind: Kind::Decimal4, min: 10, max: 1000000 },
        10 => Field { key: "invert_dir", section: DRIVER, label: "Invert DIR", unit: "", help: "Tick if the carriage moves opposite to the pitch sign.", kind: Kind::Flag, min: 0, max: 1 },
        11 => Field { key: "invert_enable", section: DRIVER, label: "Invert ENABLE", unit: "", help: "Tick if the driver's enable input is active-low.", kind: Kind::Flag, min: 0, max: 1 },
        12 => Field { key: "step_active_low", section: DRIVER, label: "STEP pulses low", unit: "", help: "Tick if STEP idles high and pulses low (NanoEls H5).", kind: Kind::Flag, min: 0, max: 1 },
        13 => Field { key: "step_pulse", section: DRIVER, label: "STEP pulse width", unit: "ns", help: "Driver datasheet minimum, with margin.", kind: Kind::Integer, min: 100, max: 100000 },
        14 => Field { key: "dir_setup", section: DRIVER, label: "DIR setup time", unit: "ns", help: "DIR must be stable this long before a STEP edge.", kind: Kind::Integer, min: 0, max: 100000 },
        15 => Field { key: "jog_speed_1", section: JOG, label: "Hold speed 1", unit: "mm/s", help: "First speed while a jog button is held.", kind: Kind::Decimal4, min: 1, max: 10000000 },
        16 => Field { key: "jog_speed_2", section: JOG, label: "Hold speed 2", unit: "mm/s", help: "", kind: Kind::Decimal4, min: 1, max: 10000000 },
        17 => Field { key: "jog_speed_3", section: JOG, label: "Hold speed 3", unit: "mm/s", help: "", kind: Kind::Decimal4, min: 1, max: 10000000 },
        18 => Field { key: "jog_speed_4", section: JOG, label: "Hold speed 4", unit: "mm/s", help: "Also the speed of a single tap move.", kind: Kind::Decimal4, min: 1, max: 10000000 },
        19 => Field { key: "jog_hold_after", section: JOG, label: "Hold after", unit: "ms", help: "Press longer than this to run continuously.", kind: Kind::Integer, min: 50, max: 5000 },
        20 => Field { key: "jog_level_every", section: JOG, label: "Speed up every", unit: "ms", help: "Time at each hold speed before the next.", kind: Kind::Integer, min: 100, max: 60000 },
        _ => Field { key: "", section: "", label: "", unit: "", help: "", kind: Kind::Integer, min: 0, max: 0 },
    }
}

/// All settings, in page order.
pub fn fields() -> (r: Vec<Field>)
    ensures
        r@.len() == FIELD_COUNT,
        forall|i: int| 0 <= i < FIELD_COUNT ==> r@[i] == field_spec(i as usize),
{
    let mut r: Vec<Field> = Vec::new();
    let mut i: usize = 0;
    while i < FIELD_COUNT
        invariant
            0 <= i <= FIELD_COUNT,
            r@.len() == i,
            forall|k: int| 0 <= k < i ==> r@[k] == field_spec(k as usize),
        decreases FIELD_COUNT - i,
    {
        r.push(field(i));
        i += 1;
    }
    r
}

/// Stored integer of setting `i`.
pub fn field_get(i: usize, s: &Settings) -> (r: i64)
    requires
        i < FIELD_COUNT,
    ensures
        r == field_value(*s, i),
{
    match i {
        0 => s.encoder_ppr as i64,
        1 => s.encoder_backlash as i64,
        2 => s.encoder_filter_cycles as i64,
        3 => if s.invert_spindle { 1 } else { 0 },
        4 => s.screw_du as i64,
        5 => s.motor_steps as i64,
        6 => s.speed_start as i64,
        7 => s.speed_max as i64,
        8 => s.acceleration as i64,
        9 => s.max_pitch_du as i64,
        10 => if s.invert_dir { 1 } else { 0 },
        11 => if s.invert_enable { 1 } else { 0 },
        12 => if s.step_active_low { 1 } else { 0 },
        13 => s.step_pulse_ns as i64,
        14 => s.dir_setup_ns as i64,
        15 => s.jog_speeds_du_per_s[0] as i64,
        16 => s.jog_speeds_du_per_s[1] as i64,
        17 => s.jog_speeds_du_per_s[2] as i64,
        18 => s.jog_speeds_du_per_s[3] as i64,
        19 => s.jog_hold_after_ms as i64,
        20 => s.jog_level_every_ms as i64,
        _ => 0,
    }
}

/// Set setting `i` from `v`.
pub fn field_put(i: usize, s: &mut Settings, v: i64)
    requires
        i < FIELD_COUNT,
    ensures
        *final(s) == field_set(*old(s), i, v),
{
    match i {
        0 => s.encoder_ppr = to_u32(v),
        1 => s.encoder_backlash = to_u32(v),
        2 => s.encoder_filter_cycles = to_u16(v),
        3 => s.invert_spindle = v != 0,
        4 => s.screw_du = to_u32(v),
        5 => s.motor_steps = to_u32(v),
        6 => s.speed_start = to_u32(v),
        7 => s.speed_max = to_u32(v),
        8 => s.acceleration = to_u32(v),
        9 => s.max_pitch_du = to_u32(v),
        10 => s.invert_dir = v != 0,
        11 => s.invert_enable = v != 0,
        12 => s.step_active_low = v != 0,
        13 => s.step_pulse_ns = to_u32(v),
        14 => s.dir_setup_ns = to_u32(v),
        15 => s.jog_speeds_du_per_s = [to_u32(v), s.jog_speeds_du_per_s[1], s.jog_speeds_du_per_s[2], s.jog_speeds_du_per_s[3]],
        16 => s.jog_speeds_du_per_s = [s.jog_speeds_du_per_s[0], to_u32(v), s.jog_speeds_du_per_s[2], s.jog_speeds_du_per_s[3]],
        17 => s.jog_speeds_du_per_s = [s.jog_speeds_du_per_s[0], s.jog_speeds_du_per_s[1], to_u32(v), s.jog_speeds_du_per_s[3]],
        18 => s.jog_speeds_du_per_s = [s.jog_speeds_du_per_s[0], s.jog_speeds_du_per_s[1], s.jog_speeds_du_per_s[2], to_u32(v)],
        19 => s.jog_hold_after_ms = to_u32(v),
        20 => s.jog_level_every_ms = to_u32(v),
        _ => {},
    }
}


/// Ticks of a `hz` clock covering `ns` nanoseconds (rounded up), as a `u32`.
pub open spec fn ticks(ns: u32, hz: u32) -> u32 {
    ((ns * hz + 999_999_999) / 1_000_000_000) as u32
}

/// Index of the first setting at or after `i` outside its range.
pub open spec fn first_bad_field(s: Settings, i: int) -> Option<usize>
    decreases FIELD_COUNT - i,
{
    if i < 0 || i >= FIELD_COUNT {
        None
    } else {
        let f = field_spec(i as usize);
        let v = field_value(s, i as usize);
        if v < f.min || v > f.max {
            Some(i as usize)
        } else {
            first_bad_field(s, i + 1)
        }
    }
}

/// Jog speed in steps/s for `du` per second, at least 1, at most `speed_max`.
pub open spec fn jog_speed(s: Settings, du: u32) -> u32 {
    let steps = crate::div_round(du * s.motor_steps, s.screw_du as int) as i64 as int;
    (if steps < 1 { 1 } else if steps > s.speed_max { s.speed_max as int } else { steps }) as u32
}

impl Settings {
    pub open spec fn spec_machine(self) -> Machine {
        Machine {
            counts_per_rev: (self.encoder_ppr * 2) as i64,
            motor_steps: self.motor_steps as i64,
            screw_du: self.screw_du as i64,
        }
    }

    pub open spec fn spec_stepgen(self, t: Timing) -> StepGenConfig {
        let p = ticks(self.step_pulse_ns, t.tick_hz);
        StepGenConfig {
            tick_hz: t.tick_hz,
            segment_ticks: t.segment_ticks,
            pulse_ticks: if p > 1 { p } else { 1 },
            dir_setup_ticks: ticks(self.dir_setup_ns, t.tick_hz),
            start_speed: self.speed_start,
            max_speed: self.speed_max,
            acceleration: self.acceleration,
        }
    }

    pub open spec fn spec_jog(self) -> JogConfig {
        JogConfig {
            hold_after_us: (self.jog_hold_after_ms * 1000) as u64,
            level_every_us: (self.jog_level_every_ms * 1000) as u64,
            speeds: [
                jog_speed(self, self.jog_speeds_du_per_s[0]),
                jog_speed(self, self.jog_speeds_du_per_s[1]),
                jog_speed(self, self.jog_speeds_du_per_s[2]),
                jog_speed(self, self.jog_speeds_du_per_s[3]),
            ],
        }
    }

    /// Every field in range and the combinations the motion code relies on.
    pub open spec fn validation(self, t: Timing) -> Result<(), &'static str> {
        match first_bad_field(self, 0) {
            Some(i) => Err(field_spec(i).label),
            None => {
                let g = self.spec_stepgen(t);
                if self.speed_start > self.speed_max {
                    Err("Start speed must not exceed max speed")
                } else if self.speed_max > g.spec_pulse_limited_speed() {
                    Err("STEP pulse too wide for max speed")
                } else if g.spec_max_steps_per_segment() > MAX_STEPS_PER_SEGMENT {
                    Err("Max speed too high for the control period")
                } else if g.dir_setup_ticks >= g.segment_ticks / 2 {
                    Err("DIR setup time too long")
                } else {
                    Ok(())
                }
            },
        }
    }

    pub fn machine(&self) -> (r: Machine)
        ensures
            r == self.spec_machine(),
    {
        Machine {
            counts_per_rev: self.encoder_ppr as i64 * 2,
            motor_steps: self.motor_steps as i64,
            screw_du: self.screw_du as i64,
        }
    }

    pub fn stepgen(&self, t: Timing) -> (r: StepGenConfig)
        ensures
            r == self.spec_stepgen(t),
    {
        let p = ns_to_ticks(self.step_pulse_ns, t.tick_hz);
        StepGenConfig {
            tick_hz: t.tick_hz,
            segment_ticks: t.segment_ticks,
            pulse_ticks: if p > 1 { p } else { 1 },
            dir_setup_ticks: ns_to_ticks(self.dir_setup_ns, t.tick_hz),
            start_speed: self.speed_start,
            max_speed: self.speed_max,
            acceleration: self.acceleration,
        }
    }

    pub fn jog(&self) -> (r: JogConfig)
        requires
            self.screw_du != 0,
            self.speed_max >= 1,
        ensures
            r == self.spec_jog(),
    {
        let m = self.machine();
        let s0 = self.jog_speed_steps(&m, self.jog_speeds_du_per_s[0]);
        let s1 = self.jog_speed_steps(&m, self.jog_speeds_du_per_s[1]);
        let s2 = self.jog_speed_steps(&m, self.jog_speeds_du_per_s[2]);
        let s3 = self.jog_speed_steps(&m, self.jog_speeds_du_per_s[3]);
        JogConfig {
            hold_after_us: self.jog_hold_after_ms as u64 * 1_000,
            level_every_us: self.jog_level_every_ms as u64 * 1_000,
            speeds: [s0, s1, s2, s3],
        }
    }

    fn jog_speed_steps(&self, m: &Machine, du: u32) -> (r: u32)
        requires
            *m == self.spec_machine(),
            self.screw_du != 0,
            self.speed_max >= 1,
        ensures
            r == jog_speed(*self, du),
    {
        let steps = m.du_to_steps(du as i64);
        let max = self.speed_max as i64;
        (if steps < 1 { 1 } else if steps > max { max } else { steps }) as u32
    }

    /// Check every field's range and the combinations the motion code relies on.
    pub fn validate(&self, t: Timing) -> (r: Result<(), &'static str>)
        ensures
            r == self.validation(t),
    {
        let mut i: usize = 0;
        while i < FIELD_COUNT
            invariant
                0 <= i <= FIELD_COUNT,
                first_bad_field(*self, 0) == first_bad_field(*self, i as int),
            decreases FIELD_COUNT - i,
        {
            let f = field(i);
            let v = field_get(i, self);
            if v < f.min || v > f.max {
                return Err(f.label);
            }
            i += 1;
        }
        if self.speed_start > self.speed_max {
            return Err("Start speed must not exceed max speed");
        }
        let g = self.stepgen(t);
        proof {
            lemma_no_bad_field(*self, 0, 13);
            lemma_ticks_small(self.step_pulse_ns, t.tick_hz);
        }
        if self.speed_max > g.pulse_limited_speed() {
            return Err("STEP pulse too wide for max speed");
        }
        proof {
            lemma_no_bad_field(*self, 0, 7);
            if t.tick_hz == 0 {
                assert((0int) / (g.pulse_ticks + 1) == 0);
            }
        }
        if g.max_steps_per_segment() > MAX_STEPS_PER_SEGMENT as u64 {
            return Err("Max speed too high for the control period");
        }
        if g.dir_setup_ticks >= g.segment_ticks / 2 {
            return Err("DIR setup time too long");
        }
        Ok(())
    }
}

/// No setting from `i` on is out of range.
pub proof fn lemma_no_bad_field(s: Settings, i: int, j: int)
    requires
        0 <= i <= j < FIELD_COUNT,
        first_bad_field(s, i) is None,
    ensures
        field_spec(j as usize).min <= field_value(s, j as usize) <= field_spec(j as usize).max,
    decreases j - i,
{
    if i < j {
        lemma_no_bad_field(s, i + 1, j);
    }
}

proof fn lemma_ticks_small(ns: u32, hz: u32)
    requires
        ns <= 100_000,
    ensures
        ticks(ns, hz) <= 500_000,
{
    let x = (ns * hz + 999_999_999) / 1_000_000_000;
    assert(ns * hz <= 100_000 * 0xFFFF_FFFF) by (nonlinear_arith) requires ns <= 100_000, hz <= 0xFFFF_FFFF;
    assert(x <= 500_000);
    assert(x as u32 == x);
}

/// Ticks of a `hz` clock covering `ns` nanoseconds, rounded up.
fn ns_to_ticks(ns: u32, hz: u32) -> (r: u32)
    ensures
        r == ticks(ns, hz),
{
    let n = crate::arith::mul_u32_wide(ns, hz);
    let q = n / 1_000_000_000 + if n % 1_000_000_000 != 0 { 1 } else { 0 };
    proof {
        let ni = n as int;
        vstd::arithmetic::div_mod::lemma_fundamental_div_mod(ni, 1_000_000_000);
        assert((ni + 999_999_999) / 1_000_000_000 == ni / 1_000_000_000 + if ni % 1_000_000_000 != 0 { 1int } else { 0 });
    }
    #[verifier::truncate]
    (q as u32)
}


/// One byte for a flag.
pub open spec fn flag_byte(b: bool) -> Seq<u8> {
    seq![if b { 1u8 } else { 0u8 }]
}

/// Payload of a settings record, format version 1: the fields in
/// declaration order, integers little-endian, flags one byte each.
pub open spec fn settings_payload(s: Settings) -> Seq<u8> {
    payload_part1(s) + payload_part2(s) + payload_part3(s)
}

/// Length of a version 1 settings payload.
pub const SETTINGS_PAYLOAD_LEN: usize = 70;

/// A flag byte is 0 or 1.
pub open spec fn is_flag(b: u8) -> bool {
    b == 0 || b == 1
}

pub open spec fn u32_at(p: Seq<u8>, i: int) -> u32 {
    from_le32(p.subrange(i, i + 4)) as u32
}

/// Settings in a version 1 payload: exactly 70 bytes, flags 0 or 1.
pub open spec fn settings_from_payload(p: Seq<u8>) -> Option<Settings> {
    if p.len() == SETTINGS_PAYLOAD_LEN && is_flag(p[10]) && is_flag(p[35]) && is_flag(p[36]) && is_flag(p[37]) {
        Some(Settings {
            encoder_ppr: u32_at(p, 0),
            encoder_backlash: u32_at(p, 4),
            encoder_filter_cycles: from_le16(p.subrange(8, 10)) as u16,
            invert_spindle: p[10] == 1,
            screw_du: u32_at(p, 11),
            motor_steps: u32_at(p, 15),
            speed_start: u32_at(p, 19),
            speed_max: u32_at(p, 23),
            acceleration: u32_at(p, 27),
            max_pitch_du: u32_at(p, 31),
            invert_dir: p[35] == 1,
            invert_enable: p[36] == 1,
            step_active_low: p[37] == 1,
            step_pulse_ns: u32_at(p, 38),
            dir_setup_ns: u32_at(p, 42),
            jog_speeds_du_per_s: [u32_at(p, 46), u32_at(p, 50), u32_at(p, 54), u32_at(p, 58)],
            jog_hold_after_ms: u32_at(p, 62),
            jog_level_every_ms: u32_at(p, 66),
        })
    } else {
        None
    }
}

/// Settings to run with, given what was found in flash.
pub open spec fn settings_from_loaded(l: LoadedView, defaults: Settings, t: Timing) -> (Settings, Origin) {
    match l {
        LoadedView::Blank => (defaults, Origin::FirstBoot),
        LoadedView::Corrupt => (defaults, Origin::Corrupt),
        LoadedView::Found { record, .. } => if record.version != 1 {
            (defaults, Origin::Unsupported)
        } else {
            match settings_from_payload(record.payload) {
                Some(s) => if s.validation(t) is Ok { (s, Origin::Saved) } else { (defaults, Origin::Corrupt) },
                None => (defaults, Origin::Corrupt),
            }
        },
    }
}

/// What `record::encode` produces for `payload` in `out`.
pub open spec fn encoded_into(
    magic: u32,
    version: u16,
    sequence: u32,
    payload: Seq<u8>,
    out: Seq<u8>,
    r: Option<usize>,
    new_out: Seq<u8>,
) -> bool {
    if out.len() < record::HEADER_LEN + payload.len() {
        r is None && new_out == out
    } else {
        r == Some((record::HEADER_LEN + payload.len()) as usize)
            && new_out == record_bytes(magic, version, sequence, payload) + out.skip(
            record::HEADER_LEN + payload.len(),
        )
    }
}

/// First part of the payload: encoder and screw.
pub open spec fn payload_part1(s: Settings) -> Seq<u8> {
    le32(s.encoder_ppr as int) + le32(s.encoder_backlash as int) + le16(s.encoder_filter_cycles as int)
        + flag_byte(s.invert_spindle) + le32(s.screw_du as int) + le32(s.motor_steps as int)
        + le32(s.speed_start as int)
}

/// Second part of the payload: speeds and driver signals.
pub open spec fn payload_part2(s: Settings) -> Seq<u8> {
    le32(s.speed_max as int) + le32(s.acceleration as int) + le32(s.max_pitch_du as int)
        + flag_byte(s.invert_dir) + flag_byte(s.invert_enable) + flag_byte(s.step_active_low)
        + le32(s.step_pulse_ns as int)
}

/// Third part of the payload: jogging.
pub open spec fn payload_part3(s: Settings) -> Seq<u8> {
    le32(s.dir_setup_ns as int) + le32(s.jog_speeds_du_per_s[0] as int) + le32(s.jog_speeds_du_per_s[1] as int)
        + le32(s.jog_speeds_du_per_s[2] as int) + le32(s.jog_speeds_du_per_s[3] as int)
        + le32(s.jog_hold_after_ms as int) + le32(s.jog_level_every_ms as int)
}

proof fn lemma_payload_parts(s: Settings)
    ensures
        payload_part1(s).len() == 23,
        payload_part2(s).len() == 19,
        payload_part3(s).len() == 28,
        settings_payload(s).len() == SETTINGS_PAYLOAD_LEN,
{
}

/// The writer has room for `n` more bytes and nothing overflowed.
pub open spec fn room(w: &Writer, n: int) -> bool {
    w.wf() && !w.overflow() && w.pos() + n <= w.contents().len()
}

fn write_part1(w: &mut Writer, s: &Settings)
    requires
        room(old(w), 23),
    ensures
        room(final(w), 0),
        final(w).pos() == old(w).pos() + 23,
        final(w).contents().len() == old(w).contents().len(),
        final(w).written() == old(w).written() + payload_part1(*s),
        final(final(w).buf())@ == final(old(w).buf())@,
{
    w.u32(s.encoder_ppr);
    w.u32(s.encoder_backlash);
    w.u16(s.encoder_filter_cycles);
    w.bool(s.invert_spindle);
    w.u32(s.screw_du);
    w.u32(s.motor_steps);
    w.u32(s.speed_start);
    proof {
        assert(w.written() =~= old(w).written() + payload_part1(*s));
    }
}

fn write_part2(w: &mut Writer, s: &Settings)
    requires
        room(old(w), 19),
    ensures
        room(final(w), 0),
        final(w).pos() == old(w).pos() + 19,
        final(w).contents().len() == old(w).contents().len(),
        final(w).written() == old(w).written() + payload_part2(*s),
        final(final(w).buf())@ == final(old(w).buf())@,
{
    w.u32(s.speed_max);
    w.u32(s.acceleration);
    w.u32(s.max_pitch_du);
    w.bool(s.invert_dir);
    w.bool(s.invert_enable);
    w.bool(s.step_active_low);
    w.u32(s.step_pulse_ns);
    proof {
        assert(w.written() =~= old(w).written() + payload_part2(*s));
    }
}

fn write_part3(w: &mut Writer, s: &Settings)
    requires
        room(old(w), 28),
    ensures
        room(final(w), 0),
        final(w).pos() == old(w).pos() + 28,
        final(w).contents().len() == old(w).contents().len(),
        final(w).written() == old(w).written() + payload_part3(*s),
        final(final(w).buf())@ == final(old(w).buf())@,
{
    w.u32(s.dir_setup_ns);
    w.u32(s.jog_speeds_du_per_s[0]);
    w.u32(s.jog_speeds_du_per_s[1]);
    w.u32(s.jog_speeds_du_per_s[2]);
    w.u32(s.jog_speeds_du_per_s[3]);
    w.u32(s.jog_hold_after_ms);
    w.u32(s.jog_level_every_ms);
    proof {
        assert(w.written() =~= old(w).written() + payload_part3(*s));
    }
}

impl Settings {
    pub fn encode(&self, sequence: u32, out: &mut [u8]) -> (r: Option<usize>)
        ensures
            encoded_into(SETTINGS_MAGIC, SETTINGS_VERSION, sequence, settings_payload(*self), old(out)@, r, final(out)@),
    {
        let mut payload = [0u8; 112];
        let len = {
            let mut w = Writer::new(&mut payload);
            proof {
                lemma_payload_parts(*self);
                assert(w.written() =~= Seq::<u8>::empty());
            }
            write_part1(&mut w, self);
            write_part2(&mut w, self);
            write_part3(&mut w, self);
            proof {
                lemma_payload_parts(*self);
            }
            match w.finish() {
                Some(n) => n,
                None => return None,
            }
        };
        assert(payload@.take(len as int) == settings_payload(*self));
        record::encode(SETTINGS_MAGIC, SETTINGS_VERSION, sequence, &payload[0..len], out)
    }
}


/// Fields of payload part 1 starting at `o`.
pub open spec fn part1_at(p: Seq<u8>, o: int) -> (u32, u32, u16, bool, u32, u32, u32) {
    (u32_at(p, o), u32_at(p, o + 4), from_le16(p.subrange(o + 8, o + 10)) as u16, p[o + 10] == 1,
        u32_at(p, o + 11), u32_at(p, o + 15), u32_at(p, o + 19))
}

/// Fields of payload part 2 starting at `o`.
pub open spec fn part2_at(p: Seq<u8>, o: int) -> (u32, u32, u32, bool, bool, bool, u32) {
    (u32_at(p, o), u32_at(p, o + 4), u32_at(p, o + 8), p[o + 12] == 1, p[o + 13] == 1, p[o + 14] == 1,
        u32_at(p, o + 15))
}

/// Fields of payload part 3 starting at `o`.
pub open spec fn part3_at(p: Seq<u8>, o: int) -> (u32, u32, u32, u32, u32, u32, u32) {
    (u32_at(p, o), u32_at(p, o + 4), u32_at(p, o + 8), u32_at(p, o + 12), u32_at(p, o + 16),
        u32_at(p, o + 20), u32_at(p, o + 24))
}

fn read_part1(r: &mut Reader) -> (v: Option<(u32, u32, u16, bool, u32, u32, u32)>)
    requires
        old(r).wf(),
    ensures
        final(r).wf(),
        final(r).data() == old(r).data(),
        ({
            let p = old(r).data();
            let o = old(r).pos();
            if o + 23 <= p.len() && is_flag(p[o + 10]) {
                v == Some(part1_at(p, o)) && final(r).pos() == o + 23
            } else {
                v is None
            }
        }),
{
    let ghost p = r.data();
    let ghost o = r.pos();
    let a = r.u32()?;
    assert(r.pos() == o + 4);
    let b = r.u32()?;
    assert(r.pos() == o + 8);
    let c = r.u16()?;
    assert(r.pos() == o + 10);
    assert(o + 10 < p.len() ==> p.subrange(o + 10, o + 10 + 1)[0] == p[o + 10]);
    let d = r.bool()?;
    assert(r.pos() == o + 11);
    let e = r.u32()?;
    assert(r.pos() == o + 15);
    let f = r.u32()?;
    assert(r.pos() == o + 19);
    let g = r.u32()?;
    assert(r.pos() == o + 23);
    Some((a, b, c, d, e, f, g))
}

fn read_part2(r: &mut Reader) -> (v: Option<(u32, u32, u32, bool, bool, bool, u32)>)
    requires
        old(r).wf(),
    ensures
        final(r).wf(),
        final(r).data() == old(r).data(),
        ({
            let p = old(r).data();
            let o = old(r).pos();
            if o + 19 <= p.len() && is_flag(p[o + 12]) && is_flag(p[o + 13]) && is_flag(p[o + 14]) {
                v == Some(part2_at(p, o)) && final(r).pos() == o + 19
            } else {
                v is None
            }
        }),
{
    let ghost p = r.data();
    let ghost o = r.pos();
    let a = r.u32()?;
    assert(r.pos() == o + 4);
    let b = r.u32()?;
    assert(r.pos() == o + 8);
    let c = r.u32()?;
    assert(r.pos() == o + 12);
    assert(o + 12 < p.len() ==> p.subrange(o + 12, o + 12 + 1)[0] == p[o + 12]);
    let d = r.bool()?;
    assert(r.pos() == o + 13);
    assert(o + 13 < p.len() ==> p.subrange(o + 13, o + 13 + 1)[0] == p[o + 13]);
    let e = r.bool()?;
    assert(r.pos() == o + 14);
    assert(o + 14 < p.len() ==> p.subrange(o + 14, o + 14 + 1)[0] == p[o + 14]);
    let f = r.bool()?;
    assert(r.pos() == o + 15);
    let g = r.u32()?;
    assert(r.pos() == o + 19);
    Some((a, b, c, d, e, f, g))
}

fn read_part3(r: &mut Reader) -> (v: Option<(u32, u32, u32, u32, u32, u32, u32)>)
    requires
        old(r).wf(),
    ensures
        final(r).wf(),
        final(r).data() == old(r).data(),
        ({
            let p = old(r).data();
            let o = old(r).pos();
            if o + 28 <= p.len() {
                v == Some(part3_at(p, o)) && final(r).pos() == o + 28
            } else {
                v is None
            }
        }),
{
    let ghost p = r.data();
    let ghost o = r.pos();
    let a = r.u32()?;
    assert(r.pos() == o + 4);
    let b = r.u32()?;
    assert(r.pos() == o + 8);
    let c = r.u32()?;
    assert(r.pos() == o + 12);
    let d = r.u32()?;
    assert(r.pos() == o + 16);
    let e = r.u32()?;
    assert(r.pos() == o + 20);
    let f = r.u32()?;
    assert(r.pos() == o + 24);
    let g = r.u32()?;
    assert(r.pos() == o + 28);
    Some((a, b, c, d, e, f, g))
}

impl Settings {
    /// Settings in a version 1 payload.
    fn decode_v1(payload: &[u8]) -> (r: Option<Self>)
        ensures
            r == settings_from_payload(payload@),
    {
        let mut r = Reader::new(payload);
        let (encoder_ppr, encoder_backlash, encoder_filter_cycles, invert_spindle, screw_du, motor_steps, speed_start) =
            read_part1(&mut r)?;
        let (speed_max, acceleration, max_pitch_du, invert_dir, invert_enable, step_active_low, step_pulse_ns) =
            read_part2(&mut r)?;
        let (dir_setup_ns, j0, j1, j2, j3, jog_hold_after_ms, jog_level_every_ms) = read_part3(&mut r)?;
        let s = Settings {
            encoder_ppr,
            encoder_backlash,
            encoder_filter_cycles,
            invert_spindle,
            screw_du,
            motor_steps,
            speed_start,
            speed_max,
            acceleration,
            max_pitch_du,
            invert_dir,
            invert_enable,
            step_active_low,
            step_pulse_ns,
            dir_setup_ns,
            jog_speeds_du_per_s: [j0, j1, j2, j3],
            jog_hold_after_ms,
            jog_level_every_ms,
        };
        if r.done() {
            Some(s)
        } else {
            None
        }
    }

    /// Settings to run with, given what was found in flash.
    pub fn from_loaded(loaded: &Loaded, defaults: Settings, t: Timing) -> (r: (Settings, Origin))
        ensures
            r == settings_from_loaded(loaded.model(), defaults, t),
    {
        match loaded {
            Loaded::Blank => (defaults, Origin::FirstBoot),
            Loaded::Corrupt => (defaults, Origin::Corrupt),
            Loaded::Found { record, .. } => {
                let decoded = if record.version == 1 {
                    Self::decode_v1(record.payload)
                } else {
                    // Future versions: add migrations here.
                    return (defaults, Origin::Unsupported);
                };
                match decoded {
                    Some(s) => if s.validate(t).is_ok() { (s, Origin::Saved) } else { (defaults, Origin::Corrupt) },
                    None => (defaults, Origin::Corrupt),
                }
            },
        }
    }
}


/// Operator choices remembered across power cycles. Stops and position are
/// deliberately not saved: the carriage may be moved while powered off.
#[derive(Clone, Copy, Debug, PartialEq, Eq, Structural)]
pub struct OperatorState {
    pub pitch: Pitch,
    pub step_idx: u8,
    pub jog_idx: u8,
}

/// Payload of an operator state record, format version 1.
pub open spec fn state_payload(st: OperatorState) -> Seq<u8> {
    seq![if st.pitch.unit == Unit::Mm { 0u8 } else { 1u8 }] + le32(st.pitch.magnitude_milli as int)
        + flag_byte(st.pitch.reversed) + seq![st.step_idx] + seq![st.jog_idx]
}

/// The operator state in a version 1 payload, if it is well formed and
/// within range.
pub open spec fn state_from_payload(p: Seq<u8>, max_pitch_du: i64) -> Option<OperatorState> {
    if p.len() == 8 && p[0] <= 1 && is_flag(p[5]) {
        let st = OperatorState {
            pitch: Pitch {
                unit: if p[0] == 0 { Unit::Mm } else { Unit::Inch },
                magnitude_milli: u32_at(p, 1),
                reversed: p[5] == 1,
            },
            step_idx: p[6],
            jog_idx: p[7],
        };
        if crate::arith::abs(st.pitch.spec_du()) <= max_pitch_du && st.step_idx < STEP_SIZES_MILLI.len()
            && st.jog_idx < JOG_SIZES_MILLI.len() {
            Some(st)
        } else {
            None
        }
    } else {
        None
    }
}

/// Saved operator state, given what was found in flash.
pub open spec fn state_from_loaded(l: LoadedView, max_pitch_du: i64) -> Option<OperatorState> {
    match l {
        LoadedView::Found { record, .. } => if record.version == 1 {
            state_from_payload(record.payload, max_pitch_du)
        } else {
            None
        },
        _ => None,
    }
}

impl OperatorState {
    pub fn encode(&self, sequence: u32, out: &mut [u8]) -> (r: Option<usize>)
        ensures
            encoded_into(STATE_MAGIC, STATE_VERSION, sequence, state_payload(*self), old(out)@, r, final(out)@),
    {
        let mut payload = [0u8; 16];
        let len = {
            let mut w = Writer::new(&mut payload);
            proof {
                assert(w.written() =~= Seq::<u8>::empty());
            }
            w.u8(
                match self.pitch.unit {
                    Unit::Mm => 0,
                    Unit::Inch => 1,
                },
            );
            w.u32(self.pitch.magnitude_milli);
            w.bool(self.pitch.reversed);
            w.u8(self.step_idx);
            w.u8(self.jog_idx);
            proof {
                assert(w.written() =~= state_payload(*self));
            }
            match w.finish() {
                Some(n) => n,
                None => return None,
            }
        };
        record::encode(STATE_MAGIC, STATE_VERSION, sequence, &payload[0..len], out)
    }

    /// Decode a saved state; `None` if absent, damaged or out of range.
    pub fn from_loaded(loaded: &Loaded, max_pitch_du: i64) -> (r: Option<Self>)
        ensures
            r == state_from_loaded(loaded.model(), max_pitch_du),
    {
        let record = match loaded {
            Loaded::Found { record, .. } => record,
            _ => return None,
        };
        if record.version != 1 {
            return None;
        }
        let mut r = Reader::new(record.payload);
        let ghost p = record.payload@;
        let unit = match r.u8()? {
            0 => Unit::Mm,
            1 => Unit::Inch,
            _ => return None,
        };
        assert(r.pos() == 1);
        let magnitude_milli = r.u32()?;
        assert(r.pos() == 5);
        assert(5 < p.len() ==> p.subrange(5, 6)[0] == p[5]);
        let reversed = r.bool()?;
        assert(6 < p.len() ==> p.subrange(6, 7)[0] == p[6]);
        let pitch = Pitch { unit, magnitude_milli, reversed };
        let step_idx = r.u8()?;
        assert(7 < p.len() ==> p.subrange(7, 8)[0] == p[7]);
        let jog_idx = r.u8()?;
        let s = OperatorState { pitch, step_idx, jog_idx };
        let du = pitch.du();
        let ok = r.done() && (if du < 0 { -du } else { du }) <= max_pitch_du && (s.step_idx as usize)
            < STEP_SIZES_MILLI.len() && (s.jog_idx as usize) < JOG_SIZES_MILLI.len();
        if ok {
            Some(s)
        } else {
            None
        }
    }
}


/// Reading back what was written: a settings payload decodes to the
/// settings it was made from.
#[verifier::rlimit(80)]
pub proof fn lemma_settings_payload_round_trip(s: Settings)
    ensures
        settings_from_payload(settings_payload(s)) == Some(s),
{
    let p = settings_payload(s);
    lemma_payload_parts(s);
    assert(p.subrange(0, 4) =~= le32(s.encoder_ppr as int));
    record::lemma_le32(s.encoder_ppr as int);
    assert(p.subrange(4, 8) =~= le32(s.encoder_backlash as int));
    record::lemma_le32(s.encoder_backlash as int);
    assert(p.subrange(11, 15) =~= le32(s.screw_du as int));
    record::lemma_le32(s.screw_du as int);
    assert(p.subrange(15, 19) =~= le32(s.motor_steps as int));
    record::lemma_le32(s.motor_steps as int);
    assert(p.subrange(19, 23) =~= le32(s.speed_start as int));
    record::lemma_le32(s.speed_start as int);
    assert(p.subrange(23, 27) =~= le32(s.speed_max as int));
    record::lemma_le32(s.speed_max as int);
    assert(p.subrange(27, 31) =~= le32(s.acceleration as int));
    record::lemma_le32(s.acceleration as int);
    assert(p.subrange(31, 35) =~= le32(s.max_pitch_du as int));
    record::lemma_le32(s.max_pitch_du as int);
    assert(p.subrange(38, 42) =~= le32(s.step_pulse_ns as int));
    record::lemma_le32(s.step_pulse_ns as int);
    assert(p.subrange(42, 46) =~= le32(s.dir_setup_ns as int));
    record::lemma_le32(s.dir_setup_ns as int);
    assert(p.subrange(46, 50) =~= le32(s.jog_speeds_du_per_s[0] as int));
    record::lemma_le32(s.jog_speeds_du_per_s[0] as int);
    assert(p.subrange(50, 54) =~= le32(s.jog_speeds_du_per_s[1] as int));
    record::lemma_le32(s.jog_speeds_du_per_s[1] as int);
    assert(p.subrange(54, 58) =~= le32(s.jog_speeds_du_per_s[2] as int));
    record::lemma_le32(s.jog_speeds_du_per_s[2] as int);
    assert(p.subrange(58, 62) =~= le32(s.jog_speeds_du_per_s[3] as int));
    record::lemma_le32(s.jog_speeds_du_per_s[3] as int);
    assert(p.subrange(62, 66) =~= le32(s.jog_hold_after_ms as int));
    record::lemma_le32(s.jog_hold_after_ms as int);
    assert(p.subrange(66, 70) =~= le32(s.jog_level_every_ms as int));
    record::lemma_le32(s.jog_level_every_ms as int);
    assert(p.subrange(8, 10) =~= le16(s.encoder_filter_cycles as int));
    record::lemma_le16(s.encoder_filter_cycles as int);
    assert(p[10] == flag_byte(s.invert_spindle)[0]);
    assert(p[35] == flag_byte(s.invert_dir)[0]);
    assert(p[36] == flag_byte(s.invert_enable)[0]);
    assert(p[37] == flag_byte(s.step_active_low)[0]);
    let d = settings_from_payload(p).unwrap();
    assert(d.jog_speeds_du_per_s =~= s.jog_speeds_du_per_s);
}

/// Settings saved to flash are the settings used after a restart, as long
/// as they pass validation and the other slot holds no valid record; saved
/// settings that fail validation give the defaults, marked corrupt.
pub proof fn lemma_saved_settings_load(
    s: Settings,
    defaults: Settings,
    t: Timing,
    sequence: u32,
    rest: Seq<u8>,
    other: Seq<u8>,
)
    requires
        record::decoded(SETTINGS_MAGIC, other) is Err,
    ensures
        ({
            let a = record_bytes(SETTINGS_MAGIC, SETTINGS_VERSION, sequence, settings_payload(s)) + rest;
            let got = settings_from_loaded(record::loaded(SETTINGS_MAGIC, a, other), defaults, t);
            got == if s.validation(t) is Ok { (s, Origin::Saved) } else { (defaults, Origin::Corrupt) }
        }),
{
    lemma_payload_parts(s);
    record::lemma_decode_encoded(SETTINGS_MAGIC, SETTINGS_VERSION, sequence, settings_payload(s), rest);
    lemma_settings_payload_round_trip(s);
}

/// Reading back what was written: an operator state decodes to itself
/// exactly when it is within the limits that loading checks.
pub proof fn lemma_state_payload_round_trip(st: OperatorState, max_pitch_du: i64)
    ensures
        state_from_payload(state_payload(st), max_pitch_du) == if crate::arith::abs(st.pitch.spec_du())
            <= max_pitch_du && st.step_idx < STEP_SIZES_MILLI.len() && st.jog_idx < JOG_SIZES_MILLI.len() {
            Some(st)
        } else {
            None
        },
{
    let p = state_payload(st);
    assert(p.subrange(1, 5) =~= le32(st.pitch.magnitude_milli as int));
    record::lemma_le32(st.pitch.magnitude_milli as int);
}

/// Setting a field to a value within its range reads back that value, and
/// leaves every other field as it was.
pub proof fn lemma_field_set_get(s: Settings, i: usize, j: usize, v: i64)
    requires
        i < FIELD_COUNT,
        j < FIELD_COUNT,
        field_spec(i).min <= v <= field_spec(i).max,
    ensures
        field_value(field_set(s, i, v), i) == v,
        i != j ==> field_value(field_set(s, i, v), j) == field_value(s, j),
{
}

} // verus!
