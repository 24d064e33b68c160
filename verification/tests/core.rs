use els_core::mul_div_round;
use els_core::pitch::{parse_entry_milli, Pitch, Unit};
use els_core::record::{after_save, crc32, decode, encode, load, next_slot, Loaded, Reader, Record, SlotError, Writer, HEADER_LEN};
use els_core::settings::{
    fields, field_get, field_put, OperatorState, Origin, Settings, Timing, MAX_RECORD_LEN, SECTIONS, SETTINGS_MAGIC,
    STATE_MAGIC,
};
use els_core::spindle::Spindle;
use els_core::Machine;

const TIMING: Timing = Timing { tick_hz: 10_000_000, segment_ticks: 2_500 };

const DEFAULTS: Settings = Settings {
    encoder_ppr: 1200,
    encoder_backlash: 3,
    encoder_filter_cycles: 40,
    invert_spindle: false,
    screw_du: 40_000,
    motor_steps: 800,
    speed_start: 800,
    speed_max: 30_000,
    acceleration: 20_000,
    max_pitch_du: 254_000,
    invert_dir: false,
    invert_enable: false,
    step_active_low: true,
    step_pulse_ns: 2_500,
    dir_setup_ns: 10_000,
    jog_speeds_du_per_s: [5_000, 20_000, 80_000, 250_000],
    jog_hold_after_ms: 400,
    jog_level_every_ms: 1_000,
};

const MAGIC: u32 = u32::from_le_bytes(*b"TEST");

fn slot(sequence: u32, payload: &[u8]) -> [u8; 64] {
    let mut s = [0xFF; 64];
    encode(MAGIC, 1, sequence, payload, &mut s).unwrap();
    s
}

fn saved(s: &Settings, seq: u32) -> [u8; MAX_RECORD_LEN] {
    let mut buf = [0xFF; MAX_RECORD_LEN];
    s.encode(seq, &mut buf).unwrap();
    buf
}

fn field_index(key: &str) -> usize {
    fields().iter().position(|f| f.key == key).unwrap()
}

#[test]
fn mul_div_round_rounds_half_away() {
    assert_eq!(mul_div_round(5, 1, 2), 3);
    assert_eq!(mul_div_round(-5, 1, 2), -3);
    assert_eq!(mul_div_round(4, 1, 3), 1);
    assert_eq!(mul_div_round(i64::MAX / 2, 4, 4), i64::MAX / 2);
}

#[test]
fn mul_div_round_signs_and_wide_products() {
    assert_eq!(mul_div_round(5, 1, -2), -3);
    assert_eq!(mul_div_round(-5, -1, -2), -3);
    assert_eq!(mul_div_round(7, 1, 2), 4);
    assert_eq!(mul_div_round(i64::MAX, i64::MAX, i64::MAX), i64::MAX);
    assert_eq!(mul_div_round(0, 9, 7), 0);
}

#[test]
fn machine_converts_both_ways() {
    let m = Machine { counts_per_rev: 2400, motor_steps: 800, screw_du: 40_000 };
    assert_eq!(m.steps_to_du(800), 40_000);
    assert_eq!(m.steps_to_du(3), 150);
    assert_eq!(m.du_to_steps(40_000), 800);
    assert_eq!(m.du_to_steps(25), 1);
    assert_eq!(m.du_to_steps(-25), -1);
}

#[test]
fn du_conversion() {
    let p = Pitch { magnitude_milli: 1_000, reversed: false, unit: Unit::Mm };
    assert_eq!(p.du(), 10_000);
    let p = Pitch { unit: Unit::Inch, ..p };
    assert_eq!(p.du(), 254_000);
    let p = Pitch { reversed: true, ..p };
    assert_eq!(p.du(), -254_000);
}

#[test]
fn signed_milli_and_units() {
    let p = Pitch { magnitude_milli: 1_250, reversed: true, unit: Unit::Mm };
    assert_eq!(p.signed_milli(), -1_250);
    assert_eq!(Unit::Mm.toggled(), Unit::Inch);
    assert_eq!(Unit::Inch.toggled(), Unit::Mm);
    assert_eq!(Unit::Mm.du_per_milli(), 10);
    assert_eq!(Unit::Inch.du_per_milli(), 254);
    assert_eq!(Unit::Mm.label(), "MM");
    assert_eq!(Unit::Inch.label(), "IN");
}

#[test]
fn parses_entries() {
    assert_eq!(parse_entry_milli("1.25"), Some(1_250));
    assert_eq!(parse_entry_milli(".5"), Some(500));
    assert_eq!(parse_entry_milli("12"), Some(12_000));
    assert_eq!(parse_entry_milli("0.001"), Some(1));
    assert_eq!(parse_entry_milli("3."), Some(3_000));
    assert_eq!(parse_entry_milli("0.0001"), None);
    assert_eq!(parse_entry_milli("."), None);
    assert_eq!(parse_entry_milli(""), None);
    assert_eq!(parse_entry_milli("1.2.3"), None);
}

#[test]
fn parse_entry_rejects_other_characters_and_overflow() {
    assert_eq!(parse_entry_milli("1a"), None);
    assert_eq!(parse_entry_milli("-1"), None);
    assert_eq!(parse_entry_milli("99999999999"), None);
}

#[test]
fn crc32_matches_reference() {
    assert_eq!(crc32(&[b"123456789"]), 0xCBF4_3926);
    assert_eq!(crc32(&[b"1234", b"56789"]), 0xCBF4_3926);
}

#[test]
fn crc32_of_nothing_is_zero() {
    assert_eq!(crc32(&[]), 0);
    assert_eq!(crc32(&[b"", b""]), 0);
}

#[test]
fn round_trips() {
    let s = slot(7, b"hello");
    assert_eq!(decode(MAGIC, &s), Ok(Record { version: 1, sequence: 7, payload: b"hello" }));
}

#[test]
fn encode_refuses_small_slot() {
    let mut small = [0xFF; 20];
    assert_eq!(encode(MAGIC, 1, 1, b"hello", &mut small), None);
    let mut exact = [0xFF; 21];
    assert_eq!(encode(MAGIC, 1, 1, b"hello", &mut exact), Some(21));
}

#[test]
fn distinguishes_blank_from_corrupt() {
    assert_eq!(decode(MAGIC, &[0xFF; 64]), Err(SlotError::Blank));
    assert_eq!(decode(MAGIC, &[0x00; 64]), Err(SlotError::Corrupt));
    let mut s = slot(1, b"hello");
    s[HEADER_LEN + 1] ^= 0x01; // flipped bit in payload
    assert_eq!(decode(MAGIC, &s), Err(SlotError::Corrupt));
    let other = u32::from_le_bytes(*b"OTHR");
    assert_eq!(decode(other, &slot(1, b"x")), Err(SlotError::Corrupt));
    let mut s = slot(1, b"hello");
    s[6] = 200; // length beyond the slot
    assert_eq!(decode(MAGIC, &s), Err(SlotError::Corrupt));
}

#[test]
fn newest_valid_slot_wins() {
    let (a, b) = (slot(4, b"old"), slot(5, b"new"));
    assert!(matches!(load(MAGIC, [&a, &b]), Loaded::Found { slot: 1, record } if record.payload == b"new"));
    assert!(matches!(load(MAGIC, [&b, &a]), Loaded::Found { slot: 0, .. }));
    // Wrapped sequence numbers.
    let (a, b) = (slot(u32::MAX, b"old"), slot(0, b"new"));
    assert!(matches!(load(MAGIC, [&a, &b]), Loaded::Found { slot: 1, .. }));
}

#[test]
fn torn_write_falls_back_to_other_slot() {
    let a = slot(4, b"good");
    let mut b = slot(5, b"torn");
    b[HEADER_LEN + 2..].fill(0xFF); // power cut half-way through the payload
    let loaded = load(MAGIC, [&a, &b]);
    assert!(matches!(loaded, Loaded::Found { slot: 0, record } if record.payload == b"good"));
    assert_eq!(next_slot(&loaded), (1, 5));
}

#[test]
fn save_to_next_slot_is_then_loaded() {
    let a = slot(4, b"first");
    let blank = [0xFF; 64];
    let before = load(MAGIC, [&a, &blank]);
    let (at, seq) = next_slot(&before);
    assert_eq!((at, seq), (1, 5));
    let b = slot(seq, b"second");
    assert!(matches!(load(MAGIC, [&a, &b]), Loaded::Found { slot: 1, record } if record.payload == b"second"));
    let wrapped = slot(u32::MAX, b"x");
    assert_eq!(next_slot(&load(MAGIC, [&wrapped, &blank])), (1, 0));
}

#[test]
fn saves_alternate_slots_and_wrap_the_sequence() {
    assert_eq!(after_save((0, 1)), (1, 2));
    assert_eq!(after_save((1, 2)), (0, 3));
    assert_eq!(after_save((1, u32::MAX)), (0, 0));
    let blank = [0xFF; 64];
    let first = next_slot(&load(MAGIC, [&blank, &blank]));
    let a = slot(first.1, b"one");
    let second = after_save(first);
    let b = slot(second.1, b"two");
    let both = load(MAGIC, [&a, &b]);
    assert!(matches!(both, Loaded::Found { slot: 1, record } if record.payload == b"two"));
    assert_eq!(next_slot(&both), after_save(second));
}

#[test]
fn blank_and_corrupt_pairs() {
    let blank = [0xFF; 64];
    assert_eq!(load(MAGIC, [&blank, &blank]), Loaded::Blank);
    assert_eq!(load(MAGIC, [&blank, &[0x42; 64]]), Loaded::Corrupt);
    assert_eq!(next_slot(&Loaded::Blank), (0, 1));
}

#[test]
fn writer_and_reader() {
    let mut buf = [0u8; 8];
    let mut w = Writer::new(&mut buf);
    w.u32(0xDEAD_BEEF);
    w.u16(7);
    w.bool(true);
    assert_eq!(w.finish(), Some(7));
    let mut r = Reader::new(&buf[..7]);
    assert_eq!((r.u32(), r.u16(), r.bool()), (Some(0xDEAD_BEEF), Some(7), Some(true)));
    assert!(r.done());
    assert_eq!(r.u8(), None);
    let mut small = [0u8; 2];
    let mut w = Writer::new(&mut small);
    w.u32(1);
    assert_eq!(w.finish(), None);
}

#[test]
fn writer_is_little_endian_and_reader_rejects_bad_bool() {
    let mut buf = [0u8; 4];
    let mut w = Writer::new(&mut buf);
    w.u16(0x1234);
    w.u8(0xAB);
    w.bytes(&[2]);
    assert_eq!(w.finish(), Some(4));
    assert_eq!(buf, [0x34, 0x12, 0xAB, 2]);
    let mut r = Reader::new(&buf[3..]);
    assert_eq!(r.bool(), None);
}

#[test]
fn defaults_are_valid() {
    assert_eq!(DEFAULTS.validate(TIMING), Ok(()));
}

#[test]
fn round_trips_through_flash_record() {
    let mut s = DEFAULTS;
    s.screw_du = 50_800;
    s.invert_dir = true;
    s.jog_speeds_du_per_s[2] = 123_456;
    let a = saved(&s, 3);
    let blank = [0xFF; MAX_RECORD_LEN];
    let (got, origin) = Settings::from_loaded(&load(SETTINGS_MAGIC, [&a, &blank]), DEFAULTS, TIMING);
    assert_eq!((got, origin), (s, Origin::Saved));
}

#[test]
fn first_boot_corrupt_and_unsupported_fall_back_to_defaults() {
    let blank = [0xFF; MAX_RECORD_LEN];
    let loaded = load(SETTINGS_MAGIC, [&blank, &blank]);
    assert_eq!(Settings::from_loaded(&loaded, DEFAULTS, TIMING).1, Origin::FirstBoot);

    let noise = [0x5A; MAX_RECORD_LEN];
    let loaded = load(SETTINGS_MAGIC, [&noise, &blank]);
    assert_eq!(Settings::from_loaded(&loaded, DEFAULTS, TIMING).1, Origin::Corrupt);

    let mut future = [0xFF; MAX_RECORD_LEN];
    encode(SETTINGS_MAGIC, 99, 1, b"whatever", &mut future).unwrap();
    let loaded = load(SETTINGS_MAGIC, [&future, &blank]);
    assert_eq!(Settings::from_loaded(&loaded, DEFAULTS, TIMING).1, Origin::Unsupported);
}

#[test]
fn valid_record_with_invalid_values_is_rejected() {
    let mut s = DEFAULTS;
    s.motor_steps = 0;
    let a = saved(&s, 1);
    let blank = [0xFF; MAX_RECORD_LEN];
    let (got, origin) = Settings::from_loaded(&load(SETTINGS_MAGIC, [&a, &blank]), DEFAULTS, TIMING);
    assert_eq!((got, origin), (DEFAULTS, Origin::Corrupt));
}

#[test]
fn settings_record_fits() {
    let buf = saved(&DEFAULTS, 1);
    assert!(decode(SETTINGS_MAGIC, &buf).is_ok());
    assert!(matches!(decode(STATE_MAGIC, &buf), Err(SlotError::Corrupt)));
}

#[test]
fn cross_field_validation() {
    let mut s = DEFAULTS;
    s.speed_start = 40_000;
    assert!(s.validate(TIMING).is_err());
    let mut s = DEFAULTS;
    s.speed_max = 300_000; // above what 2.5 µs pulses allow
    assert!(s.validate(TIMING).is_err());
    let mut s = DEFAULTS;
    s.step_pulse_ns = 50_000; // 50 µs pulses can't reach 30k steps/s
    assert!(s.validate(TIMING).is_err());
}

#[test]
fn fields_get_and_set() {
    let mut s = DEFAULTS;
    let i = field_index("jog_speed_3");
    field_put(i, &mut s, 42);
    assert_eq!(s.jog_speeds_du_per_s[2], 42);
    let i = field_index("invert_enable");
    field_put(i, &mut s, 1);
    assert!(s.invert_enable);
    assert_eq!(field_get(i, &s), 1);
    assert!(fields().iter().all(|f| SECTIONS.contains(&f.section)));
}

#[test]
fn every_field_reads_back_what_was_put() {
    for (i, f) in fields().iter().enumerate() {
        let mut s = DEFAULTS;
        field_put(i, &mut s, f.max);
        assert_eq!(field_get(i, &s), f.max, "{}", f.key);
        field_put(i, &mut s, f.min);
        assert_eq!(field_get(i, &s), f.min, "{}", f.key);
    }
}

#[test]
fn operator_state_round_trip_and_bounds() {
    let st = OperatorState {
        pitch: Pitch { magnitude_milli: 1_250, reversed: true, unit: Unit::Inch },
        step_idx: 3,
        jog_idx: 2,
    };
    let mut a = [0xFF; MAX_RECORD_LEN];
    st.encode(9, &mut a).unwrap();
    let blank = [0xFF; MAX_RECORD_LEN];
    let loaded = load(STATE_MAGIC, [&blank, &a]);
    // 1.25" exceeds a 1" limit.
    assert_eq!(OperatorState::from_loaded(&loaded, 254_000), None);
    assert_eq!(OperatorState::from_loaded(&loaded, 1_000_000), Some(st));
    assert_eq!(OperatorState::from_loaded(&load(STATE_MAGIC, [&blank, &blank]), 254_000), None);
}

#[test]
fn settings_derive_machine_and_jog() {
    let m = DEFAULTS.machine();
    assert_eq!((m.counts_per_rev, m.motor_steps, m.screw_du), (2400, 800, 40_000));
    let cfg = DEFAULTS.stepgen(TIMING);
    assert_eq!((cfg.tick_hz, cfg.segment_ticks, cfg.pulse_ticks), (10_000_000, 2_500, 25));
    assert_eq!((cfg.dir_setup_ticks, cfg.start_speed, cfg.max_speed, cfg.acceleration), (100, 800, 30_000, 20_000));
}

#[test]
fn handles_wrap_both_ways() {
    let mut s = Spindle::new(0);
    s.feed(10_000);
    s.feed(20_000);
    s.feed(29_990);
    assert_eq!(s.pos, 29_990);
    s.feed(5); // hit +30000, reset to 0, then +5
    assert_eq!(s.pos, 30_005);
    s.feed(-10);
    assert_eq!(s.pos, 29_990);

    let mut s = Spindle::new(0);
    for raw in [-10_000, -20_000, -29_995] {
        s.feed(raw);
    }
    assert_eq!(s.pos, -29_995);
    s.feed(-3); // hit -30000, reset to 0, then -3
    assert_eq!(s.pos, -30_003);
}

#[test]
fn backlash_filters_small_reversals() {
    let mut s = Spindle::new(3);
    s.feed(100);
    s.feed(98);
    assert_eq!(s.avg, 100);
    s.feed(96);
    assert_eq!(s.avg, 99);
    s.feed(101);
    assert_eq!(s.avg, 101);
}

#[test]
fn avg_stays_within_backlash_of_position() {
    let mut s = Spindle::new(5);
    for raw in [40, 37, 30, 33, 36, 31, 60] {
        s.feed(raw);
        assert!((s.pos() - s.avg()).abs() <= 5);
    }
    assert_eq!(s.pos(), 60);
}
