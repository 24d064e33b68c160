use els_core::dns::answer;
use els_core::nextion::{encode_text, key_for, BufferFull, Parser, Touch, BEEP};
use els_core::ui::Key;

// Query for "example.com" type A, id 0x1234, recursion desired.
const QUERY: &[u8] = &[
    0x12, 0x34, 0x01, 0x00, 0x00, 0x01, 0x00, 0x00, 0x00, 0x00, 0x00, 0x00, 7, b'e', b'x', b'a', b'm', b'p', b'l', b'e',
    3, b'c', b'o', b'm', 0, 0x00, 0x01, 0x00, 0x01,
];

#[test]
fn answers_a_query_with_our_ip() {
    let mut out = [0u8; 512];
    let n = answer(QUERY, [192, 168, 4, 1], &mut out).unwrap();
    assert_eq!(n, QUERY.len() + 16);
    assert_eq!(&out[..2], &[0x12, 0x34]);
    assert_eq!(out[2] & 0x80, 0x80, "response flag");
    assert_eq!(&out[6..8], &[0, 1], "one answer");
    assert_eq!(&out[n - 4..n], &[192, 168, 4, 1]);
}

#[test]
fn answer_record_points_back_at_the_question() {
    let mut out = [0u8; 512];
    let n = answer(QUERY, [10, 0, 0, 7], &mut out).unwrap();
    let q = QUERY.len();
    assert_eq!(&out[12..q], &QUERY[12..]);
    assert_eq!(&out[q..q + 12], &[0xC0, 0x0C, 0, 1, 0, 1, 0, 0, 0, 60, 0, 4]);
    assert_eq!(&out[q + 12..n], &[10, 0, 0, 7]);
}

#[test]
fn aaaa_gets_empty_answer() {
    let mut q = QUERY.to_vec();
    let t = q.len() - 3;
    q[t] = 28; // AAAA
    let mut out = [0u8; 512];
    let n = answer(&q, [192, 168, 4, 1], &mut out).unwrap();
    assert_eq!(n, q.len());
    assert_eq!(&out[6..8], &[0, 0]);
}

#[test]
fn ignores_garbage_and_responses() {
    let mut out = [0u8; 512];
    assert_eq!(answer(&[1, 2, 3], [0; 4], &mut out), None);
    let mut resp = QUERY.to_vec();
    resp[2] |= 0x80;
    assert_eq!(answer(&resp, [0; 4], &mut out), None);
    assert_eq!(answer(&QUERY[..20], [0; 4], &mut out), None);
}

#[test]
fn answer_needs_room_for_the_reply() {
    let mut out = [0xAAu8; 40];
    assert_eq!(answer(QUERY, [1, 2, 3, 4], &mut out), None);
    assert!(out.iter().all(|&b| b == 0xAA));
    let mut exact = [0u8; 45];
    assert_eq!(answer(QUERY, [1, 2, 3, 4], &mut exact), Some(45));
}

#[test]
fn parses_touch_events_and_ignores_noise() {
    let mut p = Parser::default();
    let bytes = [0x88, 0xFF, 0xFF, 0xFF, 0x65, 0x00, 0x19, 0x01, 0xFF, 0xFF, 0xFF];
    let events: Vec<_> = bytes.iter().filter_map(|&b| p.push(b)).collect();
    assert_eq!(events, vec![Touch { page: 0, component: 25, pressed: true }]);
    assert_eq!(key_for(events[0]), Some(Key::Engage));
}

#[test]
fn parser_reports_release_and_survives_overflow() {
    let mut p = Parser::default();
    for _ in 0..40 {
        assert_eq!(p.push(0x11), None);
    }
    let bytes = [0xFF, 0xFF, 0xFF, 0x65, 0x00, 0x30, 0x00, 0xFF, 0xFF, 0xFF];
    let events: Vec<_> = bytes.iter().filter_map(|&b| p.push(b)).collect();
    assert_eq!(events, vec![Touch { page: 0, component: 48, pressed: false }]);
}

#[test]
fn maps_digits_and_steps() {
    let t = |c| Touch { page: 0, component: c, pressed: true };
    assert_eq!(key_for(t(26)), Some(Key::Digit(0)));
    assert_eq!(key_for(t(35)), Some(Key::Digit(9)));
    assert_eq!(key_for(t(57)), Some(Key::StepSize(4)));
    assert_eq!(key_for(Touch { pressed: false, ..t(26) }), None);
}

#[test]
fn jog_buttons_report_press_and_release() {
    let t = |c, pressed| Touch { page: 0, component: c, pressed };
    assert_eq!(key_for(t(48, true)), Some(Key::Jog { left: true, pressed: true }));
    assert_eq!(key_for(t(48, false)), Some(Key::Jog { left: true, pressed: false }));
    assert_eq!(key_for(t(49, false)), Some(Key::Jog { left: false, pressed: false }));
    assert_eq!(key_for(t(58, true)), Some(Key::JogCycle));
    assert_eq!(key_for(t(59, true)), Some(Key::Setup));
    assert_eq!(key_for(Touch { page: 1, component: 25, pressed: true }), None);
    assert_eq!(key_for(t(60, true)), None);
}

#[test]
fn encodes_text() {
    let mut v: heapless::Vec<u8, 64> = heapless::Vec::new();
    encode_text(&mut v, "tAngleVal", "12.5°").unwrap();
    assert_eq!(&v[..], b"tAngleVal.txt=\"12.5\xDF\"\xFF\xFF\xFF");
}

#[test]
fn encode_text_replaces_quotes_and_refuses_overflow() {
    let mut v: heapless::Vec<u8, 64> = heapless::Vec::new();
    encode_text(&mut v, "t", "a\"b\\é\n").unwrap();
    assert_eq!(&v[..], b"t.txt=\"a?b???\"\xFF\xFF\xFF");
    let mut full: heapless::Vec<u8, 64> = heapless::Vec::new();
    let long = "x".repeat(60);
    assert_eq!(encode_text(&mut full, "t", &long), Err(BufferFull));
}

#[test]
fn beep_is_a_terminated_command() {
    assert_eq!(&BEEP[..], b"play 0,0,0\xFF\xFF\xFF");
}
