use els_core::settings::{field_get, fields, Kind, Settings, Timing};
use els_core::web::{
    apply_form, parse_decimal4, parse_request, progress, redirect, render_page, respond_head, route, FormError, Method,
    Progress, Request, Route, SAVED_PAGE,
};

const TIMING: Timing = Timing { tick_hz: 10_000_000, segment_ticks: 2_500 };

const DEFAULTS: Settings = Settings {
    encoder_ppr: 1200,
    encoder_backlash: 3,
    encoder_filter_cycles: 40,
    invert_spindle: false,
    screw_du: 40_000,
    motor_steps: 800,
    speed_start: 800,
    speed_max: 30_000,
    acceleration: 20_000,
    max_pitch_du: 254_000,
    invert_dir: false,
    invert_enable: false,
    step_active_low: true,
    step_pulse_ns: 2_500,
    dir_setup_ns: 10_000,
    jog_speeds_du_per_s: [5_000, 20_000, 80_000, 250_000],
    jog_hold_after_ms: 400,
    jog_level_every_ms: 1_000,
};

/// Serialise settings the way a browser submits the rendered form.
fn form_body(s: &Settings) -> String {
    fields()
        .iter()
        .enumerate()
        .filter_map(|(i, f)| {
            let v = field_get(i, s);
            match f.kind {
                Kind::Flag if v == 0 => None,
                Kind::Flag => Some(format!("{}=1", f.key)),
                Kind::Integer => Some(format!("{}={v}", f.key)),
                Kind::Decimal4 => Some(format!("{}={}.{:04}", f.key, v / 10_000, v % 10_000)),
            }
        })
        .collect::<Vec<_>>()
        .join("&")
}

#[test]
fn parses_requests() {
    let r = parse_request(b"POST /save?x=1 HTTP/1.1\r\nHost: a\r\nContent-Length: 12\r\n\r\nbody").unwrap();
    assert_eq!(r, Request { method: Method::Post, path: "/save", header_len: 56, content_length: 12 });
    assert_eq!(parse_request(b"GET / HTTP/1.1\r\nHost: a\r\n"), None);
    assert_eq!(parse_request(b"GET /generate_204 HTTP/1.1\r\n\r\n").unwrap().path, "/generate_204");
}

#[test]
fn request_headers_are_read_case_insensitively() {
    let r = parse_request(b"PUT /x HTTP/1.1\r\ncontent-length:  7 \r\n\r\n").unwrap();
    assert_eq!((r.method, r.path, r.header_len, r.content_length), (Method::Other, "/x", 40, 7));
    assert_eq!(parse_request(b"GET / HTTP/1.1\r\nContent-Length: x\r\n\r\n"), None);
    assert_eq!(parse_request(b"HEAD /a?b HTTP/1.1\r\n\r\n").unwrap().method, Method::Get);
}

#[test]
fn form_round_trips() {
    let mut s = DEFAULTS;
    s.screw_du = 31_750; // 8 TPI
    s.invert_dir = true;
    s.step_active_low = false;
    let got = apply_form(&form_body(&s), &DEFAULTS, TIMING).unwrap();
    assert_eq!(got, s);
}

#[test]
fn decimals_and_escapes() {
    assert_eq!(parse_decimal4("3.175"), Some(31_750));
    assert_eq!(parse_decimal4(".5"), Some(5_000));
    assert_eq!(parse_decimal4("4"), Some(40_000));
    assert_eq!(parse_decimal4("1.23456"), None);
    assert_eq!(parse_decimal4("-1"), None);
    let body = form_body(&DEFAULTS).replace("screw_pitch=4.0000", "screw_pitch=+%33%2E175");
    assert_eq!(apply_form(&body, &DEFAULTS, TIMING).unwrap().screw_du, 31_750);
}

#[test]
fn rejects_missing_out_of_range_and_inconsistent() {
    let body = form_body(&DEFAULTS).replace("motor_steps=800&", "");
    assert_eq!(apply_form(&body, &DEFAULTS, TIMING), Err(FormError::Field("Motor steps per screw turn")));
    let body = form_body(&DEFAULTS).replace("motor_steps=800", "motor_steps=0");
    assert!(matches!(apply_form(&body, &DEFAULTS, TIMING), Err(FormError::Field(_))));
    let body = form_body(&DEFAULTS).replace("speed_start=800", "speed_start=31000");
    assert!(matches!(apply_form(&body, &DEFAULTS, TIMING), Err(FormError::Invalid(_))));
}

#[test]
fn form_error_messages() {
    assert_eq!(FormError::Field("Encoder backlash").message(), "Encoder backlash");
    assert_eq!(FormError::Invalid("Start speed above max speed").message(), "Start speed above max speed");
}

#[test]
fn renders_every_field_with_its_value() {
    let page = render_page(&DEFAULTS, Some("<bad>"));
    for f in fields() {
        assert!(page.contains(&format!("name={}", f.key)), "{}", f.key);
    }
    assert!(page.contains("name=screw_pitch inputmode=decimal pattern=\"[0-9]*\\.?[0-9]{0,4}\" value=4.0000"));
    assert!(page.contains("name=step_active_low value=1 checked"));
    assert!(page.contains("&lt;bad&gt;"));
    assert!(page.len() < 12_000, "page is {} bytes", page.len());
}

#[test]
fn page_without_notice_has_none() {
    let page = render_page(&DEFAULTS, None);
    assert!(!page.contains("class=notice"));
    assert!(page.starts_with("<!doctype html>"));
    assert!(page.ends_with("</html>"));
}

#[test]
fn progress_waits_for_the_body_and_refuses_what_cannot_fit() {
    let req = b"POST /save HTTP/1.1\r\nContent-Length: 4\r\n\r\nab";
    assert_eq!(progress(req, 512), Progress::Incomplete);
    let full = b"POST /save HTTP/1.1\r\nContent-Length: 4\r\n\r\nabcd";
    assert_eq!(progress(full, 512), Progress::Complete { header_len: 42, content_length: 4 });
    assert_eq!(progress(req, 44), Progress::TooLarge { payload: true });
    assert_eq!(progress(b"GET / HT", 8), Progress::TooLarge { payload: false });
    assert_eq!(progress(b"GET / HT", 9), Progress::Incomplete);
}

#[test]
fn routes_page_save_and_probes() {
    assert_eq!(route(b"GET / HTTP/1.1\r\n\r\n", &DEFAULTS, TIMING), Route::Page(None));
    assert_eq!(route(b"GET /hotspot-detect.html HTTP/1.1\r\n\r\n", &DEFAULTS, TIMING), Route::Redirect);
    let body = form_body(&DEFAULTS).replace("motor_steps=800", "motor_steps=1600");
    let req = format!("POST /save HTTP/1.1\r\nContent-Length: {}\r\n\r\n{}", body.len(), body);
    let mut want = DEFAULTS;
    want.motor_steps = 1600;
    assert_eq!(route(req.as_bytes(), &DEFAULTS, TIMING), Route::Save(want));
    let req = "POST /save HTTP/1.1\r\nContent-Length: 0\r\n\r\n";
    assert!(matches!(route(req.as_bytes(), &DEFAULTS, TIMING), Route::Page(Some(_))));
}

#[test]
fn response_heads() {
    assert_eq!(
        respond_head("200 OK", "text/plain", 9),
        "HTTP/1.1 200 OK\r\nContent-Type: text/plain\r\nContent-Length: 9\r\nCache-Control: no-store\r\nConnection: close\r\n\r\n"
    );
    assert_eq!(
        redirect("http://192.168.4.1/"),
        "HTTP/1.1 302 Found\r\nLocation: http://192.168.4.1/\r\nContent-Length: 0\r\nConnection: close\r\n\r\n"
    );
    assert!(SAVED_PAGE.contains("Saved"));
}
