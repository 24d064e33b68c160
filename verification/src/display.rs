//! Renders UI + motion status into the text of each Nextion component.
use vstd::prelude::*;
use crate::gearbox::Side;
use crate::jog::JogView;
use crate::arith::abs;
use crate::buffers::{field_chars, field_new, field_pop, field_push, field_push_str, field_str};
use crate::digits::{find, find_byte, pow10, lemma_pow10_pos};
use vstd::utf8::{encode_utf8, is_ascii_chars};
use crate::arith::{fdiv, fmod};
use crate::pitch::Unit;
use crate::ui::{Ui, UiView};
use crate::{div_round, mul_div_round, Machine};

verus! {

/// Snapshot published by the motion task.
#[derive(Clone, Copy, Debug, PartialEq, Eq, Structural)]
pub struct Status {
    pub engaged: bool,
    pub syncing: bool,
    /// A jog move is in progress.
    pub jogging: bool,
    pub jog: JogView,
    /// Motor position in steps.
    pub pos: i64,
    /// Motor position shown as Z = 0.
    pub z_zero: i64,
    pub left_stop: Option<i64>,
    pub right_stop: Option<i64>,
    pub rpm: u32,
    /// Spindle counts since turns/angle were last zeroed.
    pub turn_counts: i64,
}

impl Default for Status {
    fn default() -> (r: Self)
        ensures
            r == (Status {
                engaged: false,
                syncing: false,
                jogging: false,
                jog: JogView::Idle,
                pos: 0,
                z_zero: 0,
                left_stop: None,
                right_stop: None,
                rpm: 0,
                turn_counts: 0,
            }),
    {
        Status {
            engaged: false,
            syncing: false,
            jogging: false,
            jog: JogView::Idle,
            pos: 0,
            z_zero: 0,
            left_stop: None,
            right_stop: None,
            rpm: 0,
            turn_counts: 0,
        }
    }
}

/// What a Z stop button shows.
#[derive(Clone, Copy, Debug, PartialEq, Eq, Structural)]
pub enum StopState {
    Unset,
    /// Set, carriage elsewhere.
    Armed,
    /// Carriage is sitting at the stop (threading pass ended, or jogged into it).
    Parked,
}

impl Status {
    /// The stop on `side`.
    pub open spec fn stop(self, side: Side) -> Option<i64> {
        match side {
            Side::Left => self.left_stop,
            Side::Right => self.right_stop,
        }
    }

    pub open spec fn spec_stop_state(self, side: Side) -> StopState {
        match self.stop(side) {
            None => StopState::Unset,
            Some(s) => if s == self.pos { StopState::Parked } else { StopState::Armed },
        }
    }

    pub fn stop_state(&self, side: Side) -> (r: StopState)
        ensures
            r == self.spec_stop_state(side),
    {
        let stop = match side {
            Side::Left => self.left_stop,
            Side::Right => self.right_stop,
        };
        match stop {
            None => StopState::Unset,
            Some(s) => if s == self.pos { StopState::Parked } else { StopState::Armed },
        }
    }
}

/// Text of one display field (40 bytes, the longest field of the HMI).
pub type Text = heapless::String<40>;

pub proof fn lemma_utf8_concat(a: Seq<char>, b: Seq<char>)
    ensures
        encode_utf8(a + b) == encode_utf8(a) + encode_utf8(b),
    decreases a.len(),
{
    if a.len() == 0 {
        assert(a + b =~= b);
        assert(encode_utf8(a) =~= Seq::<u8>::empty());
        assert(encode_utf8(a) + encode_utf8(b) =~= encode_utf8(b));
    } else {
        lemma_utf8_concat(a.drop_first(), b);
        assert((a + b).drop_first() =~= a.drop_first() + b);
        assert((a + b)[0] == a[0]);
        assert(encode_utf8(a + b) =~= encode_utf8(a) + encode_utf8(b));
    }
}

/// An ASCII string takes a byte per character.
pub proof fn lemma_utf8_ascii_len(s: Seq<char>)
    requires
        is_ascii_chars(s),
    ensures
        encode_utf8(s).len() == s.len(),
{
    vstd::utf8::is_ascii_chars_encode_utf8(s);
}

/// The longest prefix of `s` that fits a field when pushed a character at a
/// time.
pub open spec fn fitting(s: Seq<char>) -> Seq<char>
    decreases s.len(),
{
    if s.len() == 0 {
        s
    } else {
        let f = fitting(s.drop_last());
        if f == s.drop_last() && encode_utf8(s).len() <= 40 { s } else { f }
    }
}

proof fn lemma_fitting_len(s: Seq<char>)
    ensures
        fitting(s).len() <= s.len(),
    decreases s.len(),
{
    if s.len() > 0 {
        lemma_fitting_len(s.drop_last());
    }
}

/// `s` as a field, cut where the field is full.
pub fn text(s: &str) -> (t: Text)
    ensures
        field_chars(t) == fitting(s@),
{
    broadcast use vstd::string::axiom_spec_iter;
    let mut t = field_new();
    let mut full = false;
    proof {
        assert(s@.take(0) =~= Seq::<char>::empty());
    }
    for c in it: s.chars()
        invariant
            it.seq() == s@,
            it.index() <= s@.len(),
            field_chars(t) == fitting(s@.take(it.index() as int)),
            full == (fitting(s@.take(it.index() as int)) != s@.take(it.index() as int)),
    {
        let ghost k = it.index() as int;
        let ghost before = field_chars(t);
        assert(s@.take(k + 1).drop_last() =~= s@.take(k));
        assert(s@.take(k + 1) =~= s@.take(k).push(c));
        assert(s@.take(k) + seq![c] =~= s@.take(k).push(c));
        proof {
            lemma_utf8_concat(s@.take(k), seq![c]);
            lemma_fitting_len(s@.take(k));
        }
        assert(fitting(s@.take(k + 1)) == (if fitting(s@.take(k)) == s@.take(k)
            && encode_utf8(s@.take(k + 1)).len() <= 40 { s@.take(k + 1) } else { fitting(s@.take(k)) }));
        if !full {
            if !field_push(&mut t, c) {
                full = true;
            }
        }
    }
    proof {
        assert(s@.take(s@.len() as int) =~= s@);
    }
    t
}

/// `prefix` as a field, then `value` and `suffix` each if it fits whole.
pub open spec fn labelled_chars(prefix: Seq<char>, value: Seq<char>, suffix: Seq<char>) -> Seq<char> {
    let t0 = fitting(prefix);
    let t1 = if encode_utf8(t0).len() + encode_utf8(value).len() <= 40 { t0 + value } else { t0 };
    if encode_utf8(t1).len() + encode_utf8(suffix).len() <= 40 { t1 + suffix } else { t1 }
}

fn labelled(prefix: &str, value: &str, suffix: &str) -> (t: Text)
    ensures
        field_chars(t) == labelled_chars(prefix@, value@, suffix@),
{
    let mut t = text(prefix);
    let _ = field_push_str(&mut t, value);
    let _ = field_push_str(&mut t, suffix);
    t
}

pub open spec fn digit_char(d: int) -> char {
    (48 + d) as char
}

/// Decimal digits of `n`.
pub open spec fn decimal(n: nat) -> Seq<char>
    decreases n,
{
    if n < 10 {
        seq![digit_char(n as int)]
    } else {
        decimal(n / 10).push(digit_char((n % 10) as int))
    }
}

/// The `w` lowest decimal digits of `n`, so `n` zero-padded to `w` digits
/// when `n < 10^w`.
pub open spec fn low_digits(n: nat, w: nat) -> Seq<char>
    decreases w,
{
    if w == 0 {
        Seq::empty()
    } else {
        low_digits(n / 10, (w - 1) as nat).push(digit_char((n % 10) as int))
    }
}

/// `value / 10^decimals` with exactly `decimals` digits after the point.
pub open spec fn fixed_chars(value: int, decimals: nat) -> Seq<char> {
    let s = pow10(decimals) as int;
    let v = abs(value);
    (if value < 0 { seq!['-'] } else { Seq::empty() }) + decimal((v / s) as nat) + (if decimals == 0 {
        Seq::empty()
    } else {
        seq!['.'] + low_digits((v % s) as nat, decimals)
    })
}

proof fn lemma_decimal(n: nat, k: nat)
    requires
        k >= 1,
        n < pow10(k),
    ensures
        decimal(n).len() <= k,
        is_ascii_chars(decimal(n)),
    decreases n,
{
    if n >= 10 {
        assert(k >= 2) by {
            if k == 1 {
                assert(pow10(1) == 10) by { reveal_with_fuel(pow10, 2); }
            }
        }
        assert(n / 10 < pow10((k - 1) as nat)) by {
            assert(pow10(k) == 10 * pow10((k - 1) as nat));
        }
        lemma_decimal(n / 10, (k - 1) as nat);
    }
}

proof fn lemma_low_digits(n: nat, w: nat)
    ensures
        low_digits(n, w).len() == w,
        is_ascii_chars(low_digits(n, w)),
    decreases w,
{
    if w > 0 {
        lemma_low_digits(n / 10, (w - 1) as nat);
    }
}

/// Append the decimal digits of `n`.
fn push_decimal(t: &mut Text, n: u64)
    requires
        is_ascii_chars(field_chars(*old(t))),
        field_chars(*old(t)).len() + decimal(n as nat).len() <= 40,
    ensures
        field_chars(*final(t)) == field_chars(*old(t)) + decimal(n as nat),
        is_ascii_chars(field_chars(*final(t))),
    decreases n,
{
    if n >= 10 {
        push_decimal(t, n / 10);
    }
    let c = (48u8 + (n % 10) as u8) as char;
    proof {
        lemma_utf8_ascii_len(field_chars(*t));
        assert(encode_utf8(seq![c]).len() == 1) by {
            assert(is_ascii_chars(seq![c]));
            lemma_utf8_ascii_len(seq![c]);
        }
    }
    let ok = field_push(t, c);
    assert(ok);
    proof {
        if n < 10 {
            assert(decimal(n as nat) == seq![c]);
        }
    }
    assert(field_chars(*t) =~= field_chars(*old(t)) + decimal(n as nat));
}

/// Append the `w` lowest decimal digits of `n`.
fn push_low_digits(t: &mut Text, n: u64, w: u32)
    requires
        is_ascii_chars(field_chars(*old(t))),
        field_chars(*old(t)).len() + w <= 40,
    ensures
        field_chars(*final(t)) == field_chars(*old(t)) + low_digits(n as nat, w as nat),
        is_ascii_chars(field_chars(*final(t))),
    decreases w,
{
    if w == 0 {
        assert(field_chars(*t) =~= field_chars(*old(t)) + low_digits(n as nat, 0));
        return;
    }
    push_low_digits(t, n / 10, w - 1);
    let c = (48u8 + (n % 10) as u8) as char;
    proof {
        lemma_low_digits((n / 10) as nat, (w - 1) as nat);
        lemma_utf8_ascii_len(field_chars(*t));
        assert(encode_utf8(seq![c]).len() == 1) by {
            assert(is_ascii_chars(seq![c]));
            lemma_utf8_ascii_len(seq![c]);
        }
    }
    let ok = field_push(t, c);
    assert(ok);
    assert(field_chars(*t) =~= field_chars(*old(t)) + low_digits(n as nat, w as nat));
}

/// `10^d`.
fn pow10_u64(d: u32) -> (r: u64)
    requires
        d <= 19,
    ensures
        r == pow10(d as nat),
{
    let mut r: u64 = 1;
    let mut i: u32 = 0;
    while i < d
        invariant
            i <= d <= 19,
            r == pow10(i as nat),
        decreases d - i,
    {
        proof {
            assert(pow10((i + 1) as nat) == 10 * pow10(i as nat));
            assert(pow10((i + 1) as nat) <= pow10(19)) by {
                lemma_pow10_mono((i + 1) as nat, 19);
            }
            assert(pow10(19) == 10_000_000_000_000_000_000) by { reveal_with_fuel(pow10, 20); }
        }
        r = r * 10;
        i += 1;
    }
    r
}

proof fn lemma_pow10_mono(a: nat, b: nat)
    requires
        a <= b,
    ensures
        pow10(a) <= pow10(b),
    decreases b,
{
    if a < b {
        lemma_pow10_mono(a, (b - 1) as nat);
        lemma_pow10_pos((b - 1) as nat);
    }
}

/// `value / 10^decimals` with exactly `decimals` digits after the point.
pub fn fixed(value: i64, decimals: u32) -> (t: Text)
    requires
        decimals <= 18,
    ensures
        field_chars(t) == fixed_chars(value as int, decimals as nat),
{
    let scale = pow10_u64(decimals);
    let v: u64 = if value < 0 { (-(value as i128)) as u64 } else { value as u64 };
    let mut t = field_new();
    proof {
        lemma_pow10_pos(decimals as nat);
        assert(pow10(20) == 100_000_000_000_000_000_000) by { reveal_with_fuel(pow10, 21); }
        assert(v / scale <= v);
        lemma_decimal((v / scale) as nat, 20);
        assert(is_ascii_chars(field_chars(t)));
    }
    if value < 0 {
        proof {
            assert(encode_utf8(seq!['-']).len() == 1) by {
                assert(is_ascii_chars(seq!['-']));
                lemma_utf8_ascii_len(seq!['-']);
            }
            lemma_utf8_ascii_len(field_chars(t));
        }
        let ok = field_push(&mut t, '-');
        assert(ok);
    }
    push_decimal(&mut t, v / scale);
    if decimals > 0 {
        proof {
            assert(encode_utf8(seq!['.']).len() == 1) by {
                assert(is_ascii_chars(seq!['.']));
                lemma_utf8_ascii_len(seq!['.']);
            }
            lemma_utf8_ascii_len(field_chars(t));
        }
        let ok = field_push(&mut t, '.');
        assert(ok);
        push_low_digits(&mut t, v % scale, decimals);
    }
    assert(field_chars(t) =~= fixed_chars(value as int, decimals as nat));
    t
}

/// A literal that fits a field.
fn literal(s: &str) -> (t: Text)
    requires
        is_ascii_chars(s@),
        s@.len() <= 40,
    ensures
        field_chars(t) == s@,
        is_ascii_chars(field_chars(t)),
{
    let mut t = field_new();
    proof {
        lemma_utf8_ascii_len(s@);
        assert(encode_utf8(Seq::<char>::empty()).len() == 0);
        assert(Seq::<char>::empty() + s@ =~= s@);
    }
    let ok = field_push_str(&mut t, s);
    assert(ok);
    t
}

/// Append an ASCII character that fits.
fn push_ascii(t: &mut Text, c: char)
    requires
        is_ascii_chars(field_chars(*old(t))),
        field_chars(*old(t)).len() < 40,
        (c as u32) < 0x80,
    ensures
        field_chars(*final(t)) == field_chars(*old(t)).push(c),
        is_ascii_chars(field_chars(*final(t))),
{
    proof {
        lemma_utf8_ascii_len(field_chars(*t));
        assert(is_ascii_chars(seq![c]));
        lemma_utf8_ascii_len(seq![c]);
    }
    let ok = field_push(t, c);
    assert(ok);
}

/// Last character of `s`.
fn last_char(s: &str) -> (r: Option<char>)
    ensures
        r == (if s@.len() > 0 { Some(s@.last()) } else { None::<char> }),
{
    broadcast use vstd::string::axiom_spec_iter;
    let mut last: Option<char> = None;
    for c in it: s.chars()
        invariant
            it.seq() == s@,
            it.index() <= s@.len(),
            last == (if it.index() > 0 { Some(s@[it.index() - 1]) } else { None::<char> }),
    {
        assert(it.index() < s@.len());
        last = Some(c);
    }
    last
}

/// `s` without trailing zeros.
pub open spec fn strip_zeros(s: Seq<char>) -> Seq<char>
    decreases s.len(),
{
    if s.len() > 0 && s.last() == '0' { strip_zeros(s.drop_last()) } else { s }
}

/// A decimal number without trailing zeros after the point, nor a bare point.
pub open spec fn trimmed(s: Seq<char>) -> Seq<char> {
    let b = encode_utf8(s);
    if find(b, 46) < b.len() {
        let z = strip_zeros(s);
        if z.len() > 0 && z.last() == '.' { z.drop_last() } else { z }
    } else {
        s
    }
}

/// `t` with trailing zeros after a decimal point removed, and the point
/// too when nothing follows it.
pub fn trim_zeros(t: Text) -> (r: Text)
    ensures
        field_chars(r) == trimmed(field_chars(t)),
{
    let mut t = t;
    let ghost t0 = field_chars(t);
    let b = field_str(&t).as_bytes();
    if find_byte(b, 46u8) < b.len() {
        while last_char(field_str(&t)) == Some('0')
            invariant
                strip_zeros(field_chars(t)) == strip_zeros(t0),
            decreases field_chars(t).len(),
        {
            field_pop(&mut t);
        }
        if last_char(field_str(&t)) == Some('.') {
            field_pop(&mut t);
        }
    }
    t
}

/// Length of a number in [`fixed`] form.
proof fn lemma_fixed_len(value: int, decimals: nat)
    requires
        decimals <= 18,
        -0x8000_0000_0000_0000 <= value < 0x8000_0000_0000_0000,
    ensures
        fixed_chars(value, decimals).len() <= 22 + decimals,
        is_ascii_chars(fixed_chars(value, decimals)),
{
    let s = pow10(decimals) as int;
    let v = abs(value);
    lemma_pow10_pos(decimals);
    assert(pow10(20) == 100_000_000_000_000_000_000) by { reveal_with_fuel(pow10, 21); }
    assert(v / s <= v) by (nonlinear_arith) requires v >= 0, s >= 1;
    lemma_decimal((v / s) as nat, 20);
    lemma_low_digits((v % s) as nat, decimals);
    let f = fixed_chars(value, decimals);
    assert forall|i: int| 0 <= i < f.len() implies '\0' <= #[trigger] f[i] <= '\u{7f}' by {
        let sign: Seq<char> = if value < 0 { seq!['-'] } else { Seq::empty() };
        let d = decimal((v / s) as nat);
        let rest: Seq<char> = if decimals == 0 { Seq::empty() } else { seq!['.'] + low_digits((v % s) as nat, decimals) };
        assert(f == sign + d + rest);
        if i < sign.len() {
        } else if i < sign.len() + d.len() {
            assert(f[i] == d[i - sign.len()]);
        } else if decimals > 0 {
            assert(f[i] == rest[i - sign.len() - d.len()]);
            let j = i - sign.len() - d.len();
            if j > 0 {
                assert(rest[j] == low_digits((v % s) as nat, decimals)[j - 1]);
            }
        }
    }
}

/// Steps as a distance in `unit`: mm with 3 decimals or inch with 4.
pub open spec fn distance_chars(m: Machine, unit: Unit, steps: int) -> Seq<char> {
    let du = div_round(steps * m.screw_du, m.motor_steps as int) as i64;
    match unit {
        Unit::Mm => fixed_chars(div_round(du as int, 10) as i64 as int, 3),
        Unit::Inch => fixed_chars(div_round(du * 10, 254) as i64 as int, 4),
    }
}

/// Distance in steps as mm (3 decimals) or inch (4 decimals).
fn distance(m: &Machine, unit: Unit, steps: i64) -> (t: Text)
    requires
        m.motor_steps != 0,
    ensures
        field_chars(t) == distance_chars(*m, unit, steps as int),
{
    let du = m.steps_to_du(steps);
    match unit {
        Unit::Mm => fixed(mul_div_round(du, 1, 10), 3),
        Unit::Inch => fixed(mul_div_round(du, 10, 254), 4),
    }
}

/// Unit suffix after a distance.
pub open spec fn suffix_of(unit: Unit) -> Seq<char> {
    match unit {
        Unit::Mm => "mm"@,
        Unit::Inch => "in"@,
    }
}

/// Unit caption.
pub open spec fn label_of(unit: Unit) -> Seq<char> {
    match unit {
        Unit::Mm => "MM"@,
        Unit::Inch => "IN"@,
    }
}

/// Caption of the jog distance button.
pub open spec fn jog_caption_chars(ui: UiView, st: Status, m: Machine, unit: Unit) -> Seq<char> {
    match st.jog {
        JogView::Idle => labelled_chars(
            "JOG DIST "@,
            trimmed(fixed_chars(ui.jog_milli() as int, 3)),
            suffix_of(unit),
        ),
        JogView::Tap { remaining } => labelled_chars("JOG "@, distance_chars(m, unit, remaining as int), suffix_of(unit)),
        JogView::Hold { level } => "HOLD SPEED "@ + decimal(level as nat) + seq!['/'] + decimal(4),
        JogView::Braking => fitting("STOPPING"@),
    }
}

/// `bCycleJogDist`: the selected tap distance when idle, live jog feedback
/// while moving. At most 15 characters.
fn jog_caption(ui: &Ui, st: &Status, m: &Machine, unit: Unit) -> (t: Text)
    requires
        ui.wf(),
        m.motor_steps != 0,
    ensures
        field_chars(t) == jog_caption_chars(ui@, *st, *m, unit),
{
    match st.jog {
        JogView::Idle => {
            let d = trim_zeros(fixed(ui.jog_milli() as i64, 3));
            labelled("JOG DIST ", field_str(&d), unit.suffix())
        },
        JogView::Tap { remaining } => {
            let d = distance(m, unit, remaining);
            labelled("JOG ", field_str(&d), unit.suffix())
        },
        JogView::Hold { level } => {
            proof {
                reveal_strlit("HOLD SPEED ");
                assert(pow10(3) == 1000) by { reveal_with_fuel(pow10, 4); }
                lemma_decimal(level as nat, 3);
                assert(pow10(1) == 10) by { reveal_with_fuel(pow10, 2); }
                lemma_decimal(4, 1);
            }
            let mut t = literal("HOLD SPEED ");
            push_decimal(&mut t, level as u64);
            push_ascii(&mut t, '/');
            push_decimal(&mut t, 4);
            t
        },
        JogView::Braking => text("STOPPING"),
    }
}

/// Caption of a stop button, e.g. `|< -123.456mm`.
pub open spec fn stop_caption_chars(st: Status, m: Machine, unit: Unit, side: Side) -> Seq<char> {
    let body = match st.spec_stop_state(side) {
        StopState::Parked => fitting("AT STOP"@),
        StopState::Armed => labelled_chars(
            ""@,
            distance_chars(m, unit, st.stop(side)->0 - st.z_zero),
            suffix_of(unit),
        ),
        StopState::Unset => fitting("Set stop"@),
    };
    match side {
        Side::Left => labelled_chars("|< "@, body, ""@),
        Side::Right => labelled_chars(""@, body, " >|"@),
    }
}

/// At most 15 characters, e.g. `|< -123.456mm`.
fn stop_caption(st: &Status, m: &Machine, unit: Unit, side: Side) -> (t: Text)
    requires
        m.motor_steps != 0,
        st.stop(side) matches Some(s) ==> i64::MIN <= s - st.z_zero <= i64::MAX,
    ensures
        field_chars(t) == stop_caption_chars(*st, *m, unit, side),
{
    let (stop, left) = match side {
        Side::Left => (st.left_stop, true),
        Side::Right => (st.right_stop, false),
    };
    let body = match st.stop_state(side) {
        StopState::Parked => text("AT STOP"),
        StopState::Armed => {
            let s = match stop {
                Some(s) => s,
                None => 0,
            };
            let d = distance(m, unit, s - st.z_zero);
            labelled("", field_str(&d), unit.suffix())
        },
        StopState::Unset => text("Set stop"),
    };
    if left {
        labelled("|< ", field_str(&body), "")
    } else {
        labelled("", field_str(&body), " >|")
    }
}

/// Keypad cursor blink half-period.
pub const CURSOR_BLINK_MS: u64 = 500;

/// Nextion object names (Lee-LS HMI), in the order `render` returns their
/// text. Several are buttons whose caption carries the current value.
pub const FIELDS: [&'static str; 12] = [
    "bToggleEngaged",
    "tPitch",
    "bUnitsToggle",
    "tRPM",
    "tTurns",
    "tAngle",
    "tZPos",
    "bLeftStop",
    "bRightStop",
    "bCycleJogDist",
    "tMessageLine",
    "bReverseToggle",
];

impl Status {
    /// Values [`render`] can format: positions relative to Z = 0 fit 64 bits,
    /// the turn count can be scaled by 100 and the counts into the current
    /// turn by 36 000.
    pub open spec fn renderable(self, m: Machine) -> bool {
        &&& i64::MIN <= self.pos - self.z_zero <= i64::MAX
        &&& (self.left_stop matches Some(s) ==> i64::MIN <= s - self.z_zero <= i64::MAX)
        &&& (self.right_stop matches Some(s) ==> i64::MIN <= s - self.z_zero <= i64::MAX)
        &&& abs(self.turn_counts as int) * 100 <= i64::MAX
        &&& (self.turn_counts as int % m.counts_per_rev as int) * 36_000 <= i64::MAX
    }
}

impl Machine {
    /// Geometry [`render`] can divide by.
    pub open spec fn displayable(self) -> bool {
        &&& self.motor_steps != 0
        &&& 0 < self.counts_per_rev
    }
}

/// `bToggleEngaged`: what the engage button shows/does now.
pub open spec fn status_chars(ui: UiView, st: Status) -> Seq<char> {
    fitting(if ui.setup_active {
        "Setup on"@
    } else if st.syncing {
        "Syncing"@
    } else if st.engaged {
        "Disengage"@
    } else {
        "Engage"@
    })
}

/// `tPitch`: the typed entry with a blinking cursor, else the signed pitch.
pub open spec fn pitch_chars(ui: UiView, now_ms: u64) -> Seq<char> {
    match ui.entry {
        Some(e) => labelled_chars("PITCH "@, e, if (now_ms / CURSOR_BLINK_MS) % 2 == 0 { "_"@ } else { ""@ }),
        None => labelled_chars("PITCH "@, fixed_chars(ui.pitch.spec_signed_milli(), 3), suffix_of(ui.pitch.unit)),
    }
}

pub open spec fn rpm_chars(st: Status) -> Seq<char> {
    "RPM "@ + decimal(st.rpm as nat)
}

/// Spindle turns since zeroed, 2 decimals.
pub open spec fn turns_chars(st: Status, m: Machine) -> Seq<char> {
    labelled_chars("TURNS "@, fixed_chars(abs(st.turn_counts as int) * 100 / (m.counts_per_rev as int), 2), ""@)
}

/// Spindle angle in degrees, 2 decimals.
pub open spec fn angle_chars(st: Status, m: Machine) -> Seq<char> {
    let n = m.counts_per_rev as int;
    labelled_chars("ANGLE "@, fixed_chars(fmod(st.turn_counts as int, n) * 36_000 / n, 2).push('\u{b0}'), ""@)
}

/// `tMessageLine`: a message, else what the operator should do next.
pub open spec fn message_chars(ui: UiView, st: Status, now_ms: u64, banner: Seq<char>) -> Seq<char> {
    match ui.message {
        Some((msg, until)) if now_ms < until => fitting(msg@),
        _ => if ui.entry is Some {
            fitting("OK to apply, <- delete, hold <- clear"@)
        } else if ui.setup_active {
            fitting(banner)
        } else if st.syncing {
            fitting("Waiting for thread phase"@)
        } else if ui.pitch.magnitude_milli == 0 {
            fitting("Set pitch"@)
        } else {
            Seq::empty()
        },
    }
}

/// Text of each of [`FIELDS`] for the UI state `ui` and motion snapshot `st`.
pub open spec fn rendered(ui: UiView, st: Status, m: Machine, now_ms: u64, banner: Seq<char>) -> Seq<Seq<char>> {
    let unit = ui.pitch.unit;
    seq![
        status_chars(ui, st),
        pitch_chars(ui, now_ms),
        labelled_chars("UNIT: "@, label_of(unit), ""@),
        rpm_chars(st),
        turns_chars(st, m),
        angle_chars(st, m),
        labelled_chars("Z POS "@, distance_chars(m, unit, st.pos - st.z_zero), suffix_of(unit)),
        stop_caption_chars(st, m, unit, Side::Left),
        stop_caption_chars(st, m, unit, Side::Right),
        jog_caption_chars(ui, st, m, unit),
        message_chars(ui, st, now_ms, banner),
        fitting(if ui.pitch.reversed { "REVERSE"@ } else { "NORMAL"@ }),
    ]
}

/// Everything but the captions; see [`render`].
fn status_caption(ui: &Ui, st: &Status) -> (t: Text)
    ensures
        field_chars(t) == status_chars(ui@, *st),
{
    // The engage button's caption says what it shows/does now.
    let status = if ui.setup_active() {
        "Setup on"
    } else if st.syncing {
        "Syncing"
    } else if st.engaged {
        "Disengage"
    } else {
        "Engage"
    };
    text(status)
}

fn pitch_caption(ui: &Ui, now_ms: u64) -> (t: Text)
    ensures
        field_chars(t) == pitch_chars(ui@, now_ms),
{
    // A pending keypad entry replaces the pitch readout, with a blinking
    // cursor (and amber colours, see `field_colours`) until OK.
    match ui.entry() {
        Some(e) => {
            let cursor = if (now_ms / CURSOR_BLINK_MS) % 2 == 0 { "_" } else { "" };
            labelled("PITCH ", e, cursor)
        },
        None => {
            proof {
                lemma_fixed_len(ui@.pitch.spec_signed_milli(), 3);
            }
            let f = fixed(ui.pitch().signed_milli(), 3);
            labelled("PITCH ", field_str(&f), ui.pitch().unit.suffix())
        },
    }
}

fn message_line(ui: &Ui, st: &Status, now_ms: u64, setup_banner: &str) -> (t: Text)
    ensures
        field_chars(t) == message_chars(ui@, *st, now_ms, setup_banner@),
{
    if let Some(msg) = ui.message(now_ms) {
        text(msg)
    } else if ui.entry().is_some() {
        text("OK to apply, <- delete, hold <- clear")
    } else if ui.setup_active() {
        text(setup_banner)
    } else if st.syncing {
        text("Waiting for thread phase")
    } else if ui.pitch().magnitude_milli == 0 {
        text("Set pitch")
    } else {
        field_new()
    }
}

fn turns_caption(st: &Status, m: &Machine) -> (t: Text)
    requires
        m.displayable(),
        st.renderable(*m),
    ensures
        field_chars(t) == turns_chars(*st, *m),
{
    let n = m.counts_per_rev;
    let tc = st.turn_counts;
    let atc: i64 = if tc < 0 { -tc } else { tc };
    proof {
        assert(atc * 100 / (n as int) <= atc * 100) by (nonlinear_arith) requires atc >= 0, n >= 1;
    }
    let turns = fixed(atc * 100 / n, 2);
    labelled("TURNS ", field_str(&turns), "")
}

fn angle_caption(st: &Status, m: &Machine) -> (t: Text)
    requires
        m.displayable(),
        st.renderable(*m),
    ensures
        field_chars(t) == angle_chars(*st, *m),
{
    let n = m.counts_per_rev;
    let (_, rem) = crate::arith::floor_div_mod(st.turn_counts as i128, n as i128);
    proof {
        crate::arith::lemma_fdiv_props(st.turn_counts as int, n as int);
        assert(rem * 36_000 / (n as int) <= rem * 36_000) by (nonlinear_arith) requires rem >= 0, n >= 1;
    }
    let mut angle = fixed(rem as i64 * 36_000 / n, 2);
    proof {
        lemma_fixed_len(rem * 36_000 / (n as int), 2);
        lemma_utf8_ascii_len(field_chars(angle));
        let deg = seq!['\u{b0}'];
        assert(deg.drop_first() =~= Seq::<char>::empty());
        assert(('\u{b0}' as u32) == 0xB0);
        assert(encode_utf8(deg) == vstd::utf8::encode_scalar(0xB0) + encode_utf8(deg.drop_first()));
        assert(encode_utf8(deg).len() == 2);
    }
    let ok = field_push(&mut angle, '\u{b0}');
    assert(ok);
    labelled("ANGLE ", field_str(&angle), "")
}

fn rpm_caption(st: &Status) -> (t: Text)
    ensures
        field_chars(t) == rpm_chars(*st),
{
    proof {
        reveal_strlit("RPM ");
        assert(pow10(10) == 10_000_000_000) by { reveal_with_fuel(pow10, 11); }
        lemma_decimal(st.rpm as nat, 10);
    }
    let mut rpm = literal("RPM ");
    push_decimal(&mut rpm, st.rpm as u64);
    rpm
}

/// `setup_banner` is shown on the message line while setup mode is active.
#[verifier::rlimit(40)]
pub fn render(ui: &Ui, st: &Status, m: &Machine, now_ms: u64, setup_banner: &str) -> (r: [Text; 12])
    requires
        ui.wf(),
        m.displayable(),
        st.renderable(*m),
    ensures
        forall|i: int| 0 <= i < 12 ==> field_chars(#[trigger] r@[i]) == rendered(ui@, *st, *m, now_ms, setup_banner@)[i],
{
    let unit = ui.pitch().unit;
    let pos = distance(m, unit, st.pos - st.z_zero);
    let r = [
        status_caption(ui, st),
        pitch_caption(ui, now_ms),
        // bUnitsToggle caption, max 10 characters in the HMI.
        labelled("UNIT: ", unit.label(), ""),
        rpm_caption(st),
        turns_caption(st, m),
        angle_caption(st, m),
        labelled("Z POS ", field_str(&pos), unit.suffix()),
        stop_caption(st, m, unit, Side::Left),
        stop_caption(st, m, unit, Side::Right),
        jog_caption(ui, st, m, unit),
        message_line(ui, st, now_ms, setup_banner),
        text(if ui.pitch().reversed { "REVERSE" } else { "NORMAL" }),
    ];
    r
}

/// Button `(background, text)` colours (RGB565) for the stop states, indexed
/// by [`StopState`]. Every pair has at least 7:1 WCAG contrast (AAA) for
/// poor workshop lighting. `Unset` is the HMI's normal grey button with
/// black text.
pub const STOP_COLOURS: [(u16, u16); 3] = [
    (0xC618, 0x0000), // grey / black, 11.9:1
    (0xFD80, 0x0000), // amber / black, 11.6:1
    (0xA000, 0xFFFF), // dark red / white, 8.1:1
];

/// `tPitch`: normal (white on the page's dark grey, 14.1:1), and while a
/// keypad entry is pending (black on amber, 11.6:1).
pub const PITCH_COLOURS: [(u16, u16); 2] = [(0x2965, 0xFFFF), (0xFD80, 0x0000)];

/// `bReverseToggle`: normal direction (grey), reversed (amber).
pub const REVERSE_COLOURS: [(u16, u16); 2] = [(0xC618, 0x0000), (0xFD80, 0x0000)];

/// Components whose `(bco, pco)` the firmware sets, in [`field_colours`] order.
pub const COLOUR_FIELDS: [&'static str; 4] = ["bLeftStop", "bRightStop", "tPitch", "bReverseToggle"];

/// Index of a stop state into [`STOP_COLOURS`].
pub open spec fn stop_index(s: StopState) -> int {
    match s {
        StopState::Unset => 0,
        StopState::Armed => 1,
        StopState::Parked => 2,
    }
}

fn stop_colour(s: StopState) -> (r: (u16, u16))
    ensures
        r == STOP_COLOURS[stop_index(s)],
{
    match s {
        StopState::Unset => STOP_COLOURS[0],
        StopState::Armed => STOP_COLOURS[1],
        StopState::Parked => STOP_COLOURS[2],
    }
}

/// `(bco, pco)` of each of [`COLOUR_FIELDS`].
pub fn field_colours(ui: &Ui, st: &Status) -> (r: [(u16, u16); 4])
    ensures
        r@ == seq![
            STOP_COLOURS[stop_index(st.spec_stop_state(Side::Left))],
            STOP_COLOURS[stop_index(st.spec_stop_state(Side::Right))],
            PITCH_COLOURS[if ui@.entry is Some { 1int } else { 0 }],
            REVERSE_COLOURS[if ui@.pitch.reversed { 1int } else { 0 }],
        ],
{
    let r = [
        stop_colour(st.stop_state(Side::Left)),
        stop_colour(st.stop_state(Side::Right)),
        if ui.entry().is_some() { PITCH_COLOURS[1] } else { PITCH_COLOURS[0] },
        if ui.pitch().reversed { REVERSE_COLOURS[1] } else { REVERSE_COLOURS[0] },
    ];
    assert(r@ =~= seq![
        STOP_COLOURS[stop_index(st.spec_stop_state(Side::Left))],
        STOP_COLOURS[stop_index(st.spec_stop_state(Side::Right))],
        PITCH_COLOURS[if ui@.entry is Some { 1int } else { 0 }],
        REVERSE_COLOURS[if ui@.pitch.reversed { 1int } else { 0 }],
    ]);
    r
}

} // verus!
