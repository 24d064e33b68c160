//! Operator interface logic: turns key presses into pitch state and commands
//! for the motion task. Knows nothing about the display hardware.
use vstd::prelude::*;
use vstd::utf8::encode_utf8;
use crate::arith::abs;
use crate::buffers::{entry_chars, entry_new, entry_pop, entry_push, entry_str};
use crate::digits::{find, find_byte};
use crate::display::Status;
use crate::gearbox::Side;
use crate::pitch::{entry_milli, parse_entry_milli, Pitch, Unit, JOG_SIZES_MILLI, STEP_SIZES_MILLI};
use crate::settings::OperatorState;

verus! {

#[derive(Clone, Copy, Debug, PartialEq, Eq, Structural)]
pub enum Key {
    Digit(u8),
    Point,
    Backspace,
    Enter,
    Plus,
    Minus,
    Reverse,
    ToggleUnit,
    /// Select pitch increment by index into [`STEP_SIZES_MILLI`].
    StepSize(u8),
    CycleStep,
    Engage,
    Disengage,
    StopLeft,
    StopRight,
    ZeroZ,
    ZeroTurns,
    /// Jog button pressed or released (`left` = towards the left stop).
    Jog { left: bool, pressed: bool },
    /// Cycle jog distance through [`JOG_SIZES_MILLI`].
    JogCycle,
    /// Start or leave the WiFi setup hotspot.
    Setup,
}

/// Commands for the motion task.
#[derive(Clone, Copy, Debug, PartialEq, Eq, Structural)]
pub enum Command {
    SetPitchDu(i64),
    Engage,
    Disengage,
    ToggleStop(Side),
    ZeroZ,
    ZeroTurns,
    Jog { left: bool, distance_du: i64 },
    JogRelease,
}

/// Requests for the firmware beyond the motion task.
#[derive(Clone, Copy, Debug, PartialEq, Eq, Structural)]
pub enum Action {
    /// Bring up the setup hotspot.
    StartSetup,
    /// Leave setup mode (the controller restarts).
    ExitSetup,
}

#[derive(Clone, Copy, Debug, PartialEq, Eq, Structural)]
pub struct Outcome {
    pub command: Option<Command>,
    pub beep: bool,
    pub action: Option<Action>,
}

impl Default for Outcome {
    fn default() -> (r: Self)
        ensures
            r == quiet(),
    {
        Outcome { command: None, beep: false, action: None }
    }
}

/// Nothing to do.
pub open spec fn quiet() -> Outcome {
    Outcome { command: None, beep: false, action: None }
}

/// Send `c` to the motion task.
pub open spec fn cmd(c: Command) -> Outcome {
    Outcome { command: Some(c), beep: false, action: None }
}

/// How long a feedback message stays up.
pub const MESSAGE_MS: u64 = 2_000;

/// Longest keypad entry, in bytes.
pub const ENTRY_MAX_LEN: usize = 8;

/// Bytes after the first '.' of an entry (its decimals), 0 without a point.
pub open spec fn decimals(b: Seq<u8>) -> int {
    if find(b, 46) < b.len() { b.len() - find(b, 46) - 1 } else { 0 }
}

pub struct Ui {
    pub pitch: Pitch,
    step_idx: usize,
    jog_idx: usize,
    entry: Option<heapless::String<8>>,
    message: Option<(&'static str, u64)>,
    max_pitch_du: i64,
    setup_active: bool,
}

/// Model of a [`Ui`].
pub ghost struct UiView {
    pub pitch: Pitch,
    /// Index into [`STEP_SIZES_MILLI`].
    pub step_idx: int,
    /// Index into [`JOG_SIZES_MILLI`].
    pub jog_idx: int,
    /// Number being typed on the keypad.
    pub entry: Option<Seq<char>>,
    /// Feedback message and the time it disappears.
    pub message: Option<(&'static str, u64)>,
    pub max_pitch_du: int,
    pub setup_active: bool,
}

impl View for Ui {
    type V = UiView;

    closed spec fn view(&self) -> UiView {
        UiView {
            pitch: self.pitch,
            step_idx: self.step_idx as int,
            jog_idx: self.jog_idx as int,
            entry: match self.entry {
                Some(e) => Some(entry_chars(e)),
                None => None,
            },
            message: self.message,
            max_pitch_du: self.max_pitch_du as int,
            setup_active: self.setup_active,
        }
    }
}

impl UiView {
    /// Indices in range; a pending entry is never empty.
    pub open spec fn wf(self) -> bool {
        &&& 0 <= self.step_idx < 5
        &&& 0 <= self.jog_idx < 4
        &&& (self.entry matches Some(e) ==> e.len() > 0)
    }

    pub open spec fn step_milli(self) -> u32 {
        STEP_SIZES_MILLI[self.step_idx]
    }

    pub open spec fn jog_milli(self) -> u32 {
        JOG_SIZES_MILLI[self.jog_idx]
    }

    /// Refuse a key: beep and show `msg` for [`MESSAGE_MS`].
    pub open spec fn reject(self, msg: &'static str, now_ms: u64) -> (UiView, Outcome) {
        (
            UiView { message: Some((msg, (now_ms + MESSAGE_MS) as u64)), ..self },
            Outcome { command: None, beep: true, action: None },
        )
    }

    /// Switch to pitch `p` unless it exceeds the largest pitch.
    pub open spec fn try_set(self, p: Pitch, now_ms: u64) -> (UiView, Outcome) {
        if abs(p.spec_du()) > self.max_pitch_du {
            self.reject("Pitch too large", now_ms)
        } else if p == self.pitch {
            (self, quiet())
        } else {
            (UiView { pitch: p, ..self }, cmd(Command::SetPitchDu(p.spec_du() as i64)))
        }
    }

    /// The entry being typed, empty if none.
    pub open spec fn typed(self) -> Seq<char> {
        match self.entry {
            Some(e) => e,
            None => Seq::empty(),
        }
    }

    /// Append `c` to the entry if `allowed` and it fits; refuse otherwise.
    pub open spec fn edit(self, c: char, allowed: bool, now_ms: u64) -> (UiView, Outcome) {
        let e = self.typed();
        if allowed && encode_utf8(e).len() + encode_utf8(seq![c]).len() <= ENTRY_MAX_LEN {
            (UiView { entry: Some(e.push(c)), ..self }, quiet())
        } else {
            UiView { entry: if e.len() == 0 { None } else { Some(e) }, ..self }.reject("Can't add that", now_ms)
        }
    }

    /// Keys other than those of the keypad and engage/disengage.
    pub open spec fn handle_other(self, key: Key, now_ms: u64, st: Status) -> (UiView, Outcome) {
        let p = self.pitch;
        match key {
            Key::Plus => {
                let m = p.magnitude_milli + self.step_milli();
                let m = if m > u32::MAX { u32::MAX } else { m as u32 };
                self.try_set(Pitch { magnitude_milli: m, ..p }, now_ms)
            },
            Key::Minus => {
                let m = p.magnitude_milli - self.step_milli();
                let m = if m < 0 { 0u32 } else { m as u32 };
                self.try_set(Pitch { magnitude_milli: m, ..p }, now_ms)
            },
            Key::Reverse => self.try_set(Pitch { reversed: !p.reversed, ..p }, now_ms),
            Key::ToggleUnit => self.try_set(
                Pitch { unit: if p.unit == Unit::Mm { Unit::Inch } else { Unit::Mm }, ..p },
                now_ms,
            ),
            Key::StepSize(i) => (UiView { step_idx: if i > 4 { 4 } else { i as int }, ..self }, quiet()),
            Key::CycleStep => (UiView { step_idx: (self.step_idx + 1) % 5, ..self }, quiet()),
            Key::StopLeft => (self, cmd(Command::ToggleStop(Side::Left))),
            Key::StopRight => (self, cmd(Command::ToggleStop(Side::Right))),
            Key::ZeroZ => (self, cmd(Command::ZeroZ)),
            Key::ZeroTurns => (self, cmd(Command::ZeroTurns)),
            Key::JogCycle => (UiView { jog_idx: (self.jog_idx + 1) % 4, ..self }, quiet()),
            Key::Jog { left, .. } => if st.engaged {
                self.reject("Disengage to jog", now_ms)
            } else {
                let d = self.jog_milli() * p.unit.spec_du_per_milli();
                (self, cmd(Command::Jog { left, distance_du: d as i64 }))
            },
            Key::Setup => if self.setup_active {
                (self, Outcome { command: None, beep: false, action: Some(Action::ExitSetup) })
            } else {
                (
                    UiView { setup_active: true, ..self },
                    Outcome { command: None, beep: false, action: Some(Action::StartSetup) },
                )
            },
            _ => (self, quiet()),
        }
    }

    /// State and outcome after `key`, given the latest motion snapshot.
    pub open spec fn handled(self, key: Key, now_ms: u64, st: Status) -> (UiView, Outcome) {
        match key {
            Key::Digit(d) => {
                let b = encode_utf8(self.typed());
                self.edit(((48 + d) as u8) as char, decimals(b) < 3, now_ms)
            },
            Key::Point => {
                let b = encode_utf8(self.typed());
                self.edit('.', find(b, 46) >= b.len(), now_ms)
            },
            Key::Backspace => match self.entry {
                Some(e) => (
                    UiView { entry: if e.len() <= 1 { None } else { Some(e.drop_last()) }, ..self },
                    quiet(),
                ),
                None => (self, quiet()),
            },
            Key::Enter => match self.entry {
                None => (self, quiet()),
                Some(e) => {
                    let cleared = UiView { entry: None, ..self };
                    match entry_milli(encode_utf8(e)) {
                        Some(m) => cleared.try_set(Pitch { magnitude_milli: m, ..self.pitch }, now_ms),
                        None => cleared.reject("Invalid number", now_ms),
                    }
                },
            },
            Key::Engage => if self.entry is Some {
                self.reject("Press Enter first", now_ms)
            } else if st.jogging {
                self.reject("Wait for jog to stop", now_ms)
            } else {
                (self, cmd(Command::Engage))
            },
            Key::Jog { pressed: false, .. } => (self, cmd(Command::JogRelease)),
            Key::Disengage => (UiView { entry: None, ..self }, cmd(Command::Disengage)),
            _ => UiView { entry: None, ..self }.handle_other(key, now_ms, st),
        }
    }
}

impl Ui {
    pub open spec fn wf(&self) -> bool {
        self@.wf()
    }

    pub fn new(max_pitch_du: i64) -> (r: Self)
        ensures
            r.wf(),
            r@ == (UiView {
                pitch: Pitch { magnitude_milli: 0, reversed: false, unit: Unit::Mm },
                step_idx: 2,
                jog_idx: 1,
                entry: None,
                message: None,
                max_pitch_du: max_pitch_du as int,
                setup_active: false,
            }),
    {
        Ui {
            pitch: Pitch { magnitude_milli: 0, reversed: false, unit: Unit::Mm },
            step_idx: 2,
            jog_idx: 1,
            entry: None,
            message: None,
            max_pitch_du,
            setup_active: false,
        }
    }

    /// The selected pitch.
    pub fn pitch(&self) -> (r: Pitch)
        ensures
            r == self@.pitch,
    {
        self.pitch
    }

    /// Pitch increment for +/-, in thousandths of the unit.
    pub fn step_milli(&self) -> (r: u32)
        requires
            self.wf(),
        ensures
            r == self@.step_milli(),
    {
        STEP_SIZES_MILLI[self.step_idx]
    }

    /// Jog distance, in thousandths of the unit.
    pub fn jog_milli(&self) -> (r: u32)
        requires
            self.wf(),
        ensures
            r == self@.jog_milli(),
    {
        JOG_SIZES_MILLI[self.jog_idx]
    }

    /// Number being typed on the keypad, if any.
    pub fn entry(&self) -> (r: Option<&str>)
        ensures
            match self@.entry {
                Some(e) => r matches Some(s) && s@ == e,
                None => r is None,
            },
    {
        match &self.entry {
            Some(e) => Some(entry_str(e)),
            None => None,
        }
    }

    /// Transient feedback message, if one is still showing.
    pub fn message(&self, now_ms: u64) -> (r: Option<&'static str>)
        ensures
            r == match self@.message {
                Some((m, until)) => if now_ms < until { Some(m) } else { None },
                None => None,
            },
    {
        match self.message {
            Some((m, until)) => if now_ms < until { Some(m) } else { None },
            None => None,
        }
    }

    /// Setup hotspot requested from the keypad.
    pub fn setup_active(&self) -> (r: bool)
        ensures
            r == self@.setup_active,
    {
        self.setup_active
    }

    /// Show `msg` for `duration_ms` from `now_ms`.
    pub fn notify(&mut self, msg: &'static str, now_ms: u64, duration_ms: u64)
        requires
            now_ms + duration_ms <= u64::MAX,
        ensures
            final(self)@ == (UiView { message: Some((msg, (now_ms + duration_ms) as u64)), ..old(self)@ }),
    {
        self.message = Some((msg, now_ms + duration_ms));
    }

    /// Pitch, unit and selections, to be remembered across restarts.
    pub fn operator_state(&self) -> (r: OperatorState)
        requires
            self.wf(),
        ensures
            r == (OperatorState { pitch: self@.pitch, step_idx: self@.step_idx as u8, jog_idx: self@.jog_idx as u8 }),
    {
        OperatorState { pitch: self.pitch, step_idx: self.step_idx as u8, jog_idx: self.jog_idx as u8 }
    }

    /// Take back remembered selections.
    pub fn restore(&mut self, st: OperatorState)
        requires
            old(self).wf(),
            st.step_idx < 5,
            st.jog_idx < 4,
        ensures
            final(self).wf(),
            final(self)@ == (UiView {
                pitch: st.pitch,
                step_idx: st.step_idx as int,
                jog_idx: st.jog_idx as int,
                ..old(self)@
            }),
    {
        self.pitch = st.pitch;
        self.step_idx = st.step_idx as usize;
        self.jog_idx = st.jog_idx as usize;
    }

    fn reject(&mut self, msg: &'static str, now_ms: u64) -> (r: Outcome)
        requires
            now_ms <= u64::MAX - MESSAGE_MS,
        ensures
            (final(self)@, r) == old(self)@.reject(msg, now_ms),
    {
        self.message = Some((msg, now_ms + MESSAGE_MS));
        Outcome { command: None, beep: true, action: None }
    }

    fn try_set(&mut self, p: Pitch, now_ms: u64) -> (r: Outcome)
        requires
            now_ms <= u64::MAX - MESSAGE_MS,
        ensures
            (final(self)@, r) == old(self)@.try_set(p, now_ms),
    {
        let du = p.du();
        let magnitude = if du < 0 { -du } else { du };
        if magnitude > self.max_pitch_du {
            return self.reject("Pitch too large", now_ms);
        }
        if p == self.pitch {
            return Outcome::default();
        }
        self.pitch = p;
        Outcome { command: Some(Command::SetPitchDu(du)), beep: false, action: None }
    }

    /// Append `c` to the entry if `allowed`.
    fn edit(&mut self, c: char, allowed: bool, now_ms: u64) -> (r: Outcome)
        requires
            old(self).wf(),
            now_ms <= u64::MAX - MESSAGE_MS,
        ensures
            final(self).wf(),
            (final(self)@, r) == old(self)@.edit(c, allowed, now_ms),
    {
        let mut e = match self.entry.take() {
            Some(e) => e,
            None => entry_new(),
        };
        if allowed && entry_push(&mut e, c) {
            self.entry = Some(e);
            Outcome::default()
        } else {
            let empty = entry_str(&e).is_empty();
            self.entry = if empty { None } else { Some(e) };
            self.reject("Can't add that", now_ms)
        }
    }

    /// `status` is the latest motion snapshot, used to refuse keys that
    /// don't make sense right now.
    pub fn handle(&mut self, key: Key, now_ms: u64, status: &Status) -> (r: Outcome)
        requires
            old(self).wf(),
            now_ms <= u64::MAX - MESSAGE_MS,
            key matches Key::Digit(d) ==> d <= 207,
        ensures
            final(self).wf(),
            (final(self)@, r) == old(self)@.handled(key, now_ms, *status),
    {
        match key {
            Key::Digit(d) => {
                let allowed = match &self.entry {
                    Some(e) => {
                        let b = entry_str(e).as_bytes();
                        let k = find_byte(b, 46u8);
                        k >= b.len() || b.len() - k - 1 < 3
                    },
                    None => {
                        proof {
                            assert(encode_utf8(Seq::<char>::empty()) =~= Seq::<u8>::empty());
                        }
                        true
                    },
                };
                self.edit((48u8 + d) as char, allowed, now_ms)
            },
            Key::Point => {
                let allowed = match &self.entry {
                    Some(e) => {
                        let b = entry_str(e).as_bytes();
                        find_byte(b, 46u8) >= b.len()
                    },
                    None => {
                        proof {
                            assert(encode_utf8(Seq::<char>::empty()) =~= Seq::<u8>::empty());
                        }
                        true
                    },
                };
                self.edit('.', allowed, now_ms)
            },
            Key::Backspace => {
                match self.entry.take() {
                    Some(mut e) => {
                        entry_pop(&mut e);
                        let empty = entry_str(&e).is_empty();
                        self.entry = if empty { None } else { Some(e) };
                    },
                    None => {},
                }
                Outcome::default()
            },
            Key::Enter => match self.entry.take() {
                None => Outcome::default(),
                Some(e) => match parse_entry_milli(entry_str(&e)) {
                    Some(m) => self.try_set(
                        Pitch { magnitude_milli: m, reversed: self.pitch.reversed, unit: self.pitch.unit },
                        now_ms,
                    ),
                    None => self.reject("Invalid number", now_ms),
                },
            },
            // Don't engage with a half-typed pitch on screen.
            Key::Engage => {
                if self.entry.is_some() {
                    self.reject("Press Enter first", now_ms)
                } else if status.jogging {
                    self.reject("Wait for jog to stop", now_ms)
                } else {
                    Outcome { command: Some(Command::Engage), beep: false, action: None }
                }
            },
            // Always forward releases so a jog can never be left running.
            Key::Jog { pressed: false, .. } => Outcome {
                command: Some(Command::JogRelease),
                beep: false,
                action: None,
            },
            Key::Disengage => {
                self.entry = None;
                Outcome { command: Some(Command::Disengage), beep: false, action: None }
            },
            other => {
                // Any other key abandons a pending entry.
                self.entry = None;
                self.handle_other(other, now_ms, status)
            },
        }
    }

    fn handle_other(&mut self, key: Key, now_ms: u64, status: &Status) -> (r: Outcome)
        requires
            old(self).wf(),
            now_ms <= u64::MAX - MESSAGE_MS,
        ensures
            final(self).wf(),
            (final(self)@, r) == old(self)@.handle_other(key, now_ms, *status),
    {
        let p = self.pitch;
        match key {
            Key::Plus => {
                let m = p.magnitude_milli.saturating_add(self.step_milli());
                self.try_set(Pitch { magnitude_milli: m, ..p }, now_ms)
            },
            Key::Minus => {
                let m = p.magnitude_milli.saturating_sub(self.step_milli());
                self.try_set(Pitch { magnitude_milli: m, ..p }, now_ms)
            },
            Key::Reverse => self.try_set(Pitch { reversed: !p.reversed, ..p }, now_ms),
            Key::ToggleUnit => self.try_set(Pitch { unit: p.unit.toggled(), ..p }, now_ms),
            Key::StepSize(i) => {
                self.step_idx = if i as usize > 4 { 4 } else { i as usize };
                Outcome::default()
            },
            Key::CycleStep => {
                self.step_idx = (self.step_idx + 1) % 5;
                Outcome::default()
            },
            Key::StopLeft => Outcome { command: Some(Command::ToggleStop(Side::Left)), beep: false, action: None },
            Key::StopRight => Outcome { command: Some(Command::ToggleStop(Side::Right)), beep: false, action: None },
            Key::ZeroZ => Outcome { command: Some(Command::ZeroZ), beep: false, action: None },
            Key::ZeroTurns => Outcome { command: Some(Command::ZeroTurns), beep: false, action: None },
            Key::JogCycle => {
                self.jog_idx = (self.jog_idx + 1) % 4;
                Outcome::default()
            },
            Key::Jog { left, .. } => {
                if status.engaged {
                    self.reject("Disengage to jog", now_ms)
                } else {
                    let j = self.jog_milli();
                    assert(j <= 10_000);
                    let per = p.unit.du_per_milli();
                    assert(per <= 254);
                    let distance_du = j as i64 * per;
                    Outcome { command: Some(Command::Jog { left, distance_du }), beep: false, action: None }
                }
            },
            Key::Setup => {
                if self.setup_active {
                    Outcome { command: None, beep: false, action: Some(Action::ExitSetup) }
                } else {
                    self.setup_active = true;
                    Outcome { command: None, beep: false, action: Some(Action::StartSetup) }
                }
            },
            _ => Outcome::default(),
        }
    }
}

/// MM/IN keeps the number and its direction and changes the unit; when the
/// same number in the other unit would exceed the largest pitch, nothing
/// changes but a beep and a message.
pub proof fn lemma_unit_toggle_keeps_number(ui: UiView, now_ms: u64, st: Status)
    ensures
        ({
            let (after, out) = ui.handled(Key::ToggleUnit, now_ms, st);
            &&& after.pitch.magnitude_milli == ui.pitch.magnitude_milli
            &&& after.pitch.reversed == ui.pitch.reversed
            &&& after.entry is None
            &&& out.beep <==> after.pitch.unit == ui.pitch.unit
            &&& !out.beep ==> out.command == Some(Command::SetPitchDu(after.pitch.spec_du() as i64))
        }),
{
}

/// Jog keys move the carriage the way they point: while disengaged, a press
/// of Jog L or Jog R asks for a jog the same way, by the selected jog
/// distance in the pitch's unit (0.001 mm = 10 du, 0.001" = 254 du), and a
/// release asks to release it. While engaged a press is refused with a beep.
pub proof fn lemma_jog_key_direction(ui: UiView, left: bool, now_ms: u64, st: Status)
    requires
        ui.wf(),
    ensures
        ({
            let (after, out) = ui.handled(Key::Jog { left, pressed: true }, now_ms, st);
            let per = if ui.pitch.unit == Unit::Mm { 10int } else { 254int };
            &&& !st.engaged ==> out.command == Some(Command::Jog { left, distance_du: (ui.jog_milli() * per) as i64 })
                && !out.beep && ui.jog_milli() * per > 0
            &&& st.engaged ==> out.command is None && out.beep
            &&& after.pitch == ui.pitch
        }),
        ui.handled(Key::Jog { left, pressed: false }, now_ms, st).1.command == Some(Command::JogRelease),
{
    assert(ui.jog_milli() > 0);
}

/// Signed pitch in du, written out: the magnitude in thousandths of the
/// unit times 10 du (mm) or 254 du (inch), negative when reversed.
pub open spec fn pitch_du_of(p: Pitch) -> int {
    let per = if p.unit == Unit::Mm { 10int } else { 254int };
    if p.reversed { -(p.magnitude_milli * per) } else { p.magnitude_milli * per }
}

/// The pitch keys: + adds the selected step to the magnitude (saturating),
/// - takes it away (not below 0), Rev flips the direction; each keeps what
/// it does not change. A change is sent to the motion task as the new
/// signed pitch in du; a change beyond the largest pitch is refused with a
/// beep and leaves the pitch as it was. The stop keys toggle their own side.
pub proof fn lemma_pitch_keys(ui: UiView, now_ms: u64, st: Status)
    requires
        ui.wf(),
        abs(ui.pitch.spec_du()) <= ui.max_pitch_du,
    ensures
        ({
            let p = ui.pitch;
            let step = ui.step_milli() as int;
            let (a, o) = ui.handled(Key::Plus, now_ms, st);
            let want = if p.magnitude_milli + step > u32::MAX { u32::MAX as int } else { p.magnitude_milli + step };
            &&& a.pitch.unit == p.unit && a.pitch.reversed == p.reversed
            &&& o.beep ==> a.pitch == p && o.command is None
            &&& !o.beep ==> a.pitch.magnitude_milli == want
            &&& (!o.beep && want != p.magnitude_milli) ==> o.command == Some(Command::SetPitchDu(pitch_du_of(a.pitch) as i64))
            &&& a.pitch.magnitude_milli >= p.magnitude_milli
        }),
        ({
            let p = ui.pitch;
            let step = ui.step_milli() as int;
            let (a, o) = ui.handled(Key::Minus, now_ms, st);
            let want = if p.magnitude_milli - step < 0 { 0 } else { p.magnitude_milli - step };
            &&& a.pitch.unit == p.unit && a.pitch.reversed == p.reversed
            &&& !o.beep && a.pitch.magnitude_milli == want
            &&& want != p.magnitude_milli ==> o.command == Some(Command::SetPitchDu(pitch_du_of(a.pitch) as i64))
            &&& a.pitch.magnitude_milli <= p.magnitude_milli
        }),
        ({
            let p = ui.pitch;
            let (a, o) = ui.handled(Key::Reverse, now_ms, st);
            &&& a.pitch.unit == p.unit && a.pitch.magnitude_milli == p.magnitude_milli
            &&& a.pitch.reversed == !p.reversed
            &&& o.command == Some(Command::SetPitchDu(pitch_du_of(a.pitch) as i64))
            &&& pitch_du_of(a.pitch) == -pitch_du_of(p)
        }),
        ui.handled(Key::StopLeft, now_ms, st).1.command == Some(Command::ToggleStop(Side::Left)),
        ui.handled(Key::StopRight, now_ms, st).1.command == Some(Command::ToggleStop(Side::Right)),
        ui.handled(Key::Disengage, now_ms, st).1.command == Some(Command::Disengage),
        ui.handled(Key::ZeroZ, now_ms, st).1.command == Some(Command::ZeroZ),
        ui.handled(Key::ZeroTurns, now_ms, st).1.command == Some(Command::ZeroTurns),
        (ui.entry is None && !st.jogging) ==> ui.handled(Key::Engage, now_ms, st).1.command == Some(Command::Engage),
{
    assert(ui.step_milli() > 0);
}

/// No key takes the pitch beyond the largest pitch allowed.
pub proof fn lemma_pitch_within_max(ui: UiView, key: Key, now_ms: u64, st: Status)
    requires
        abs(ui.pitch.spec_du()) <= ui.max_pitch_du,
    ensures
        abs(ui.handled(key, now_ms, st).0.pitch.spec_du()) <= ui.max_pitch_du,
        ui.handled(key, now_ms, st).0.max_pitch_du == ui.max_pitch_du,
{
}

} // verus!
