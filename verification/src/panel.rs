//! The operator panel loop's decisions: keys go to the [`Ui`], settings
//! saves are allowed only while nothing moves, the operator's selections are
//! remembered once settled, and only display fields whose text changed are
//! resent (all of them periodically, in case the display restarted).
use vstd::prelude::*;
use crate::buffers::{command_bytes, command_new, field_chars, field_str};
use crate::display::{render, rendered, Status, Text, FIELDS};
use crate::nextion::{encode_text, text_command};
use crate::settings::{OperatorState, Origin};
use crate::ui::{Command, Key, Outcome, Ui, UiView};
use crate::Machine;
use vstd::string::StringSliceAdditionalSpecFns;

verus! {

/// Resend every field this often, in case the display was power-cycled.
pub const DISPLAY_FULL_REFRESH_MS: u64 = 5_000;

/// Selections are remembered this long after the last change, once the
/// carriage is idle (flash writes pause the CPU for tens of ms).
pub const STATE_SAVE_DELAY_MS: u64 = 3_000;

/// Delay before restarting with newly saved settings, so the web page can
/// confirm the save.
pub const RESTART_DELAY_MS: u64 = 1_500;

/// How long start-up and save notices stay up.
pub const NOTICE_MS: u64 = 10_000;

pub struct Panel {
    pub ui: Ui,
    shown: Option<[Text; 12]>,
    last_full_ms: u64,
    saved_state: OperatorState,
    state_changed_ms: Option<u64>,
    restart_at_ms: Option<u64>,
}

/// Model of a [`Panel`].
pub ghost struct PanelView {
    pub ui: UiView,
    /// Text the display shows, if known.
    pub shown: Option<Seq<Seq<char>>>,
    pub last_full_ms: u64,
    /// Selections last remembered.
    pub saved_state: OperatorState,
    /// When the selections first differed from those remembered.
    pub state_changed_ms: Option<u64>,
    pub restart_at_ms: Option<u64>,
}

impl View for Panel {
    type V = PanelView;

    closed spec fn view(&self) -> PanelView {
        PanelView {
            ui: self.ui@,
            shown: match self.shown {
                Some(f) => Some(Seq::new(12, |i: int| field_chars(f@[i]))),
                None => None,
            },
            last_full_ms: self.last_full_ms,
            saved_state: self.saved_state,
            state_changed_ms: self.state_changed_ms,
            restart_at_ms: self.restart_at_ms,
        }
    }
}

/// The carriage neither follows the spindle nor jogs.
pub open spec fn idle(st: Status) -> bool {
    !st.engaged && !st.jogging
}

/// Start-up notice for where the settings came from.
pub open spec fn origin_notice(origin: Origin) -> Option<&'static str> {
    match origin {
        Origin::Corrupt => Some("Settings damaged: defaults"),
        Origin::Unsupported => Some("Newer settings: defaults"),
        _ => None,
    }
}

/// The operator's selections, as remembered.
pub open spec fn selections(ui: UiView) -> OperatorState {
    OperatorState { pitch: ui.pitch, step_idx: ui.step_idx as u8, jog_idx: ui.jog_idx as u8 }
}

impl PanelView {
    /// Selections to remember now (and the state after remembering them):
    /// once they differ from those remembered, have not changed for
    /// [`STATE_SAVE_DELAY_MS`], and the carriage is idle.
    pub open spec fn remembered(self, now_ms: u64, idle: bool) -> (PanelView, Option<OperatorState>) {
        let st = selections(self.ui);
        if st == self.saved_state {
            (self, None)
        } else {
            let changed = match self.state_changed_ms {
                Some(t) => t,
                None => now_ms,
            };
            if idle && now_ms >= changed && now_ms - changed >= STATE_SAVE_DELAY_MS {
                (PanelView { saved_state: st, state_changed_ms: None, ..self }, Some(st))
            } else {
                (PanelView { state_changed_ms: Some(changed), ..self }, None)
            }
        }
    }
}

/// Commands resending the fields of `fields` from `i` on whose text differs
/// from `shown` (all of them when nothing is known to be shown); a field
/// whose command doesn't fit 64 bytes is skipped.
pub open spec fn field_updates(shown: Option<Seq<Seq<char>>>, fields: Seq<Seq<char>>, i: int) -> Seq<Seq<u8>>
    decreases 12 - i,
{
    if i < 0 || i >= 12 {
        Seq::empty()
    } else {
        let id = FIELDS[i].spec_bytes();
        let changed = match shown {
            Some(s) => s[i] != fields[i],
            None => true,
        };
        let here = if changed && id.len() + fields[i].len() + 10 <= 64 {
            seq![text_command(id, fields[i])]
        } else {
            Seq::empty()
        };
        here + field_updates(shown, fields, i + 1)
    }
}

/// Texts equal.
fn same_text(a: &Text, b: &Text) -> (r: bool)
    ensures
        r == (field_chars(*a) == field_chars(*b)),
{
    let x = field_str(a).as_bytes();
    let y = field_str(b).as_bytes();
    proof {
        vstd::utf8::encode_utf8_decode_utf8(field_chars(*a));
        vstd::utf8::encode_utf8_decode_utf8(field_chars(*b));
    }
    if x.len() != y.len() {
        return false;
    }
    let mut i: usize = 0;
    while i < x.len()
        invariant
            x@.len() == y@.len(),
            x@ == vstd::utf8::encode_utf8(field_chars(*a)),
            y@ == vstd::utf8::encode_utf8(field_chars(*b)),
            0 <= i <= x@.len(),
            forall|j: int| 0 <= j < i ==> x@[j] == y@[j],
        decreases x@.len() - i,
    {
        if x[i] != y[i] {
            return false;
        }
        i += 1;
    }
    assert(x@ =~= y@);
    true
}

impl Panel {
    pub closed spec fn wf(&self) -> bool {
        self.ui.wf()
    }

    /// Panel at start-up: selections restored if remembered, a notice if the
    /// settings in use are the defaults because saved ones were unusable.
    /// Returns the pitch to send to the motion loop.
    pub fn new(max_pitch_du: i64, state: Option<OperatorState>, origin: Origin, now_ms: u64) -> (r: (Self, Command))
        requires
            state matches Some(st) ==> st.step_idx < 5 && st.jog_idx < 4,
            now_ms <= u64::MAX - NOTICE_MS,
        ensures
            r.0.wf(),
            ({
                let p = r.0@;
                let u = p.ui;
                &&& u.max_pitch_du == max_pitch_du
                &&& u.entry is None
                &&& !u.setup_active
                &&& u.pitch == (match state {
                    Some(st) => st.pitch,
                    None => crate::pitch::Pitch { magnitude_milli: 0, reversed: false, unit: crate::pitch::Unit::Mm },
                })
                &&& u.step_idx == (match state { Some(st) => st.step_idx as int, None => 2 })
                &&& u.jog_idx == (match state { Some(st) => st.jog_idx as int, None => 1 })
                &&& u.message == (match origin_notice(origin) {
                    Some(m) => Some((m, (now_ms + NOTICE_MS) as u64)),
                    None => None,
                })
                &&& p.shown is None
                &&& p.last_full_ms == now_ms
                &&& p.saved_state == selections(u)
                &&& p.state_changed_ms is None
                &&& p.restart_at_ms is None
                &&& r.1 == Command::SetPitchDu(u.pitch.spec_du() as i64)
            }),
    {
        let mut ui = Ui::new(max_pitch_du);
        if let Some(st) = state {
            ui.restore(st);
        }
        match origin {
            Origin::Corrupt => ui.notify("Settings damaged: defaults", now_ms, NOTICE_MS),
            Origin::Unsupported => ui.notify("Newer settings: defaults", now_ms, NOTICE_MS),
            _ => {},
        }
        let cmd = Command::SetPitchDu(ui.pitch().du());
        let saved_state = ui.operator_state();
        (Panel { ui, shown: None, last_full_ms: now_ms, saved_state, state_changed_ms: None, restart_at_ms: None }, cmd)
    }

    /// A key press or release.
    pub fn key(&mut self, key: Key, now_ms: u64, status: &Status) -> (r: Outcome)
        requires
            old(self).wf(),
            now_ms <= u64::MAX - crate::ui::MESSAGE_MS,
            key matches Key::Digit(d) ==> d <= 207,
        ensures
            final(self).wf(),
            (final(self)@.ui, r) == old(self)@.ui.handled(key, now_ms, *status),
            final(self)@ == (PanelView { ui: final(self)@.ui, ..old(self)@ }),
    {
        self.ui.handle(key, now_ms, status)
    }

    /// Settings may be written to flash only while nothing moves.
    pub fn may_save(status: &Status) -> (r: bool)
        ensures
            r == idle(*status),
    {
        !status.engaged && !status.jogging
    }

    /// Outcome of saving new settings: on success, announce and schedule the
    /// restart that takes them into use.
    pub fn settings_saved(&mut self, ok: bool, now_ms: u64)
        requires
            old(self).wf(),
            now_ms <= u64::MAX - NOTICE_MS,
        ensures
            final(self).wf(),
            ok ==> final(self)@ == (PanelView {
                ui: UiView { message: Some(("Settings saved: restarting", (now_ms + NOTICE_MS) as u64)), ..old(self)@.ui },
                restart_at_ms: Some((now_ms + RESTART_DELAY_MS) as u64),
                ..old(self)@
            }),
            !ok ==> final(self)@ == old(self)@,
    {
        if ok {
            self.restart_at_ms = Some(now_ms + RESTART_DELAY_MS);
            self.ui.notify("Settings saved: restarting", now_ms, NOTICE_MS);
        }
    }

    /// Commands resending the display fields whose text changed (all of
    /// them every [`DISPLAY_FULL_REFRESH_MS`]), for the UI state and motion
    /// snapshot `status` at `now_ms`; `banner` is the setup-mode message.
    pub fn refresh(&mut self, status: &Status, m: &Machine, now_ms: u64, banner: &str) -> (out: Vec<heapless::Vec<u8, 64>>)
        requires
            old(self).wf(),
            m.displayable(),
            status.renderable(*m),
            now_ms >= old(self)@.last_full_ms,
        ensures
            final(self).wf(),
            ({
                let p = old(self)@;
                let full = now_ms - p.last_full_ms >= DISPLAY_FULL_REFRESH_MS;
                let fields = rendered(p.ui, *status, *m, now_ms, banner@);
                let updates = field_updates(if full { None } else { p.shown }, fields, 0);
                &&& out@.len() == updates.len()
                &&& forall|k: int| 0 <= k < updates.len() ==> command_bytes(#[trigger] out@[k]) == updates[k]
                &&& final(self)@ == (PanelView {
                    shown: Some(fields),
                    last_full_ms: if full { now_ms } else { p.last_full_ms },
                    ..p
                })
            }),
    {
        let ghost p = self@;
        if now_ms - self.last_full_ms >= DISPLAY_FULL_REFRESH_MS {
            self.shown = None;
            self.last_full_ms = now_ms;
        }
        let ghost shown0 = self@.shown;
        let fields = render(&self.ui, status, m, now_ms, banner);
        let ghost fs = rendered(p.ui, *status, *m, now_ms, banner@);
        let mut out: Vec<heapless::Vec<u8, 64>> = Vec::new();
        let ghost mut acc: Seq<Seq<u8>> = Seq::empty();
        proof {
            assert(acc + field_updates(shown0, fs, 0) =~= field_updates(shown0, fs, 0));
        }
        let mut i: usize = 0;
        while i < 12
            invariant
                0 <= i <= 12,
                self.wf(),
                self@.shown == shown0,
                forall|j: int| 0 <= j < 12 ==> field_chars(#[trigger] fields@[j]) == fs[j],
                out@.len() == acc.len(),
                forall|k: int| 0 <= k < acc.len() ==> command_bytes(#[trigger] out@[k]) == acc[k],
                acc + field_updates(shown0, fs, i as int) == field_updates(shown0, fs, 0),
            decreases 12 - i,
        {
            let changed = match &self.shown {
                Some(s) => !same_text(&s[i], &fields[i]),
                None => true,
            };
            let ghost here = if changed && FIELDS[i as int].spec_bytes().len() + fs[i as int].len() + 10 <= 64 {
                seq![text_command(FIELDS[i as int].spec_bytes(), fs[i as int])]
            } else {
                Seq::<Seq<u8>>::empty()
            };
            assert(field_updates(shown0, fs, i as int) == here + field_updates(shown0, fs, i + 1));
            if changed {
                let mut cmd = command_new();
                let ok = encode_text(&mut cmd, FIELDS[i], field_str(&fields[i])).is_ok();
                if ok {
                    assert(Seq::<u8>::empty() + text_command(FIELDS[i as int].spec_bytes(), fs[i as int])
                        =~= text_command(FIELDS[i as int].spec_bytes(), fs[i as int]));
                    out.push(cmd);
                    proof {
                        acc = acc + here;
                    }
                }
            }
            assert(acc + field_updates(shown0, fs, i + 1) =~= field_updates(shown0, fs, 0));
            i += 1;
        }
        assert(acc =~= acc + field_updates(shown0, fs, 12));
        self.shown = Some(fields);
        assert(self@.shown =~= Some(fs));
        out
    }

    /// Time to restart with new settings.
    pub fn restart_due(&self, now_ms: u64) -> (r: bool)
        ensures
            r == (self@.restart_at_ms matches Some(t) && now_ms >= t),
    {
        match self.restart_at_ms {
            Some(t) => now_ms >= t,
            None => false,
        }
    }

    /// Selections to remember now, if any (see [`PanelView::remembered`]);
    /// they count as remembered from here on, whether or not writing them
    /// succeeds.
    pub fn state_to_save(&mut self, now_ms: u64, idle: bool) -> (r: Option<OperatorState>)
        requires
            old(self).wf(),
        ensures
            final(self).wf(),
            (final(self)@, r) == old(self)@.remembered(now_ms, idle),
    {
        let st = self.ui.operator_state();
        if st == self.saved_state {
            return None;
        }
        let changed = match self.state_changed_ms {
            Some(t) => t,
            None => now_ms,
        };
        if idle && now_ms >= changed && now_ms - changed >= STATE_SAVE_DELAY_MS {
            self.saved_state = st;
            self.state_changed_ms = None;
            Some(st)
        } else {
            self.state_changed_ms = Some(changed);
            None
        }
    }
}

} // verus!
