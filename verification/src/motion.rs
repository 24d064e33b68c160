//! The motion loop's decisions, once per control segment: sample the
//! spindle, apply operator commands, pick the target (gearbox when engaged,
//! jog otherwise), plan the segment's pulses, and keep RPM and the status
//! snapshot for the display. The firmware plays the segment and supplies
//! the samples.
use vstd::prelude::*;
use crate::arith::{abs, tdiv};
use crate::display::Status;
use crate::gearbox::{fits, reducer, Gearbox, GearboxView, Side, Target};
use crate::jog::{cap_at, level_at, level_ok, press_ok, pressed, update_ok, updated, Bounds, Jog, JogConfig, JogState, JogView};
use crate::pitch::JOG_SIZES_MILLI;
use crate::settings::{Settings, Timing};
use crate::spindle::{wrapped_delta, Spindle, SpindleView};
use crate::buffers::step_list;
use crate::stepgen::{Segment, StepGen, StepGenView};
use crate::ui::Command;
use crate::{div_round, Machine};

verus! {

/// Spindle velocity is estimated over this many segments, for prediction.
pub const SPINDLE_VELOCITY_SEGMENTS: usize = 8;

/// Spindle position predicted `ahead_us` into the future from recent samples.
pub struct SpindlePredictor {
    history: [(u64, i64); 8],
    next: usize,
}

/// Model of a [`SpindlePredictor`].
pub ghost struct PredictorView {
    /// (time, counts) samples, oldest at `next`.
    pub history: Seq<(u64, i64)>,
    pub next: int,
}

impl View for SpindlePredictor {
    type V = PredictorView;

    closed spec fn view(&self) -> PredictorView {
        PredictorView { history: self.history@, next: self.next as int }
    }
}

impl PredictorView {
    pub open spec fn wf(self) -> bool {
        self.history.len() == SPINDLE_VELOCITY_SEGMENTS && 0 <= self.next < SPINDLE_VELOCITY_SEGMENTS
    }

    /// Microseconds between the oldest sample and `now_us` (0 if earlier).
    pub open spec fn elapsed(self, now_us: u64) -> int {
        let then_us = self.history[self.next].0;
        if now_us >= then_us { now_us - then_us } else { 0 }
    }

    /// Extrapolation from the oldest sample to `counts` at `now_us`,
    /// `ahead_us` further on; `counts` itself before enough samples.
    pub open spec fn prediction(self, now_us: u64, counts: i64, ahead_us: u64) -> int {
        let (then_us, then_counts) = self.history[self.next];
        let dt = self.elapsed(now_us);
        if then_us == 0 || dt == 0 {
            counts as int
        } else {
            counts + tdiv((counts - then_counts) * (ahead_us as i64), dt as i64 as int)
        }
    }

    /// Prediction arithmetic stays within `i64`.
    pub open spec fn predict_ok(self, now_us: u64, counts: i64, ahead_us: u64) -> bool {
        let (then_us, then_counts) = self.history[self.next];
        let dt = self.elapsed(now_us);
        (then_us != 0 && dt != 0) ==> {
            &&& i64::MIN < counts - then_counts <= i64::MAX
            &&& i64::MIN < (counts - then_counts) * (ahead_us as i64) <= i64::MAX
            &&& (dt as i64) != 0
            &&& !((dt as i64) == -1 && (counts - then_counts) * (ahead_us as i64) == i64::MIN)
            &&& i64::MIN <= self.prediction(now_us, counts, ahead_us) <= i64::MAX
        }
    }

    /// History after recording `(now_us, counts)` in place of the oldest sample.
    pub open spec fn recorded(self, now_us: u64, counts: i64) -> PredictorView {
        PredictorView {
            history: self.history.update(self.next, (now_us, counts)),
            next: (self.next + 1) % (SPINDLE_VELOCITY_SEGMENTS as int),
        }
    }
}

impl SpindlePredictor {
    pub fn new() -> (r: Self)
        ensures
            r@.wf(),
            r@.next == 0,
            forall|i: int| 0 <= i < SPINDLE_VELOCITY_SEGMENTS ==> #[trigger] r@.history[i] == (0u64, 0i64),
    {
        SpindlePredictor { history: [(0u64, 0i64); 8], next: 0 }
    }

    pub fn predict(&mut self, now_us: u64, counts: i64, ahead_us: u64) -> (r: i64)
        requires
            old(self)@.wf(),
            old(self)@.predict_ok(now_us, counts, ahead_us),
        ensures
            final(self)@ == old(self)@.recorded(now_us, counts),
            final(self)@.wf(),
            r == old(self)@.prediction(now_us, counts, ahead_us),
    {
        let (then_us, then_counts) = self.history[self.next];
        self.history[self.next] = (now_us, counts);
        self.next = (self.next + 1) % 8;
        let dt = now_us.saturating_sub(then_us);
        if then_us == 0 || dt == 0 {
            return counts;
        }
        let q = crate::arith::trunc_div(((counts - then_counts) * ahead_us as i64) as i128, dt as i64 as i128);
        counts + q as i64
    }
}

/// Speed level for a jog distance: the index of the jog size it is in mm
/// or inch (the smallest distance is the slowest), else the fastest.
pub open spec fn jog_level(distance_du: i64) -> usize {
    if distance_du == 100 || distance_du == 2_540 {
        0
    } else if distance_du == 1_000 || distance_du == 25_400 {
        1
    } else if distance_du == 10_000 || distance_du == 254_000 {
        2
    } else {
        3
    }
}

fn level_for(distance_du: i64) -> (r: usize)
    ensures
        r == jog_level(distance_du),
{
    if distance_du == 100 || distance_du == 2_540 {
        0
    } else if distance_du == 1_000 || distance_du == 25_400 {
        1
    } else if distance_du == 10_000 || distance_du == 254_000 {
        2
    } else {
        3
    }
}

/// The motion loop's state.
pub struct Motion {
    machine: Machine,
    invert_spindle: bool,
    segment_us: u64,
    rpm_window_us: u64,
    status_every: u32,
    spindle: Spindle,
    predictor: SpindlePredictor,
    gearbox: Gearbox,
    stepgen: StepGen,
    jog: Jog,
    z_zero: i64,
    turn_zero: i64,
    rpm: u32,
    rpm_start: (u64, i64),
    countdown: u32,
}

/// Model of a [`Motion`].
pub ghost struct MotionView {
    pub machine: Machine,
    pub invert_spindle: bool,
    pub segment_us: u64,
    pub rpm_window_us: u64,
    pub status_every: u32,
    pub spindle: SpindleView,
    pub predictor: PredictorView,
    pub gearbox: GearboxView,
    pub stepgen: StepGenView,
    pub jog_cfg: JogConfig,
    pub jog: JogState,
    /// Motor position shown as Z = 0.
    pub z_zero: i64,
    /// Spindle position where turns count from.
    pub turn_zero: i64,
    pub rpm: u32,
    /// Start of the RPM window: time and spindle position.
    pub rpm_start: (u64, i64),
    /// Segments until the next status snapshot.
    pub countdown: u32,
}

impl View for Motion {
    type V = MotionView;

    closed spec fn view(&self) -> MotionView {
        MotionView {
            machine: self.machine,
            invert_spindle: self.invert_spindle,
            segment_us: self.segment_us,
            rpm_window_us: self.rpm_window_us,
            status_every: self.status_every,
            spindle: self.spindle@,
            predictor: self.predictor@,
            gearbox: self.gearbox@,
            stepgen: self.stepgen@,
            jog_cfg: self.jog.config(),
            jog: self.jog.state(),
            z_zero: self.z_zero,
            turn_zero: self.turn_zero,
            rpm: self.rpm,
            rpm_start: self.rpm_start,
            countdown: self.countdown,
        }
    }
}

impl Motion {
    pub closed spec fn wf(&self) -> bool {
        &&& self.spindle.wf()
        &&& self.predictor@.wf()
        &&& self.gearbox.wf()
        &&& self.stepgen.wf()
        &&& self.jog.wf()
    }
}

impl MotionView {
    /// Motor position (steps issued).
    pub open spec fn pos(self) -> i64 {
        self.stepgen.issued as i64
    }

    /// Counter value as the spindle sees it.
    pub open spec fn raw_in(self, raw: i16) -> int {
        if self.invert_spindle { -raw } else { raw as int }
    }

    /// Sampling can be computed within `i64`.
    pub open spec fn sample_ok(self, now_us: u64, raw: i16) -> bool {
        let r = self.raw_in(raw);
        let pos = self.spindle.pos + wrapped_delta(self.spindle.last_raw, r);
        let avg = Spindle::next_avg(self.spindle.avg, pos, self.spindle.backlash);
        &&& i16::MIN <= r <= i16::MAX
        &&& fits(pos)
        &&& fits(self.spindle.avg - self.spindle.backlash)
        &&& fits(pos + self.spindle.backlash)
        &&& 2 * self.segment_us <= u64::MAX
        &&& self.predictor.predict_ok(now_us, avg as i64, (2 * self.segment_us) as u64)
    }

    /// State after sampling the spindle counter, and the spindle position
    /// predicted at the end of the segment being planned (two segments on).
    pub open spec fn sampled(self, now_us: u64, raw: i16) -> (MotionView, int) {
        let r = self.raw_in(raw);
        let pos = self.spindle.pos + wrapped_delta(self.spindle.last_raw, r);
        let avg = Spindle::next_avg(self.spindle.avg, pos, self.spindle.backlash);
        (
            MotionView {
                spindle: SpindleView { last_raw: r, pos, avg, backlash: self.spindle.backlash },
                predictor: self.predictor.recorded(now_us, avg as i64),
                ..self
            },
            self.predictor.prediction(now_us, avg as i64, (2 * self.segment_us) as u64),
        )
    }
}

/// Gearbox after `set_pitch_du(du, spindle)`.
pub open spec fn pitch_set(g: GearboxView, du: i64, spindle: int) -> GearboxView {
    g.pitched(du as int, spindle)
}

/// Jog state after a release at `pos`.
pub open spec fn released(cfg: JogConfig, state: JogState, pos: i64, braking: i64, now: u64) -> JogState {
    match state {
        JogState::Tap { target, dir, pressed_at, level, .. } => JogState::Tap { target, dir, pressed_at, held: false, level },
        JogState::Hold { dir, .. } => JogState::Stop {
            target: (pos + dir * braking) as i64,
            dir,
            cap: cap_at(cfg, state, now),
        },
        s => s,
    }
}

impl MotionView {
    /// Steps to brake from the current speed.
    pub open spec fn braking(self) -> i64 {
        self.stepgen.braking_steps() as i64
    }

    /// Motor steps for a jog of `distance_du`.
    pub open spec fn jog_steps(self, distance_du: i64) -> i64 {
        div_round(distance_du * self.machine.motor_steps, self.machine.screw_du as int) as i64
    }

    /// `cmd` can be applied without overflow.
    pub open spec fn apply_ok(self, cmd: Command, s: i64, now_us: u64) -> bool {
        match cmd {
            Command::SetPitchDu(du) => {
                &&& fits(du * self.gearbox.motor_steps)
                &&& fits(self.gearbox.screw_du * self.gearbox.counts_per_rev)
                &&& self.gearbox.screw_du * self.gearbox.counts_per_rev > 0
            },
            Command::Jog { left, distance_du } => !self.gearbox.engaged ==> {
                &&& self.machine.screw_du != 0
                &&& press_ok(
                    self.jog_cfg,
                    self.jog,
                    if left { 1i64 } else { -1i64 },
                    self.jog_steps(distance_du),
                    self.pos(),
                    self.braking(),
                    now_us,
                )
            },
            Command::JogRelease => self.jog matches JogState::Hold { dir, .. } ==> {
                &&& fits(dir * self.braking())
                &&& fits(self.pos() + dir * self.braking())
                &&& level_ok(self.jog_cfg, self.jog, now_us)
            },
            Command::ToggleStop(side) => self.gearbox.toggle_ok(side, s as int),
            _ => true,
        }
    }

    /// State after the operator command `cmd`, with `s` the predicted spindle.
    pub open spec fn applied(self, cmd: Command, s: i64, now_us: u64) -> MotionView {
        match cmd {
            Command::SetPitchDu(du) => MotionView { gearbox: pitch_set(self.gearbox, du, s as int), ..self },
            Command::Engage => MotionView {
                jog: JogState::Idle,
                gearbox: GearboxView {
                    engaged: true,
                    s_ref: s as int,
                    p_ref: self.pos() as int,
                    target: self.pos() as int,
                    sync_q: None,
                    ..self.gearbox
                },
                turn_zero: self.spindle.pos as i64,
                ..self
            },
            Command::Disengage => MotionView {
                jog: JogState::Idle,
                gearbox: GearboxView { engaged: false, sync_q: None, target: self.pos() as int, ..self.gearbox },
                ..self
            },
            Command::Jog { left, distance_du } => if self.gearbox.engaged {
                self
            } else {
                let level = jog_level(distance_du);
                MotionView {
                    jog: pressed(
                        self.jog_cfg,
                        self.jog,
                        if left { 1i64 } else { -1i64 },
                        self.jog_steps(distance_du),
                        if level < 3 { level } else { 3 },
                        self.pos(),
                        self.braking(),
                        now_us,
                    ),
                    ..self
                }
            },
            Command::JogRelease => MotionView {
                jog: released(self.jog_cfg, self.jog, self.pos(), self.braking(), now_us),
                ..self
            },
            Command::ToggleStop(side) => MotionView {
                gearbox: self.gearbox.toggled(side, s as int, self.pos() as int),
                ..self
            },
            Command::ZeroZ => MotionView { z_zero: self.pos(), ..self },
            Command::ZeroTurns => MotionView { turn_zero: self.spindle.pos as i64, ..self },
        }
    }

    /// Every one of `cmds` can be applied in turn.
    pub open spec fn apply_all_ok(self, cmds: Seq<Command>, s: i64, now_us: u64) -> bool
        decreases cmds.len(),
    {
        cmds.len() > 0 ==> {
            &&& self.apply_ok(cmds[0], s, now_us)
            &&& self.applied(cmds[0], s, now_us).apply_all_ok(cmds.drop_first(), s, now_us)
        }
    }

    /// State after `cmds` in order.
    pub open spec fn applied_all(self, cmds: Seq<Command>, s: i64, now_us: u64) -> MotionView
        decreases cmds.len(),
    {
        if cmds.len() == 0 {
            self
        } else {
            self.applied(cmds[0], s, now_us).applied_all(cmds.drop_first(), s, now_us)
        }
    }

    /// Travel limits from the stops.
    pub open spec fn bounds(self) -> Bounds {
        Bounds {
            lo: match self.gearbox.right { Some(v) => v as i64, None => i64::MIN },
            hi: match self.gearbox.left { Some(v) => v as i64, None => i64::MAX },
        }
    }

    /// Where the motor should be at the end of the segment (the gearbox's
    /// line when engaged, the jog's otherwise), with the state it leaves.
    pub open spec fn aimed(self, s: i64, now_us: u64) -> (MotionView, Target) {
        if self.gearbox.engaged {
            let (g, t) = self.gearbox.update(s as int);
            (MotionView { gearbox: g, stepgen: StepGenView { speed_cap: None, ..self.stepgen }, ..self }, t)
        } else {
            let (j, t, cap) = updated(self.jog_cfg, self.jog, self.pos(), self.bounds(), now_us);
            (MotionView { jog: j, stepgen: StepGenView { speed_cap: cap, ..self.stepgen }, ..self }, t)
        }
    }

    /// The target can be computed and planned for.
    pub open spec fn aim_ok(self, s: i64, now_us: u64) -> bool {
        let (m, t) = self.aimed(s, now_us);
        &&& (self.gearbox.engaged ==> self.gearbox.update_ok(s as int))
        &&& (!self.gearbox.engaged ==> update_ok(self.jog_cfg, self.jog, self.pos(), now_us))
        &&& self.stepgen.cfg.in_range()
        &&& -0x2000_0000 <= t.pos <= 0x2000_0000
        &&& -0x2000_0000_0000_0000 <= self.stepgen.p <= 0x2000_0000_0000_0000
        &&& -0x4000_0000 <= self.stepgen.issued <= 0x4000_0000
    }

    /// RPM over the window, recomputed once the window has passed.
    pub open spec fn counted(self, now_us: u64) -> MotionView {
        if now_us - self.rpm_start.0 >= self.rpm_window_us {
            let counts = abs(self.spindle.pos - self.rpm_start.1);
            let elapsed = now_us - self.rpm_start.0;
            MotionView {
                rpm: (counts * 60_000_000 / (self.machine.counts_per_rev * elapsed)) as u32,
                rpm_start: (now_us, self.spindle.pos as i64),
                ..self
            }
        } else {
            self
        }
    }

    pub open spec fn count_ok(self, now_us: u64) -> bool {
        &&& now_us >= self.rpm_start.0
        &&& now_us - self.rpm_start.0 >= self.rpm_window_us ==> {
            &&& abs(self.spindle.pos - self.rpm_start.1) * 60_000_000 <= u64::MAX
            &&& 0 < self.machine.counts_per_rev * (now_us - self.rpm_start.0) <= u64::MAX
            &&& self.machine.counts_per_rev <= u64::MAX
        }
    }

    /// Snapshot for the display.
    pub open spec fn status(self, now_us: u64) -> Status {
        Status {
            engaged: self.gearbox.engaged,
            syncing: self.gearbox.sync_q is Some,
            jogging: self.jog != JogState::Idle,
            jog: match self.jog {
                JogState::Idle => JogView::Idle,
                JogState::Tap { target, .. } => JogView::Tap {
                    remaining: abs(self.bounds().spec_clamp(target as int) - self.pos()) as i64,
                },
                JogState::Hold { .. } => JogView::Hold {
                    level: (level_at(self.jog_cfg, self.jog, now_us) + 1) as u8,
                },
                JogState::Stop { .. } => JogView::Braking,
            },
            pos: self.pos(),
            z_zero: self.z_zero,
            left_stop: match self.gearbox.left { Some(v) => Some(v as i64), None => None },
            right_stop: match self.gearbox.right { Some(v) => Some(v as i64), None => None },
            rpm: self.rpm,
            turn_counts: (self.spindle.pos - self.turn_zero) as i64,
        }
    }

    pub open spec fn status_ok(self, now_us: u64) -> bool {
        self.countdown == 0 ==> {
            &&& self.status_every >= 1
            &&& level_ok(self.jog_cfg, self.jog, now_us)
            &&& fits(self.spindle.pos - self.turn_zero)
            &&& (self.jog matches JogState::Tap { target, .. } ==> {
                let d = self.bounds().spec_clamp(target as int) - self.pos();
                fits(d) && d != i64::MIN
            })
        }
    }

    /// State after one segment, the segment's DIR level and STEP ticks, and
    /// the status snapshot when one is due.
    pub open spec fn ticked(self, now_us: u64, raw: i16, cmds: Seq<Command>) -> (MotionView, bool, Seq<u32>, Option<Status>) {
        let (m1, s) = self.sampled(now_us, raw);
        let m2 = m1.applied_all(cmds, s as i64, now_us);
        let (m3, t) = m2.aimed(s as i64, now_us);
        let m4 = MotionView { stepgen: m3.stepgen.next(t), ..m3 };
        let m5 = m4.counted(now_us);
        if m5.countdown == 0 {
            (MotionView { countdown: (m5.status_every - 1) as u32, ..m5 }, m3.stepgen.next_positive(t),
                m3.stepgen.next_steps(t), Some(m5.status(now_us)))
        } else {
            (MotionView { countdown: (m5.countdown - 1) as u32, ..m5 }, m3.stepgen.next_positive(t),
                m3.stepgen.next_steps(t), None)
        }
    }

    /// One segment can be computed without overflow or division by zero.
    pub open spec fn tick_ok(self, now_us: u64, raw: i16, cmds: Seq<Command>) -> bool {
        let (m1, s) = self.sampled(now_us, raw);
        let m2 = m1.applied_all(cmds, s as i64, now_us);
        let (m3, t) = m2.aimed(s as i64, now_us);
        let m4 = MotionView { stepgen: m3.stepgen.next(t), ..m3 };
        let m5 = m4.counted(now_us);
        &&& self.sample_ok(now_us, raw)
        &&& fits(s)
        &&& m1.apply_all_ok(cmds, s as i64, now_us)
        &&& m2.aim_ok(s as i64, now_us)
        &&& m4.count_ok(now_us)
        &&& m5.status_ok(now_us)
    }
}

impl Motion {
    /// Loop state at start-up, at time `now_us`.
    pub fn new(settings: &Settings, timing: Timing, segment_us: u64, rpm_window_us: u64, status_every: u32, now_us: u64) -> (r: Self)
        requires
            timing.tick_hz > 0,
            settings.screw_du != 0,
            settings.speed_max >= 1,
        ensures
            r.wf(),
            r@.machine == settings.spec_machine(),
            r@.invert_spindle == settings.invert_spindle,
            r@.segment_us == segment_us,
            r@.rpm_window_us == rpm_window_us,
            r@.status_every == status_every,
            r@.spindle == (SpindleView { last_raw: 0, pos: 0, avg: 0, backlash: settings.encoder_backlash as int }),
            r@.predictor.next == 0,
            forall|i: int| 0 <= i < SPINDLE_VELOCITY_SEGMENTS ==> #[trigger] r@.predictor.history[i] == (0u64, 0i64),
            r@.gearbox.engaged == false,
            r@.stepgen.cfg == settings.spec_stepgen(timing),
            r@.stepgen.p == 0,
            r@.stepgen.v == 0,
            r@.stepgen.issued == 0,
            r@.jog_cfg == settings.spec_jog(),
            r@.jog == JogState::Idle,
            r@.z_zero == 0,
            r@.turn_zero == 0,
            r@.rpm == 0,
            r@.rpm_start == (now_us, 0i64),
            r@.countdown == 0,
    {
        let machine = settings.machine();
        Motion {
            machine,
            invert_spindle: settings.invert_spindle,
            segment_us,
            rpm_window_us,
            status_every,
            spindle: Spindle::new(settings.encoder_backlash as i64),
            predictor: SpindlePredictor::new(),
            gearbox: Gearbox::new(machine),
            stepgen: StepGen::new(settings.stepgen(timing)),
            jog: Jog::new(settings.jog()),
            z_zero: 0,
            turn_zero: 0,
            rpm: 0,
            rpm_start: (now_us, 0),
            countdown: 0,
        }
    }

    fn sample(&mut self, now_us: u64, raw: i16) -> (s: i64)
        requires
            old(self).wf(),
            old(self)@.sample_ok(now_us, raw),
            fits(old(self)@.sampled(now_us, raw).1),
        ensures
            final(self).wf(),
            (final(self)@, s as int) == old(self)@.sampled(now_us, raw),
    {
        let r: i16 = if self.invert_spindle { -raw } else { raw };
        self.spindle.feed(r);
        self.predictor.predict(now_us, self.spindle.avg(), 2 * self.segment_us)
    }

    fn apply(&mut self, cmd: Command, s: i64, now_us: u64)
        requires
            old(self).wf(),
            old(self)@.apply_ok(cmd, s, now_us),
        ensures
            final(self).wf(),
            final(self)@ == old(self)@.applied(cmd, s, now_us),
    {
        match cmd {
            Command::SetPitchDu(du) => self.gearbox.set_pitch_du(du, s),
            Command::Engage => {
                self.jog.cancel();
                self.gearbox.engage(s, self.stepgen.pos());
                self.turn_zero = self.spindle.pos();
            },
            Command::Disengage => {
                self.jog.cancel();
                self.gearbox.disengage(self.stepgen.pos());
            },
            Command::Jog { left, distance_du } => {
                if !self.gearbox.engaged() {
                    let dir: i64 = if left { 1 } else { -1 };
                    let steps = self.machine.du_to_steps(distance_du);
                    let braking = self.stepgen.braking_steps();
                    let pos = self.stepgen.pos();
                    self.jog.press(dir, steps, level_for(distance_du), pos, braking, now_us);
                }
            },
            Command::JogRelease => {
                let braking = self.stepgen.braking_steps();
                let pos = self.stepgen.pos();
                self.jog.release(pos, braking, now_us);
            },
            Command::ToggleStop(side) => {
                let pos = self.stepgen.pos();
                self.gearbox.toggle_stop(side, s, pos);
            },
            Command::ZeroZ => self.z_zero = self.stepgen.pos(),
            Command::ZeroTurns => self.turn_zero = self.spindle.pos(),
        }
    }

    /// The segment's target, from the gearbox when engaged and the jog otherwise.
    fn aim(&mut self, s: i64, now_us: u64) -> (t: Target)
        requires
            old(self).wf(),
            old(self)@.aim_ok(s, now_us),
        ensures
            final(self).wf(),
            (final(self)@, t) == old(self)@.aimed(s, now_us),
    {
        if self.gearbox.engaged() {
            self.stepgen.set_speed_cap(None);
            self.gearbox.update(s)
        } else {
            let bounds = Bounds::new(self.gearbox.stop(Side::Right), self.gearbox.stop(Side::Left));
            let (target, cap) = self.jog.update(self.stepgen.pos(), bounds, now_us);
            self.stepgen.set_speed_cap(cap);
            target
        }
    }

    fn count(&mut self, now_us: u64)
        requires
            old(self).wf(),
            old(self)@.count_ok(now_us),
        ensures
            final(self).wf(),
            final(self)@ == old(self)@.counted(now_us),
    {
        if now_us - self.rpm_start.0 >= self.rpm_window_us {
            let d = self.spindle.pos() - self.rpm_start.1;
            let counts: u64 = if d < 0 { (-(d as i128)) as u64 } else { d as u64 };
            let elapsed = now_us - self.rpm_start.0;
            let cpr = self.machine.counts_per_rev;
            proof {
                assert(cpr > 0 && elapsed > 0) by (nonlinear_arith)
                    requires 0 < cpr * elapsed, elapsed >= 0;
            }
            let per = cpr as u64 * elapsed;
            let q = counts * 60_000_000 / per;
            self.rpm = #[verifier::truncate] (q as u32);
            self.rpm_start = (now_us, self.spindle.pos());
        }
    }

    fn status(&self, now_us: u64) -> (r: Status)
        requires
            self.wf(),
            self@.countdown == 0 ==> self@.status_ok(now_us),
            self@.countdown == 0,
        ensures
            r == self@.status(now_us),
    {
        let bounds = Bounds::new(self.gearbox.stop(Side::Right), self.gearbox.stop(Side::Left));
        Status {
            engaged: self.gearbox.engaged(),
            syncing: self.gearbox.syncing(),
            jogging: self.jog.active(),
            jog: self.jog.view(self.stepgen.pos(), bounds, now_us),
            pos: self.stepgen.pos(),
            z_zero: self.z_zero,
            left_stop: self.gearbox.stop(Side::Left),
            right_stop: self.gearbox.stop(Side::Right),
            rpm: self.rpm,
            turn_counts: self.spindle.pos() - self.turn_zero,
        }
    }

    /// Run one control segment: sample the spindle counter `raw` at
    /// `now_us`, apply `commands`, and plan the segment after the one now
    /// playing. Returns it, with a status snapshot when one is due.
    pub fn tick(&mut self, now_us: u64, raw: i16, commands: &[Command]) -> (r: (Segment, Option<Status>))
        requires
            old(self).wf(),
            old(self)@.tick_ok(now_us, raw, commands@),
        ensures
            final(self).wf(),
            ({
                let (m, positive, steps, status) = old(self)@.ticked(now_us, raw, commands@);
                &&& final(self)@ == m
                &&& r.0.positive == positive
                &&& step_list(r.0.steps) == steps
                &&& r.1 == status
            }),
    {
        let s = self.sample(now_us, raw);
        let ghost m1 = self@;
        assert(commands@.skip(0) =~= commands@);
        let mut i: usize = 0;
        while i < commands.len()
            invariant
                self.wf(),
                0 <= i <= commands@.len(),
                m1.applied_all(commands@, s, now_us) == self@.applied_all(commands@.skip(i as int), s, now_us),
                self@.apply_all_ok(commands@.skip(i as int), s, now_us),
            decreases commands@.len() - i,
        {
            assert(commands@.skip(i as int)[0] == commands@[i as int]);
            assert(commands@.skip(i as int).drop_first() =~= commands@.skip(i + 1));
            self.apply(commands[i], s, now_us);
            i += 1;
        }
        assert(commands@.skip(i as int) =~= Seq::<Command>::empty());
        let target = self.aim(s, now_us);
        let segment = self.stepgen.next_segment(target);
        self.count(now_us);
        let status = if self.countdown == 0 {
            let st = self.status(now_us);
            self.countdown = self.status_every;
            Some(st)
        } else {
            None
        };
        self.countdown = self.countdown - 1;
        (segment, status)
    }
}

} // verus!

verus! {

/// The reported spindle speed is whole revolutions per minute over the
/// window just ended: `counts_per_rev` counts per revolution, `elapsed`
/// microseconds, rounded down (one revolution a minute reads 1). Before the
/// window has passed the reading and the window are left as they are.
pub proof fn lemma_rpm_is_revolutions_per_minute(m: MotionView, now_us: u64)
    requires
        m.machine.counts_per_rev > 0,
        now_us >= m.rpm_start.0,
    ensures
        ({
            let elapsed = now_us - m.rpm_start.0;
            let moved = abs(m.spindle.pos - m.rpm_start.1);
            let per = m.machine.counts_per_rev * elapsed;
            let r = m.counted(now_us).rpm as int;
            &&& elapsed < m.rpm_window_us ==> m.counted(now_us) == m
            &&& (elapsed >= m.rpm_window_us && elapsed > 0 && moved * 60_000_000 < 0x1_0000_0000 * per) ==> {
                &&& r * per <= moved * 60_000_000 < (r + 1) * per
                &&& m.counted(now_us).rpm_start == (now_us, m.spindle.pos as i64)
            }
        }),
{
    let elapsed = now_us - m.rpm_start.0;
    let moved = abs(m.spindle.pos - m.rpm_start.1);
    let per = m.machine.counts_per_rev * elapsed;
    if elapsed >= m.rpm_window_us && elapsed > 0 && moved * 60_000_000 < 0x1_0000_0000 * per {
        assert(per > 0) by (nonlinear_arith) requires m.machine.counts_per_rev > 0, elapsed > 0, per == m.machine.counts_per_rev * elapsed;
        let n = moved * 60_000_000;
        let q = n / per;
        vstd::arithmetic::div_mod::lemma_fundamental_div_mod(n, per);
        assert(0 <= q < 0x1_0000_0000) by (nonlinear_arith)
            requires q == n / per, n >= 0, per > 0, n < 0x1_0000_0000 * per;
        assert(m.counted(now_us).rpm as int == q);
        assert(q * per <= n < (q + 1) * per) by (nonlinear_arith)
            requires n == per * q + n % per, 0 <= n % per < per;
    }
}

} // verus!

verus! {

/// A jog command from rest while disengaged starts a tap towards the left
/// stop (increasing motor position) for Jog L and towards the right stop
/// for Jog R, by the distance converted to motor steps and rounded; while
/// engaged it is ignored.
pub proof fn lemma_jog_command_direction(m: MotionView, left: bool, distance_du: i64, s: i64, now_us: u64)
    requires
        m.jog is Idle,
        distance_du >= 0,
        m.machine.motor_steps > 0,
        m.machine.screw_du > 0,
        fits(distance_du * m.machine.motor_steps),
        m.apply_ok(Command::Jog { left, distance_du }, s, now_us),
    ensures
        m.gearbox.engaged ==> m.applied(Command::Jog { left, distance_du }, s, now_us) == m,
        !m.gearbox.engaged ==> (m.applied(Command::Jog { left, distance_du }, s, now_us).jog matches JogState::Tap {
            target,
            dir,
            held,
            ..
        } && held && (left ==> dir == 1 && target >= m.pos()) && (!left ==> dir == -1 && target <= m.pos())
            && abs(target - m.pos()) == m.jog_steps(distance_du)),
{
    let n = distance_du * m.machine.motor_steps;
    let c = m.machine.screw_du as int;
    assert(n >= 0) by (nonlinear_arith) requires distance_du >= 0, m.machine.motor_steps > 0, n == distance_du * m.machine.motor_steps;
    let q = (2 * abs(n) + abs(c)) / (2 * abs(c));
    assert(q >= 0) by (nonlinear_arith) requires c > 0, n >= 0, q == (2 * abs(n) + abs(c)) / (2 * abs(c));
    assert(q <= n) by (nonlinear_arith) requires c > 0, n >= 0, q == (2 * n + c) / (2 * c);
    assert(crate::div_round(n, c) == q);
    assert(m.jog_steps(distance_du) == q);
}

} // verus!
