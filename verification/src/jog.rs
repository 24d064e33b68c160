//! Left/right jogging while the half-nut is disengaged.
//!
//! - The selected jog distance also picks a speed level (index into `speeds`):
//!   the smallest distance is the slowest.
//! - A tap moves exactly the selected jog distance at that level's speed.
//!   Further taps in the same direction add to the move.
//! - Holding the button past `hold_after_us` switches to continuous motion,
//!   starting at the same level and stepping up one level every
//!   `level_every_us` until the fastest.
//! - Releasing a hold brakes to a stop. Pressing the other direction while
//!   moving also brakes.
//!
//! Stops limit jogging the same way they limit the gearbox.
use vstd::prelude::*;
use crate::gearbox::{Target, fits};

verus! {

pub const JOG_LEVELS: usize = 4;

/// Distance a hold aims ahead, in steps; it re-aims every tick so this just
/// has to exceed any braking distance.
pub const HOLD_LOOKAHEAD: i64 = 0x100_0000_0000;

#[derive(Clone, Copy, Debug)]
pub struct JogConfig {
    pub hold_after_us: u64,
    pub level_every_us: u64,
    /// Speed limit per level in steps/s, slowest first.
    pub speeds: [u32; 4],
}

/// What a jog is doing internally.
#[derive(Clone, Copy, Debug, PartialEq, Eq, Structural)]
pub enum JogState {
    Idle,
    Tap { target: i64, dir: i64, pressed_at: u64, held: bool, level: usize },
    Hold { dir: i64, since: u64, base: usize },
    Stop { target: i64, dir: i64, cap: u32 },
}

/// What the jog is doing, for the display.
#[derive(Clone, Copy, Debug, PartialEq, Eq, Structural)]
pub enum JogView {
    Idle,
    /// Tap move under way; steps still to travel (after stops).
    Tap { remaining: i64 },
    /// Continuous hold; speed level 1..=JOG_LEVELS.
    Hold { level: u8 },
    /// Braking after a release or an opposite press.
    Braking,
}

impl Default for JogView {
    fn default() -> (r: Self)
        ensures
            r == JogView::Idle,
    {
        JogView::Idle
    }
}

/// Lower/upper position limits (right stop, left stop).
#[derive(Clone, Copy, Debug)]
pub struct Bounds {
    pub lo: i64,
    pub hi: i64,
}

impl Bounds {
    pub fn new(right: Option<i64>, left: Option<i64>) -> (r: Self)
        ensures
            r.lo == (match right { Some(v) => v, None => i64::MIN }),
            r.hi == (match left { Some(v) => v, None => i64::MAX }),
    {
        let lo = match right {
            Some(v) => v,
            None => i64::MIN,
        };
        let hi = match left {
            Some(v) => v,
            None => i64::MAX,
        };
        Bounds { lo, hi }
    }

    /// `pos` limited to `hi`, then raised to `lo`.
    pub open spec fn spec_clamp(self, pos: int) -> int {
        let p = if pos < self.hi { pos } else { self.hi as int };
        if p > self.lo { p } else { self.lo as int }
    }

    fn clamp(&self, pos: i64) -> (r: i64)
        ensures
            r == self.spec_clamp(pos as int),
    {
        let p = if pos < self.hi { pos } else { self.hi };
        if p > self.lo { p } else { self.lo }
    }
}

/// `a + b` limited to the `i64` range.
pub open spec fn saturating(v: int) -> int {
    if v > i64::MAX { i64::MAX as int } else if v < i64::MIN { i64::MIN as int } else { v }
}

fn saturating_add(a: i64, b: i64) -> (r: i64)
    ensures
        r == saturating(a + b),
{
    match a.checked_add(b) {
        Some(v) => v,
        None => if b > 0 { i64::MAX } else { i64::MIN },
    }
}

pub struct Jog {
    cfg: JogConfig,
    state: JogState,
}

/// Speed level of a jog in `state` at time `now` (0 = slowest).
pub open spec fn level_at(cfg: JogConfig, state: JogState, now: u64) -> int {
    match state {
        JogState::Tap { level, .. } => level as int,
        JogState::Hold { since, base, .. } => {
            let every = if cfg.level_every_us > 1 { cfg.level_every_us as int } else { 1 };
            let l = base + (now - since) / every;
            if l < 3 { l } else { 3 }
        },
        _ => 3,
    }
}

/// `level_at` can be computed without overflow.
pub open spec fn level_ok(cfg: JogConfig, state: JogState, now: u64) -> bool {
    match state {
        JogState::Hold { since, base, .. } => {
            let every = if cfg.level_every_us > 1 { cfg.level_every_us as int } else { 1 };
            &&& since <= now
            &&& (now - since) / every <= usize::MAX
            &&& base + (now - since) / every <= usize::MAX
        },
        _ => true,
    }
}

/// Speed cap of a jog in `state` at time `now`.
pub open spec fn cap_at(cfg: JogConfig, state: JogState, now: u64) -> u32 {
    cfg.speeds[level_at(cfg, state, now)]
}

/// A tap towards `dir` by `distance` from `start`.
pub open spec fn tap_from(start: int, dir: i64, distance: i64, now: u64, level: usize) -> JogState {
    JogState::Tap { target: (start + dir * distance) as i64, dir, pressed_at: now, held: true, level }
}

/// State after a press; `level` already limited to the fastest level.
pub open spec fn pressed(
    cfg: JogConfig,
    state: JogState,
    dir: i64,
    distance: i64,
    level: usize,
    pos: i64,
    braking: i64,
    now: u64,
) -> JogState {
    match state {
        JogState::Idle => tap_from(pos as int, dir, distance, now, level),
        JogState::Tap { target, dir: d, .. } if d == dir => tap_from(target as int, dir, distance, now, level),
        JogState::Stop { target, dir: d, .. } if d == dir => tap_from(target as int, dir, distance, now, level),
        JogState::Tap { dir: d, .. } | JogState::Hold { dir: d, .. } | JogState::Stop { dir: d, .. } => {
            JogState::Stop { target: (pos + d * braking) as i64, dir: d, cap: cap_at(cfg, state, now) }
        },
    }
}

/// A tap from rest aims exactly its distance away, and a further tap in the
/// same direction before the move ends adds its distance to the same target.
pub proof fn lemma_taps_add_up(
    cfg: JogConfig,
    dir: i64,
    first: i64,
    second: i64,
    levels: (usize, usize),
    pos: (i64, i64),
    braking: (i64, i64),
    now: (u64, u64),
)
    requires
        press_ok(cfg, JogState::Idle, dir, first, pos.0, braking.0, now.0),
        press_ok(cfg, pressed(cfg, JogState::Idle, dir, first, levels.0, pos.0, braking.0, now.0), dir, second, pos.1, braking.1, now.1),
    ensures
        pressed(cfg, JogState::Idle, dir, first, levels.0, pos.0, braking.0, now.0) matches JogState::Tap { target, .. }
            && target == pos.0 + dir * first,
        pressed(
            cfg,
            pressed(cfg, JogState::Idle, dir, first, levels.0, pos.0, braking.0, now.0),
            dir,
            second,
            levels.1,
            pos.1,
            braking.1,
            now.1,
        ) matches JogState::Tap { target, .. } && target == pos.0 + dir * first + dir * second,
{
}

/// `pressed` can be computed without overflow.
pub open spec fn press_ok(
    cfg: JogConfig,
    state: JogState,
    dir: i64,
    distance: i64,
    pos: i64,
    braking: i64,
    now: u64,
) -> bool {
    match state {
        JogState::Idle => fits(dir * distance) && fits(pos + dir * distance),
        JogState::Tap { target, dir: d, .. } if d == dir => fits(dir * distance) && fits(target + dir * distance),
        JogState::Stop { target, dir: d, .. } if d == dir => fits(dir * distance) && fits(target + dir * distance),
        JogState::Tap { dir: d, .. } | JogState::Hold { dir: d, .. } | JogState::Stop { dir: d, .. } => {
            fits(d * braking) && fits(pos + d * braking) && level_ok(cfg, state, now)
        },
    }
}

/// State after a tap that is still held turns into a hold, if it has been
/// held long enough.
pub open spec fn promoted(cfg: JogConfig, state: JogState, now: u64) -> JogState {
    match state {
        JogState::Tap { dir, pressed_at, held: true, level, .. } =>
            if now - pressed_at >= cfg.hold_after_us {
                JogState::Hold { dir, since: now, base: level }
            } else {
                state
            },
        _ => state,
    }
}

/// `c` is one of the configured jog speeds.
pub open spec fn is_speed(cfg: JogConfig, c: u32) -> bool {
    c == cfg.speeds[0] || c == cfg.speeds[1] || c == cfg.speeds[2] || c == cfg.speeds[3]
}

/// Speed levels index `speeds`, and a braking jog's cap is one of them.
pub open spec fn state_ok(cfg: JogConfig, state: JogState) -> bool {
    match state {
        JogState::Tap { level, .. } => level < JOG_LEVELS,
        JogState::Hold { base, .. } => base < JOG_LEVELS,
        JogState::Stop { cap, .. } => is_speed(cfg, cap),
        JogState::Idle => true,
    }
}

/// Jog state and (target, speed cap) after an `update`.
pub open spec fn updated(cfg: JogConfig, state: JogState, pos: i64, bounds: Bounds, now: u64)
    -> (JogState, Target, Option<u32>) {
    let s = promoted(cfg, state, now);
    match s {
        JogState::Idle => (s, Target { pos, frac: 0, is_final: true }, None),
        JogState::Tap { target, held, .. } => {
            let t = bounds.spec_clamp(target as int) as i64;
            let s2 = if !held && pos == t { JogState::Idle } else { s };
            (s2, Target { pos: t, frac: 0, is_final: true }, Some(cap_at(cfg, s2, now)))
        },
        JogState::Hold { dir, .. } => {
            let t = bounds.spec_clamp(saturating(pos + dir * HOLD_LOOKAHEAD)) as i64;
            (s, Target { pos: t, frac: 0, is_final: true }, Some(cap_at(cfg, s, now)))
        },
        JogState::Stop { target, cap, .. } => {
            let t = bounds.spec_clamp(target as int) as i64;
            let s2 = if pos == t { JogState::Idle } else { s };
            (s2, Target { pos: t, frac: 0, is_final: true }, Some(cap))
        },
    }
}

/// A hold runs the carriage its own way: while holding towards `dir` the
/// target lies on that side of the carriage, unless the carriage has reached
/// the stop on that side.
pub proof fn lemma_hold_runs_its_way(cfg: JogConfig, state: JogState, pos: i64, bounds: Bounds, now: u64)
    requires
        bounds.lo <= pos <= bounds.hi,
        update_ok(cfg, state, pos, now),
    ensures
        promoted(cfg, state, now) matches JogState::Hold { dir, .. } ==> {
            let t = updated(cfg, state, pos, bounds, now).1.pos;
            &&& dir > 0 ==> (t > pos || t == bounds.hi)
            &&& dir < 0 ==> (t < pos || t == bounds.lo)
        },
{
    if let JogState::Hold { dir, .. } = promoted(cfg, state, now) {
        if dir > 0 {
            assert(dir * HOLD_LOOKAHEAD >= HOLD_LOOKAHEAD) by (nonlinear_arith) requires dir >= 1;
        } else if dir < 0 {
            assert(dir * HOLD_LOOKAHEAD <= -HOLD_LOOKAHEAD) by (nonlinear_arith) requires dir <= -1;
        }
    }
}

/// Stops limit jogging: while a jog is under way its target never lies past
/// a stop; with no jog the target is where the carriage is.
pub proof fn lemma_jog_target_within_stops(cfg: JogConfig, state: JogState, pos: i64, bounds: Bounds, now: u64)
    requires
        bounds.lo <= bounds.hi,
    ensures
        ({
            let t = updated(cfg, state, pos, bounds, now).1.pos;
            &&& promoted(cfg, state, now) is Idle ==> t == pos
            &&& promoted(cfg, state, now) !is Idle ==> bounds.lo <= t <= bounds.hi
        }),
{
}

/// What an update asks of the motor: a whole, final target; no speed cap
/// exactly when no jog is under way (the target is then where the carriage
/// is); otherwise a cap that is one of the configured jog speeds. The jog
/// stays well formed.
pub proof fn lemma_jog_update_cap(cfg: JogConfig, state: JogState, pos: i64, bounds: Bounds, now: u64)
    requires
        state_ok(cfg, state),
        update_ok(cfg, state, pos, now),
    ensures
        ({
            let (next, t, cap) = updated(cfg, state, pos, bounds, now);
            &&& t.frac == 0 && t.is_final
            &&& cap is None <==> state is Idle
            &&& state is Idle ==> t.pos == pos && next is Idle
            &&& (cap matches Some(c) ==> is_speed(cfg, c))
            &&& state_ok(cfg, next)
        }),
{
    let s = promoted(cfg, state, now);
    lemma_cap_is_speed(cfg, s, now);
    let (next, t, cap) = updated(cfg, state, pos, bounds, now);
    if next is Idle {
    } else {
        lemma_cap_is_speed(cfg, next, now);
    }
}

/// The cap at any level is one of the configured speeds.
proof fn lemma_cap_is_speed(cfg: JogConfig, state: JogState, now: u64)
    requires
        state_ok(cfg, state),
        level_ok(cfg, state, now),
    ensures
        0 <= level_at(cfg, state, now) < 4,
        is_speed(cfg, cap_at(cfg, state, now)),
{
    let l = level_at(cfg, state, now);
    if let JogState::Hold { since, base, .. } = state {
        let every = if cfg.level_every_us > 1 { cfg.level_every_us as int } else { 1 };
        assert((now - since) / every >= 0) by (nonlinear_arith)
            requires now - since >= 0, every >= 1;
    }
    assert(l == 0 || l == 1 || l == 2 || l == 3);
}

/// `updated` can be computed without overflow.
pub open spec fn update_ok(cfg: JogConfig, state: JogState, pos: i64, now: u64) -> bool {
    let s = promoted(cfg, state, now);
    &&& (state matches JogState::Tap { pressed_at, held: true, .. } ==> pressed_at <= now)
    &&& level_ok(cfg, s, now)
    &&& (s matches JogState::Hold { dir, .. } ==> fits(dir * HOLD_LOOKAHEAD))
}

impl Jog {
    /// The state machine this jog is in.
    pub closed spec fn state(&self) -> JogState {
        self.state
    }

    pub closed spec fn config(&self) -> JogConfig {
        self.cfg
    }

    /// Speed levels index `speeds`, and a braking jog's cap is one of them.
    pub open spec fn wf(&self) -> bool {
        state_ok(self.config(), self.state())
    }

    pub fn new(cfg: JogConfig) -> (r: Self)
        ensures
            r.wf(),
            r.state() == JogState::Idle,
            r.config() == cfg,
    {
        Jog { cfg, state: JogState::Idle }
    }

    pub fn active(&self) -> (r: bool)
        ensures
            r == (self.state() != JogState::Idle),
    {
        !matches!(self.state, JogState::Idle)
    }

    pub fn view(&self, pos: i64, bounds: Bounds, now: u64) -> (r: JogView)
        requires
            self.wf(),
            level_ok(self.config(), self.state(), now),
            self.state() matches JogState::Tap { target, .. } ==> {
                let d = bounds.spec_clamp(target as int) - pos;
                fits(d) && d != i64::MIN
            },
        ensures
            r == match self.state() {
                JogState::Idle => JogView::Idle,
                JogState::Tap { target, .. } => JogView::Tap {
                    remaining: crate::arith::abs(bounds.spec_clamp(target as int) - pos) as i64,
                },
                JogState::Hold { .. } => JogView::Hold {
                    level: (level_at(self.config(), self.state(), now) + 1) as u8,
                },
                JogState::Stop { .. } => JogView::Braking,
            },
    {
        match self.state {
            JogState::Idle => JogView::Idle,
            JogState::Tap { target, .. } => {
                let d = bounds.clamp(target) - pos;
                JogView::Tap { remaining: if d < 0 { -d } else { d } }
            },
            JogState::Hold { .. } => JogView::Hold { level: self.level_now(now) as u8 + 1 },
            JogState::Stop { .. } => JogView::Braking,
        }
    }

    /// Button pressed. `dir` is +1 (left) or -1 (right); `distance` in steps;
    /// `level` is the speed level that goes with the selected distance.
    pub fn press(&mut self, dir: i64, distance: i64, level: usize, pos: i64, braking: i64, now: u64)
        requires
            old(self).wf(),
            press_ok(old(self).config(), old(self).state(), dir, distance, pos, braking, now),
        ensures
            final(self).wf(),
            final(self).config() == old(self).config(),
            final(self).state() == pressed(
                old(self).config(),
                old(self).state(),
                dir,
                distance,
                if level < 3 { level } else { 3 },
                pos,
                braking,
                now,
            ),
    {
        let level = if level < JOG_LEVELS - 1 { level } else { JOG_LEVELS - 1 };
        self.state = match self.state {
            JogState::Idle => JogState::Tap { target: pos + dir * distance, dir, pressed_at: now, held: true, level },
            JogState::Tap { target, dir: d, .. } if d == dir => {
                JogState::Tap { target: target + dir * distance, dir, pressed_at: now, held: true, level }
            },
            JogState::Stop { target, dir: d, .. } if d == dir => {
                JogState::Tap { target: target + dir * distance, dir, pressed_at: now, held: true, level }
            },
            // Opposite direction or already holding: brake.
            JogState::Tap { dir: d, .. } | JogState::Hold { dir: d, .. } | JogState::Stop { dir: d, .. } => {
                JogState::Stop { target: pos + d * braking, dir: d, cap: self.cap_now(now) }
            },
        };
    }

    /// Button released.
    pub fn release(&mut self, pos: i64, braking: i64, now: u64)
        requires
            old(self).wf(),
            old(self).state() matches JogState::Hold { dir, .. } ==> fits(dir * braking) && fits(pos + dir * braking)
                && level_ok(old(self).config(), old(self).state(), now),
        ensures
            final(self).wf(),
            final(self).config() == old(self).config(),
            final(self).state() == match old(self).state() {
                JogState::Tap { target, dir, pressed_at, level, .. } =>
                    JogState::Tap { target, dir, pressed_at, held: false, level },
                JogState::Hold { dir, .. } => JogState::Stop {
                    target: (pos + dir * braking) as i64,
                    dir,
                    cap: cap_at(old(self).config(), old(self).state(), now),
                },
                s => s,
            },
    {
        match self.state {
            JogState::Tap { target, dir, pressed_at, level, .. } => {
                self.state = JogState::Tap { target, dir, pressed_at, held: false, level };
            },
            JogState::Hold { dir, .. } => {
                self.state = JogState::Stop { target: pos + dir * braking, dir, cap: self.cap_now(now) };
            },
            _ => {},
        }
    }

    /// Stop immediately (disengage / emergency).
    pub fn cancel(&mut self)
        ensures
            final(self).wf(),
            final(self).config() == old(self).config(),
            final(self).state() == JogState::Idle,
    {
        self.state = JogState::Idle;
    }

    /// Target and speed cap for this tick.
    pub fn update(&mut self, pos: i64, bounds: Bounds, now: u64) -> (r: (Target, Option<u32>))
        requires
            old(self).wf(),
            update_ok(old(self).config(), old(self).state(), pos, now),
        ensures
            final(self).wf(),
            final(self).config() == old(self).config(),
            (final(self).state(), r.0, r.1) == updated(old(self).config(), old(self).state(), pos, bounds, now),
    {
        if let JogState::Tap { dir, pressed_at, held: true, level, .. } = self.state {
            if now - pressed_at >= self.cfg.hold_after_us {
                self.state = JogState::Hold { dir, since: now, base: level };
            }
        }
        match self.state {
            JogState::Idle => (Target::whole(pos, true), None),
            JogState::Tap { target, held, .. } => {
                let t = bounds.clamp(target);
                if !held && pos == t {
                    self.state = JogState::Idle;
                }
                (Target::whole(t, true), Some(self.cap_now(now)))
            },
            JogState::Hold { dir, .. } => {
                let t = bounds.clamp(saturating_add(pos, dir * HOLD_LOOKAHEAD));
                (Target::whole(t, true), Some(self.cap_now(now)))
            },
            JogState::Stop { target, cap, .. } => {
                let t = bounds.clamp(target);
                if pos == t {
                    self.state = JogState::Idle;
                }
                (Target::whole(t, true), Some(cap))
            },
        }
    }

    fn level_now(&self, now: u64) -> (r: usize)
        requires
            self.wf(),
            level_ok(self.config(), self.state(), now),
        ensures
            r == level_at(self.config(), self.state(), now),
            r < JOG_LEVELS,
    {
        match self.state {
            JogState::Tap { level, .. } => level,
            JogState::Hold { since, base, .. } => {
                let every = if self.cfg.level_every_us > 1 { self.cfg.level_every_us } else { 1 };
                let steps = ((now - since) / every) as usize;
                let l = base + steps;
                if l < JOG_LEVELS - 1 { l } else { JOG_LEVELS - 1 }
            },
            _ => JOG_LEVELS - 1,
        }
    }

    fn cap_now(&self, now: u64) -> (r: u32)
        requires
            self.wf(),
            level_ok(self.config(), self.state(), now),
        ensures
            r == cap_at(self.config(), self.state(), now),
    {
        self.cfg.speeds[self.level_now(now)]
    }
}

} // verus!
