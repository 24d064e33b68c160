//! Step pulse scheduling: follows a moving target with a speed and
//! acceleration limit. Polled from a fixed-rate motion tick.
use vstd::prelude::*;
use crate::gearbox::{Target, fits};

verus! {

/// Time the driver needs between a DIR change and the next STEP edge.
pub const DIR_SETUP_US: u64 = 10;

#[derive(Clone, Copy, Debug)]
pub struct StepperConfig {
    /// Speed a move starts from, steps/s.
    pub start_speed: u32,
    /// Speed cap, steps/s.
    pub max_speed: u32,
    /// steps/s^2.
    pub acceleration: u32,
}

#[derive(Clone, Copy, Debug, PartialEq, Eq, Structural)]
pub enum Action {
    Idle,
    /// Set the DIR pin (`true` = positive direction). No step this tick.
    SetDirection(bool),
    /// Emit one STEP pulse.
    Step,
}

pub struct Stepper {
    cfg: StepperConfig,
    /// Motor position in steps, counting pulses already issued.
    pub pos: i64,
    dir: Option<bool>,
    speed: u32,
    speed_cap: Option<u32>,
    rem: u32,
    next_due_us: u64,
    last_step_us: Option<u64>,
}

/// Model of a [`Stepper`].
pub ghost struct StepperView {
    pub start_speed: u32,
    pub max_speed: u32,
    pub acceleration: u32,
    pub pos: int,
    pub dir: Option<bool>,
    pub speed: u32,
    pub speed_cap: Option<u32>,
    /// Remainder of the speed increments, carried between steps.
    pub rem: u32,
    pub next_due_us: u64,
    pub last_step_us: Option<u64>,
}

impl View for Stepper {
    type V = StepperView;

    closed spec fn view(&self) -> StepperView {
        StepperView {
            start_speed: self.cfg.start_speed,
            max_speed: self.cfg.max_speed,
            acceleration: self.cfg.acceleration,
            pos: self.pos as int,
            dir: self.dir,
            speed: self.speed,
            speed_cap: self.speed_cap,
            rem: self.rem,
            next_due_us: self.next_due_us,
            last_step_us: self.last_step_us,
        }
    }
}

pub open spec fn min(a: int, b: int) -> int {
    if a < b { a } else { b }
}

pub open spec fn max(a: int, b: int) -> int {
    if a > b { a } else { b }
}

impl StepperView {
    /// Start speed, lowered by the speed cap if that is slower.
    pub open spec fn start_speed_now(self) -> int {
        match self.speed_cap {
            Some(c) => max(1, min(c as int, self.start_speed as int)),
            None => self.start_speed as int,
        }
    }

    /// Top speed, lowered by the speed cap.
    pub open spec fn top_speed(self) -> int {
        let m = match self.speed_cap {
            Some(c) => min(c as int, self.max_speed as int),
            None => self.max_speed as int,
        };
        max(m, 1)
    }

    /// Steps needed to decelerate from the current speed to start speed:
    /// `ceil((v^2 - v0^2) / (2a))`, or 0 below start speed.
    pub open spec fn braking_steps(self) -> int {
        let v = self.speed as int;
        let v0 = self.start_speed_now();
        let e = if v * v > v0 * v0 { v * v - v0 * v0 } else { 0 };
        let d = 2 * self.acceleration;
        (e + d - 1) / d
    }

    /// Speed after an idle gap: a long gap since the last pulse means the
    /// motor really slowed down.
    pub open spec fn gap_speed(self, now: u64) -> int {
        let interval = 1_000_000int / (self.speed as int);
        match self.last_step_us {
            Some(last) => {
                let gap = now - last;
                if gap > 2 * interval {
                    let gs = max(1_000_000int / gap, 1);
                    max(min(self.speed as int, gs), self.start_speed_now())
                } else {
                    self.speed as int
                }
            },
            None => self.speed as int,
        }
    }

    /// State and action after `poll(now, target)`.
    pub open spec fn poll(self, now: u64, target: Target) -> (StepperView, Action) {
        let pending = target.pos - self.pos;
        let positive = pending > 0;
        if pending == 0 {
            (self, Action::Idle)
        } else if self.dir != Some(positive) {
            (
                StepperView {
                    dir: Some(positive),
                    speed: self.start_speed_now() as u32,
                    next_due_us: (now + DIR_SETUP_US) as u64,
                    ..self
                },
                Action::SetDirection(positive),
            )
        } else if now < self.next_due_us {
            (self, Action::Idle)
        } else {
            let speed = self.gap_speed(now);
            let remaining = crate::arith::abs(pending) - 1;
            let braking = target.is_final && remaining * 2 * self.acceleration <= speed * speed;
            let total = self.acceleration + self.rem;
            let dv = total / speed;
            let new_speed = if braking {
                max(max(speed - dv, 0), self.start_speed_now())
            } else {
                min(speed + dv, self.top_speed())
            };
            let interval = 1_000_000int / new_speed;
            let base = if now - self.next_due_us >= interval { now as int } else { self.next_due_us as int };
            (
                StepperView {
                    pos: self.pos + if positive { 1int } else { -1int },
                    last_step_us: Some(now),
                    speed: new_speed as u32,
                    rem: (total % speed) as u32,
                    next_due_us: (base + interval) as u64,
                    ..self
                },
                Action::Step,
            )
        }
    }

    /// `poll(now, target)` runs without arithmetic overflow.
    pub open spec fn poll_ok(self, now: u64, target: Target) -> bool {
        let pending = target.pos - self.pos;
        let positive = pending > 0;
        &&& fits(pending)
        &&& (pending != 0 && self.dir != Some(positive) ==> now + DIR_SETUP_US <= u64::MAX)
        &&& (pending != 0 && self.dir == Some(positive) && now >= self.next_due_us) ==> {
            let speed = self.gap_speed(now);
            let remaining = crate::arith::abs(pending) - 1;
            let braking = target.is_final && remaining * 2 * self.acceleration <= speed * speed;
            let total = self.acceleration + self.rem;
            let dv = total / speed;
            let new_speed = if braking {
                max(max(speed - dv, 0), self.start_speed_now())
            } else {
                min(speed + dv, self.top_speed())
            };
            &&& (self.last_step_us matches Some(last) ==> last <= now)
            &&& (target.is_final ==> remaining * 2 * self.acceleration <= u64::MAX)
            &&& total <= u32::MAX
            &&& (!braking ==> speed + dv <= u32::MAX)
            &&& now + 1_000_000int / new_speed <= u64::MAX
        }
    }
}

/// A poll never steps past the target nor away from it; it steps only once
/// DIR points at the target and the step is due, and a DIR change makes the
/// next step wait at least the driver's DIR setup time. A speed within the
/// top speed (max speed, lowered by the cap) stays within it, never drops to
/// 0 and never exceeds the max speed.
pub proof fn lemma_poll_safe(s: StepperView, now: u64, target: Target)
    requires
        s.start_speed >= 1,
        s.max_speed >= s.start_speed,
        1 <= s.speed <= s.top_speed(),
        s.poll_ok(now, target),
    ensures
        ({
            let (s2, a) = s.poll(now, target);
            let t = target.pos as int;
            &&& (s.pos <= t ==> s.pos <= s2.pos <= t)
            &&& (t <= s.pos ==> t <= s2.pos <= s.pos)
            &&& (a is Step ==> s.dir == Some(t > s.pos) && now >= s.next_due_us && s2.pos != s.pos)
            &&& (a !is Step ==> s2.pos == s.pos)
            &&& (a matches Action::SetDirection(d) ==> d == (t > s.pos) && s2.dir == Some(d) && s2.next_due_us == now + DIR_SETUP_US)
            &&& (t == s.pos ==> a is Idle)
            &&& 1 <= s2.speed <= s2.top_speed()
            &&& s2.top_speed() == s.top_speed()
            &&& s2.speed <= s.max_speed
        }),
{
    assert(1 <= s.start_speed_now() <= s.top_speed());
    let pending = target.pos - s.pos;
    if pending != 0 && s.dir == Some(pending > 0) && now >= s.next_due_us {
        let speed = s.gap_speed(now);
        assert(1 <= speed <= s.top_speed());
        let total = s.acceleration + s.rem;
        let dv = total / speed;
        assert(dv >= 0) by (nonlinear_arith) requires total >= 0, speed >= 1, dv == total / speed;
    }
}

impl Stepper {
    /// Speeds divide time: they are never 0, and the carried remainder stays
    /// below the speed.
    pub open spec fn wf(&self) -> bool {
        &&& self@.start_speed >= 1
        &&& self@.max_speed >= self@.start_speed
        &&& self@.speed >= 1
    }

    pub fn new(cfg: StepperConfig) -> (r: Self)
        ensures
            r.wf(),
            r@ == (StepperView {
                start_speed: max(cfg.start_speed as int, 1) as u32,
                max_speed: max(cfg.max_speed as int, max(cfg.start_speed as int, 1)) as u32,
                acceleration: cfg.acceleration,
                pos: 0,
                dir: None,
                speed: max(cfg.start_speed as int, 1) as u32,
                speed_cap: None,
                rem: 0,
                next_due_us: 0,
                last_step_us: None,
            }),
    {
        let start_speed = if cfg.start_speed > 1 { cfg.start_speed } else { 1 };
        let max_speed = if cfg.max_speed > start_speed { cfg.max_speed } else { start_speed };
        let cfg = StepperConfig { start_speed, max_speed, acceleration: cfg.acceleration };
        Stepper {
            cfg,
            pos: 0,
            dir: None,
            speed: start_speed,
            speed_cap: None,
            rem: 0,
            next_due_us: 0,
            last_step_us: None,
        }
    }

    pub fn speed(&self) -> (r: u32)
        ensures
            r == self@.speed,
    {
        self.speed
    }

    /// Temporarily limit the top speed below `max_speed` (used by jogging).
    pub fn set_speed_cap(&mut self, cap: Option<u32>)
        requires
            old(self).wf(),
        ensures
            final(self).wf(),
            final(self)@ == (StepperView { speed_cap: cap, ..old(self)@ }),
    {
        self.speed_cap = cap;
    }

    /// Start speed, lowered by the speed cap if that is slower.
    fn start_speed(&self) -> (r: u32)
        requires
            self.wf(),
        ensures
            r == self@.start_speed_now(),
            r >= 1,
    {
        match self.speed_cap {
            Some(c) => {
                if c < 1 {
                    1
                } else if c > self.cfg.start_speed {
                    self.cfg.start_speed
                } else {
                    c
                }
            },
            None => self.cfg.start_speed,
        }
    }

    /// Steps needed to decelerate from the current speed to start speed.
    pub fn braking_steps(&self) -> (r: i64)
        requires
            self.wf(),
            self@.acceleration > 0,
        ensures
            r == self@.braking_steps(),
    {
        let v = self.speed as u64;
        let v0 = self.start_speed() as u64;
        proof {
            assert(v * v <= 0xFFFF_FFFE_0000_0001) by (nonlinear_arith) requires v <= 0xFFFF_FFFF;
            assert(v0 * v0 <= 0xFFFF_FFFE_0000_0001) by (nonlinear_arith) requires v0 <= 0xFFFF_FFFF;
        }
        let e = if v * v > v0 * v0 { v * v - v0 * v0 } else { 0 };
        let d = 2 * self.cfg.acceleration as u64;
        let q = e / d + if e % d != 0 { 1 } else { 0 };
        proof {
            let ei = e as int;
            let di = d as int;
            vstd::arithmetic::div_mod::lemma_fundamental_div_mod(ei, di);
            assert((ei + di - 1) / di == ei / di + if ei % di != 0 { 1int } else { 0 }) by (nonlinear_arith)
                requires di >= 2, ei >= 0, ei == di * (ei / di) + ei % di, 0 <= ei % di < di;
            assert(q <= 0x7FFF_FFFF_0000_0001) by (nonlinear_arith)
                requires q as int == ei / di + if ei % di != 0 { 1int } else { 0 }, di >= 2,
                    ei <= 0xFFFF_FFFE_0000_0001;
        }
        q as i64
    }

    pub fn poll(&mut self, now_us: u64, target: Target) -> (r: Action)
        requires
            old(self).wf(),
            old(self)@.poll_ok(now_us, target),
        ensures
            final(self).wf(),
            (final(self)@, r) == old(self)@.poll(now_us, target),
    {
        let pending = target.pos - self.pos;
        if pending == 0 {
            return Action::Idle;
        }
        let positive = pending > 0;
        if self.dir != Some(positive) {
            self.dir = Some(positive);
            self.speed = self.start_speed();
            self.next_due_us = now_us + DIR_SETUP_US;
            return Action::SetDirection(positive);
        }
        if now_us < self.next_due_us {
            return Action::Idle;
        }

        // A long gap since the last pulse means the motor really slowed down.
        let interval = 1_000_000 / self.speed as u64;
        if let Some(last) = self.last_step_us {
            let gap = now_us - last;
            if gap > 2 * interval {
                let g = 1_000_000 / gap;
                let gap_speed: u32 = if g > 1 { g as u32 } else { 1 };
                let s = if self.speed < gap_speed { self.speed } else { gap_speed };
                let s0 = self.start_speed();
                self.speed = if s > s0 { s } else { s0 };
            }
        }

        self.pos = self.pos + if positive { 1 } else { -1 };
        self.last_step_us = Some(now_us);

        // v dv = a dx: per step the speed changes by a / v.
        let remaining: u64 = (if pending < 0 { -(pending as i128) } else { pending as i128 }) as u64 - 1;
        let v = self.speed as u64;
        proof {
            assert(v * v <= 0xFFFF_FFFE_0000_0001) by (nonlinear_arith) requires v <= 0xFFFF_FFFF;
        }
        let braking = target.is_final && remaining * 2 * self.cfg.acceleration as u64 <= v * v;
        let total = self.cfg.acceleration + self.rem;
        let dv = total / self.speed;
        self.rem = total % self.speed;
        self.speed = if braking {
            let s = if self.speed > dv { self.speed - dv } else { 0 };
            let s0 = self.start_speed();
            if s > s0 { s } else { s0 }
        } else {
            let cap = match self.speed_cap {
                Some(c) => if c < self.cfg.max_speed { c } else { self.cfg.max_speed },
                None => self.cfg.max_speed,
            };
            let max = if cap > 1 { cap } else { 1 };
            let s = self.speed + dv;
            if s < max { s } else { max }
        };

        // Schedule from the ideal due time so tick quantisation doesn't
        // lower the average rate; restart the schedule after idling.
        let interval = 1_000_000 / self.speed as u64;
        let base = if now_us - self.next_due_us >= interval { now_us } else { self.next_due_us };
        self.next_due_us = base + interval;
        Action::Step
    }
}

} // verus!
