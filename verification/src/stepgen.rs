//! Segment step generator.
//!
//! The control loop runs once per segment (e.g. 250 µs). Each call to
//! [`StepGen::next_segment`] takes the position the motor should reach at the
//! end of the segment and returns the exact tick of every STEP pulse inside
//! it, for a hardware pulse sequencer (RMT) to play back.
//!
//! Within a segment the velocity is constant, so pulses are evenly spaced.
//! Between segments the velocity changes by at most `acceleration`, except
//! that anything up to `start_speed` may be jumped to directly.
//!
//! Tracking law: velocity = target velocity (feed-forward, from how far a
//! moving target advanced since the last segment) + a correction that closes
//! the remaining error in one segment but no faster than it could still be
//! braked away (`√(v₀² + 2·a·|error|)`). This follows a moving target
//! without lag, and brakes into a final target without overshoot.
//!
//! Position is fixed point: 32 fractional bits of a step. A step is emitted
//! when the commanded position crosses the half-way point between two
//! steps, so the motor position is always `round(commanded)`.
use vstd::prelude::*;
use crate::arith::{abs, tdiv};
use crate::buffers::{step_list, item_list, steps_new, steps_push, steps_slice, items_new, items_push};
use crate::gearbox::Target;

verus! {

/// One step in fixed point (32 fractional bits).
pub const ONE: i64 = 4294967296;

/// Half a step in fixed point.
pub const HALF: i64 = 2147483648;

/// Largest `r` with `r * r <= n`.
pub open spec fn floor_sqrt(n: nat) -> nat
    decreases n,
{
    if n == 0 {
        0
    } else {
        let r = floor_sqrt((n - 1) as nat);
        if (r + 1) * (r + 1) <= n { (r + 1) as nat } else { r }
    }
}

pub proof fn lemma_floor_sqrt(n: nat)
    ensures
        floor_sqrt(n) * floor_sqrt(n) <= n,
        n < (floor_sqrt(n) + 1) * (floor_sqrt(n) + 1),
    decreases n,
{
    if n > 0 {
        lemma_floor_sqrt((n - 1) as nat);
        let r = floor_sqrt((n - 1) as nat);
        assert(r * r <= n - 1);
        assert(n - 1 < (r + 1) * (r + 1));
        let f = floor_sqrt(n);
        if (r + 1) * (r + 1) > n {
            assert(f == r);
            assert(f * f <= n);
            assert(n < (f + 1) * (f + 1));
        } else {
            assert(f == r + 1);
            assert((r + 1) * (r + 1) == n);
            assert(f * f <= n);
            assert(n < (f + 1) * (f + 1)) by (nonlinear_arith)
                requires (r + 1) * (r + 1) == n, r >= 0, f == r + 1;
        }
    } else {
        let f = floor_sqrt(n);
        assert(f == 0);
        assert(n < (f + 1) * (f + 1)) by (nonlinear_arith) requires f == 0, n == 0;
    }
}

/// The square root bracket determines the root.
pub proof fn lemma_floor_sqrt_unique(n: nat, r: nat)
    requires
        r * r <= n,
        n < (r + 1) * (r + 1),
    ensures
        floor_sqrt(n) == r,
{
    lemma_floor_sqrt(n);
    let f = floor_sqrt(n);
    if f < r {
        assert((f + 1) * (f + 1) <= r * r) by (nonlinear_arith) requires f + 1 <= r, f >= 0;
    }
    if f > r {
        assert((r + 1) * (r + 1) <= f * f) by (nonlinear_arith) requires r + 1 <= f, r >= 0;
    }
}

/// Newton's step from any `x >= 1` never falls below the root.
proof fn lemma_newton_above(n: nat, x: nat)
    requires
        x >= 1,
    ensures
        (x + n / x) / 2 >= floor_sqrt(n),
{
    lemma_floor_sqrt(n);
    let r = floor_sqrt(n);
    let q = n / x;
    vstd::arithmetic::div_mod::lemma_fundamental_div_mod(n as int, x as int);
    assert(x * (q + 1) == x * q + x) by (nonlinear_arith);
    assert(x * (q + 1) > n);
    assert(x * (x + q + 1) > 2 * r * x) by (nonlinear_arith)
        requires x * (q + 1) > n, r * r <= n, x >= 1;
    assert(x + q + 1 > 2 * r) by (nonlinear_arith)
        requires x * (x + q + 1) > 2 * r * x, x >= 1;
}

/// Newton's step from above the root goes down.
proof fn lemma_newton_descends(n: nat, x: nat)
    requires
        x >= 1,
        x * x > n,
    ensures
        (x + n / x) / 2 < x,
{
    let q = n / x;
    vstd::arithmetic::div_mod::lemma_fundamental_div_mod(n as int, x as int);
    assert(q < x) by (nonlinear_arith)
        requires n == x * q + n % x, n % x >= 0, x * x > n, x >= 1;
}

/// Integer square root (Newton's method).
pub fn isqrt(n: u128) -> (r: u128)
    ensures
        r == floor_sqrt(n as nat),
{
    if n < 2 {
        proof {
            assert(n * n <= n && n < (n + 1) * (n + 1)) by (nonlinear_arith) requires n < 2;
            lemma_floor_sqrt_unique(n as nat, n as nat);
        }
        return n;
    }
    let mut x = n;
    let mut y = n / 2 + n % 2;
    proof {
        lemma_newton_above(n as nat, n as nat);
        assert(n / n == 1) by (nonlinear_arith) requires n >= 2;
    }
    while y < x
        invariant
            n >= 2,
            1 <= x <= n,
            x == n || x <= n / 2 + n % 2,
            x >= floor_sqrt(n as nat),
            y >= floor_sqrt(n as nat),
            y == (x + n / x) / 2,
        decreases x,
    {
        let ghost x_old = x;
        x = y;
        proof {
            if x_old == n {
                assert(n / n == 1) by (nonlinear_arith) requires n >= 2;
            }
            lemma_floor_sqrt(n as nat);
            let r = floor_sqrt(n as nat);
            assert(r >= 1) by (nonlinear_arith)
                requires n >= 2, r * r <= n, n < (r + 1) * (r + 1), r >= 0;
            assert(x >= 1);
            lemma_newton_above(n as nat, x as nat);
            let q = n / x;
            vstd::arithmetic::div_mod::lemma_fundamental_div_mod(n as int, x as int);
            if x * x > n {
                lemma_newton_descends(n as nat, x as nat);
                assert(q < x) by (nonlinear_arith)
                    requires n == x * q + n % x, n % x >= 0, x * x > n, x >= 1;
            } else {
                assert(x <= r) by (nonlinear_arith)
                    requires x * x <= n, n < (r + 1) * (r + 1), x >= 1, r >= 1;
                assert(x * x <= 0x1_0000_0000_0000_0000_0000_0000_0000_0000);
                assert(x <= 0x1_0000_0000_0000_0000) by (nonlinear_arith)
                    requires x * x <= 0x1_0000_0000_0000_0000_0000_0000_0000_0000, x >= 1;
                assert(q <= x + 2) by (nonlinear_arith)
                    requires n == x * q + n % x, n % x >= 0, n < (x + 1) * (x + 1), x >= 1, q >= 0;
            }
        }
        y = (x + n / x) / 2;
    }
    proof {
        lemma_floor_sqrt(n as nat);
        let r = floor_sqrt(n as nat);
        if x * x > n {
            lemma_newton_descends(n as nat, x as nat);
        }
        assert(n < (x + 1) * (x + 1)) by (nonlinear_arith)
            requires x >= r, r >= 0, n < (r + 1) * (r + 1);
        lemma_floor_sqrt_unique(n as nat, x as nat);
    }
    x
}

/// One segment of pulses to play.
pub struct Segment {
    /// DIR level to set before playing (`true` = positive).
    pub positive: bool,
    /// Rising-edge tick of each STEP pulse, from segment start, ascending.
    pub steps: heapless::Vec<u32, 32>,
}

/// One pulse-sequencer item: `idle` ticks inactive, then `pulse` ticks active.
/// The last item of a segment has `pulse == 0` and marks the end.
#[derive(Clone, Copy, Debug, PartialEq, Eq, Structural)]
pub struct Item {
    pub idle: u16,
    pub pulse: u16,
}

/// Capacity of a segment; the firmware checks the configuration against it.
pub const MAX_STEPS_PER_SEGMENT: usize = 32;

#[derive(Clone, Copy, Debug)]
pub struct StepGenConfig {
    /// Pulse sequencer clock, ticks per second.
    pub tick_hz: u32,
    /// Segment length in ticks.
    pub segment_ticks: u32,
    /// STEP pulse width in ticks.
    pub pulse_ticks: u32,
    /// Minimum time between a DIR change and the next STEP edge, in ticks.
    pub dir_setup_ticks: u32,
    /// Speed that can be started from or stopped at instantly, steps/s.
    pub start_speed: u32,
    /// Speed limit, steps/s.
    pub max_speed: u32,
    /// steps/s².
    pub acceleration: u32,
}

impl StepGenConfig {
    pub open spec fn spec_pulse_limited_speed(self) -> int {
        (self.tick_hz as int) / (self.pulse_ticks + 1)
    }

    pub open spec fn spec_max_steps_per_segment(self) -> int {
        let n = self.max_speed * self.segment_ticks;
        (n + self.tick_hz - 1) / (self.tick_hz as int) + 1
    }

    /// Highest speed the pulse timing allows: one pulse plus one idle tick per step.
    pub fn pulse_limited_speed(&self) -> (r: u32)
        requires
            self.pulse_ticks < u32::MAX,
        ensures
            r == self.spec_pulse_limited_speed(),
    {
        self.tick_hz / (self.pulse_ticks + 1)
    }

    /// Largest number of steps `max_speed` can produce in one segment.
    pub fn max_steps_per_segment(&self) -> (r: u64)
        requires
            self.tick_hz > 0,
        ensures
            r == self.spec_max_steps_per_segment(),
    {
        let n = crate::arith::mul_u32_wide(self.max_speed, self.segment_ticks);
        let d = self.tick_hz as u64;
        proof {
            vstd::arithmetic::div_mod::lemma_fundamental_div_mod(n as int, d as int);
            assert((n + d - 1) / (d as int) == n / d + if n % d != 0 { 1int } else { 0 }) by (nonlinear_arith)
                requires d >= 1, n >= 0, n == d * (n / d) + n % d, 0 <= n % d < d;
        }
        n / d + if n % d != 0 { 1 } else { 0 } + 1
    }
}


impl StepGenConfig {
    /// Ranges within which [`StepGen::next_segment`] works in 64-bit fixed
    /// point: a clock of at least 2 Hz, at most 32 steps per segment at top
    /// speed, and a speed change of at most one step per tick per segment.
    pub open spec fn in_range(self) -> bool {
        &&& self.tick_hz >= 2
        &&& self.segment_ticks >= 1
        &&& self.max_speed * self.segment_ticks <= 32 * self.tick_hz
        &&& self.acceleration * self.segment_ticks <= self.tick_hz * self.tick_hz
    }

    /// `steps_per_s` as fixed point steps per tick.
    pub open spec fn velocity(self, steps_per_s: int) -> int {
        steps_per_s * ONE / (self.tick_hz as int)
    }

    /// Velocity change allowed per segment, fixed point steps per tick; at least 1.
    pub open spec fn dv_per_segment(self) -> int {
        let dv = (self.acceleration * self.segment_ticks * ONE / (self.tick_hz * self.tick_hz)) as i64;
        if dv < 1 { 1 } else { dv as int }
    }
}

/// Position held to the nearest step: `round(p)`, halves up.
pub open spec fn round_fp(p: int) -> int {
    (p + HALF) / (ONE as int)
}

pub open spec fn clamp(x: int, lo: int, hi: int) -> int {
    if x < lo { lo } else if x > hi { hi } else { x }
}

pub open spec fn min(a: int, b: int) -> int {
    if a < b { a } else { b }
}

pub open spec fn max(a: int, b: int) -> int {
    if a > b { a } else { b }
}

pub struct StepGen {
    cfg: StepGenConfig,
    /// Commanded position, fixed point steps.
    p: i64,
    /// Velocity, fixed point steps per tick.
    v: i64,
    /// Steps emitted so far (the motor position).
    issued: i64,
    positive: bool,
    speed_cap: Option<u32>,
    dv_per_segment: i64,
    /// Previous non-final target, fixed point, for feed-forward.
    prev_target: Option<i64>,
}

/// Model of a [`StepGen`].
pub ghost struct StepGenView {
    pub cfg: StepGenConfig,
    /// Commanded position, fixed point steps.
    pub p: int,
    /// Velocity, fixed point steps per tick.
    pub v: int,
    /// Steps emitted so far (the motor position).
    pub issued: int,
    /// DIR level of the last emitted steps.
    pub positive: bool,
    pub speed_cap: Option<u32>,
    pub dv: int,
    /// Previous non-final target, fixed point.
    pub prev_target: Option<int>,
}

impl View for StepGen {
    type V = StepGenView;

    closed spec fn view(&self) -> StepGenView {
        StepGenView {
            cfg: self.cfg,
            p: self.p as int,
            v: self.v as int,
            issued: self.issued as int,
            positive: self.positive,
            speed_cap: self.speed_cap,
            dv: self.dv_per_segment as int,
            prev_target: match self.prev_target {
                Some(t) => Some(t as int),
                None => None,
            },
        }
    }
}

impl StepGenView {
    /// Current speed, steps/s, rounded down.
    pub open spec fn speed(self) -> int {
        abs(self.v) * self.cfg.tick_hz / (ONE as int)
    }

    /// Steps needed to brake from the current speed to start speed.
    pub open spec fn braking_steps(self) -> int {
        let v = self.speed();
        let v0 = self.cfg.start_speed as int;
        let e = if v * v > v0 * v0 { v * v - v0 * v0 } else { 0 };
        let d = 2 * (if self.cfg.acceleration > 0 { self.cfg.acceleration as int } else { 1 });
        (e + d - 1) / d
    }
}

impl StepGen {
    /// Invariant: the velocity never exceeds the configured maximum speed.
    pub open spec fn wf(&self) -> bool {
        let s = self@;
        &&& s.cfg.tick_hz > 0
        &&& s.dv == s.cfg.dv_per_segment()
        &&& abs(s.v) * s.cfg.tick_hz <= s.cfg.max_speed * ONE
        &&& (s.prev_target matches Some(t) ==> abs(t) <= 0x2000_0001_0000_0000)
    }

    pub fn new(cfg: StepGenConfig) -> (r: Self)
        requires
            cfg.tick_hz > 0,
        ensures
            r.wf(),
            r@ == (StepGenView {
                cfg,
                p: 0,
                v: 0,
                issued: 0,
                positive: true,
                speed_cap: None,
                dv: cfg.dv_per_segment(),
                prev_target: None,
            }),
    {
        let n = crate::arith::mul_u32_wide(cfg.acceleration, cfg.segment_ticks) as u128 * 4294967296u128;
        let d = crate::arith::mul_u32_wide(cfg.tick_hz, cfg.tick_hz) as u128;
        proof {
            assert(d >= 1) by (nonlinear_arith) requires d == cfg.tick_hz * cfg.tick_hz, cfg.tick_hz >= 1;
        }
        let q = n / d;
        let dv: i64 = #[verifier::truncate] (q as i64);
        let r = Self {
            cfg,
            p: 0,
            v: 0,
            issued: 0,
            positive: true,
            speed_cap: None,
            dv_per_segment: if dv < 1 { 1 } else { dv },
            prev_target: None,
        };
        assert(abs(r@.v) * r@.cfg.tick_hz <= r@.cfg.max_speed * ONE) by (nonlinear_arith)
            requires r@.v == 0, r@.cfg.max_speed >= 0;
        r
    }

    /// Motor position in steps (pulses issued).
    pub fn pos(&self) -> (r: i64)
        ensures
            r == self@.issued,
    {
        self.issued
    }

    /// Current speed, steps/s; never above the maximum.
    pub fn speed(&self) -> (r: u32)
        requires
            self.wf(),
        ensures
            r == self@.speed(),
            r <= self@.cfg.max_speed,
    {
        let a: u128 = if self.v < 0 { (-(self.v as i128)) as u128 } else { self.v as u128 };
        proof {
            let s = self@;
            assert(a * s.cfg.tick_hz / (ONE as int) <= s.cfg.max_speed) by (nonlinear_arith)
                requires a * s.cfg.tick_hz <= s.cfg.max_speed * ONE, a >= 0, s.cfg.tick_hz >= 1;
            assert(a * s.cfg.tick_hz <= 0x1_0000_0000_0000_0000 * 0x1_0000_0000) by (nonlinear_arith)
                requires a * s.cfg.tick_hz <= s.cfg.max_speed * ONE, s.cfg.max_speed <= 0xFFFF_FFFF;
        }
        (a * self.cfg.tick_hz as u128 / 4294967296u128) as u32
    }

    /// Temporarily limit the speed (used by jogging). May be below start speed.
    pub fn set_speed_cap(&mut self, cap: Option<u32>)
        ensures
            final(self)@ == (StepGenView { speed_cap: cap, ..old(self)@ }),
    {
        self.speed_cap = cap;
    }

    /// Steps needed to brake from the current speed.
    pub fn braking_steps(&self) -> (r: i64)
        requires
            self.wf(),
        ensures
            r == self@.braking_steps(),
    {
        let v2 = crate::arith::mul_u32_wide(self.speed(), self.speed());
        let v02 = crate::arith::mul_u32_wide(self.cfg.start_speed, self.cfg.start_speed);
        let e = if v2 > v02 { v2 - v02 } else { 0 };
        let d: u64 = 2 * if self.cfg.acceleration > 0 { self.cfg.acceleration as u64 } else { 1 };
        let q = e / d + if e % d != 0 { 1 } else { 0 };
        proof {
            vstd::arithmetic::div_mod::lemma_fundamental_div_mod(e as int, d as int);
            assert((e + d - 1) / (d as int) == e / d + if e % d != 0 { 1int } else { 0 }) by (nonlinear_arith)
                requires d >= 1, e >= 0, e == d * (e / d) + e % d, 0 <= e % d < d;
            assert(e / d <= e / 2) by (nonlinear_arith) requires d >= 2, e >= 0;
        }
        q as i64
    }

    /// `steps_per_s` as fixed point steps per tick.
    fn to_v(&self, steps_per_s: u32) -> (r: i64)
        requires
            self.cfg.tick_hz >= 2,
        ensures
            r == self.cfg.velocity(steps_per_s as int),
            0 <= r < 0x8000_0000_0000_0000,
    {
        let n = steps_per_s as u128 * 4294967296u128;
        let q = n / self.cfg.tick_hz as u128;
        proof {
            assert(q <= n / 2) by (nonlinear_arith) requires q == n / (self.cfg.tick_hz as u128), self.cfg.tick_hz >= 2, n >= 0;
        }
        q as i64
    }
}

/// A target as a fixed point position.
pub open spec fn target_fp(t: Target) -> int {
    t.pos * ONE + t.frac
}

/// First tick at which a position moving from `p0` at `v` per tick reaches
/// the half-way point past step `issued` in direction `up`; 0 when it is
/// already past it.
pub open spec fn crossing_tick(issued: int, up: bool, p0: int, v: int) -> int {
    let boundary = if up { issued * ONE + HALF } else { issued * ONE - HALF };
    let dist = boundary - p0;
    if v != 0 && ((dist > 0) == (v > 0)) { (abs(dist) + abs(v) - 1) / abs(v) } else { 0 }
}

/// Pulse ticks for up to `n` further steps from `issued`, each at its
/// crossing tick but no earlier than `gap` after the previous one (the first
/// no earlier than `earliest`), stopping at the first that would come after
/// `latest` or once `room` pulses are placed.
pub open spec fn pulse_ticks(
    issued: int,
    up: bool,
    p0: int,
    v: int,
    earliest: int,
    latest: int,
    gap: int,
    n: nat,
    room: nat,
) -> Seq<u32>
    decreases n,
{
    if n == 0 || room == 0 {
        Seq::empty()
    } else {
        let at = max(crossing_tick(issued, up, p0, v), earliest);
        if at > latest {
            Seq::empty()
        } else {
            seq![at as u32] + pulse_ticks(
                if up { issued + 1 } else { issued - 1 },
                up,
                p0,
                v,
                at + gap,
                latest,
                gap,
                (n - 1) as nat,
                (room - 1) as nat,
            )
        }
    }
}

impl StepGenView {
    /// Velocity limit: max speed, lowered by the speed cap (but at least 1).
    pub open spec fn top_velocity(self) -> int {
        let vm = self.cfg.velocity(self.cfg.max_speed as int);
        match self.speed_cap {
            Some(c) => min(vm, max(self.cfg.velocity(c as int), 1)),
            None => vm,
        }
    }

    /// How fast a moving target advances per tick, from the previous target.
    pub open spec fn feed_forward(self, t: Target) -> int {
        let vm = self.top_velocity();
        if !t.is_final && self.prev_target is Some {
            clamp(tdiv(target_fp(t) - self.prev_target->0, self.cfg.segment_ticks as int), -vm, vm)
        } else {
            0
        }
    }

    /// Highest velocity from which the remaining error `e` can still be braked
    /// away: `sqrt(v0^2 + 2 a |e|)`, with `v0` the start speed for a final target.
    pub open spec fn brake_velocity(self, e: int, is_final: bool) -> int {
        let v0 = if is_final { self.cfg.start_speed as int } else { 0 };
        let n = v0 * v0 * ONE + 2 * self.cfg.acceleration * abs(e);
        let sps = (floor_sqrt(n as nat) / 65536) as int;
        self.cfg.velocity(min(sps, 0xFFFF_FFFF))
    }

    /// Velocity wanted for this segment: feed-forward plus the correction.
    pub open spec fn desired_velocity(self, t: Target) -> int {
        let seg = self.cfg.segment_ticks as int;
        let vm = self.top_velocity();
        let v_ff = self.feed_forward(t);
        let e = target_fp(t) - (self.p + v_ff * seg);
        let brake = self.brake_velocity(e, t.is_final);
        clamp(v_ff + clamp(tdiv(e, seg), -brake, brake), -vm, vm)
    }

    /// Reachable velocity closest to `desired`: within one segment's change
    /// of the current one, or anything up to start speed.
    pub open spec fn reachable_velocity(self, desired: int) -> int {
        let vm = self.top_velocity();
        let v_start = min(self.cfg.velocity(self.cfg.start_speed as int), vm);
        let accel = clamp(desired, self.v - self.dv, self.v + self.dv);
        let jump = clamp(desired, -v_start, v_start);
        if abs(accel - desired) <= abs(jump - desired) { accel } else { jump }
    }

    /// Commanded position and velocity at the end of the next segment; a final
    /// target is never overshot.
    pub open spec fn planned(self, t: Target) -> (int, int) {
        let seg = self.cfg.segment_ticks as int;
        let tgt = target_fp(t);
        let v = self.reachable_velocity(self.desired_velocity(t));
        let err = tgt - self.p;
        let p1 = self.p + v * seg;
        if t.is_final && (err > 0 && p1 > tgt || err < 0 && p1 < tgt) {
            (tgt, tdiv(err, seg))
        } else {
            (p1, v)
        }
    }

    /// Steps to emit this segment: towards the rounded commanded position.
    pub open spec fn wanted(self, t: Target) -> int {
        round_fp(self.planned(t).0) - self.issued
    }

    /// DIR level of the next segment.
    pub open spec fn next_positive(self, t: Target) -> bool {
        let want = self.wanted(t);
        if want == 0 { self.positive } else { want > 0 }
    }

    /// STEP pulse ticks emitted for `want` steps from the commanded position
    /// `p0` at velocity `v`.
    pub open spec fn emitted(self, p0: int, v: int, want: int) -> Seq<u32> {
        if want == 0 {
            Seq::empty()
        } else {
            let up = want > 0;
            let earliest = if up != self.positive {
                max(1, self.cfg.dir_setup_ticks as int)
            } else {
                1
            };
            pulse_ticks(
                self.issued,
                up,
                p0,
                v,
                earliest,
                self.cfg.segment_ticks - self.cfg.pulse_ticks - 1,
                self.cfg.pulse_ticks + 1,
                abs(want) as nat,
                32,
            )
        }
    }

    /// STEP pulse ticks of the next segment.
    pub open spec fn next_steps(self, t: Target) -> Seq<u32> {
        self.emitted(self.p, self.planned(t).1, self.wanted(t))
    }

    /// State after planning and emitting the next segment.
    pub open spec fn next(self, t: Target) -> StepGenView {
        let n = self.next_steps(t).len() as int;
        let up = self.wanted(t) > 0;
        StepGenView {
            p: self.planned(t).0,
            v: self.planned(t).1,
            issued: if up { self.issued + n } else { self.issued - n },
            positive: self.next_positive(t),
            prev_target: if t.is_final { None } else { Some(target_fp(t)) },
            ..self
        }
    }
}

/// `x` limited to `lo..=hi`.
fn clamp_i64(x: i64, lo: i64, hi: i64) -> (r: i64)
    requires
        lo <= hi,
    ensures
        r == clamp(x as int, lo as int, hi as int),
{
    if x < lo { lo } else if x > hi { hi } else { x }
}

fn abs_i64(x: i64) -> (r: i64)
    requires
        x > i64::MIN,
    ensures
        r == abs(x as int),
{
    if x < 0 { -x } else { x }
}

/// Rust's `/` by a positive divisor.
fn div_i64(a: i64, b: i64) -> (r: i64)
    requires
        b > 0,
    ensures
        r == tdiv(a as int, b as int),
        abs(r as int) <= abs(a as int),
{
    proof {
        crate::arith::lemma_tdiv_abs_le(a as int, b as int);
    }
    crate::arith::trunc_div(a as i128, b as i128) as i64
}

/// Fixed point velocities stay below 2^37 within [`StepGenConfig::in_range`].
proof fn lemma_velocity_bound(cfg: StepGenConfig, x: int)
    requires
        cfg.in_range(),
        0 <= x <= cfg.velocity(cfg.max_speed as int),
    ensures
        x * cfg.tick_hz <= cfg.max_speed * ONE,
        x <= 0x20_0000_0000,
        x * cfg.segment_ticks <= 0x20_0000_0000,
{
    let t = cfg.tick_hz as int;
    let g = cfg.segment_ticks as int;
    let m = cfg.max_speed as int;
    let q = m * ONE / t;
    vstd::arithmetic::div_mod::lemma_fundamental_div_mod(m * ONE, t);
    assert(q * t <= m * ONE) by (nonlinear_arith)
        requires m * ONE == t * q + (m * ONE) % t, (m * ONE) % t >= 0;
    assert(x * t <= m * ONE) by (nonlinear_arith)
        requires x <= q, q * t <= m * ONE, t >= 2;
    assert(x * t * g <= m * g * ONE) by (nonlinear_arith)
        requires x * t <= m * ONE, g >= 1, x >= 0;
    assert(m * g * ONE <= 32 * t * ONE) by (nonlinear_arith)
        requires m * g <= 32 * t;
    assert(x * g <= 32 * ONE) by (nonlinear_arith)
        requires x * t * g <= 32 * t * ONE, t >= 2, x >= 0, g >= 1;
    assert(x <= x * g) by (nonlinear_arith) requires x >= 0, g >= 1;
}

/// The configured top velocity, rounded down, respects the speed limit.
proof fn lemma_top_velocity(cfg: StepGenConfig)
    requires
        cfg.in_range(),
    ensures
        cfg.velocity(cfg.max_speed as int) * cfg.tick_hz <= cfg.max_speed * ONE,
        0 <= cfg.velocity(cfg.max_speed as int),
        cfg.velocity(cfg.max_speed as int) <= 0x20_0000_0000,
        cfg.velocity(cfg.max_speed as int) * cfg.segment_ticks <= 0x20_0000_0000,
        forall|v: int| abs(v) * cfg.tick_hz <= cfg.max_speed * ONE ==> abs(v) <= cfg.velocity(cfg.max_speed as int),
{
    let t = cfg.tick_hz as int;
    let m = cfg.max_speed as int;
    let q = m * ONE / t;
    vstd::arithmetic::div_mod::lemma_fundamental_div_mod(m * ONE, t);
    assert(q * t <= m * ONE) by (nonlinear_arith)
        requires m * ONE == t * q + (m * ONE) % t, (m * ONE) % t >= 0;
    assert(q >= 0) by (nonlinear_arith) requires q == m * ONE / t, m >= 0, t >= 2;
    lemma_velocity_bound(cfg, q);
    assert forall|v: int| abs(v) * cfg.tick_hz <= cfg.max_speed * ONE implies abs(v) <= q by {
        if abs(v) > q {
            assert(abs(v) * t >= (q + 1) * t) by (nonlinear_arith) requires abs(v) >= q + 1, t >= 2;
            assert((q + 1) * t > m * ONE) by (nonlinear_arith)
                requires m * ONE == t * q + (m * ONE) % t, (m * ONE) % t < t;
        }
    }
}

impl StepGen {
    /// Velocity limit for this segment, with the speed cap applied.
    fn top_velocity(&self) -> (r: i64)
        requires
            self.cfg.in_range(),
        ensures
            r == self@.top_velocity(),
            0 <= r <= self.cfg.velocity(self.cfg.max_speed as int),
    {
        let mut v_max = self.to_v(self.cfg.max_speed);
        if let Some(cap) = self.speed_cap {
            let c = self.to_v(cap);
            let c = if c > 1 { c } else { 1 };
            if c < v_max {
                v_max = c;
            }
        }
        v_max
    }

    /// See [`StepGenView::brake_velocity`].
    fn brake_velocity(&self, e: i64, is_final: bool) -> (r: i64)
        requires
            self.cfg.in_range(),
            e > i64::MIN,
        ensures
            r == self@.brake_velocity(e as int, is_final),
            0 <= r,
    {
        let v0: u128 = if is_final { self.cfg.start_speed as u128 } else { 0 };
        let ae = abs_i64(e) as u128;
        proof {
            assert(self.cfg.acceleration * ae <= 0xFFFF_FFFF * 0x8000_0000_0000_0000) by (nonlinear_arith)
                requires self.cfg.acceleration <= 0xFFFF_FFFF, ae <= 0x8000_0000_0000_0000, ae >= 0;
            assert(v0 * v0 <= 0xFFFF_FFFF * 0xFFFF_FFFF) by (nonlinear_arith) requires v0 <= 0xFFFF_FFFF;
        }
        let two_a_d = 2 * (self.cfg.acceleration as u128 * ae);
        let n = v0 * v0 * 4294967296 + two_a_d;
        proof {
            let ghost v0s: int = if is_final { self.cfg.start_speed as int } else { 0 };
            assert(two_a_d == 2 * self.cfg.acceleration * abs(e as int)) by (nonlinear_arith)
                requires two_a_d == 2 * (self.cfg.acceleration * ae), ae == abs(e as int);
            assert(n == v0s * v0s * ONE + 2 * self.cfg.acceleration * abs(e as int));
        }
        let sps = isqrt(n) / 65536;
        let sps: u32 = if sps < 0xFFFF_FFFF { sps as u32 } else { 0xFFFF_FFFF };
        self.to_v(sps)
    }

    /// See [`StepGenView::reachable_velocity`].
    fn reachable_velocity(&self, desired: i64, vm: i64) -> (r: i64)
        requires
            self.wf(),
            self.cfg.in_range(),
            vm == self@.top_velocity(),
            0 <= vm <= self.cfg.velocity(self.cfg.max_speed as int),
            -vm <= desired <= vm,
        ensures
            r == self@.reachable_velocity(desired as int),
            abs(r as int) <= self.cfg.velocity(self.cfg.max_speed as int),
    {
        proof {
            lemma_top_velocity(self.cfg);
            let cfg = self.cfg;
            let t = cfg.tick_hz as int;
            let g = cfg.segment_ticks as int;
            assert(cfg.acceleration * g * ONE <= t * t * ONE) by (nonlinear_arith)
                requires cfg.acceleration * g <= t * t;
            assert(cfg.acceleration * g * ONE / (t * t) <= ONE) by (nonlinear_arith)
                requires cfg.acceleration * g * ONE <= t * t * ONE, t >= 2, cfg.acceleration * g * ONE >= 0;
            assert(cfg.acceleration * g * ONE / (t * t) >= 0) by (nonlinear_arith)
                requires t >= 2, cfg.acceleration * g * ONE >= 0;
        }
        let vs = self.to_v(self.cfg.start_speed);
        let v_start = if vs < vm { vs } else { vm };
        let accel = clamp_i64(desired, self.v - self.dv_per_segment, self.v + self.dv_per_segment);
        let jump = clamp_i64(desired, -v_start, v_start);
        if abs_i64(accel - desired) <= abs_i64(jump - desired) { accel } else { jump }
    }
}

impl StepGen {
    /// Emit the steps owed (`want`, signed) as pulses of one segment, each at
    /// the tick the commanded position (from `p0` at the current velocity)
    /// crosses the next half step; what doesn't fit is carried over.
    #[verifier::loop_isolation(false)]
    #[verifier::rlimit(60)]
    fn emit(&mut self, p0: i64, want: i64) -> (seg: Segment)
        requires
            old(self).wf(),
            old(self).cfg.in_range(),
            -0x2000_0010_0000_0000 <= p0 <= 0x2000_0010_0000_0000,
            abs(old(self)@.v) <= 0x20_0000_0000,
            -0x4000_0000 <= old(self)@.issued <= 0x4000_0000,
            -0x8000_0000 <= want <= 0x8000_0000,
        ensures
            step_list(seg.steps) == old(self)@.emitted(p0 as int, old(self)@.v, want as int),
            seg.positive == (if want == 0 { old(self)@.positive } else { want > 0 }),
            final(self)@ == (StepGenView {
                issued: if want > 0 {
                    old(self)@.issued + step_list(seg.steps).len()
                } else {
                    old(self)@.issued - step_list(seg.steps).len()
                },
                positive: if want == 0 { old(self)@.positive } else { want > 0 },
                ..old(self)@
            }),
    {
        let mut seg = Segment { positive: self.positive, steps: steps_new() };
        if want == 0 {
            return seg;
        }
        let ghost s0 = self@;
        let positive = want > 0;
        let mut earliest: i64 = 1;
        if positive != self.positive {
            self.positive = positive;
            seg.positive = positive;
            if self.cfg.dir_setup_ticks as i64 > earliest {
                earliest = self.cfg.dir_setup_ticks as i64;
            }
        }
        let latest = self.cfg.segment_ticks as i64 - self.cfg.pulse_ticks as i64 - 1;
        let gap = self.cfg.pulse_ticks as i64 + 1;
        let v = self.v;
        let n: u64 = if want < 0 { (-want) as u64 } else { want as u64 };
        let ghost total = s0.emitted(p0 as int, v as int, want as int);
        let mut k: u64 = 0;
        let mut done = false;
        while k < n && !done
            invariant
                self.cfg == s0.cfg,
                seg.positive == positive,
                self.v == v,
                self.positive == positive,
                self.dv_per_segment == s0.dv,
                self.p == s0.p,
                self.speed_cap == s0.speed_cap,
                self@.prev_target == s0.prev_target,
                step_list(seg.steps).len() <= k <= n,
                step_list(seg.steps).len() <= 32,
                self.issued == (if positive {
                    s0.issued + step_list(seg.steps).len()
                } else {
                    s0.issued - step_list(seg.steps).len()
                }),
                1 <= earliest <= 0x2_0000_0000,
                done ==> step_list(seg.steps) == total,
                !done ==> step_list(seg.steps) + pulse_ticks(
                    self.issued as int,
                    positive,
                    p0 as int,
                    v as int,
                    earliest as int,
                    latest as int,
                    gap as int,
                    (n - k) as nat,
                    (32 - step_list(seg.steps).len()) as nat,
                ) == total,
            decreases n - k + (if done { 0int } else { 1int }),
        {
            let boundary = if positive { self.issued * ONE + HALF } else { self.issued * ONE - HALF };
            let dist = boundary - p0;
            let crossing = if v != 0 && ((dist > 0) == (v > 0)) {
                (abs_i64(dist) + abs_i64(v) - 1) / abs_i64(v)
            } else {
                0
            };
            let at = if crossing > earliest { crossing } else { earliest };
            let ghost rest = pulse_ticks(
                self.issued as int,
                positive,
                p0 as int,
                v as int,
                earliest as int,
                latest as int,
                gap as int,
                (n - k) as nat,
                (32 - step_list(seg.steps).len()) as nat,
            );
            assert(crossing == crossing_tick(self.issued as int, positive, p0 as int, v as int));
            if at > latest {
                assert(rest == Seq::<u32>::empty());
                assert(step_list(seg.steps) + rest == step_list(seg.steps));
                done = true;
            } else {
                let ghost before = step_list(seg.steps);
                let ok = steps_push(&mut seg.steps, at as u32);
                if !ok {
                    assert(rest == Seq::<u32>::empty());
                    assert(before + rest == before);
                    done = true;
                } else {
                    let ghost next = pulse_ticks(
                        if positive { self.issued + 1 } else { self.issued - 1 },
                        positive,
                        p0 as int,
                        v as int,
                        at + gap,
                        latest as int,
                        gap as int,
                        (n - k - 1) as nat,
                        (32 - before.len() - 1) as nat,
                    );
                    assert(rest == seq![at as u32] + next);
                    assert(before + rest == before.push(at as u32) + next);
                    self.issued = if positive { self.issued + 1 } else { self.issued - 1 };
                    earliest = at + gap;
                    k = k + 1;
                }
            }
        }
        proof {
            if !done {
                assert(k == n);
                assert(step_list(seg.steps) + Seq::<u32>::empty() == step_list(seg.steps));
            }
        }
        seg
    }
}

impl StepGen {
    /// Plan the next segment so the motor is at `target.pos` at its end, within
    /// the speed and acceleration limits.
    ///
    /// Positions are 32.32 fixed point in an `i64`, so a target has to lie
    /// within ±2^31 steps for its fixed point value to exist at all, and the
    /// error `target - (position + feed-forward)` has to fit too, which
    /// fails for some targets inside ±2^31 once the commanded position is far
    /// from them. The bounds asked for here (target within ±2^29 steps,
    /// commanded position within ±2^61 in fixed point, ±2^30 steps issued)
    /// keep every intermediate value in range for every admitted input;
    /// ±2^29 steps is over 2.6 km of travel at 200 steps/mm.
    #[verifier::rlimit(80)]
    pub fn next_segment(&mut self, target: Target) -> (seg: Segment)
        requires
            old(self).wf(),
            old(self)@.cfg.in_range(),
            -0x2000_0000 <= target.pos <= 0x2000_0000,
            -0x2000_0000_0000_0000 <= old(self)@.p <= 0x2000_0000_0000_0000,
            -0x4000_0000 <= old(self)@.issued <= 0x4000_0000,
        ensures
            final(self).wf(),
            final(self)@ == old(self)@.next(target),
            seg.positive == old(self)@.next_positive(target),
            step_list(seg.steps) == old(self)@.next_steps(target),
            seg.fits(old(self)@.cfg),
            spaced(
                step_list(seg.steps),
                1,
                old(self)@.cfg.segment_ticks - old(self)@.cfg.pulse_ticks - 1,
                old(self)@.cfg.pulse_ticks + 1,
            ),
    {
        let ghost s = self@;
        proof {
            lemma_top_velocity(self.cfg);
        }
        let t = self.cfg.segment_ticks as i64;
        let tgt = target.pos * ONE + target.frac as i64;
        let v_max = self.top_velocity();
        proof {
            lemma_velocity_bound(self.cfg, v_max as int);
            assert(v_max * t <= 0x20_0000_0000) by (nonlinear_arith)
                requires v_max * self.cfg.segment_ticks <= 0x20_0000_0000, t == self.cfg.segment_ticks;
        }

        // Feed-forward: how fast a moving target is going.
        let v_ff = match self.prev_target {
            Some(prev) if !target.is_final => clamp_i64(div_i64(tgt - prev, t), -v_max, v_max),
            _ => 0,
        };
        assert(v_ff == s.feed_forward(target));
        self.prev_target = if target.is_final { None } else { Some(tgt) };

        // Correction for what feed-forward alone would leave, limited so it
        // could still be braked away.
        proof {
            assert(-0x20_0000_0000 <= v_ff * t <= 0x20_0000_0000) by (nonlinear_arith)
                requires -v_max <= v_ff <= v_max, v_max * t <= 0x20_0000_0000, t >= 1;
        }
        let e = tgt - (self.p + v_ff * t);
        let brake = self.brake_velocity(e, target.is_final);
        let correction = clamp_i64(div_i64(e, t), -brake, brake);
        let desired = clamp_i64(v_ff + correction, -v_max, v_max);
        assert(desired == s.desired_velocity(target));

        // Reachable: within one segment's acceleration of now, or anything
        // up to start speed. Take the reachable value closest to `desired`.
        let mut v = self.reachable_velocity(desired, v_max);
        proof {
            lemma_velocity_bound(self.cfg, abs(v as int));
            assert(-0x20_0000_0000 <= v * t <= 0x20_0000_0000) by (nonlinear_arith)
                requires abs(v as int) * self.cfg.segment_ticks <= 0x20_0000_0000, t == self.cfg.segment_ticks;
        }
        let err = tgt - self.p;
        let mut p1 = self.p + v * t;
        if target.is_final && (err > 0 && p1 > tgt || err < 0 && p1 < tgt) {
            proof {
                // Stopping at the target needs less than the planned velocity.
                crate::arith::lemma_tdiv_abs_le(err as int, t as int);
                let q = tdiv(err as int, t as int);
                if err > 0 {
                    assert(q * t <= err);
                    assert(q <= v) by (nonlinear_arith) requires q * t <= err, err < v * t, t >= 1;
                    assert(q >= 0);
                } else {
                    assert(q * t >= err);
                    assert(q >= v) by (nonlinear_arith) requires q * t >= err, err > v * t, t >= 1;
                    assert(q <= 0);
                }
            }
            p1 = tgt;
            v = div_i64(err, t);
        }
        assert((p1 as int, v as int) == s.planned(target));
        proof {
            lemma_velocity_bound(self.cfg, abs(v as int));
        }
        let p0 = self.p;
        self.p = p1;
        self.v = v;
        let want = round(p1) - self.issued;
        let seg = self.emit(p0, want);
        proof {
            let c = s.cfg;
            let up = want > 0;
            let earliest = if up != s.positive { max(1, c.dir_setup_ticks as int) } else { 1 };
            if want != 0 {
                lemma_pulse_ticks_spaced(
                    s.issued, up, p0 as int, v as int, earliest,
                    c.segment_ticks - c.pulse_ticks - 1, c.pulse_ticks + 1, abs(want as int) as nat, 32,
                );
            }
            let l = step_list(seg.steps);
            assert forall|i: int| 0 <= i < l.len() implies #[trigger] l[i] + c.pulse_ticks <= c.segment_ticks by {}
            assert forall|i: int| 0 < i < l.len() implies l[i - 1] + c.pulse_ticks <= #[trigger] l[i] by {}
            assert forall|i: int| 0 <= i < l.len() implies 1 <= #[trigger] l[i] <= c.segment_ticks - c.pulse_ticks - 1 by {}
        }
        seg
    }
}

/// The speed cap holds: a segment never leaves the generator faster than
/// both its current velocity and the velocity limit (max speed lowered by
/// the cap), so once at or under the cap it stays there, and a faster
/// generator only slows towards it. In steps/s: at or under a cap `c`.
pub proof fn lemma_speed_within_cap(s: StepGenView, t: Target)
    requires
        s.cfg.tick_hz >= 1,
        s.cfg.segment_ticks >= 1,
        s.dv >= 1,
    ensures
        abs(s.next(t).v) <= max(abs(s.v), s.top_velocity()),
        s.next(t).speed_cap == s.speed_cap,
        abs(s.v) <= s.top_velocity() ==> abs(s.next(t).v) <= s.top_velocity(),
        abs(s.v) <= s.top_velocity() ==> match s.speed_cap {
            Some(c) => s.cfg.velocity(c as int) >= 1 ==> s.next(t).speed() <= c,
            None => true,
        },
{
    let seg = s.cfg.segment_ticks as int;
    let vm = s.top_velocity();
    assert(s.cfg.velocity(s.cfg.max_speed as int) >= 0) by (nonlinear_arith)
        requires s.cfg.max_speed >= 0, s.cfg.tick_hz >= 1;
    assert(s.cfg.velocity(s.cfg.start_speed as int) >= 0) by (nonlinear_arith)
        requires s.cfg.start_speed >= 0, s.cfg.tick_hz >= 1;
    assert(vm >= 0);
    let d = s.desired_velocity(t);
    assert(-vm <= d <= vm);
    let r = s.reachable_velocity(d);
    assert(abs(r) <= max(abs(s.v), vm));
    let tgt = target_fp(t);
    let err = tgt - s.p;
    let p1 = s.p + r * seg;
    if t.is_final && (err > 0 && p1 > tgt || err < 0 && p1 < tgt) {
        let q = tdiv(err, seg);
        if err > 0 {
            assert(0 <= q <= r) by (nonlinear_arith)
                requires q == err / seg, err > 0, seg >= 1, s.p + r * seg > tgt, err == tgt - s.p;
        } else {
            assert(r <= q <= 0) by (nonlinear_arith)
                requires q == -((-err) / seg), err < 0, seg >= 1, s.p + r * seg < tgt, err == tgt - s.p;
        }
    }
    let v2 = s.next(t).v;
    if let Some(c) = s.speed_cap {
        if abs(s.v) <= vm && s.cfg.velocity(c as int) >= 1 {
            let a = abs(v2);
            let hz = s.cfg.tick_hz as int;
            assert(a <= (c as int) * ONE / hz);
            assert(a * hz / (ONE as int) <= c) by (nonlinear_arith)
                requires a <= (c as int) * ONE / hz, hz >= 1, a >= 0, c >= 0;
        }
    }
}

proof fn lemma_pulse_ticks_len(issued: int, up: bool, p0: int, v: int, earliest: int, latest: int, gap: int, n: nat, room: nat)
    ensures
        pulse_ticks(issued, up, p0, v, earliest, latest, gap, n, room).len() <= n,
    decreases n,
{
    if n > 0 && room > 0 {
        let at = max(crossing_tick(issued, up, p0, v), earliest);
        if at <= latest {
            lemma_pulse_ticks_len(if up { issued + 1 } else { issued - 1 }, up, p0, v, at + gap, latest, gap, (n - 1) as nat, (room - 1) as nat);
        }
    }
}

/// A segment steps the motor towards the rounded commanded position and
/// never past it, with DIR set that way (kept when there is nothing to
/// do); and a final target is never overshot: a commanded position short of
/// it stays at or short of it.
pub proof fn lemma_segment_moves_towards(s: StepGenView, t: Target)
    requires
        s.cfg.segment_ticks >= 1,
    ensures
        ({
            let n = s.next(t);
            let goal = round_fp(s.planned(t).0);
            let tgt = target_fp(t);
            &&& goal > s.issued ==> n.positive && s.issued <= n.issued <= goal
            &&& goal < s.issued ==> !n.positive && goal <= n.issued <= s.issued
            &&& goal == s.issued ==> n.issued == s.issued && n.positive == s.positive
            &&& (t.is_final && s.p < tgt) ==> n.p <= tgt
            &&& (t.is_final && s.p > tgt) ==> n.p >= tgt
        }),
{
    let want = s.wanted(t);
    if want != 0 {
        let up = want > 0;
        let earliest = if up != s.positive { max(1, s.cfg.dir_setup_ticks as int) } else { 1 };
        lemma_pulse_ticks_len(s.issued, up, s.p, s.planned(t).1, earliest,
            s.cfg.segment_ticks - s.cfg.pulse_ticks - 1, s.cfg.pulse_ticks + 1, abs(want) as nat, 32);
    }
}

/// Where the previous pulse of `steps` ends, before pulse `i`.
pub open spec fn pulse_end_before(steps: Seq<u32>, i: int, pulse_ticks: u32) -> int {
    if i == 0 { 0 } else { steps[i - 1] + pulse_ticks }
}

/// Sequencer items for `steps`: one per pulse (idle since the previous pulse
/// ended, then the pulse), then an end item idling to the end of the segment.
pub open spec fn items_for(steps: Seq<u32>, cfg: StepGenConfig) -> Seq<Item> {
    Seq::new(
        steps.len() + 1,
        |i: int|
            if i < steps.len() {
                Item {
                    idle: (steps[i] - pulse_end_before(steps, i, cfg.pulse_ticks)) as u16,
                    pulse: cfg.pulse_ticks as u16,
                }
            } else {
                Item {
                    idle: (cfg.segment_ticks - pulse_end_before(steps, i, cfg.pulse_ticks)) as u16,
                    pulse: 0,
                }
            },
    )
}

/// Pulses `gap` apart or more, all within `lo..=hi`.
pub open spec fn spaced(steps: Seq<u32>, lo: int, hi: int, gap: int) -> bool {
    &&& forall|i: int| 0 <= i < steps.len() ==> lo <= #[trigger] steps[i] <= hi
    &&& forall|i: int| 0 < i < steps.len() ==> steps[i - 1] + gap <= #[trigger] steps[i]
}

proof fn lemma_pulse_ticks_spaced(
    issued: int,
    up: bool,
    p0: int,
    v: int,
    earliest: int,
    latest: int,
    gap: int,
    n: nat,
    room: nat,
)
    requires
        0 <= earliest,
        latest <= u32::MAX,
        gap >= 0,
    ensures
        spaced(pulse_ticks(issued, up, p0, v, earliest, latest, gap, n, room), earliest, latest, gap),
        pulse_ticks(issued, up, p0, v, earliest, latest, gap, n, room).len() <= room,
    decreases n,
{
    if n > 0 && room > 0 {
        let at = max(crossing_tick(issued, up, p0, v), earliest);
        if at <= latest {
            let next_issued = if up { issued + 1 } else { issued - 1 };
            lemma_pulse_ticks_spaced(next_issued, up, p0, v, at + gap, latest, gap, (n - 1) as nat, (room - 1) as nat);
            let rest = pulse_ticks(next_issued, up, p0, v, at + gap, latest, gap, (n - 1) as nat, (room - 1) as nat);
            let all = pulse_ticks(issued, up, p0, v, earliest, latest, gap, n, room);
            assert(all == seq![at as u32] + rest);
            assert((at as u32) as int == at);
            assert forall|i: int| 0 < i < all.len() implies all[i - 1] + gap <= #[trigger] all[i] by {
                if i > 1 {
                    assert(all[i - 1] == rest[i - 2]);
                    assert(all[i] == rest[i - 1]);
                }
            }
        }
    }
}

impl Segment {
    /// Pulses in order, each followed by its full width before the next one
    /// starts, and all ending within the segment.
    pub open spec fn fits(&self, cfg: StepGenConfig) -> bool {
        let s = step_list(self.steps);
        &&& forall|i: int| 0 <= i < s.len() ==> #[trigger] s[i] + cfg.pulse_ticks <= cfg.segment_ticks
        &&& forall|i: int| 0 < i < s.len() ==> s[i - 1] + cfg.pulse_ticks <= #[trigger] s[i]
    }

    /// Encode as sequencer items covering exactly `segment_ticks`.
    pub fn items(&self, cfg: &StepGenConfig) -> (r: heapless::Vec<Item, 33>)
        requires
            self.fits(*cfg),
        ensures
            item_list(r) == items_for(step_list(self.steps), *cfg),
    {
        let steps = steps_slice(&self.steps);
        let ghost s = step_list(self.steps);
        let mut out = items_new();
        let mut t: u32 = 0;
        let mut i: usize = 0;
        while i < steps.len()
            invariant
                steps@ == s,
                s == step_list(self.steps),
                s.len() <= 32,
                self.fits(*cfg),
                0 <= i <= s.len(),
                t == pulse_end_before(s, i as int, cfg.pulse_ticks),
                t <= cfg.segment_ticks,
                item_list(out) == items_for(s, *cfg).take(i as int),
            decreases s.len() - i,
        {
            let at = steps[i];
            proof {
                let ii = i as int;
                assert(0 <= ii < s.len());

                if i > 0 {
                    assert(s[ii - 1] + cfg.pulse_ticks <= s[ii]);
                }
                assert(s[ii] + cfg.pulse_ticks <= cfg.segment_ticks);
            }
            let item = Item { idle: #[verifier::truncate] ((at - t) as u16), pulse: #[verifier::truncate] (cfg.pulse_ticks as u16) };
            let ok = items_push(&mut out, item);
            proof {
                assert(ok);
                assert(items_for(s, *cfg).take(i + 1) == items_for(s, *cfg).take(i as int).push(item));
            }
            t = at + cfg.pulse_ticks;
            i += 1;
        }
        let last = Item { idle: #[verifier::truncate] ((cfg.segment_ticks - t) as u16), pulse: 0 };
        let ok = items_push(&mut out, last);
        proof {
            assert(ok);
            assert(items_for(s, *cfg).take(i as int).push(last) == items_for(s, *cfg));
        }
        out
    }
}

impl Default for Segment {
    fn default() -> (r: Self)
        ensures
            r.positive,
            step_list(r.steps) == Seq::<u32>::empty(),
    {
        Segment { positive: true, steps: steps_new() }
    }
}

/// Nearest whole step of a fixed point position.
fn round(p: i64) -> (r: i64)
    requires
        p <= i64::MAX - HALF,
    ensures
        r == round_fp(p as int),
{
    let (q, _) = crate::arith::floor_div_mod(p as i128 + 2147483648, 4294967296);
    q as i64
}

/// Ticks covered by sequencer items.
pub open spec fn items_ticks(items: Seq<Item>) -> int
    decreases items.len(),
{
    if items.len() == 0 {
        0
    } else {
        items_ticks(items.drop_last()) + items.last().idle + items.last().pulse
    }
}

proof fn lemma_items_prefix(steps: Seq<u32>, cfg: StepGenConfig, j: int)
    requires
        cfg.segment_ticks <= 32_767,
        spaced(steps, 1, cfg.segment_ticks - cfg.pulse_ticks - 1, cfg.pulse_ticks + 1),
        0 <= j <= steps.len(),
    ensures
        items_ticks(items_for(steps, cfg).take(j)) == pulse_end_before(steps, j, cfg.pulse_ticks),
        forall|i: int| 0 <= i < j ==> #[trigger] items_for(steps, cfg)[i].idle > 0,
    decreases j,
{
    let items = items_for(steps, cfg);
    if j > 0 {
        lemma_items_prefix(steps, cfg, j - 1);
        assert(items.take(j).drop_last() =~= items.take(j - 1));
        let e = pulse_end_before(steps, j - 1, cfg.pulse_ticks);
        assert(0 <= steps[j - 1] - e <= 32_767);
        assert(items[j - 1].idle == steps[j - 1] - e);
        assert(items[j - 1].pulse == cfg.pulse_ticks);
    }
}

/// A segment's pulses, spaced as [`StepGen::next_segment`] spaces them,
/// encode as sequencer items that cover exactly one segment with no
/// zero-length idle (the sequencer would read one as the end).
pub proof fn lemma_segment_items_fill(steps: Seq<u32>, cfg: StepGenConfig)
    requires
        1 <= cfg.segment_ticks <= 32_767,
        spaced(steps, 1, cfg.segment_ticks - cfg.pulse_ticks - 1, cfg.pulse_ticks + 1),
    ensures
        items_ticks(items_for(steps, cfg)) == cfg.segment_ticks,
        forall|i: int| 0 <= i < items_for(steps, cfg).len() ==> #[trigger] items_for(steps, cfg)[i].idle > 0,
{
    let items = items_for(steps, cfg);
    let n = steps.len() as int;
    lemma_items_prefix(steps, cfg, n);
    assert(items.drop_last() =~= items.take(n));
    let e = pulse_end_before(steps, n, cfg.pulse_ticks);
    assert(0 < cfg.segment_ticks - e <= 32_767);
    assert(items[n].idle == cfg.segment_ticks - e);
}

} // verus!
