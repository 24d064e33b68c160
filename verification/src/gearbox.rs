//! The virtual half-nut: maps spindle position to a Z motor target position.
//!
//! While engaged, `target = p_ref + (spindle - s_ref) * num / den` where
//! `num / den` is motor steps per spindle count for the current pitch. The
//! reference point is only reset when the operator engages or changes the
//! pitch, so positions never drift and the thread stays in phase through
//! stops and spindle reversals.
//!
//! Stops clamp the target. While resting on a stop, whole spindle turns of
//! overshoot are discarded (keeping thread phase) so that reversing the
//! spindle brings the carriage back within less than one turn. Removing a stop
//! the carriage is resting on puts the gearbox into "sync": the carriage holds
//! until the spindle reaches the thread phase again, then continues.
use vstd::prelude::*;
use crate::Machine;
use crate::arith::{abs, fdiv, fmod, tdiv, floor_div_mod, euclid_div_mod, trunc_div, mul_wide, lemma_fdiv_abs_le, lemma_tdiv_abs_le};

verus! {

#[derive(Clone, Copy, Debug, PartialEq, Eq, Structural)]
pub enum Side {
    /// Upper bound of the Z position (towards the headstock by default).
    Left,
    /// Lower bound of the Z position.
    Right,
}

#[derive(Clone, Copy, Debug, PartialEq, Eq, Structural)]
pub struct Target {
    /// Whole steps (floor of the exact position).
    pub pos: i64,
    /// Fraction of a step beyond `pos`, in 1/2^32 steps. Lets the step
    /// generator space pulses evenly when the ratio isn't a whole number of
    /// steps per control period.
    pub frac: u32,
    /// True when the target won't advance with the spindle (disengaged, on a
    /// stop, waiting for sync). The stepper may brake towards it.
    pub is_final: bool,
}

impl Target {
    pub fn whole(pos: i64, is_final: bool) -> (r: Self)
        ensures
            r == (Target { pos, frac: 0, is_final }),
    {
        Target { pos, frac: 0, is_final }
    }
}

/// `v` fits an `i64`.
pub open spec fn fits(v: int) -> bool {
    i64::MIN <= v <= i64::MAX
}

/// `v` truncated to 64 bits, as an `as i64` cast does.
pub open spec fn trunc64(v: int) -> int {
    (v as i64) as int
}

pub open spec fn opt(o: Option<i64>) -> Option<int> {
    match o {
        Some(v) => Some(v as int),
        None => None,
    }
}

/// Model of a [`Gearbox`].
pub ghost struct GearboxView {
    pub counts_per_rev: int,
    pub motor_steps: int,
    pub screw_du: int,
    /// Motor steps per spindle count is `num / den`.
    pub num: int,
    pub den: int,
    pub engaged: bool,
    /// The target line passes through (`s_ref`, `p_ref`).
    pub s_ref: int,
    pub p_ref: int,
    pub left: Option<int>,
    pub right: Option<int>,
    /// Spindle turn quotient at the moment sync started; `Some` while syncing.
    pub sync_q: Option<int>,
    pub target: int,
}

pub struct Gearbox {
    m: Machine,
    /// Motor steps per spindle count, as a reduced fraction. `den > 0`.
    num: i64,
    den: i64,
    engaged: bool,
    s_ref: i64,
    p_ref: i64,
    left: Option<i64>,
    right: Option<i64>,
    /// Spindle turn quotient at the moment sync started; `Some` while syncing.
    sync_q: Option<i64>,
    target: i64,
}

impl View for Gearbox {
    type V = GearboxView;

    closed spec fn view(&self) -> GearboxView {
        GearboxView {
            counts_per_rev: self.m.counts_per_rev as int,
            motor_steps: self.m.motor_steps as int,
            screw_du: self.m.screw_du as int,
            num: self.num as int,
            den: self.den as int,
            engaged: self.engaged,
            s_ref: self.s_ref as int,
            p_ref: self.p_ref as int,
            left: opt(self.left),
            right: opt(self.right),
            sync_q: opt(self.sync_q),
            target: self.target as int,
        }
    }
}

impl GearboxView {
    /// Exact (unclamped, unrounded-down) target line at spindle position `x`,
    /// rounded down to whole steps.
    pub open spec fn line(self, x: int) -> int {
        self.p_ref + fdiv((x - self.s_ref) * self.num, self.den)
    }

    /// Whole steps of the line at `x`, as computed in 64 bits.
    pub open spec fn unclamped(self, x: int) -> int {
        self.p_ref + trunc64(fdiv((x - self.s_ref) * self.num, self.den))
    }

    /// Fraction of a step beyond `line(x)`, in 1/2^32 steps.
    pub open spec fn frac(self, x: int) -> int {
        fmod((x - self.s_ref) * self.num, self.den) * 0x1_0000_0000 / self.den
    }

    /// `pos` limited by the stops that are set.
    pub open spec fn clamp(self, pos: int) -> int {
        let p = match self.left {
            Some(l) => if pos < l { pos } else { l },
            None => pos,
        };
        match self.right {
            Some(r) => if p > r { p } else { r },
            None => p,
        }
    }

    /// Spindle count at which the (unclamped) target equals `pos`.
    pub open spec fn spindle_at(self, pos: int) -> int {
        self.s_ref + trunc64(tdiv((pos - self.p_ref) * self.den, self.num))
    }

    /// `spindle_at(pos)` can be computed without overflow.
    pub open spec fn spindle_at_ok(self, pos: int) -> bool {
        fits(pos - self.p_ref) && fits(self.spindle_at(pos))
    }

    /// The reference point moved along the line by whole multiples of `den`
    /// so that `x - s_ref` stays small.
    pub open spec fn normalized(self, x: int) -> GearboxView {
        let d = x - self.s_ref;
        if abs(d) > 0x4000_0000 {
            let q = tdiv(d, self.den);
            GearboxView { s_ref: self.s_ref + q * self.den, p_ref: self.p_ref + q * self.num, ..self }
        } else {
            self
        }
    }

    pub open spec fn normalize_ok(self, x: int) -> bool {
        let d = x - self.s_ref;
        &&& fits(d)
        &&& d != i64::MIN
        &&& abs(d) > 0x4000_0000 ==> fits(tdiv(d, self.den) * self.num)
            && fits(self.p_ref + tdiv(d, self.den) * self.num)
    }

    /// Where the sync wait ends, if the spindle at `x` has reached thread
    /// phase (a whole number of turns from the stop) or crossed a turn
    /// boundary since sync started.
    pub open spec fn sync_boundary(self, x: int, q0: int) -> Option<int> {
        let n = self.counts_per_rev;
        let d = x - self.spindle_at(self.target);
        let q = fdiv(d, n);
        if fmod(d, n) == 0 {
            Some(d)
        } else if q != q0 {
            Some((if q > q0 { q } else { q0 }) * n)
        } else {
            None
        }
    }

    pub open spec fn sync_ok(self, x: int, q0: int) -> bool {
        let n = self.counts_per_rev;
        let d = x - self.spindle_at(self.target);
        let q = fdiv(d, n);
        &&& self.spindle_at_ok(self.target)
        &&& fits(d)
        &&& fits(q)
        &&& fits((if q > q0 { q } else { q0 }) * n)
        &&& (self.sync_boundary(x, q0) matches Some(b) ==> fits(self.s_ref + b))
    }

    pub open spec fn unclamped_ok(self, x: int) -> bool {
        fits(x - self.s_ref) && fits(self.unclamped(x))
    }

    /// The reference moved by the whole turns of overshoot past the stop the
    /// target is clamped to.
    pub open spec fn trimmed(self, x: int) -> GearboxView {
        let u = self.unclamped(x);
        let c = self.clamp(u);
        if c != u {
            let n = self.counts_per_rev;
            let whole = tdiv(x - self.spindle_at(c), n) * n;
            GearboxView { s_ref: self.s_ref + whole, ..self }
        } else {
            self
        }
    }

    pub open spec fn trim_ok(self, x: int) -> bool {
        let u = self.unclamped(x);
        let c = self.clamp(u);
        &&& self.unclamped_ok(x)
        &&& c != u ==> {
            &&& self.spindle_at_ok(c)
            &&& fits(x - self.spindle_at(c))
            &&& fits(self.trimmed(x).s_ref)
        }
        &&& self.trimmed(x).unclamped_ok(x)
    }

    /// State after the sync check, or `None` while still waiting for phase.
    pub open spec fn synced(self, x: int) -> Option<GearboxView> {
        match self.sync_q {
            Some(q0) => match self.sync_boundary(x, q0) {
                Some(b) => Some(GearboxView { s_ref: self.s_ref + b, sync_q: None, ..self }),
                None => None,
            },
            None => Some(self),
        }
    }

    /// Gearbox state and motor target after an `update` at spindle `x`.
    pub open spec fn update(self, x: int) -> (GearboxView, Target) {
        if !self.engaged || self.num == 0 {
            (self, Target { pos: self.target as i64, frac: 0, is_final: true })
        } else {
            let g1 = self.normalized(x);
            match g1.synced(x) {
                None => (g1, Target { pos: g1.target as i64, frac: 0, is_final: true }),
                Some(g2) => {
                    let g3 = g2.trimmed(x);
                    let u = g3.unclamped(x);
                    let t = g3.clamp(u);
                    let g4 = GearboxView { target: t, ..g3 };
                    if t != u {
                        (g4, Target { pos: t as i64, frac: 0, is_final: true })
                    } else {
                        (g4, Target { pos: t as i64, frac: g3.frac(x) as u32, is_final: false })
                    }
                },
            }
        }
    }

    /// Gearbox after `set_pitch_du(du, x)`: the ratio `du·motor_steps /
    /// (screw_du·counts_per_rev)` in lowest terms, and when engaged the line
    /// restarted at the current target.
    pub open spec fn pitched(self, du: int, x: int) -> GearboxView {
        let num = du * self.motor_steps;
        let den = self.screw_du * self.counts_per_rev;
        let r = reducer(num, den);
        let g1 = if self.engaged { GearboxView { p_ref: self.target, s_ref: x, sync_q: None, ..self } } else { self };
        GearboxView { num: tdiv(num, r), den: tdiv(den, r), ..g1 }
    }

    /// `update(x)` runs without arithmetic overflow.
    pub open spec fn update_ok(self, x: int) -> bool {
        (self.engaged && self.num != 0) ==> {
            let g1 = self.normalized(x);
            &&& self.counts_per_rev != 0
            &&& self.normalize_ok(x)
            &&& (g1.sync_q matches Some(q0) ==> g1.sync_ok(x, q0))
            &&& (g1.synced(x) matches Some(g2) ==> g2.trim_ok(x))
        }
    }

    /// Stop slot of `side` set to `v`.
    pub open spec fn with_stop(self, side: Side, v: Option<int>) -> GearboxView {
        match side {
            Side::Left => GearboxView { left: v, ..self },
            Side::Right => GearboxView { right: v, ..self },
        }
    }

    pub open spec fn stop(self, side: Side) -> Option<int> {
        match side {
            Side::Left => self.left,
            Side::Right => self.right,
        }
    }

    /// Gearbox state after `toggle_stop(side, x, pos)`.
    pub open spec fn toggled(self, side: Side, x: int, pos: int) -> GearboxView {
        match self.stop(side) {
            Some(stop) => {
                let g1 = self.with_stop(side, None);
                if self.engaged && self.num != 0 && self.target == stop {
                    GearboxView {
                        sync_q: Some(fdiv(x - self.spindle_at(self.target), self.counts_per_rev)),
                        ..g1
                    }
                } else {
                    g1
                }
            },
            None => self.with_stop(side, Some(pos)),
        }
    }

    pub open spec fn toggle_ok(self, side: Side, x: int) -> bool {
        (self.stop(side) matches Some(stop) && self.engaged && self.num != 0 && self.target == stop)
            ==> {
            &&& self.counts_per_rev != 0
            &&& self.spindle_at_ok(self.target)
            &&& fits(x - self.spindle_at(self.target))
            &&& fits(fdiv(x - self.spindle_at(self.target), self.counts_per_rev))
        }
    }
}

/// Greatest common divisor by Euclid's algorithm.
pub open spec fn gcd(a: nat, b: nat) -> nat
    decreases b,
{
    if b == 0 {
        a
    } else {
        gcd(b, a % b)
    }
}

/// Divisor that reduces `num / den`: their gcd, or 1 when both are 0.
pub open spec fn reducer(num: int, den: int) -> int {
    let g = gcd(abs(num) as nat, abs(den) as nat);
    if g > 1 { g as int } else { 1 }
}

impl Gearbox {
    /// The internal invariant: the ratio's denominator is positive.
    pub open spec fn wf(&self) -> bool {
        self@.den > 0
    }

    pub fn new(m: Machine) -> (r: Self)
        ensures
            r.wf(),
            r@ == (GearboxView {
                counts_per_rev: m.counts_per_rev as int,
                motor_steps: m.motor_steps as int,
                screw_du: m.screw_du as int,
                num: 0,
                den: 1,
                engaged: false,
                s_ref: 0,
                p_ref: 0,
                left: None,
                right: None,
                sync_q: None,
                target: 0,
            }),
    {
        Gearbox {
            m,
            num: 0,
            den: 1,
            engaged: false,
            s_ref: 0,
            p_ref: 0,
            left: None,
            right: None,
            sync_q: None,
            target: 0,
        }
    }

    pub fn engaged(&self) -> (r: bool)
        ensures
            r == self@.engaged,
    {
        self.engaged
    }

    pub fn syncing(&self) -> (r: bool)
        ensures
            r == self@.sync_q is Some,
    {
        self.sync_q.is_some()
    }

    pub fn stop(&self, side: Side) -> (r: Option<i64>)
        ensures
            opt(r) == self@.stop(side),
    {
        match side {
            Side::Left => self.left,
            Side::Right => self.right,
        }
    }

    /// Change the pitch. If engaged, motion continues from the current target
    /// at the new ratio (thread phase relative to earlier passes is lost when
    /// the magnitude changes, as with a mechanical gearbox).
    pub fn set_pitch_du(&mut self, pitch_du: i64, spindle: i64)
        requires
            old(self).wf(),
            fits(pitch_du * old(self)@.motor_steps),
            fits(old(self)@.screw_du * old(self)@.counts_per_rev),
            old(self)@.screw_du * old(self)@.counts_per_rev > 0,
        ensures
            final(self).wf(),
            final(self)@ == old(self)@.pitched(pitch_du as int, spindle as int),
    {
        let num = pitch_du * self.m.motor_steps;
        let den = self.m.screw_du * self.m.counts_per_rev;
        let g0 = gcd_u64(abs_u64(num), abs_u64(den));
        let g: i64 = if g0 > 1 { g0 as i64 } else { 1 };
        proof {
            lemma_gcd_divides(abs(num as int) as nat, abs(den as int) as nat);
            lemma_gcd_le(abs(num as int) as nat, abs(den as int) as nat);
        }
        if self.engaged {
            self.p_ref = self.target;
            self.s_ref = spindle;
            self.sync_q = None;
        }
        let gi = g as i128;
        self.num = trunc_div(num as i128, gi) as i64;
        self.den = trunc_div(den as i128, gi) as i64;
        proof {
            assert(abs(den as int) > 0);
            assert(g <= den);
            assert(tdiv(den as int, g as int) >= 1) by (nonlinear_arith)
                requires 1 <= g <= den, tdiv(den as int, g as int) == (den as int) / (g as int);
        }
    }

    /// Close the virtual half-nut at the current motor position.
    pub fn engage(&mut self, spindle: i64, pos: i64)
        requires
            old(self).wf(),
        ensures
            final(self).wf(),
            final(self)@ == (GearboxView {
                engaged: true,
                s_ref: spindle as int,
                p_ref: pos as int,
                target: pos as int,
                sync_q: None,
                ..old(self)@
            }),
    {
        self.engaged = true;
        self.s_ref = spindle;
        self.p_ref = pos;
        self.target = pos;
        self.sync_q = None;
    }

    /// Open the virtual half-nut; the motor stops where it is.
    pub fn disengage(&mut self, pos: i64)
        requires
            old(self).wf(),
        ensures
            final(self).wf(),
            final(self)@ == (GearboxView { engaged: false, sync_q: None, target: pos as int, ..old(self)@ }),
    {
        self.engaged = false;
        self.sync_q = None;
        self.target = pos;
    }

    /// Set a stop at `pos` if none is set, otherwise remove it.
    pub fn toggle_stop(&mut self, side: Side, spindle: i64, pos: i64)
        requires
            old(self).wf(),
            old(self)@.toggle_ok(side, spindle as int),
        ensures
            final(self).wf(),
            final(self)@ == old(self)@.toggled(side, spindle as int, pos as int),
    {
        let cur = match side {
            Side::Left => self.left,
            Side::Right => self.right,
        };
        match cur {
            Some(stop) => {
                match side {
                    Side::Left => self.left = None,
                    Side::Right => self.right = None,
                }
                if self.engaged && self.num != 0 && self.target == stop {
                    let d = spindle - self.spindle_at(self.target);
                    let (q, _) = euclid_div_mod(d as i128, self.m.counts_per_rev as i128);
                    self.sync_q = Some(q as i64);
                }
            },
            None => match side {
                Side::Left => self.left = Some(pos),
                Side::Right => self.right = Some(pos),
            },
        }
    }

    /// Compute the motor target for the current (backlash-filtered) spindle
    /// position. Call on every motion tick.
    pub fn update(&mut self, spindle: i64) -> (t: Target)
        requires
            old(self).wf(),
            old(self)@.update_ok(spindle as int),
        ensures
            final(self).wf(),
            (final(self)@, t) == old(self)@.update(spindle as int),
    {
        if !self.engaged || self.num == 0 {
            return Target::whole(self.target, true);
        }
        self.normalize(spindle);
        let n = self.m.counts_per_rev;

        if let Some(q0) = self.sync_q {
            let d = spindle - self.spindle_at(self.target);
            let (q, r) = euclid_div_mod(d as i128, n as i128);
            let boundary = if r == 0 {
                Some(d)
            } else if q != q0 as i128 {
                let m = if q > q0 as i128 { q as i64 } else { q0 };
                Some(m * n)
            } else {
                None
            };
            match boundary {
                Some(b) => {
                    self.s_ref = self.s_ref + b;
                    self.sync_q = None;
                },
                None => return Target::whole(self.target, true),
            }
        }

        let mut unclamped = self.unclamped(spindle);
        let clamped = self.clamp(unclamped);
        if clamped != unclamped {
            // Resting on a stop: drop whole turns of overshoot.
            let d = spindle - self.spindle_at(clamped);
            let q = trunc_div(d as i128, n as i128);
            proof {
                lemma_tdiv_abs_le(d as int, n as int);
            }
            let whole = (q * n as i128) as i64;
            if whole != 0 {
                self.s_ref = self.s_ref + whole;
                unclamped = self.unclamped(spindle);
            }
        }
        self.target = self.clamp(unclamped);
        if self.target != unclamped {
            return Target::whole(self.target, true);
        }
        Target { pos: self.target, frac: self.unclamped_frac(spindle), is_final: false }
    }

    fn clamp(&self, pos: i64) -> (r: i64)
        ensures
            r == self@.clamp(pos as int),
    {
        let mut pos = pos;
        if let Some(l) = self.left {
            if l < pos {
                pos = l;
            }
        }
        if let Some(r) = self.right {
            if r > pos {
                pos = r;
            }
        }
        pos
    }

    fn unclamped(&self, spindle: i64) -> (r: i64)
        requires
            self.wf(),
            self@.unclamped_ok(spindle as int),
        ensures
            r == self@.unclamped(spindle as int),
    {
        let d = spindle - self.s_ref;
        let steps = match d.checked_mul(self.num) {
            Some(n) => {
                let q = floor_div_mod(n as i128, self.den as i128).0;
                proof {
                    lemma_fdiv_abs_le(n as int, self.den as int);
                }
                q as i64
            },
            None => {
                let q = floor_div_mod(mul_wide(d, self.num), self.den as i128).0;
                #[verifier::truncate]
                (q as i64)
            },
        };
        self.p_ref + steps
    }

    /// Fractional step beyond `unclamped(spindle)`, in 1/2^32 steps.
    fn unclamped_frac(&self, spindle: i64) -> (r: u32)
        requires
            self.wf(),
            fits(spindle - self@.s_ref),
        ensures
            r == self@.frac(spindle as int),
    {
        let d = spindle - self.s_ref;
        let rem = floor_div_mod(mul_wide(d, self.num), self.den as i128).1;
        let ghost f = self@.frac(spindle as int);
        proof {
            assert(rem * 0x1_0000_0000 / (self.den as int) < 0x1_0000_0000) by (nonlinear_arith)
                requires 0 <= rem < self.den;
            assert(rem * 0x1_0000_0000 / (self.den as int) >= 0) by (nonlinear_arith)
                requires 0 <= rem, self.den > 0;
        }
        // rem < den; stay in 64-bit arithmetic when the product fits.
        if rem < 0x8000_0000 {
            ((rem as u64 * 0x1_0000_0000) / self.den as u64) as u32
        } else {
            ((rem as u128 * 0x1_0000_0000) / self.den as u128) as u32
        }
    }

    /// Spindle count at which the (unclamped) target equals `pos`.
    fn spindle_at(&self, pos: i64) -> (r: i64)
        requires
            self@.num != 0,
            self@.spindle_at_ok(pos as int),
        ensures
            r == self@.spindle_at(pos as int),
    {
        let a = mul_wide(pos - self.p_ref, self.den);
        let q = trunc_div(a, self.num as i128);
        self.s_ref + #[verifier::truncate] (q as i64)
    }

    /// Keep `spindle - s_ref` small by moving the reference along the line by
    /// whole multiples of `den` (exact, no rounding).
    fn normalize(&mut self, spindle: i64)
        requires
            old(self).wf(),
            old(self)@.normalize_ok(spindle as int),
        ensures
            final(self).wf(),
            final(self)@ == old(self)@.normalized(spindle as int),
    {
        let d = spindle - self.s_ref;
        let ad = if d < 0 { -d } else { d };
        if ad > 0x4000_0000 {
            proof {
                lemma_tdiv_abs_le(d as int, self.den as int);
            }
            let q = trunc_div(d as i128, self.den as i128) as i64;
            proof {
                lemma_tdiv_abs_le(d as int, self.den as int);
            }
            self.s_ref = self.s_ref + q * self.den;
            self.p_ref = self.p_ref + q * self.num;
        }
    }
}

fn abs_u64(x: i64) -> (r: u64)
    ensures
        r == abs(x as int),
{
    if x < 0 {
        (-(x as i128)) as u64
    } else {
        x as u64
    }
}

fn gcd_u64(a: u64, b: u64) -> (r: u64)
    ensures
        r == gcd(a as nat, b as nat),
{
    let ghost a0 = a;
    let ghost b0 = b;
    let mut a = a;
    let mut b = b;
    while b != 0
        invariant
            gcd(a as nat, b as nat) == gcd(a0 as nat, b0 as nat),
        decreases b,
    {
        let t = a % b;
        a = b;
        b = t;
    }
    a
}

proof fn lemma_divides_combination(g: int, b: int, r: int, k: int)
    requires
        g > 0,
        b % g == 0,
        r % g == 0,
    ensures
        (b * k + r) % g == 0,
{
    vstd::arithmetic::div_mod::lemma_fundamental_div_mod(b, g);
    vstd::arithmetic::div_mod::lemma_fundamental_div_mod(r, g);
    let x = b / g;
    let y = r / g;
    assert(b * k + r == g * (x * k + y)) by (nonlinear_arith)
        requires b == g * x, r == g * y;
    vstd::arithmetic::div_mod::lemma_mod_multiples_basic(x * k + y, g);
    assert((x * k + y) * g == g * (x * k + y)) by (nonlinear_arith);
}

/// The gcd divides both arguments, and is positive unless both are 0.
pub proof fn lemma_gcd_divides(a: nat, b: nat)
    ensures
        (a > 0 || b > 0) ==> gcd(a, b) > 0,
        gcd(a, b) > 0 ==> (a as int) % (gcd(a, b) as int) == 0 && (b as int) % (gcd(a, b) as int) == 0,
    decreases b,
{
    if b == 0 {
        if a > 0 {
            vstd::arithmetic::div_mod::lemma_mod_self_0(a as int);
        }
    } else {
        let r = a % b;
        lemma_gcd_divides(b, r);
        let g = gcd(a, b);
        assert(g == gcd(b, r));
        if g > 0 {
            vstd::arithmetic::div_mod::lemma_fundamental_div_mod(a as int, b as int);
            assert((a as int) == (b as int) * ((a as int) / (b as int)) + (r as int));
            lemma_divides_combination(g as int, b as int, r as int, (a as int) / (b as int));
        }
    }
}

/// A positive second argument bounds the gcd.
pub proof fn lemma_gcd_le(a: nat, b: nat)
    ensures
        b > 0 ==> 0 < gcd(a, b) <= b,
{
    if b > 0 {
        lemma_gcd_divides(a, b);
        let g = gcd(a, b) as int;
        vstd::arithmetic::div_mod::lemma_fundamental_div_mod(b as int, g);
        assert(b as int == g * ((b as int) / g));
        if (b as int) / g <= 0 {
            assert(g * ((b as int) / g) <= 0) by (nonlinear_arith) requires g > 0, (b as int) / g <= 0;
        }
        assert(g <= g * ((b as int) / g)) by (nonlinear_arith) requires g > 0, (b as int) / g >= 1;
    }
}

/// Moving the reference point along the line (as every `update` does to keep
/// numbers small) leaves the line itself unchanged, so the target never
/// drifts however long the spindle runs.
pub proof fn lemma_normalize_keeps_line(g: GearboxView, x: int, y: int)
    requires
        g.den > 0,
    ensures
        g.normalized(x).line(y) == g.line(y),
{
    let d = x - g.s_ref;
    if abs(d) > 0x4000_0000 {
        let q = tdiv(d, g.den);
        let a = (y - g.s_ref) * g.num;
        assert((y - (g.s_ref + q * g.den)) * g.num == a - (q * g.num) * g.den) by (nonlinear_arith)
            requires a == (y - g.s_ref) * g.num;
        crate::arith::lemma_fdiv_props(a, g.den);
        let f = fdiv(a, g.den);
        assert(a - (q * g.num) * g.den == (f - q * g.num) * g.den + fmod(a, g.den)) by (nonlinear_arith)
            requires a == f * g.den + fmod(a, g.den);
        crate::arith::lemma_fdiv_unique(a - (q * g.num) * g.den, g.den, f - q * g.num, fmod(a, g.den));
    }
}

/// Changing the pitch while engaged restarts the line at the carriage's
/// current target, so the carriage does not jump.
pub proof fn lemma_pitch_change_keeps_position(g: GearboxView, num: int, den: int, x: int)
    requires
        g.engaged,
        den > 0,
    ensures
        (GearboxView { p_ref: g.target, s_ref: x, sync_q: None, num, den, ..g }).line(x) == g.target,
{
    assert((x - x) * num == 0);
    crate::arith::lemma_fdiv_unique(0, den, 0, 0);
}

/// Engaging at spindle position `x` and motor position `pos` starts the line
/// there.
pub proof fn lemma_engage_starts_line(g: GearboxView, x: int, pos: int)
    requires
        g.den > 0,
    ensures
        (GearboxView { engaged: true, s_ref: x, p_ref: pos, target: pos, sync_q: None, ..g }).line(x) == pos,
{
    assert((x - x) * g.num == 0);
    crate::arith::lemma_fdiv_unique(0, g.den, 0, 0);
}

/// With both stops set (right not above left), the target of an engaged
/// gearbox following the spindle lies between them.
pub proof fn lemma_target_within_stops(g: GearboxView, x: int)
    requires
        g.engaged,
        g.num != 0,
        (g.left matches Some(l) && g.right matches Some(r) && r <= l),
        (g.normalized(x).synced(x) is Some),
    ensures
        g.right->0 <= g.update(x).0.target <= g.left->0,
{
}

/// When the spindle has carried the target past a stop, the reference is
/// trimmed so that the spindle is less than one turn beyond the point where
/// the carriage reached the stop: reversing the spindle leaves the stop
/// within one turn.
pub proof fn lemma_overshoot_under_one_turn(g: GearboxView, x: int)
    requires
        g.counts_per_rev > 0,
    ensures
        ({
            let c = g.clamp(g.unclamped(x));
            c != g.unclamped(x) ==> abs(x - g.trimmed(x).spindle_at(c)) < g.counts_per_rev
        }),
{
    let n = g.counts_per_rev;
    let c = g.clamp(g.unclamped(x));
    if c != g.unclamped(x) {
        let d = x - g.spindle_at(c);
        let a = abs(d);
        vstd::arithmetic::div_mod::lemma_fundamental_div_mod(a, n);
        assert(g.trimmed(x).spindle_at(c) == g.spindle_at(c) + tdiv(d, n) * n);
        if d >= 0 {
            assert(x - g.trimmed(x).spindle_at(c) == a - (a / n) * n);
        } else {
            assert(tdiv(d, n) == -(a / n));
            assert(x - g.trimmed(x).spindle_at(c) == -(a - (a / n) * n)) by (nonlinear_arith)
                requires
                    x - g.trimmed(x).spindle_at(c) == d - tdiv(d, n) * n,
                    tdiv(d, n) == -(a / n),
                    d == -a;
        }
    }
}

/// The gearbox waits for thread phase only while engaged. A new gearbox
/// does not wait; engaging, disengaging and a pitch change end any wait; an
/// update keeps the property; and a wait starts only when the stop the
/// engaged carriage rests on is removed.
pub proof fn lemma_syncing_only_engaged(g: GearboxView, side: Side, x: int, pos: int, num: int, den: int)
    requires
        g.sync_q is Some ==> g.engaged,
    ensures
        g.update(x).0.sync_q is Some ==> g.update(x).0.engaged,
        g.toggled(side, x, pos).sync_q is Some ==> g.toggled(side, x, pos).engaged,
        (g.sync_q is None && g.toggled(side, x, pos).sync_q is Some) ==> g.engaged && g.num != 0
            && g.stop(side) == Some(g.target),
        ({
            let g1 = if g.engaged { GearboxView { p_ref: g.target, s_ref: x, sync_q: None, ..g } } else { g };
            let g2 = GearboxView { num, den, ..g1 };
            g2.sync_q is Some ==> g2.engaged
        }),
        (GearboxView { engaged: true, s_ref: x, p_ref: pos, target: pos, sync_q: None, ..g }).sync_q is None,
        (GearboxView { engaged: false, sync_q: None, target: pos, ..g }).sync_q is None,
{
    if g.engaged && g.num != 0 {
        let g1 = g.normalized(x);
        if let Some(g2) = g1.synced(x) {
            assert(g2.trimmed(x).engaged);
        }
    }
}

/// With no stops and no wait for thread phase, an engaged gearbox aims
/// exactly at its line: `p_ref + ⌊(x - s_ref)·num/den⌋` whole steps plus the
/// fraction of a step left over, however many updates came before (an
/// update never moves the line).
pub proof fn lemma_update_on_line(g: GearboxView, x: int, y: int)
    requires
        g.engaged,
        g.num != 0,
        g.den > 0,
        g.left is None,
        g.right is None,
        g.sync_q is None,
        fits(fdiv((x - g.normalized(x).s_ref) * g.num, g.den)),
        fits(g.line(x)),
    ensures
        g.update(x).1 == (Target { pos: g.line(x) as i64, frac: g.frac(x) as u32, is_final: false }),
        g.update(x).0.line(y) == g.line(y),
        g.update(x).0.engaged && g.update(x).0.sync_q is None,
{
    let n1 = g.normalized(x);
    lemma_normalize_keeps_line(g, x, x);
    lemma_normalize_keeps_line(g, x, y);
    assert(n1.unclamped(x) == n1.line(x));
    let d = x - g.s_ref;
    if abs(d) > 0x4000_0000 {
        let q = tdiv(d, g.den);
        let a = d * g.num;
        assert((x - (g.s_ref + q * g.den)) * g.num == a - (q * g.num) * g.den) by (nonlinear_arith)
            requires a == d * g.num, d == x - g.s_ref;
        crate::arith::lemma_fdiv_props(a, g.den);
        let f = fdiv(a, g.den);
        assert(a - (q * g.num) * g.den == (f - q * g.num) * g.den + fmod(a, g.den)) by (nonlinear_arith)
            requires a == f * g.den + fmod(a, g.den);
        crate::arith::lemma_fdiv_unique(a - (q * g.num) * g.den, g.den, f - q * g.num, fmod(a, g.den));
    }
    assert(n1.frac(x) == g.frac(x));
}

/// A pitch of `du` deci-microns per spindle turn sets the ratio to exactly
/// `du · motor_steps` motor steps per `screw_du · counts_per_rev` spindle
/// counts (kept in lowest terms with a positive denominator), so that one
/// spindle turn moves the carriage `du`: the sign of the ratio is the sign
/// of the pitch.
pub proof fn lemma_pitch_ratio(g: GearboxView, du: int, x: int)
    requires
        g.screw_du * g.counts_per_rev > 0,
    ensures
        ({
            let g2 = g.pitched(du, x);
            let n = du * g.motor_steps;
            let d = g.screw_du * g.counts_per_rev;
            &&& g2.den > 0
            &&& g2.num * d == g2.den * n
            &&& (n > 0 ==> g2.num > 0) && (n < 0 ==> g2.num < 0) && (n == 0 ==> g2.num == 0)
        }),
{
    let n = du * g.motor_steps;
    let d = g.screw_du * g.counts_per_rev;
    let an = abs(n);
    let ad = abs(d);
    lemma_gcd_divides(an as nat, ad as nat);
    lemma_gcd_le(an as nat, ad as nat);
    let r = reducer(n, d);
    assert(r >= 1);
    assert(an % r == 0 && ad % r == 0) by {
        if gcd(an as nat, ad as nat) > 1 {
        } else {
            assert(r == 1);
        }
    }
    vstd::arithmetic::div_mod::lemma_fundamental_div_mod(an, r);
    vstd::arithmetic::div_mod::lemma_fundamental_div_mod(ad, r);
    let qn = an / r;
    let qd = ad / r;
    assert(an == r * qn);
    assert(ad == r * qd);
    assert(qd > 0) by (nonlinear_arith) requires ad == r * qd, ad > 0, r >= 1;
    assert(tdiv(d, r) == qd);
    assert(tdiv(n, r) == (if n < 0 { -qn } else { qn }));
    assert(qn * d == qd * an) by (nonlinear_arith)
        requires an == r * qn, ad == r * qd, ad == d;
    if n < 0 {
        assert((-qn) * d == qd * n) by (nonlinear_arith) requires qn * d == qd * an, an == -n;
        assert(qn > 0) by (nonlinear_arith) requires an == r * qn, an > 0, r >= 1;
    } else if n > 0 {
        assert(qn > 0) by (nonlinear_arith) requires an == r * qn, an > 0, r >= 1;
    } else {
        assert(qn == 0) by (nonlinear_arith) requires an == r * qn, an == 0, r >= 1;
    }
}

/// The line moves the way the ratio points: never backwards as the spindle
/// turns forward with a positive ratio (nor forwards with a negative one),
/// and exactly `num` steps every `den` spindle counts.
pub proof fn lemma_line_direction(g: GearboxView, x: int, y: int)
    requires
        g.den > 0,
        x <= y,
    ensures
        g.num >= 0 ==> g.line(x) <= g.line(y),
        g.num <= 0 ==> g.line(x) >= g.line(y),
        g.line(x + g.den) == g.line(x) + g.num,
{
    let a = (x - g.s_ref) * g.num;
    let b = (y - g.s_ref) * g.num;
    if g.num >= 0 {
        assert(a <= b) by (nonlinear_arith) requires x <= y, g.num >= 0, a == (x - g.s_ref) * g.num, b == (y - g.s_ref) * g.num;
    } else {
        assert(a >= b) by (nonlinear_arith) requires x <= y, g.num < 0, a == (x - g.s_ref) * g.num, b == (y - g.s_ref) * g.num;
    }
    if a <= b {
        vstd::arithmetic::div_mod::lemma_div_is_ordered(a, b, g.den);
    } else {
        vstd::arithmetic::div_mod::lemma_div_is_ordered(b, a, g.den);
    }
    let c = (x + g.den - g.s_ref) * g.num;
    assert(c == a + g.num * g.den) by (nonlinear_arith) requires c == (x + g.den - g.s_ref) * g.num, a == (x - g.s_ref) * g.num;
    crate::arith::lemma_fdiv_props(a, g.den);
    let q = fdiv(a, g.den);
    let r = fmod(a, g.den);
    assert(c == (q + g.num) * g.den + r) by (nonlinear_arith)
        requires c == a + g.num * g.den, a == q * g.den + r;
    crate::arith::lemma_fdiv_unique(c, g.den, q + g.num, r);
}

/// Stops clamp the target, one stop or two: an update never changes the
/// stops, never aims past a stop that is set (right not above left when
/// both are), and a final target (whole, no fraction) from a following
/// gearbox is the stop the carriage rests on.
pub proof fn lemma_update_respects_stops(g: GearboxView, x: int)
    requires
        (g.left is Some && g.right is Some) ==> g.right->0 <= g.left->0,
    ensures
        ({
            let (g2, t) = g.update(x);
            &&& g2.left == g.left && g2.right == g.right
            &&& t.is_final ==> t.frac == 0
            &&& (g.engaged && g.num != 0 && g.normalized(x).synced(x) is Some) ==> {
                &&& (g.left matches Some(l) ==> g2.target <= l)
                &&& (g.right matches Some(r) ==> r <= g2.target)
                &&& (t.is_final ==> (g.left == Some(g2.target) || g.right == Some(g2.target)))
            }
        }),
{
}

/// Resting on a stop and waiting for thread phase move the reference point
/// by whole spindle turns only, so the thread stays in phase.
pub proof fn lemma_whole_turns_keep_phase(g: GearboxView, x: int)
    requires
        g.counts_per_rev > 0,
    ensures
        (g.trimmed(x).s_ref - g.s_ref) % g.counts_per_rev == 0,
        (g.synced(x) matches Some(g2) ==> (g2.s_ref - g.s_ref) % g.counts_per_rev == 0),
{
    let n = g.counts_per_rev;
    let u = g.unclamped(x);
    let c = g.clamp(u);
    if c != u {
        let k = tdiv(x - g.spindle_at(c), n);
        vstd::arithmetic::div_mod::lemma_mod_multiples_basic(k, n);
        assert(g.trimmed(x).s_ref - g.s_ref == k * n);
    } else {
        vstd::arithmetic::div_mod::lemma_mod_multiples_basic(0, n);
        assert(g.trimmed(x).s_ref - g.s_ref == 0 * n);
    }
    if let Some(q0) = g.sync_q {
        let d = x - g.spindle_at(g.target);
        let q = fdiv(d, n);
        if fmod(d, n) == 0 {
            assert(g.synced(x)->0.s_ref - g.s_ref == d);
        } else if q != q0 {
            let m = if q > q0 { q } else { q0 };
            vstd::arithmetic::div_mod::lemma_mod_multiples_basic(m, n);
            assert(g.synced(x)->0.s_ref - g.s_ref == m * n);
        }
    } else {
        vstd::arithmetic::div_mod::lemma_mod_multiples_basic(0, n);
        assert(0int == 0 * n);
    }
}

} // verus!
