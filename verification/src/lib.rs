//! Hardware-independent logic for a single-axis (Z) electronic gearbox.
//!
//! Units used throughout:
//! - `du`: deci-microns, 10^-7 m.
//! - `milli`: thousandths of the currently selected display unit (mm or inch).
//! - `counts`: spindle encoder counts (2 per encoder line).
//! - `steps`: stepper motor steps (including microsteps).
use vstd::prelude::*;

pub mod arith;
pub mod buffers;
pub mod digits;
pub mod display;
pub mod dns;
pub mod form;
pub mod gearbox;
pub mod jog;
pub mod motion;
pub mod nextion;
pub mod panel;
pub mod pitch;
pub mod record;
pub mod settings;
pub mod spindle;
pub mod stepgen;
pub mod stepper;
pub mod ui;
pub mod web;

use crate::arith::abs;

verus! {


/// `n / c` rounded to the nearest integer, halves rounded away from zero.
pub open spec fn div_round(n: int, c: int) -> int {
    let q = (2 * abs(n) + abs(c)) / (2 * abs(c));
    if (n < 0) == (c < 0) { q } else { -q }
}

/// Fixed machine geometry needed to translate between spindle counts, motor
/// steps and physical distance.
#[derive(Clone, Copy, Debug)]
pub struct Machine {
    /// Encoder counts per spindle revolution (encoder PPR * 2).
    pub counts_per_rev: i64,
    /// Motor steps per lead screw revolution (full steps * microsteps * gearing).
    pub motor_steps: i64,
    /// Lead screw pitch in du.
    pub screw_du: i64,
}

impl Machine {
    /// Distance in du travelled by `steps` motor steps, rounded to nearest.
    pub fn steps_to_du(&self, steps: i64) -> (r: i64)
        requires
            self.motor_steps != 0,
        ensures
            r == div_round(steps * self.screw_du, self.motor_steps as int) as i64,
    {
        mul_div_round(steps, self.screw_du, self.motor_steps)
    }

    /// Motor steps needed to travel `du`, rounded to nearest.
    pub fn du_to_steps(&self, du: i64) -> (r: i64)
        requires
            self.screw_du != 0,
        ensures
            r == div_round(du * self.motor_steps, self.screw_du as int) as i64,
    {
        mul_div_round(du, self.motor_steps, self.screw_du)
    }
}

/// Magnitude of an `i64` as a `u128`.
fn abs_u128(x: i64) -> (r: u128)
    ensures
        r == abs(x as int),
{
    if x < 0 {
        (-(x as i128)) as u128
    } else {
        x as u128
    }
}

/// `a * b / c` rounded to nearest (halves away from zero), without
/// intermediate overflow. A result beyond `i64` wraps.
pub fn mul_div_round(a: i64, b: i64, c: i64) -> (r: i64)
    requires
        c != 0,
    ensures
        r == #[verifier::truncate] (div_round(a * b, c as int) as i64),
{
    let na = abs_u128(a);
    let nb = abs_u128(b);
    let nc = abs_u128(c);
    proof {
        assert(na <= 0x8000_0000_0000_0000 && nb <= 0x8000_0000_0000_0000);
        assert(na * nb <= 0x8000_0000_0000_0000 * 0x8000_0000_0000_0000) by (nonlinear_arith)
            requires na <= 0x8000_0000_0000_0000, nb <= 0x8000_0000_0000_0000;
        assert(na * nb == abs(a * b)) by (nonlinear_arith)
            requires na == abs(a as int), nb == abs(b as int);
    }
    let n = na * nb;
    let q = (2 * n + nc) / (2 * nc);
    let same = (a < 0) == (b < 0);
    proof {
        assert(((a * b) < 0) == ((a < 0) != (b < 0)) || a * b == 0) by (nonlinear_arith);
        assert(q <= n + 1) by (nonlinear_arith)
            requires q == (2 * n + nc) / (2 * nc), nc >= 1;
    }
    let qi = q as i128;
    let r128: i128 = if same == (c < 0) { -qi } else { qi };
    proof {
        if a * b == 0 {
            assert(q == 0) by (nonlinear_arith) requires q as int == (nc as int) / (2 * (nc as int)), nc > 0;
        }
    }
    #[verifier::truncate]
    (r128 as i64)
}

} // verus!
