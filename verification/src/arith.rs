//! Integer division helpers with exact specifications.
use vstd::prelude::*;
use vstd::arithmetic::div_mod::lemma_fundamental_div_mod_converse;

verus! {

/// Absolute value of an integer.
pub open spec fn abs(x: int) -> int {
    if x < 0 { -x } else { x }
}

/// Division rounding towards negative infinity (`div_euclid` for `b > 0`).
pub open spec fn fdiv(a: int, b: int) -> int
    recommends
        b > 0,
{
    a / b
}

/// Remainder of [`fdiv`], in `0..b` for `b > 0`.
pub open spec fn fmod(a: int, b: int) -> int
    recommends
        b > 0,
{
    a % b
}

/// Division rounding towards zero, as Rust's `/` on signed integers.
pub open spec fn tdiv(a: int, b: int) -> int
    recommends
        b != 0,
{
    let q = abs(a) / abs(b);
    if (a < 0) == (b < 0) { q } else { -q }
}

pub proof fn lemma_fdiv_props(a: int, b: int)
    requires
        b > 0,
    ensures
        a == fdiv(a, b) * b + fmod(a, b),
        0 <= fmod(a, b) < b,
{
    vstd::arithmetic::div_mod::lemma_fundamental_div_mod(a, b);
    assert(fdiv(a, b) * b == b * fdiv(a, b)) by (nonlinear_arith);
}

pub proof fn lemma_fdiv_unique(a: int, b: int, q: int, r: int)
    requires
        b > 0,
        a == q * b + r,
        0 <= r < b,
    ensures
        fdiv(a, b) == q,
        fmod(a, b) == r,
{
    assert(q * b == b * q) by (nonlinear_arith);
    lemma_fundamental_div_mod_converse(a, b, q, r);
}

/// A floor quotient by a positive divisor is no larger in magnitude than the dividend.
pub proof fn lemma_fdiv_abs_le(a: int, b: int)
    requires
        b >= 1,
    ensures
        abs(fdiv(a, b)) <= abs(a),
        a >= 0 ==> fdiv(a, b) >= 0,
        a < 0 ==> fdiv(a, b) < 0,
{
    lemma_fdiv_props(a, b);
    let q = fdiv(a, b);
    let r = fmod(a, b);
    if a >= 0 && q < 0 {
        assert(q * b <= -b) by (nonlinear_arith) requires q < 0, b >= 1;
    }
    if a < 0 && q >= 0 {
        assert(q * b >= 0) by (nonlinear_arith) requires q >= 0, b >= 1;
    }
    if q >= 0 {
        assert(q <= q * b) by (nonlinear_arith) requires q >= 0, b >= 1;
    } else {
        assert(q * b <= q) by (nonlinear_arith) requires q < 0, b >= 1;
        assert(q * b + r <= q * b + b - 1);
        assert(q * b + b - 1 <= q) by (nonlinear_arith) requires q < 0, b >= 1;
    }
}

/// A truncated quotient is no larger in magnitude than the dividend.
pub proof fn lemma_tdiv_abs_le(a: int, b: int)
    requires
        b != 0,
    ensures
        abs(tdiv(a, b)) <= abs(a),
        abs(tdiv(a, b) * b) <= abs(a),
        b > 0 && a >= 0 ==> 0 <= tdiv(a, b) * b <= a,
        b > 0 && a < 0 ==> a <= tdiv(a, b) * b <= 0,
{
    let q = abs(a) / abs(b);
    vstd::arithmetic::div_mod::lemma_fundamental_div_mod(abs(a), abs(b));
    assert(q <= abs(a)) by (nonlinear_arith)
        requires q == abs(a) / abs(b), abs(b) >= 1, abs(a) >= 0;
    assert(q * abs(b) <= abs(a)) by (nonlinear_arith)
        requires abs(a) == abs(b) * q + abs(a) % abs(b), abs(a) % abs(b) >= 0;
    assert(abs(tdiv(a, b) * b) == q * abs(b)) by (nonlinear_arith)
        requires tdiv(a, b) == q || tdiv(a, b) == -q, q >= 0;
    if b > 0 {
        assert(q * b >= 0) by (nonlinear_arith) requires q >= 0, b > 0;
        if a < 0 {
            assert(tdiv(a, b) * b == -(q * b)) by (nonlinear_arith) requires tdiv(a, b) == -q;
        }
    }
}

/// Product of two `i64`s, exact in 128 bits.
pub fn mul_wide(a: i64, b: i64) -> (r: i128)
    ensures
        r == a * b,
        -0x4000_0000_0000_0000_0000_0000_0000_0000 <= r <= 0x4000_0000_0000_0000_0000_0000_0000_0000,
{
    proof {
        assert(-0x4000_0000_0000_0000_0000_0000_0000_0000 <= (a as int) * (b as int)
            <= 0x4000_0000_0000_0000_0000_0000_0000_0000) by (nonlinear_arith)
            requires -0x8000_0000_0000_0000 <= a <= 0x8000_0000_0000_0000,
                -0x8000_0000_0000_0000 <= b <= 0x8000_0000_0000_0000;
    }
    a as i128 * b as i128
}

/// Product of two `u32`s, exact in 64 bits.
pub fn mul_u32_wide(a: u32, b: u32) -> (r: u64)
    ensures
        r == a * b,
        r <= 0xFFFF_FFFE_0000_0001,
{
    proof {
        assert((a as int) * (b as int) <= 0xFFFF_FFFE_0000_0001) by (nonlinear_arith)
            requires a <= 0xFFFF_FFFF, b <= 0xFFFF_FFFF, a >= 0, b >= 0;
    }
    a as u64 * b as u64
}

/// Floor division and remainder by a positive divisor.
pub fn floor_div_mod(a: i128, b: i128) -> (r: (i128, i128))
    requires
        b > 0,
        a > i128::MIN,
    ensures
        r.0 == fdiv(a as int, b as int),
        r.1 == fmod(a as int, b as int),
{
    let t = a / b;
    let m = a % b;
    let ghost ai = a as int;
    let ghost bi = b as int;
    proof {
        lemma_fdiv_props(ai, bi);
        if a >= 0 {
            assert(t == ai / bi);
            assert(m == ai % bi);
        } else {
            lemma_fdiv_props(-ai, bi);
            assert(t == -((-ai) / bi));
            assert(m == -((-ai) % bi));
        }
    }
    if m < 0 {
        proof {
            let na = -ai;
            assert(ai == (t - 1) * bi + (m + bi)) by (nonlinear_arith)
                requires na == -ai, t == -(na / bi), m == -(na % bi), na == (na / bi) * bi + na % bi;
            lemma_fdiv_unique(ai, bi, (t - 1) as int, (m + bi) as int);
            assert((-ai) / bi <= -ai) by (nonlinear_arith) requires -ai > 0, bi > 0;
        }
        (t - 1, m + b)
    } else {
        proof {
            if a < 0 {
                let na = -ai;
                assert(ai == t * bi + m) by (nonlinear_arith)
                    requires na == -ai, t == -(na / bi), m == -(na % bi), na == (na / bi) * bi + na % bi;
            } else {
                assert(ai == t * bi + m) by (nonlinear_arith)
                    requires t == ai / bi, m == ai % bi, ai == (ai / bi) * bi + ai % bi;
            }
            lemma_fdiv_unique(ai, bi, t as int, m as int);
        }
        (t, m)
    }
}

/// Euclidean division and remainder (`div_euclid`, `rem_euclid`) by any
/// nonzero divisor: the remainder is in `0..|b|`.
pub fn euclid_div_mod(a: i128, b: i128) -> (r: (i128, i128))
    requires
        b != 0,
        a > i128::MIN,
        b > i128::MIN,
    ensures
        r.0 == a as int / b as int,
        r.1 == a as int % b as int,
        abs(r.0 as int) <= abs(a as int),
{
    if b > 0 {
        proof {
            lemma_fdiv_abs_le(a as int, b as int);
        }
        floor_div_mod(a, b)
    } else {
        let (q, m) = floor_div_mod(a, -b);
        proof {
            let ai = a as int;
            let bi = b as int;
            lemma_fdiv_props(ai, -bi);
            lemma_fdiv_abs_le(ai, -bi);
            vstd::arithmetic::div_mod::lemma_fundamental_div_mod(ai, bi);
            let q2 = ai / bi;
            let m2 = ai % bi;
            assert(0 <= m2 < -bi) by (nonlinear_arith)
                requires bi < 0, m2 == ai % bi;
            assert(q2 == -q) by (nonlinear_arith)
                requires ai == bi * q2 + m2, ai == q * (-bi) + m, 0 <= m < -bi, 0 <= m2 < -bi, bi < 0;
            assert(m2 == m) by (nonlinear_arith)
                requires ai == bi * q2 + m2, ai == q * (-bi) + m, q2 == -q;
        }
        (-q, m)
    }
}

/// Rust's truncating `/` on `i128`, for any nonzero divisor.
pub fn trunc_div(a: i128, b: i128) -> (r: i128)
    requires
        b != 0,
        a > i128::MIN,
        b > i128::MIN,
    ensures
        r == tdiv(a as int, b as int),
{
    let ghost ai = a as int;
    let ghost bi = b as int;
    if b > 0 {
        let t = a / b;
        proof {
            if a >= 0 {
                assert(t == ai / bi);
            } else {
                assert(t == -((-ai) / bi));
            }
        }
        t
    } else {
        // Divide by the magnitude, then flip the sign.
        let nb = -b;
        let t = a / nb;
        proof {
            if a >= 0 {
                assert(t == ai / (-bi));
                assert(ai / (-bi) <= ai) by (nonlinear_arith) requires ai >= 0, -bi > 0;
            } else {
                assert(t == -((-ai) / (-bi)));
                assert((-ai) / (-bi) <= -ai) by (nonlinear_arith) requires -ai > 0, -bi > 0;
            }
        }
        -t
    }
}

} // verus!
