//! Display units and the pitch value the operator works with.
use vstd::prelude::*;
use vstd::string::StringSliceAdditionalSpecFns;
use crate::digits::{all_digits, digits_value, find, find_byte, is_digit, pow10};

verus! {

#[derive(Clone, Copy, Debug, PartialEq, Eq, Structural)]
pub enum Unit {
    Mm,
    Inch,
}

impl Unit {
    pub open spec fn spec_du_per_milli(self) -> int {
        match self {
            Unit::Mm => 10,
            Unit::Inch => 254,
        }
    }

    /// du in one thousandth of this unit (0.001mm = 10du, 0.001" = 254du).
    pub fn du_per_milli(self) -> (r: i64)
        ensures
            r == self.spec_du_per_milli(),
    {
        match self {
            Unit::Mm => 10,
            Unit::Inch => 254,
        }
    }

    /// The other unit.
    pub fn toggled(self) -> (r: Unit)
        ensures
            r != self,
    {
        match self {
            Unit::Mm => Unit::Inch,
            Unit::Inch => Unit::Mm,
        }
    }

    /// Name shown on the unit button.
    pub fn label(self) -> (r: &'static str)
        ensures
            self == Unit::Mm ==> r@ == "MM"@,
            self == Unit::Inch ==> r@ == "IN"@,
    {
        match self {
            Unit::Mm => "MM",
            Unit::Inch => "IN",
        }
    }

    /// Suffix written after a value in this unit.
    pub fn suffix(self) -> (r: &'static str)
        ensures
            self == Unit::Mm ==> r@ == "mm"@,
            self == Unit::Inch ==> r@ == "in"@,
    {
        match self {
            Unit::Mm => "mm",
            Unit::Inch => "in",
        }
    }
}

/// A pitch in du per spindle turn, written out: thousandths of a mm are 10
/// du, thousandths of an inch 254 du (25.4 mm), negative when reversed.
pub proof fn lemma_pitch_du(p: Pitch)
    ensures
        p.unit == Unit::Mm && !p.reversed ==> p.spec_du() == 10 * p.magnitude_milli,
        p.unit == Unit::Mm && p.reversed ==> p.spec_du() == -10 * p.magnitude_milli,
        p.unit == Unit::Inch && !p.reversed ==> p.spec_du() == 254 * p.magnitude_milli,
        p.unit == Unit::Inch && p.reversed ==> p.spec_du() == -254 * p.magnitude_milli,
        p.spec_signed_milli() * p.unit.spec_du_per_milli() == p.spec_du(),
{
}

/// Pitch increments selectable with the step buttons, in thousandths of the
/// current unit: .001, .01, .1, 1, 10.
pub const STEP_SIZES_MILLI: [u32; 5] = [1, 10, 100, 1_000, 10_000];

/// Jog distances, in thousandths of the current unit: .01, .1, 1, 10.
pub const JOG_SIZES_MILLI: [u32; 4] = [10, 100, 1_000, 10_000];

/// Signed pitch expressed as a magnitude in thousandths of `unit` plus a
/// direction. Toggling the unit keeps the number and changes its meaning
/// (0.100mm becomes 0.100").
#[derive(Clone, Copy, Debug, PartialEq, Eq, Structural)]
pub struct Pitch {
    pub magnitude_milli: u32,
    pub reversed: bool,
    pub unit: Unit,
}

impl Pitch {
    pub open spec fn spec_du(self) -> int {
        let du = self.magnitude_milli * self.unit.spec_du_per_milli();
        if self.reversed { -du } else { du }
    }

    pub open spec fn spec_signed_milli(self) -> int {
        if self.reversed { -self.magnitude_milli } else { self.magnitude_milli as int }
    }

    /// Signed pitch in du per spindle revolution.
    pub fn du(&self) -> (r: i64)
        ensures
            r == self.spec_du(),
    {
        let du = self.magnitude_milli as i64 * self.unit.du_per_milli();
        if self.reversed {
            -du
        } else {
            du
        }
    }

    /// Signed thousandths of the unit, as shown on screen.
    pub fn signed_milli(&self) -> (r: i64)
        ensures
            r == self.spec_signed_milli(),
    {
        if self.reversed {
            -(self.magnitude_milli as i64)
        } else {
            self.magnitude_milli as i64
        }
    }
}

/// Integer part of an entry: the bytes before the first '.'.
pub open spec fn entry_int_part(b: Seq<u8>) -> Seq<u8> {
    b.take(find(b, 46))
}

/// Fraction part of an entry: the bytes after the first '.', if any.
pub open spec fn entry_frac_part(b: Seq<u8>) -> Seq<u8> {
    if find(b, 46) < b.len() { b.skip(find(b, 46) + 1) } else { Seq::empty() }
}

/// Value in thousandths of an entry such as "1.25", ".5" or "12": digits with
/// at most one point and at most three decimals, fitting a `u32`.
pub open spec fn entry_milli(b: Seq<u8>) -> Option<u32> {
    let ip = entry_int_part(b);
    let fp = entry_frac_part(b);
    let v = digits_value(ip + fp) * pow10((3 - fp.len()) as nat);
    if b.len() == 0 || b =~= seq![46u8] || fp.len() > 3 || !all_digits(ip + fp) || v > u32::MAX {
        None
    } else {
        Some(v as u32)
    }
}

proof fn lemma_pow10_add(a: nat, b: nat)
    ensures
        pow10(a + b) == pow10(a) * pow10(b),
    decreases a,
{
    if a > 0 {
        lemma_pow10_add((a - 1) as nat, b);
        assert(pow10(a + b) == 10 * pow10((a - 1 + b) as nat));
        assert(pow10(a) == 10 * pow10((a - 1) as nat));
        assert(10 * (pow10((a - 1) as nat) * pow10(b)) == (10 * pow10((a - 1) as nat)) * pow10(b))
            by (nonlinear_arith);
    } else {
        assert(pow10(0) == 1);
        assert(a + b == b);
    }
}

/// Parse an operator entry such as "1.25", ".5" or "12" into thousandths of the
/// unit. At most three decimals; anything else is rejected.
#[verifier::loop_isolation(false)]
pub fn parse_entry_milli(s: &str) -> (r: Option<u32>)
    ensures
        r == entry_milli(s.spec_bytes()),
{
    let b = s.as_bytes();
    let n = b.len();
    if n == 0 || (n == 1 && b[0] == 46u8) {
        proof {
            if n == 1 {
                assert(b@ =~= seq![46u8]);
            }
        }
        return None;
    }
    let k = find_byte(b, 46u8);
    proof {
        crate::digits::lemma_find(b@, 46);
    }
    let frac_len: usize = if k < n { n - k - 1 } else { 0 };
    let ghost ip = entry_int_part(b@);
    let ghost fp = entry_frac_part(b@);
    let ghost d = ip + fp;
    assert(fp.len() == frac_len);
    if frac_len > 3 {
        return None;
    }
    assert(d.len() == if k < n { n - 1 } else { n as int });
    assert(forall|j: int| 0 <= j < d.len() ==> d[j] == (if j < k { b@[j] } else { b@[j + 1] }));
    let mut value: u32 = 0;
    let mut i: usize = 0;
    while i < n
        invariant
            0 <= i <= n,
            n == b@.len(),
            k == find(b@, 46),
            d.len() == if k < n { n - 1 } else { n as int },
            forall|j: int| 0 <= j < d.len() ==> d[j] == (if j < k { b@[j] } else { b@[j + 1] }),
            all_digits(d.take(if i <= k { i as int } else { i - 1 })),
            value == digits_value(d.take(if i <= k { i as int } else { i - 1 })),
        decreases n - i,
    {
        let ghost j: int = if i <= k { i as int } else { i - 1 };
        if i != k {
            let c = b[i];
            assert(d[j] == c);
            if !(48u8 <= c && c <= 57u8) {
                assert(!is_digit(d[j]));
                return None;
            }
            let v = value as u64 * 10 + (c - 48u8) as u64;
            assert(d.take(j + 1) =~= d.take(j).push(c));
            proof {
                crate::digits::lemma_digits_push(d.take(j), c);
            }
            if v > u32::MAX as u64 {
                proof {
                    if all_digits(d) {
                        crate::digits::lemma_digits_prefix_le(d, j + 1);
                        crate::digits::lemma_pow10_pos((3 - fp.len()) as nat);
                        assert(digits_value(d) * pow10((3 - fp.len()) as nat) >= digits_value(d))
                            by (nonlinear_arith)
                            requires pow10((3 - fp.len()) as nat) >= 1;
                    }
                }
                return None;
            }
            value = v as u32;
        }
        i += 1;
    }
    assert(d.take(d.len() as int) =~= d);
    assert(pow10(0) == 1);
    assert(value == digits_value(d) * pow10(0));
    let mut m: usize = frac_len;
    while m < 3
        invariant
            frac_len <= m <= 3,
            frac_len == fp.len(),
            all_digits(d),
            value == digits_value(d) * pow10((m - frac_len) as nat),
        decreases 3 - m,
    {
        let v = value as u64 * 10;
        proof {
            assert(pow10((m + 1 - frac_len) as nat) == 10 * pow10((m - frac_len) as nat));
            assert(v == digits_value(d) * pow10((m + 1 - frac_len) as nat)) by (nonlinear_arith)
                requires v == value * 10, value == digits_value(d) * pow10((m - frac_len) as nat),
                    pow10((m + 1 - frac_len) as nat) == 10 * pow10((m - frac_len) as nat);
        }
        if v > u32::MAX as u64 {
            proof {
                let a = digits_value(d) * pow10((m + 1 - frac_len) as nat);
                let e = (3 - m - 1) as nat;
                crate::digits::lemma_pow10_pos(e);
                lemma_pow10_add((m + 1 - frac_len) as nat, e);
                assert(digits_value(d) * pow10((3 - frac_len) as nat) == a * pow10(e)) by (nonlinear_arith)
                    requires pow10((3 - frac_len) as nat) == pow10((m + 1 - frac_len) as nat) * pow10(e),
                        a == digits_value(d) * pow10((m + 1 - frac_len) as nat);
                assert(a * pow10(e) >= a) by (nonlinear_arith) requires pow10(e) >= 1, a >= 0;
            }
            return None;
        }
        value = v as u32;
        m += 1;
    }
    Some(value)
}

} // verus!
