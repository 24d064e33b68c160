//! Decimal digit strings over bytes, shared by the parsers.
use vstd::prelude::*;

verus! {

/// ASCII `'0'..='9'`.
pub open spec fn is_digit(c: u8) -> bool {
    48 <= c <= 57
}

pub open spec fn all_digits(d: Seq<u8>) -> bool {
    forall|i: int| 0 <= i < d.len() ==> is_digit(#[trigger] d[i])
}

/// Value of a string of decimal digits (most significant first).
pub open spec fn digits_value(d: Seq<u8>) -> nat
    decreases d.len(),
{
    if d.len() == 0 {
        0
    } else {
        digits_value(d.drop_last()) * 10 + (d.last() - 48) as nat
    }
}

pub open spec fn pow10(n: nat) -> nat
    decreases n,
{
    if n == 0 {
        1
    } else {
        10 * pow10((n - 1) as nat)
    }
}

/// Index of the first `x` at or after `i`, or `b.len()` if there is none.
pub open spec fn find_from(b: Seq<u8>, x: u8, i: int) -> int
    decreases b.len() - i,
{
    if i >= b.len() {
        b.len() as int
    } else if b[i] == x {
        i
    } else {
        find_from(b, x, i + 1)
    }
}

/// Index of the first `x` in `b`, or `b.len()` if there is none.
pub open spec fn find(b: Seq<u8>, x: u8) -> int {
    find_from(b, x, 0)
}

pub proof fn lemma_find_from(b: Seq<u8>, x: u8, i: int)
    requires
        0 <= i <= b.len(),
    ensures
        i <= find_from(b, x, i) <= b.len(),
        find_from(b, x, i) < b.len() ==> b[find_from(b, x, i)] == x,
        forall|j: int| i <= j < find_from(b, x, i) ==> b[j] != x,
    decreases b.len() - i,
{
    if i < b.len() && b[i] != x {
        lemma_find_from(b, x, i + 1);
    }
}

pub proof fn lemma_find(b: Seq<u8>, x: u8)
    ensures
        0 <= find(b, x) <= b.len(),
        find(b, x) < b.len() ==> b[find(b, x)] == x,
        forall|j: int| 0 <= j < find(b, x) ==> b[j] != x,
{
    lemma_find_from(b, x, 0);
}

/// Exec search for the first `x` in `b`.
pub fn find_byte(b: &[u8], x: u8) -> (r: usize)
    ensures
        r == find(b@, x),
{
    proof {
        lemma_find(b@, x);
    }
    let mut i: usize = 0;
    while i < b.len()
        invariant
            0 <= i <= b.len(),
            forall|j: int| 0 <= j < i ==> b@[j] != x,
        decreases b.len() - i,
    {
        if b[i] == x {
            proof {
                lemma_find(b@, x);
            }
            return i;
        }
        i += 1;
    }
    proof {
        lemma_find(b@, x);
    }
    i
}

pub proof fn lemma_digits_prefix_le(d: Seq<u8>, j: int)
    requires
        0 <= j <= d.len(),
    ensures
        digits_value(d.take(j)) <= digits_value(d),
    decreases d.len(),
{
    if j < d.len() {
        assert(d.drop_last().take(j) =~= d.take(j));
        lemma_digits_prefix_le(d.drop_last(), j);
    } else {
        assert(d.take(j) =~= d);
    }
}

pub proof fn lemma_digits_push(d: Seq<u8>, c: u8)
    ensures
        digits_value(d.push(c)) == digits_value(d) * 10 + (c - 48) as nat,
{
    assert(d.push(c).drop_last() =~= d);
}

pub proof fn lemma_pow10_pos(n: nat)
    ensures
        pow10(n) >= 1,
    decreases n,
{
    if n > 0 {
        lemma_pow10_pos((n - 1) as nat);
    }
}

} // verus!
