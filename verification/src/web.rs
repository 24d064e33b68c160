//! The setup web page: minimal HTTP request parsing, the settings form, and
//! applying a submitted form to [`Settings`].
use vstd::prelude::*;
use vstd::string::StringSliceAdditionalSpecFns;
use vstd::string::StringExecFns;
use vstd::utf8::{decode_utf8, encode_utf8, valid_utf8, is_char_boundary};
use crate::digits::{all_digits, digits_value, find, find_byte, is_digit, lemma_digits_push, lemma_digits_prefix_le, lemma_find};
use crate::settings::{field, field_get, field_put, field_set, field_spec, field_value, Field, FIELD_COUNT, Kind, Settings, Timing, SECTIONS};
use crate::display::{decimal, low_digits};

verus! {

/// Unicode `White_Space`, what `char::is_whitespace` tests.
pub open spec fn is_white_space(c: char) -> bool {
    let u = c as u32;
    ||| 0x09 <= u <= 0x0D
    ||| u == 0x20
    ||| u == 0x85
    ||| u == 0xA0
    ||| u == 0x1680
    ||| 0x2000 <= u <= 0x200A
    ||| u == 0x2028
    ||| u == 0x2029
    ||| u == 0x202F
    ||| u == 0x205F
    ||| u == 0x3000
}

/// `s` without leading white space.
pub open spec fn trim_start_chars(s: Seq<char>) -> Seq<char>
    decreases s.len(),
{
    if s.len() > 0 && is_white_space(s[0]) { trim_start_chars(s.drop_first()) } else { s }
}

/// `s` without trailing white space.
pub open spec fn trim_end_chars(s: Seq<char>) -> Seq<char>
    decreases s.len(),
{
    if s.len() > 0 && is_white_space(s.last()) { trim_end_chars(s.drop_last()) } else { s }
}

/// `s` without leading and trailing white space.
pub open spec fn trim_chars(s: Seq<char>) -> Seq<char> {
    trim_end_chars(trim_start_chars(s))
}

/// `str::trim`: `s` without leading and trailing white space (characters
/// for which `char::is_whitespace` holds).
#[verifier::external_body]
fn trim(s: &str) -> (r: &str)
    ensures
        r@ == trim_chars(s@),
{
    s.trim()
}

/// `core::str::from_utf8`: the bytes as a string when they are valid UTF-8.
#[verifier::external_body]
fn utf8_str(b: &[u8]) -> (r: Option<&str>)
    ensures
        r is Some <==> valid_utf8(b@),
        r matches Some(s) ==> s.spec_bytes() == b@,
{
    core::str::from_utf8(b).ok()
}

/// Text parsed by Rust's `FromStr` for an unsigned integer: an optional `+`,
/// then at least one decimal digit, the value at most `max`.
pub open spec fn parse_unsigned(b: Seq<u8>, max: int) -> Option<int> {
    let d = if b.len() > 0 && b[0] == 43 { b.drop_first() } else { b };
    if d.len() == 0 || !all_digits(d) || digits_value(d) > max { None } else { Some(digits_value(d) as int) }
}

/// Text parsed by Rust's `FromStr` for `i64`: an optional sign, then at
/// least one decimal digit, the value within `i64`.
pub open spec fn parse_i64(b: Seq<u8>) -> Option<int> {
    if b.len() > 0 && b[0] == 45 {
        let d = b.drop_first();
        if d.len() == 0 || !all_digits(d) || digits_value(d) > 0x8000_0000_0000_0000 {
            None
        } else {
            Some(-digits_value(d))
        }
    } else {
        parse_unsigned(b, i64::MAX as int)
    }
}

/// Value of the decimal digits `b[start..]`, if they are all digits, there
/// is at least one, and the value is at most `max`.
fn digits_at_most(b: &[u8], start: usize, max: u64) -> (r: Option<u64>)
    requires
        start <= b@.len(),
    ensures
        ({
            let d = b@.skip(start as int);
            r == (if d.len() == 0 || !all_digits(d) || digits_value(d) > max {
                None::<u64>
            } else {
                Some(digits_value(d) as u64)
            })
        }),
{
    let ghost d = b@.skip(start as int);
    if start == b.len() {
        return None;
    }
    let mut v: u64 = 0;
    let mut i = start;
    while i < b.len()
        invariant
            start <= i <= b@.len(),
            d == b@.skip(start as int),
            all_digits(d.take(i - start)),
            v == digits_value(d.take(i - start)),
            v <= max,
        decreases b@.len() - i,
    {
        let c = b[i];
        if c < 48 || c > 57 {
            assert(!is_digit(d[i - start]));
            return None;
        }
        let ghost k = i - start;
        assert(d.take(k + 1) =~= d.take(k).push(c));
        proof {
            lemma_digits_push(d.take(k), c);
        }
        let digit = (c - 48) as u64;
        if digit > max || v > (max - digit) / 10 {
            proof {
                assert(v * 10 + digit > max) by (nonlinear_arith)
                    requires digit > max || v > (max - digit) / 10, v >= 0;
                lemma_digits_prefix_le(d, k + 1);
            }
            return None;
        }
        proof {
            assert(v * 10 + digit <= max) by (nonlinear_arith)
                requires v <= (max - digit) / 10, digit <= max;
        }
        v = v * 10 + digit;
        i += 1;
    }
    assert(d.take(i - start) =~= d);
    Some(v)
}

/// `str::parse::<usize>`.
fn parse_usize(s: &str) -> (r: Option<usize>)
    ensures
        r == (match parse_unsigned(s.spec_bytes(), usize::MAX as int) {
            Some(v) => Some(v as usize),
            None => None::<usize>,
        }),
{
    let b = s.as_bytes();
    let start: usize = if b.len() > 0 && b[0] == 43u8 { 1 } else { 0 };
    proof {
        assert(b@.skip(start as int) =~= (if b@.len() > 0 && b@[0] == 43 { b@.drop_first() } else { b@ }));
    }
    match digits_at_most(b, start, usize::MAX as u64) {
        Some(v) => Some(v as usize),
        None => None,
    }
}

/// `str::parse::<i64>`.
fn parse_i64_str(s: &str) -> (r: Option<i64>)
    ensures
        r == (match parse_i64(s.spec_bytes()) {
            Some(v) => Some(v as i64),
            None => None::<i64>,
        }),
{
    let b = s.as_bytes();
    if b.len() > 0 && b[0] == 45u8 {
        proof {
            assert(b@.skip(1) =~= b@.drop_first());
        }
        match digits_at_most(b, 1, 0x8000_0000_0000_0000) {
            Some(v) => Some(if v == 0x8000_0000_0000_0000 { i64::MIN } else { -(v as i64) }),
            None => None,
        }
    } else {
        let start: usize = if b.len() > 0 && b[0] == 43u8 { 1 } else { 0 };
        proof {
            assert(b@.skip(start as int) =~= (if b@.len() > 0 && b@[0] == 43 { b@.drop_first() } else { b@ }));
        }
        match digits_at_most(b, start, i64::MAX as u64) {
            Some(v) => Some(v as i64),
            None => None,
        }
    }
}

/// Value of a hexadecimal digit.
pub open spec fn hex_val(c: u8) -> Option<int> {
    if 48 <= c <= 57 {
        Some(c - 48)
    } else if 97 <= c <= 102 {
        Some(c - 87)
    } else if 65 <= c <= 70 {
        Some(c - 55)
    } else {
        None
    }
}

/// Byte of a `%XX` escape, as `u8::from_str_radix(.., 16)` reads the two
/// characters: two hex digits, or `+` and one hex digit.
pub open spec fn escaped_byte(a: u8, b: u8) -> Option<u8> {
    match (hex_val(a), hex_val(b)) {
        (Some(x), Some(y)) => Some((16 * x + y) as u8),
        (None, Some(y)) => if a == 43 { Some(y as u8) } else { None },
        _ => None,
    }
}

/// `application/x-www-form-urlencoded` text decoded: `+` is a space and
/// `%XX` an escaped byte; `None` for a malformed escape.
pub open spec fn url_decoded(s: Seq<u8>) -> Option<Seq<u8>>
    decreases s.len(),
{
    if s.len() == 0 {
        Some(Seq::empty())
    } else if s[0] == 37 {
        if s.len() < 3 {
            None
        } else {
            match (escaped_byte(s[1], s[2]), url_decoded(s.skip(3))) {
                (Some(x), Some(r)) => Some(seq![x] + r),
                _ => None,
            }
        }
    } else {
        match url_decoded(s.drop_first()) {
            Some(r) => Some(seq![if s[0] == 43 { 32u8 } else { s[0] }] + r),
            None => None,
        }
    }
}

/// Form decoding leaves text without `%` or `+` as it is, reads `+` as a
/// space, and reads `%` followed by the two upper-case hex digits of a byte
/// (as a browser writes them) as that byte.
pub proof fn lemma_url_decoding(s: Seq<u8>, x: u8)
    ensures
        (forall|i: int| 0 <= i < s.len() ==> s[i] != 37 && s[i] != 43) ==> url_decoded(s) == Some(s),
        url_decoded(seq![43u8]) == Some(seq![32u8]),
        ({
            let hi = (x / 16) as int;
            let lo = (x % 16) as int;
            let h = (if hi < 10 { 48 + hi } else { 55 + hi }) as u8;
            let l = (if lo < 10 { 48 + lo } else { 55 + lo }) as u8;
            url_decoded(seq![37u8, h, l]) == Some(seq![x])
        }),
    decreases s.len(),
{
    if s.len() > 0 && (forall|i: int| 0 <= i < s.len() ==> s[i] != 37 && s[i] != 43) {
        let t = s.drop_first();
        assert forall|i: int| 0 <= i < t.len() implies t[i] != 37 && t[i] != 43 by {
            assert(t[i] == s[i + 1]);
        }
        lemma_url_decoding(t, x);
        assert(url_decoded(t) == Some(t));
        assert(seq![s[0]] + t =~= s);
        assert(url_decoded(s) == Some(seq![s[0]] + t));
    }
    let p = seq![43u8];
    assert(p.drop_first() =~= Seq::<u8>::empty());
    assert(url_decoded(Seq::<u8>::empty()) == Some(Seq::<u8>::empty()));
    assert(url_decoded(p) == Some(seq![32u8] + Seq::<u8>::empty()));
    assert(seq![32u8] + Seq::<u8>::empty() =~= seq![32u8]);
    let hi = (x / 16) as int;
    let lo = (x % 16) as int;
    let h = (if hi < 10 { 48 + hi } else { 55 + hi }) as u8;
    let l = (if lo < 10 { 48 + lo } else { 55 + lo }) as u8;
    let q = seq![37u8, h, l];
    assert(q.skip(3) =~= Seq::<u8>::empty());
    assert(hex_val(h) == Some(hi));
    assert(hex_val(l) == Some(lo));
    assert(seq![x] + Seq::<u8>::empty() =~= seq![x]);
}

fn hex_digit(c: u8) -> (r: Option<u8>)
    ensures
        r == (match hex_val(c) {
            Some(v) => Some(v as u8),
            None => None::<u8>,
        }),
{
    if 48 <= c && c <= 57 {
        Some(c - 48)
    } else if 97 <= c && c <= 102 {
        Some(c - 87)
    } else if 65 <= c && c <= 70 {
        Some(c - 55)
    } else {
        None
    }
}

fn escape_byte(a: u8, b: u8) -> (r: Option<u8>)
    ensures
        r == escaped_byte(a, b),
{
    match (hex_digit(a), hex_digit(b)) {
        (Some(x), Some(y)) => Some(16 * x + y),
        (None, Some(y)) => if a == 43 { Some(y) } else { None },
        _ => None,
    }
}

proof fn lemma_url_decoded_step(s: Seq<u8>, i: int)
    requires
        0 <= i < s.len(),
        s[i] != 37,
    ensures
        url_decoded(s.skip(i)) == (match url_decoded(s.skip(i + 1)) {
            Some(r) => Some(seq![if s[i] == 43 { 32u8 } else { s[i] }] + r),
            None => None::<Seq<u8>>,
        }),
{
    assert(s.skip(i).drop_first() =~= s.skip(i + 1));
}

proof fn lemma_url_decoded_escape(s: Seq<u8>, i: int)
    requires
        0 <= i,
        i + 3 <= s.len(),
        s[i] == 37,
    ensures
        url_decoded(s.skip(i)) == (match (escaped_byte(s[i + 1], s[i + 2]), url_decoded(s.skip(i + 3))) {
            (Some(x), Some(r)) => Some(seq![x] + r),
            _ => None::<Seq<u8>>,
        }),
{
    assert(s.skip(i).skip(3) =~= s.skip(i + 3));
}

/// Decode `%XX` escapes and `+` of `s` into the start of `buf`; the decoded
/// length, or `None` if an escape is malformed or the result doesn't fit.
fn url_decode(bytes: &[u8], buf: &mut [u8]) -> (r: Option<usize>)
    ensures
        final(buf)@.len() == old(buf)@.len(),
        match url_decoded(bytes@) {
            Some(d) if d.len() <= old(buf)@.len() => r == Some(d.len() as usize)
                && final(buf)@.take(d.len() as int) == d,
            _ => r is None,
        },
{
    let ghost sb = bytes@;
    let mut i: usize = 0;
    let mut n: usize = 0;
    proof {
        assert(sb.skip(0) =~= sb);
        match url_decoded(sb) {
            Some(r) => { assert(buf@.take(0) + r =~= r); },
            None => {},
        }
    }
    while i < bytes.len()
        invariant
            sb == bytes@,
            0 <= i <= sb.len(),
            n <= buf@.len(),
            buf@.len() == old(buf)@.len(),
            url_decoded(sb) == (match url_decoded(sb.skip(i as int)) {
                Some(r) => Some(buf@.take(n as int) + r),
                None => None::<Seq<u8>>,
            }),
        decreases sb.len() - i,
    {
        let ghost before = buf@.take(n as int);
        let b = if bytes[i] == 37u8 {
            if bytes.len() - i < 3 {
                assert(url_decoded(sb.skip(i as int)) is None);
                return None;
            }
            proof {
                lemma_url_decoded_escape(sb, i as int);
            }
            match escape_byte(bytes[i + 1], bytes[i + 2]) {
                Some(x) => {
                    i += 2;
                    x
                },
                None => return None,
            }
        } else {
            proof {
                lemma_url_decoded_step(sb, i as int);
            }
            if bytes[i] == 43u8 { 32u8 } else { bytes[i] }
        };
        if n >= buf.len() {
            return None;
        }
        buf[n] = b;
        assert(buf@.take(n + 1) =~= before.push(b));
        n += 1;
        i += 1;
        proof {
            match url_decoded(sb.skip(i as int)) {
                Some(r) => {
                    assert(before + (seq![b] + r) =~= buf@.take(n as int) + r);
                },
                None => {},
            }
        }
    }
    assert(sb.skip(i as int) =~= Seq::<u8>::empty());
    assert(buf@.take(n as int) + Seq::<u8>::empty() =~= buf@.take(n as int));
    Some(n)
}

/// Decimals of a `×10000` number, padded with zeros to 4.
pub open spec fn padded4(frac: Seq<u8>) -> Seq<u8> {
    frac + Seq::new((4 - frac.len()) as nat, |i: int| 48u8)
}

/// "4", "4.0", "3.175", ".5" → value × 10000. At most 4 decimals.
pub open spec fn decimal4(b: Seq<u8>) -> Option<int> {
    let k = find(b, 46);
    let whole = b.take(k);
    let frac = if k < b.len() { b.skip(k + 1) } else { Seq::empty() };
    if frac.len() > 4 || (whole.len() == 0 && frac.len() == 0) || !all_digits(whole) || !all_digits(frac) {
        None
    } else {
        let v = digits_value(whole + padded4(frac));
        if v > i64::MAX { None } else { Some(v as int) }
    }
}

/// All of `b[from..to]` are decimal digits.
fn digits_only(b: &[u8], from: usize, to: usize) -> (r: bool)
    requires
        from <= to <= b@.len(),
    ensures
        r == all_digits(b@.subrange(from as int, to as int)),
{
    let mut i = from;
    while i < to
        invariant
            from <= i <= to <= b@.len(),
            all_digits(b@.subrange(from as int, i as int)),
        decreases to - i,
    {
        if b[i] < 48 || b[i] > 57 {
            assert(!is_digit(b@.subrange(from as int, to as int)[i - from]));
            return false;
        }
        assert(b@.subrange(from as int, i + 1) =~= b@.subrange(from as int, i as int).push(b[i as int]));
        i += 1;
    }
    true
}

/// "4", "4.0", "3.175", ".5" → value × 10000. At most 4 decimals.
#[verifier::loop_isolation(false)]
pub fn parse_decimal4(s: &str) -> (r: Option<i64>)
    ensures
        r == (match decimal4(s.spec_bytes()) {
            Some(v) => Some(v as i64),
            None => None::<i64>,
        }),
{
    let b = s.as_bytes();
    let n = b.len();
    let k = find_byte(b, 46u8);
    proof {
        lemma_find(b@, 46u8);
    }
    let frac_start = if k < n { k + 1 } else { n };
    let frac_len = n - frac_start;
    let ghost whole = b@.take(k as int);
    let ghost frac = if k < n { b@.skip(k + 1) } else { Seq::<u8>::empty() };
    assert(whole =~= b@.subrange(0, k as int));
    assert(frac =~= b@.subrange(frac_start as int, n as int));
    if frac_len > 4 || (k == 0 && frac_len == 0) {
        return None;
    }
    if !digits_only(b, 0, k) || !digits_only(b, frac_start, n) {
        return None;
    }
    let ghost d = whole + padded4(frac);
    let head = &b[0..k];
    assert(head@ =~= whole);
    let mut v: i64 = if k == 0 {
        0
    } else {
        assert(head@.skip(0) =~= whole);
        match digits_at_most(head, 0, i64::MAX as u64) {
            Some(v) => v as i64,
            None => {
                proof {
                    lemma_digits_prefix_le(d, whole.len() as int);
                    assert(d.take(whole.len() as int) =~= whole);
                }
                return None;
            },
        }
    };
    assert(d.take(k as int) =~= whole);
    let mut i: usize = 0;
    while i < 4
        invariant
            0 <= i <= 4,
            frac_len <= 4,
            frac_start + frac_len == n == b@.len(),
            frac =~= b@.subrange(frac_start as int, n as int),
            d == whole + padded4(frac),
            d.len() == k + 4,
            all_digits(d),
            v == digits_value(d.take(k + i)),
        decreases 4 - i,
    {
        let c = if i < frac_len { b[frac_start + i] } else { 48u8 };
        assert(d[k + i] == c);
        assert(d.take(k + i + 1) =~= d.take(k + i).push(c));
        proof {
            lemma_digits_push(d.take(k + i), c);
        }
        let digit = (c - 48) as i64;
        let next = match v.checked_mul(10) {
            Some(t) => t.checked_add(digit),
            None => None,
        };
        match next {
            Some(t) => {
                v = t;
            },
            None => {
                proof {
                    assert(v >= 0);
                    assert(v * 10 + digit > i64::MAX);
                    assert(digits_value(d.take(k + i + 1)) == v * 10 + digit);
                    lemma_digits_prefix_le(d, k + i + 1);
                }
                return None;
            },
        }
        i += 1;
    }
    assert(d.take(k + 4) =~= d);
    Some(v)
}

/// Why a submitted form was rejected.
#[derive(Clone, Copy, Debug, PartialEq, Eq)]
pub enum FormError {
    /// A field is missing, unparseable or out of range.
    Field(&'static str),
    /// All fields parse but the combination is invalid.
    Invalid(&'static str),
}

impl FormError {
    pub fn message(&self) -> (r: &'static str)
        ensures
            r == match *self {
                FormError::Field(l) => l,
                FormError::Invalid(l) => l,
            },
    {
        match self {
            FormError::Field(label) => label,
            FormError::Invalid(label) => label,
        }
    }
}

/// `b` split at each `sep`, as `str::split` does.
pub open spec fn pieces(b: Seq<u8>, sep: u8) -> Seq<Seq<u8>>
    decreases b.len(),
{
    let k = find(b, sep);
    if 0 <= k < b.len() {
        seq![b.take(k)] + pieces(b.skip(k + 1), sep)
    } else {
        seq![b]
    }
}

/// Key of a `key=value` pair (all of it without `=`).
pub open spec fn key_of(pair: Seq<u8>) -> Seq<u8> {
    pair.take(find(pair, 61))
}

/// Value of a `key=value` pair (empty without `=`).
pub open spec fn raw_of(pair: Seq<u8>) -> Seq<u8> {
    let k = find(pair, 61);
    if k < pair.len() { pair.skip(k + 1) } else { Seq::empty() }
}

/// First setting from `i` on whose key is `key`.
pub open spec fn field_index_from(key: Seq<u8>, i: int) -> Option<usize>
    decreases FIELD_COUNT - i,
{
    if i < 0 || i >= FIELD_COUNT {
        None
    } else if field_spec(i as usize).key.spec_bytes() == key {
        Some(i as usize)
    } else {
        field_index_from(key, i + 1)
    }
}

/// Longest decoded form value, in bytes.
pub const VALUE_MAX_LEN: usize = 24;

/// The value entered for field `f` as raw form text: URL-decoded (at most
/// [`VALUE_MAX_LEN`] bytes of UTF-8), trimmed, parsed by kind (a ticked
/// checkbox is 1), and within the field's range.
pub open spec fn field_input(raw: Seq<u8>, f: Field) -> Result<i64, FormError> {
    match url_decoded(raw) {
        Some(d) => if d.len() <= VALUE_MAX_LEN && valid_utf8(d) {
            let v = encode_utf8(trim_chars(decode_utf8(d)));
            let parsed = match f.kind {
                Kind::Flag => Some(1int),
                Kind::Integer => parse_i64(v),
                Kind::Decimal4 => decimal4(v),
            };
            match parsed {
                Some(x) => if f.min <= x <= f.max { Ok(x as i64) } else { Err(FormError::Field(f.label)) },
                None => Err(FormError::Field(f.label)),
            }
        } else {
            Err(FormError::Field(f.label))
        },
        None => Err(FormError::Field(f.label)),
    }
}

/// Settings and fields seen after applying `pairs` in order; the first
/// rejected value is the error. Pairs with an unknown key are ignored.
pub open spec fn apply_pairs(pairs: Seq<Seq<u8>>, s: Settings, seen: Seq<bool>) -> Result<(Settings, Seq<bool>), FormError>
    decreases pairs.len(),
{
    if pairs.len() == 0 {
        Ok((s, seen))
    } else {
        let p = pairs[0];
        match field_index_from(key_of(p), 0) {
            None => apply_pairs(pairs.drop_first(), s, seen),
            Some(i) => match field_input(raw_of(p), field_spec(i)) {
                Err(e) => Err(e),
                Ok(v) => apply_pairs(pairs.drop_first(), field_set(s, i, v), seen.update(i as int, true)),
            },
        }
    }
}

/// `s` with the checkboxes from field `i` on cleared (unticked boxes are
/// absent from a form).
pub open spec fn flags_cleared(s: Settings, i: int) -> Settings
    decreases FIELD_COUNT - i,
{
    if i < 0 || i >= FIELD_COUNT {
        s
    } else {
        let s1 = if field_spec(i as usize).kind == Kind::Flag { field_set(s, i as usize, 0) } else { s };
        flags_cleared(s1, i + 1)
    }
}

/// First field from `i` on that must be in the form but was not seen.
pub open spec fn missing_from(seen: Seq<bool>, i: int) -> Option<usize>
    decreases FIELD_COUNT - i,
{
    if i < 0 || i >= FIELD_COUNT {
        None
    } else if field_spec(i as usize).kind != Kind::Flag && !seen[i] {
        Some(i as usize)
    } else {
        missing_from(seen, i + 1)
    }
}

/// The settings a submitted form body gives on top of `base`.
pub open spec fn form_settings(body: Seq<u8>, base: Settings, t: Timing) -> Result<Settings, FormError> {
    match apply_pairs(pieces(body, 38), flags_cleared(base, 0), none_seen()) {
        Err(e) => Err(e),
        Ok((s, seen)) => match missing_from(seen, 0) {
            Some(i) => Err(FormError::Field(field_spec(i).label)),
            None => match s.validation(t) {
                Err(m) => Err(FormError::Invalid(m)),
                Ok(_) => Ok(s),
            },
        },
    }
}

/// No field seen yet.
pub open spec fn none_seen() -> Seq<bool> {
    Seq::new(FIELD_COUNT as nat, |i: int| false)
}

proof fn lemma_field_index_range(key: Seq<u8>, i: int)
    ensures
        field_index_from(key, i) matches Some(j) ==> j < FIELD_COUNT,
    decreases FIELD_COUNT - i,
{
    if 0 <= i < FIELD_COUNT {
        lemma_field_index_range(key, i + 1);
    }
}

/// Byte strings equal.
fn same_bytes(a: &[u8], b: &[u8]) -> (r: bool)
    ensures
        r == (a@ == b@),
{
    if a.len() != b.len() {
        return false;
    }
    let mut i: usize = 0;
    while i < a.len()
        invariant
            a@.len() == b@.len(),
            0 <= i <= a@.len(),
            forall|j: int| 0 <= j < i ==> a@[j] == b@[j],
        decreases a@.len() - i,
    {
        if a[i] != b[i] {
            return false;
        }
        i += 1;
    }
    assert(a@ =~= b@);
    true
}

/// Index of the setting whose key is `key`.
fn field_index(key: &[u8]) -> (r: Option<usize>)
    ensures
        r == field_index_from(key@, 0),
        r matches Some(i) ==> i < FIELD_COUNT,
{
    proof {
        lemma_field_index_range(key@, 0);
    }
    let mut i: usize = 0;
    while i < FIELD_COUNT
        invariant
            0 <= i <= FIELD_COUNT,
            field_index_from(key@, 0) == field_index_from(key@, i as int),
        decreases FIELD_COUNT - i,
    {
        if same_bytes(field(i).key.as_bytes(), key) {
            return Some(i);
        }
        i += 1;
    }
    None
}

/// See [`field_input`].
fn parse_field(raw: &[u8], f: &Field) -> (r: Result<i64, FormError>)
    ensures
        r == field_input(raw@, *f),
{
    let mut buf = [0u8; 24];
    let n = match url_decode(raw, &mut buf) {
        Some(n) => n,
        None => return Err(FormError::Field(f.label)),
    };
    let decoded = &buf[0..n];
    assert(decoded@ =~= buf@.take(n as int));
    let text = match utf8_str(decoded) {
        Some(t) => t,
        None => return Err(FormError::Field(f.label)),
    };
    proof {
        vstd::utf8::encode_utf8_decode_utf8(text@);
    }
    let value = trim(text);
    let parsed = match f.kind {
        Kind::Flag => Some(1i64),
        Kind::Integer => parse_i64_str(value),
        Kind::Decimal4 => parse_decimal4(value),
    };
    match parsed {
        Some(x) => if f.min <= x && x <= f.max { Ok(x) } else { Err(FormError::Field(f.label)) },
        None => Err(FormError::Field(f.label)),
    }
}

/// Apply an `application/x-www-form-urlencoded` body on top of `base`.
/// Every numeric field must be present; unticked checkboxes are absent.
pub fn apply_form(body: &str, base: &Settings, timing: Timing) -> (r: Result<Settings, FormError>)
    ensures
        r == form_settings(body.spec_bytes(), *base, timing),
{
    let mut s = *base;
    let mut i: usize = 0;
    while i < FIELD_COUNT
        invariant
            0 <= i <= FIELD_COUNT,
            flags_cleared(*base, 0) == flags_cleared(s, i as int),
        decreases FIELD_COUNT - i,
    {
        if field(i).kind == Kind::Flag {
            field_put(i, &mut s, 0);
        }
        i += 1;
    }
    let mut seen: Vec<bool> = Vec::new();
    let mut j: usize = 0;
    while j < FIELD_COUNT
        invariant
            0 <= j <= FIELD_COUNT,
            seen@ == Seq::new(j as nat, |i: int| false),
        decreases FIELD_COUNT - j,
    {
        seen.push(false);
        j += 1;
    }
    assert(seen@ =~= none_seen());
    let b = body.as_bytes();
    let mut start: usize = 0;
    let ghost s0 = s;
    proof {
        assert(b@.skip(0) =~= b@);
    }
    loop
        invariant_except_break
            0 <= start <= b@.len(),
            apply_pairs(pieces(b@, 38), s0, none_seen()) == apply_pairs(pieces(b@.skip(start as int), 38), s, seen@),
        invariant
            seen@.len() == FIELD_COUNT,
            b@ == body.spec_bytes(),
            s0 == flags_cleared(*base, 0),
        ensures
            apply_pairs(pieces(b@, 38), s0, none_seen()) == Ok::<(Settings, Seq<bool>), FormError>((s, seen@)),
        decreases b@.len() - start,
    {
        let rest = &b[start..b.len()];
        assert(rest@ =~= b@.skip(start as int));
        let k = find_byte(rest, 38u8);
        proof {
            lemma_find(rest@, 38u8);
        }
        let pair = &rest[0..k];
        assert(pair@ =~= rest@.take(k as int));
        let ghost ps = pieces(rest@, 38);
        assert(ps[0] == pair@);
        let ghost s_before = s;
        let ghost seen_before = seen@;
        let e = find_byte(pair, 61u8);
        proof {
            lemma_find(pair@, 61u8);
        }
        let key = &pair[0..e];
        assert(key@ =~= key_of(pair@));
        let raw_start = if e < pair.len() { e + 1 } else { pair.len() };
        let raw = &pair[raw_start..pair.len()];
        assert(raw@ =~= raw_of(pair@));
        match field_index(key) {
            None => {},
            Some(fi) => {
                let f = field(fi);
                match parse_field(raw, &f) {
                    Err(err) => {
                        assert(apply_pairs(ps, s_before, seen_before) == Err::<(Settings, Seq<bool>), FormError>(err));
                        return Err(err);
                    },
                    Ok(v) => {
                        field_put(fi, &mut s, v);
                        seen.set(fi, true);
                    },
                }
            },
        }
        assert(apply_pairs(ps, s_before, seen_before) == apply_pairs(ps.drop_first(), s, seen@));
        if k >= rest.len() {
            proof {
                assert(ps.drop_first() =~= Seq::<Seq<u8>>::empty());
            }
            break;
        }
        proof {
            assert(ps.drop_first() == pieces(rest@.skip(k + 1), 38));
            assert(rest@.skip(k + 1) =~= b@.skip(start + k + 1));
        }
        start = start + k + 1;
    }
    let mut m: usize = 0;
    while m < FIELD_COUNT
        invariant
            0 <= m <= FIELD_COUNT,
            seen@.len() == FIELD_COUNT,
            missing_from(seen@, 0) == missing_from(seen@, m as int),
            b@ == body.spec_bytes(),
            s0 == flags_cleared(*base, 0),
            apply_pairs(pieces(b@, 38), s0, none_seen()) == Ok::<(Settings, Seq<bool>), FormError>((s, seen@)),
        decreases FIELD_COUNT - m,
    {
        let f = field(m);
        if f.kind != Kind::Flag && !seen[m] {
            return Err(FormError::Field(f.label));
        }
        m += 1;
    }
    match s.validate(timing) {
        Err(msg) => Err(FormError::Invalid(msg)),
        Ok(_) => Ok(s),
    }
}

#[derive(Clone, Copy, Debug, PartialEq, Eq, Structural)]
pub enum Method {
    Get,
    Post,
    Other,
}

#[derive(Clone, Copy, Debug, PartialEq, Eq)]
pub struct Request<'a> {
    pub method: Method,
    /// Path without query string.
    pub path: &'a str,
    /// Bytes up to and including the blank line after the headers.
    pub header_len: usize,
    pub content_length: usize,
}

/// Index of the first `\r\n\r\n` at or after `i`.
pub open spec fn blank_line_from(b: Seq<u8>, i: int) -> Option<int>
    decreases b.len() - i,
{
    if i < 0 || i + 4 > b.len() {
        None
    } else if b[i] == 13 && b[i + 1] == 10 && b[i + 2] == 13 && b[i + 3] == 10 {
        Some(i)
    } else {
        blank_line_from(b, i + 1)
    }
}

/// Index of the first `\r\n` at or after `i`, or `b.len()`.
pub open spec fn line_end_from(b: Seq<u8>, i: int) -> int
    decreases b.len() - i,
{
    if i < 0 || i + 2 > b.len() {
        b.len() as int
    } else if b[i] == 13 && b[i + 1] == 10 {
        i
    } else {
        line_end_from(b, i + 1)
    }
}

/// Method named by a request line's first word.
pub open spec fn method_of(word: Seq<u8>) -> Method {
    if word == seq![71u8, 69u8, 84u8] || word == seq![72u8, 69u8, 65u8, 68u8] {
        Method::Get
    } else if word == seq![80u8, 79u8, 83u8, 84u8] {
        Method::Post
    } else {
        Method::Other
    }
}

/// ASCII lower case.
pub open spec fn lower(c: u8) -> u8 {
    if 65 <= c <= 90 { (c + 32) as u8 } else { c }
}

/// `content-length`
pub open spec fn content_length_name() -> Seq<u8> {
    seq![99u8, 111u8, 110u8, 116u8, 101u8, 110u8, 116u8, 45u8, 108u8, 101u8, 110u8, 103u8, 116u8, 104u8]
}

/// `s` names the Content-Length header, in any case.
pub open spec fn is_content_length(s: Seq<u8>) -> bool {
    s.len() == 14 && forall|i: int| 0 <= i < 14 ==> lower(#[trigger] s[i]) == content_length_name()[i]
}

/// Bytes of a header part with white space trimmed.
pub open spec fn trimmed_bytes(b: Seq<u8>) -> Seq<u8> {
    encode_utf8(trim_chars(decode_utf8(b)))
}

/// Content length given by the header lines of `h` from byte `i` on (the
/// last Content-Length header counts), starting from `cl`; `None` if one
/// holds no number.
pub open spec fn content_length_from(h: Seq<u8>, i: int, cl: int) -> Option<int>
    decreases h.len() - i,
{
    if i < 0 || i > h.len() {
        Some(cl)
    } else {
        let e = line_end_from(h, i);
        let line = h.subrange(i, e);
        let c = find(line, 58);
        let next = if c < line.len() && is_content_length(trimmed_bytes(line.take(c))) {
            parse_unsigned(trimmed_bytes(line.skip(c + 1)), usize::MAX as int)
        } else {
            Some(cl)
        };
        match next {
            None => None,
            Some(v) => if e + 2 <= h.len() && e >= i { content_length_from(h, e + 2, v) } else { Some(v) },
        }
    }
}

/// A request whose headers are complete in `b`: method, path bytes,
/// header length and content length; `None` while the blank line after the
/// headers is missing, or for a malformed request.
pub open spec fn request_of(b: Seq<u8>) -> Option<(Method, Seq<u8>, int, int)> {
    match blank_line_from(b, 0) {
        None => None,
        Some(end) => {
            let h = b.take(end);
            let l = line_end_from(h, 0);
            let line = h.take(l);
            let sp = find(line, 32);
            if !valid_utf8(h) || sp >= line.len() {
                None
            } else {
                let rest = line.skip(sp + 1);
                let target = rest.take(find(rest, 32));
                let path = target.take(find(target, 63));
                let cl = if l < h.len() { content_length_from(h, l + 2, 0) } else { Some(0) };
                match cl {
                    None => None,
                    Some(n) => Some((method_of(line.take(sp)), path, end + 4, n)),
                }
            }
        },
    }
}

/// A cut of valid UTF-8 next to ASCII bytes is valid UTF-8.
proof fn lemma_ascii_cut(h: Seq<u8>, a: int, b: int)
    requires
        valid_utf8(h),
        0 <= a <= b <= h.len(),
        a == 0 || h[a - 1] < 0x80,
        b == h.len() || h[b] < 0x80,
    ensures
        valid_utf8(h.subrange(a, b)),
{
    broadcast use vstd::utf8::valid_utf8_split;
    let t = h.subrange(a, h.len() as int);
    if a == 0 {
        assert(t =~= h);
    } else {
        vstd::utf8::is_char_boundary_iff_not_is_continuation_byte(h, a - 1);
        vstd::utf8::valid_utf8_split(h, a - 1);
        let r = h.subrange(a - 1, h.len() as int);
        assert(r[0] == h[a - 1]);
        assert(is_char_boundary(r, 1)) by {
            reveal_with_fuel(is_char_boundary, 2);
            assert(vstd::utf8::length_of_first_scalar(r) == 1);
        }
        vstd::utf8::valid_utf8_split(r, 1);
        assert(r.subrange(1, r.len() as int) =~= t);
    }
    if b < h.len() {
        assert(t[b - a] == h[b]);
        vstd::utf8::is_char_boundary_iff_not_is_continuation_byte(t, b - a);
    } else {
        vstd::utf8::is_char_boundary_start_end_of_seq(t);
    }
    vstd::utf8::valid_utf8_split(t, b - a);
    assert(t.subrange(0, b - a) =~= h.subrange(a, b));
}

fn find_blank_line(b: &[u8]) -> (r: Option<usize>)
    ensures
        match r {
            Some(e) => blank_line_from(b@, 0) == Some(e as int) && e + 4 <= b@.len(),
            None => blank_line_from(b@, 0) is None,
        },
{
    let mut i: usize = 0;
    while b.len() >= 4 && i <= b.len() - 4
        invariant
            blank_line_from(b@, 0) == blank_line_from(b@, i as int),
        decreases b@.len() - i,
    {
        if b[i] == 13 && b[i + 1] == 10 && b[i + 2] == 13 && b[i + 3] == 10 {
            return Some(i);
        }
        assert(blank_line_from(b@, i as int) == blank_line_from(b@, i + 1));
        i += 1;
    }
    None
}

/// Index of the first `\r\n` in `b` from `i` on, or `b.len()`.
fn line_end(b: &[u8], i: usize) -> (r: usize)
    requires
        i <= b@.len(),
    ensures
        r == line_end_from(b@, i as int),
        i <= r <= b@.len(),
        r < b@.len() ==> r + 2 <= b@.len(),
{
    let mut j = i;
    while b.len() >= 2 && j <= b.len() - 2
        invariant
            i <= j <= b@.len(),
            line_end_from(b@, i as int) == line_end_from(b@, j as int),
        decreases b@.len() - j,
    {
        if b[j] == 13 && b[j + 1] == 10 {
            return j;
        }
        j += 1;
    }
    b.len()
}

/// `s` is `content-length` in any case.
fn names_content_length(s: &[u8]) -> (r: bool)
    ensures
        r == is_content_length(s@),
{
    let name: [u8; 14] = [99, 111, 110, 116, 101, 110, 116, 45, 108, 101, 110, 103, 116, 104];
    assert(name@ == content_length_name());
    if s.len() != 14 {
        return false;
    }
    let mut i: usize = 0;
    while i < 14
        invariant
            s@.len() == 14,
            name@ == content_length_name(),
            0 <= i <= 14,
            forall|j: int| 0 <= j < i ==> lower(#[trigger] s@[j]) == content_length_name()[j],
        decreases 14 - i,
    {
        let c = s[i];
        let l = if 65 <= c && c <= 90 { c + 32 } else { c };
        if l != name[i] {
            return false;
        }
        i += 1;
    }
    true
}

/// `buf[a..b]` as a string; it is valid UTF-8 as a cut of valid UTF-8 next
/// to ASCII bytes.
fn cut_str(buf: &[u8], h: Ghost<Seq<u8>>, a: usize, b: usize) -> (r: &str)
    requires
        valid_utf8(h@),
        h@.len() <= buf@.len(),
        h@ == buf@.take(h@.len() as int),
        a <= b <= h@.len(),
        a == 0 || h@[a - 1] < 0x80,
        b == h@.len() || h@[b as int] < 0x80,
    ensures
        r.spec_bytes() == h@.subrange(a as int, b as int),
        r@ == decode_utf8(h@.subrange(a as int, b as int)),
{
    proof {
        lemma_ascii_cut(h@, a as int, b as int);
    }
    let part = &buf[a..b];
    assert(part@ =~= h@.subrange(a as int, b as int));
    match utf8_str(part) {
        Some(s) => {
            proof {
                vstd::utf8::encode_utf8_decode_utf8(s@);
            }
            s
        },
        None => {
            assert(false);
            ""
        },
    }
}

fn method_of_word(w: &[u8]) -> (r: Method)
    ensures
        r == method_of(w@),
{
    let get: [u8; 3] = [71, 69, 84];
    let head: [u8; 4] = [72, 69, 65, 68];
    let post: [u8; 4] = [80, 79, 83, 84];
    assert(get@ == seq![71u8, 69u8, 84u8]);
    assert(head@ == seq![72u8, 69u8, 65u8, 68u8]);
    assert(post@ == seq![80u8, 79u8, 83u8, 84u8]);
    if same_bytes(w, &get) || same_bytes(w, &head) {
        Method::Get
    } else if same_bytes(w, &post) {
        Method::Post
    } else {
        Method::Other
    }
}

/// Parse the request line and headers once they are complete in `buf`.
/// `None` means more bytes are needed (or the request is malformed).
#[verifier::rlimit(40)]
pub fn parse_request(buf: &[u8]) -> (r: Option<Request<'_>>)
    ensures
        match request_of(buf@) {
            None => r is None,
            Some((m, p, hl, cl)) => r matches Some(q) && q.method == m && q.path.spec_bytes() == p
                && q.header_len == hl && q.content_length == cl,
        },
{
    let end = match find_blank_line(buf) {
        Some(e) => e,
        None => return None,
    };
    proof {
        lemma_blank_line_from(buf@, 0);
    }
    let head = &buf[0..end];
    let ghost h = head@;
    assert(h =~= buf@.take(end as int));
    assert(blank_line_from(buf@, 0) == Some(end as int));
    if utf8_str(head).is_none() {
        assert(!valid_utf8(buf@.take(end as int)));
        assert(request_of(buf@) is None);
        return None;
    }
    let l = line_end(head, 0);
    let line = &head[0..l];
    assert(line@ =~= h.take(l as int));
    let sp = find_byte(line, 32u8);
    proof {
        lemma_find(line@, 32u8);
    }
    if sp >= l {
        assert(request_of(buf@) is None);
        return None;
    }
    let rest = &line[sp + 1..l];
    assert(rest@ =~= line@.skip(sp + 1));
    let t = find_byte(rest, 32u8);
    proof {
        lemma_find(rest@, 32u8);
    }
    let target = &rest[0..t];
    assert(target@ =~= rest@.take(t as int));
    let q = find_byte(target, 63u8);
    proof {
        lemma_find(target@, 63u8);
        lemma_line_end(h, 0);
    }
    let path = cut_str(buf, Ghost(h), sp + 1, sp + 1 + q);
    assert(h.subrange(sp + 1, sp + 1 + q) =~= target@.take(q as int));
    let method = method_of_word(&line[0..sp]);
    assert(line@.subrange(0, sp as int) =~= line@.take(sp as int));
    let cl = if l < head.len() {
        match header_content_length(head, l + 2) {
            Some(v) => v,
            None => return None,
        }
    } else {
        0
    };
    let total = buf.len();
    assert(end + 4 <= total);
    proof {
        let rq = request_of(buf@);
        assert(rq is Some);
        let (m, pb, hl, n) = rq->0;
        assert(m == method);
        assert(pb == path.spec_bytes());
        assert(hl == end + 4);
        assert(n == cl);
    }
    Some(Request { method, path, header_len: end + 4, content_length: cl })
}

/// Content length from the header lines of `head` from `i`.
#[verifier::rlimit(60)]
fn header_content_length(head: &[u8], i: usize) -> (r: Option<usize>)
    requires
        valid_utf8(head@),
        2 <= i <= head@.len(),
        head@[i - 1] == 10,
    ensures
        match r {
            Some(v) => content_length_from(head@, i as int, 0) == Some(v as int),
            None => content_length_from(head@, i as int, 0) is None,
        },
{
    let buf = head;
    let ghost h = head@;
    assert(h == buf@.take(h.len() as int));
    let mut pos = i;
    let mut cl: usize = 0;
    loop
        invariant
            valid_utf8(h),
            h == head@,
            h.len() <= buf@.len(),
            h == buf@.take(h.len() as int),
            2 <= pos <= h.len(),
            h[pos - 1] == 10,
            content_length_from(h, i as int, 0) == content_length_from(h, pos as int, cl as int),
        decreases h.len() - pos,
    {
        let e = line_end(head, pos);
        proof {
            lemma_line_end(h, pos as int);
        }
        let part = &head[pos..e];
        assert(part@ =~= h.subrange(pos as int, e as int));
        let c_rel = find_byte(part, 58u8);
        proof {
            lemma_find(part@, 58u8);
        }
        let ghost line = h.subrange(pos as int, e as int);
        let ghost old_cl = cl;
        if c_rel < e - pos {
            let c = pos + c_rel;
            let name = trim(cut_str(buf, Ghost(h), pos, c));
            assert(h.subrange(pos as int, c as int) =~= line.take(c_rel as int));
            if names_content_length(name.as_bytes()) {
                let value = trim(cut_str(buf, Ghost(h), c + 1, e));
                assert(h.subrange(c + 1, e as int) =~= line.skip(c_rel + 1));
                proof {
                    vstd::utf8::encode_utf8_decode_utf8(value@);
                }
                assert(value.spec_bytes() == trimmed_bytes(line.skip(c_rel + 1)));
                assert(name.spec_bytes() == trimmed_bytes(line.take(c_rel as int)));
                match parse_usize(value) {
                    None => {
                        assert(content_length_from(h, pos as int, cl as int) is None);
                        return None;
                    },
                    Some(v) => {
                        cl = v;
                    },
                }
            }
        }
        if e >= head.len() {
            assert(content_length_from(h, pos as int, old_cl as int) == Some(cl as int));
            return Some(cl);
        }
        pos = e + 2;
    }
}

proof fn lemma_blank_line_from(b: Seq<u8>, i: int)
    requires
        0 <= i,
    ensures
        blank_line_from(b, i) matches Some(e) ==> i <= e && e + 4 <= b.len() && b[e] == 13 && b[e + 1] == 10,
    decreases b.len() - i,
{
    if i + 4 <= b.len() && !(b[i] == 13 && b[i + 1] == 10 && b[i + 2] == 13 && b[i + 3] == 10) {
        lemma_blank_line_from(b, i + 1);
    }
}

proof fn lemma_line_end(b: Seq<u8>, i: int)
    requires
        0 <= i <= b.len(),
    ensures
        i <= line_end_from(b, i) <= b.len(),
        line_end_from(b, i) < b.len() ==> line_end_from(b, i) + 2 <= b.len() && b[line_end_from(b, i)] == 13
            && b[line_end_from(b, i) + 1] == 10,
        forall|j: int| i <= j < line_end_from(b, i) ==> !(#[trigger] b[j] == 13 && j + 1 < b.len() && b[j + 1] == 10),
    decreases b.len() - i,
{
    if i + 2 <= b.len() && !(b[i] == 13 && b[i + 1] == 10) {
        lemma_line_end(b, i + 1);
    }
}

/// Page shown after a successful save.
pub const SAVED_PAGE: &'static str = "<!doctype html><html><head><meta charset=utf-8><meta name=viewport content=\"width=device-width,initial-scale=1\"><title>ELS setup</title></head><body style=\"font-family:system-ui,sans-serif;max-width:32rem;margin:2rem auto;padding:0 1rem\"><h1>Saved</h1><p>The controller is restarting with the new settings. WiFi is now off.</p></body></html>";

/// Start of the settings page, up to its heading.
pub const PAGE_HEAD: &'static str = "<!doctype html><html><head><meta charset=utf-8><meta name=viewport content=\"width=device-width,initial-scale=1\"><title>ELS setup</title><style>body{font-family:system-ui,sans-serif;max-width:32rem;margin:0 auto;padding:1rem;background:#f4f6f8;color:#222}fieldset{background:#fff;border:1px solid #c9d0d6;border-radius:6px;margin:0 0 1rem;padding:.5rem 1rem}legend{font-weight:700;padding:0 .3rem}label{display:block;font-weight:600;margin-top:.8rem}small{color:#5d6770;font-weight:400}input{display:block;width:100%;box-sizing:border-box;padding:.5rem;font:inherit;margin-top:.2rem}label.check input{display:inline;width:auto}.help{color:#5d6770;font-size:.85rem;margin:.2rem 0 0}.notice{background:#fff3e0;border:1px solid #e0b46a;border-radius:6px;padding:.6rem}button{width:100%;padding:.8rem;font:inherit;font-weight:700;color:#fff;background:#217346;border:0;border-radius:6px}@media(prefers-color-scheme:dark){body{background:#15191c;color:#e6e6e6}fieldset{background:#1e2428;border-color:#3a4248}small,.help{color:#9aa5ad}input{background:#2a3136;color:#e6e6e6;border:1px solid #3a4248}.notice{background:#3a2e1a;border-color:#8a6a2a}}</style></head><body><h1>ELS setup</h1>";

/// `String::push`: appends `c`.
#[verifier::external_body]
fn append_char(page: &mut String, c: char)
    ensures
        final(page)@ == old(page)@.push(c),
{
    page.push(c)
}

/// Text HTML-escaped.
pub open spec fn html_escaped(t: Seq<char>) -> Seq<char>
    decreases t.len(),
{
    if t.len() == 0 {
        Seq::empty()
    } else {
        let c = t.last();
        html_escaped(t.drop_last()) + if c == '<' {
            "&lt;"@
        } else if c == '>' {
            "&gt;"@
        } else if c == '&' {
            "&amp;"@
        } else if c == '"' {
            "&quot;"@
        } else {
            seq![c]
        }
    }
}

/// Escaped text holds no `<`, `>` or `"`, so it cannot open a tag or close an
/// attribute; text without `<`, `>`, `&` or `"` is left as it is.
pub proof fn lemma_html_escaped(t: Seq<char>)
    ensures
        forall|i: int| 0 <= i < html_escaped(t).len() ==> {
            let c = #[trigger] html_escaped(t)[i];
            c != '<' && c != '>' && c != '"'
        },
        (forall|i: int| 0 <= i < t.len() ==> {
            let c = #[trigger] t[i];
            c != '<' && c != '>' && c != '&' && c != '"'
        }) ==> html_escaped(t) == t,
    decreases t.len(),
{
    reveal_strlit("&lt;");
    reveal_strlit("&gt;");
    reveal_strlit("&amp;");
    reveal_strlit("&quot;");
    if t.len() > 0 {
        let u = t.drop_last();
        lemma_html_escaped(u);
        let c = t.last();
        let tail = if c == '<' {
            "&lt;"@
        } else if c == '>' {
            "&gt;"@
        } else if c == '&' {
            "&amp;"@
        } else if c == '"' {
            "&quot;"@
        } else {
            seq![c]
        };
        assert(html_escaped(t) == html_escaped(u) + tail);
        assert forall|i: int| 0 <= i < html_escaped(t).len() implies {
            let c = #[trigger] html_escaped(t)[i];
            c != '<' && c != '>' && c != '"'
        } by {
            if i < html_escaped(u).len() {
                assert(html_escaped(t)[i] == html_escaped(u)[i]);
            } else {
                assert(html_escaped(t)[i] == tail[i - html_escaped(u).len()]);
            }
        }
        if forall|i: int| 0 <= i < t.len() ==> {
            let c = #[trigger] t[i];
            c != '<' && c != '>' && c != '&' && c != '"'
        } {
            assert forall|i: int| 0 <= i < u.len() implies {
                let c = #[trigger] u[i];
                c != '<' && c != '>' && c != '&' && c != '"'
            } by {
                assert(u[i] == t[i]);
            }
            assert(t[t.len() - 1] == c);
            assert(u + seq![c] =~= t);
        }
    }
}

/// A nonnegative number with 4 decimals.
pub open spec fn decimal4_chars(v: nat) -> Seq<char> {
    decimal(v / 10_000) + seq!['.'] + low_digits(v % 10_000, 4)
}

/// The form control of one setting holding `v`.
pub open spec fn field_html(f: Field, v: nat) -> Seq<char> {
    control_html(f, v) + if f.help@.len() > 0 { "<p class=help>"@ + f.help@ + "</p>"@ } else { ""@ }
}

/// Controls of the settings from `i` on that belong to section `sec`.
pub open spec fn section_fields(s: Settings, sec: Seq<u8>, i: int) -> Seq<char>
    decreases FIELD_COUNT - i,
{
    if i < 0 || i >= FIELD_COUNT {
        Seq::empty()
    } else {
        let f = field_spec(i as usize);
        (if f.section.spec_bytes() == sec { field_html(f, field_value(s, i as usize) as nat) } else { Seq::empty() })
            + section_fields(s, sec, i + 1)
    }
}

/// Fieldsets of the sections from `k` on.
pub open spec fn sections_html(s: Settings, k: int) -> Seq<char>
    decreases 4 - k,
{
    if k < 0 || k >= 4 {
        Seq::empty()
    } else {
        "<fieldset><legend>"@ + SECTIONS[k]@ + "</legend>"@ + section_fields(s, SECTIONS[k].spec_bytes(), 0)
            + "</fieldset>"@ + sections_html(s, k + 1)
    }
}

/// The settings page for `s`, with `notice` (e.g. an error) at the top.
pub open spec fn page_html(s: Settings, notice: Option<Seq<char>>) -> Seq<char> {
    PAGE_HEAD@ + (match notice {
        Some(n) => "<p class=notice>"@ + html_escaped(n) + "</p>"@,
        None => ""@,
    }) + "<form method=post action=/save>"@ + sections_html(s, 0)
        + "<button>Save and restart</button></form></body></html>"@
}

/// Append the decimal digits of `n`.
fn append_decimal(page: &mut String, n: u64)
    ensures
        final(page)@ == old(page)@ + decimal(n as nat),
    decreases n,
{
    if n >= 10 {
        append_decimal(page, n / 10);
    }
    let c = (48u8 + (n % 10) as u8) as char;
    append_char(page, c);
    proof {
        if n < 10 {
            assert(decimal(n as nat) == seq![c]);
        }
    }
    assert(page@ =~= old(page)@ + decimal(n as nat));
}

/// Append the `w` lowest decimal digits of `n`.
fn append_low_digits(page: &mut String, n: u64, w: u32)
    ensures
        final(page)@ == old(page)@ + low_digits(n as nat, w as nat),
    decreases w,
{
    if w == 0 {
        assert(page@ =~= old(page)@ + low_digits(n as nat, 0));
        return;
    }
    append_low_digits(page, n / 10, w - 1);
    append_char(page, (48u8 + (n % 10) as u8) as char);
    assert(page@ =~= old(page)@ + low_digits(n as nat, w as nat));
}

/// Append `t` HTML-escaped.
fn append_escaped(page: &mut String, t: &str)
    ensures
        final(page)@ == old(page)@ + html_escaped(t@),
{
    broadcast use vstd::string::axiom_spec_iter;
    let ghost start = page@;
    proof {
        assert(t@.take(0) =~= Seq::<char>::empty());
        assert(start + html_escaped(Seq::<char>::empty()) =~= start);
    }
    for c in it: t.chars()
        invariant
            it.seq() == t@,
            it.index() <= t@.len(),
            page@ == start + html_escaped(t@.take(it.index() as int)),
    {
        let ghost k = it.index() as int;
        assert(t@.take(k + 1).drop_last() =~= t@.take(k));
        assert(t@.take(k + 1).last() == c);
        if c == '<' {
            page.append("&lt;");
        } else if c == '>' {
            page.append("&gt;");
        } else if c == '&' {
            page.append("&amp;");
        } else if c == '"' {
            page.append("&quot;");
        } else {
            append_char(page, c);
            assert(html_escaped(t@.take(k)) + seq![c] =~= html_escaped(t@.take(k)).push(c));
        }
        assert(page@ =~= start + html_escaped(t@.take(k + 1)));
    }
    assert(t@.take(t@.len() as int) =~= t@);
}

proof fn lemma_field_nonneg(s: Settings, i: usize)
    requires
        i < FIELD_COUNT,
    ensures
        field_spec(i).min >= 0,
        field_spec(i).max >= 0,
        field_value(s, i) >= 0,
        field_value(s, i) <= u32::MAX,
{
}

/// The control part of [`field_html`].
pub open spec fn control_html(f: Field, v: nat) -> Seq<char> {
    match f.kind {
        Kind::Flag => "<label class=check><input type=checkbox name="@ + f.key@ + " value=1"@
            + (if v != 0 { " checked"@ } else { ""@ }) + "> "@ + f.label@ + "</label>"@,
        Kind::Integer => "<label>"@ + f.label@ + " <small>"@ + f.unit@ + "</small><input name="@ + f.key@
            + " type=number min="@ + decimal(f.min as nat) + " max="@ + decimal(f.max as nat)
            + " step=1 value="@ + decimal(v) + " required></label>"@,
        Kind::Decimal4 => "<label>"@ + f.label@ + " <small>"@ + f.unit@ + "</small><input name="@ + f.key@
            + " inputmode=decimal pattern=\"[0-9]*\\.?[0-9]{0,4}\" value="@ + decimal4_chars(v) + " required></label>"@,
    }
}

fn render_control(page: &mut String, f: &Field, v: u64)
    requires
        f.min >= 0,
        f.max >= 0,
    ensures
        final(page)@ == old(page)@ + control_html(*f, v as nat),
{
    let ghost p0 = page@;
    match f.kind {
        Kind::Flag => {
            page.append("<label class=check><input type=checkbox name=");
            page.append(f.key);
            page.append(" value=1");
            page.append(if v != 0 { " checked" } else { "" });
            page.append("> ");
            page.append(f.label);
            page.append("</label>");
        },
        Kind::Integer => {
            page.append("<label>");
            page.append(f.label);
            page.append(" <small>");
            page.append(f.unit);
            page.append("</small><input name=");
            page.append(f.key);
            page.append(" type=number min=");
            append_decimal(page, f.min as u64);
            page.append(" max=");
            append_decimal(page, f.max as u64);
            page.append(" step=1 value=");
            append_decimal(page, v);
            page.append(" required></label>");
        },
        Kind::Decimal4 => {
            page.append("<label>");
            page.append(f.label);
            page.append(" <small>");
            page.append(f.unit);
            page.append("</small><input name=");
            page.append(f.key);
            page.append(" inputmode=decimal pattern=\"[0-9]*\\.?[0-9]{0,4}\" value=");
            let ghost p1 = page@;
            append_decimal(page, v / 10_000);
            append_char(page, '.');
            append_low_digits(page, v % 10_000, 4);
            assert(page@ =~= p1 + decimal4_chars(v as nat));
            page.append(" required></label>");
        },
    }
    assert(page@ =~= p0 + control_html(*f, v as nat));
}

fn render_field(page: &mut String, f: &Field, v: u64)
    requires
        f.min >= 0,
        f.max >= 0,
    ensures
        final(page)@ == old(page)@ + field_html(*f, v as nat),
{
    let ghost start = page@;
    render_control(page, f, v);
    let ghost mid = page@;
    if !f.help.is_empty() {
        page.append("<p class=help>");
        page.append(f.help);
        page.append("</p>");
        assert(page@ =~= mid + ("<p class=help>"@ + f.help@ + "</p>"@));
    } else {
        page.append("");
    }
    assert(field_html(*f, v as nat) == control_html(*f, v as nat) + (if f.help@.len() > 0 {
        "<p class=help>"@ + f.help@ + "</p>"@
    } else {
        ""@
    }));
    assert(page@ =~= start + field_html(*f, v as nat));
}

/// Render the settings page. `notice` is shown at the top (e.g. an error).
pub fn render_page(s: &Settings, notice: Option<&str>) -> (page: String)
    ensures
        page@ == page_html(*s, match notice {
            Some(n) => Some(n@),
            None => None,
        }),
{
    let mut page = String::new();
    page.append(PAGE_HEAD);
    if let Some(n) = notice {
        page.append("<p class=notice>");
        append_escaped(&mut page, n);
        page.append("</p>");
    } else {
        page.append("");
    }
    page.append("<form method=post action=/save>");
    let ghost before_sections = page@;
    let mut k: usize = 0;
    while k < 4
        invariant
            0 <= k <= 4,
            before_sections + sections_html(*s, 0) == page@ + sections_html(*s, k as int),
        decreases 4 - k,
    {
        let section = SECTIONS[k];
        let ghost section_start = page@;
        page.append("<fieldset><legend>");
        page.append(section);
        page.append("</legend>");
        let ghost fields_start = page@;
        let mut i: usize = 0;
        while i < FIELD_COUNT
            invariant
                0 <= i <= FIELD_COUNT,
                fields_start + section_fields(*s, section.spec_bytes(), 0)
                    == page@ + section_fields(*s, section.spec_bytes(), i as int),
            decreases FIELD_COUNT - i,
        {
            let f = field(i);
            let ghost here = page@;
            if same_bytes(f.section.as_bytes(), section.as_bytes()) {
                proof {
                    lemma_field_nonneg(*s, i);
                }
                let v = field_get(i, s);
                render_field(&mut page, &f, v as u64);
            }
            assert(here + section_fields(*s, section.spec_bytes(), i as int)
                == page@ + section_fields(*s, section.spec_bytes(), i + 1));
            i += 1;
        }
        page.append("</fieldset>");
        k += 1;
    }
    page.append("<button>Save and restart</button></form></body></html>");
    page
}

/// How far a request has arrived in a buffer of `capacity` bytes.
#[derive(Clone, Copy, Debug, PartialEq, Eq, Structural)]
pub enum Progress {
    /// More bytes are needed.
    Incomplete,
    /// Headers and body are complete.
    Complete { header_len: usize, content_length: usize },
    /// The request can't fit the buffer: `413` with a body, `431` without
    /// complete headers.
    TooLarge { payload: bool },
}

/// What the first `n` bytes of a request buffer of `capacity` hold.
pub open spec fn progress_of(b: Seq<u8>, capacity: int) -> Progress {
    match request_of(b) {
        Some((_, _, hl, cl)) => if hl + cl <= b.len() {
            Progress::Complete { header_len: hl as usize, content_length: cl as usize }
        } else if hl + cl > capacity {
            Progress::TooLarge { payload: true }
        } else {
            Progress::Incomplete
        },
        None => if b.len() == capacity { Progress::TooLarge { payload: false } } else { Progress::Incomplete },
    }
}

/// Read until headers and body are complete: what the bytes received so far
/// (`received`) say, in a buffer of `capacity` bytes.
pub fn progress(received: &[u8], capacity: usize) -> (r: Progress)
    ensures
        r == progress_of(received@, capacity as int),
{
    match parse_request(received) {
        Some(r) => {
            if r.header_len <= received.len() && r.content_length <= received.len() - r.header_len {
                Progress::Complete { header_len: r.header_len, content_length: r.content_length }
            } else if r.header_len > capacity || r.content_length > capacity - r.header_len {
                Progress::TooLarge { payload: true }
            } else {
                Progress::Incomplete
            }
        },
        None => if received.len() == capacity { Progress::TooLarge { payload: false } } else { Progress::Incomplete },
    }
}

/// What to answer a complete request with.
#[derive(Clone, Copy, Debug, PartialEq, Eq)]
pub enum Route {
    /// The settings page for the settings in use, with a notice if any.
    Page(Option<&'static str>),
    /// Save these settings, then answer with [`SAVED_PAGE`] or the page.
    Save(Settings),
    /// Send the browser to the page (captive-portal probes and the like).
    Redirect,
}

/// Answer to the request in `b`, complete with a body of `content_length`
/// bytes after `header_len`, given the settings in use: the page for
/// `GET /`, the form's result for `POST /save`, a redirect otherwise.
pub open spec fn route_of(b: Seq<u8>, current: Settings, timing: Timing) -> Route {
    match request_of(b) {
        Some((m, path, hl, cl)) => if m == Method::Get && path == seq![47u8] {
            Route::Page(None)
        } else if m == Method::Post && path == seq![47u8, 115u8, 97u8, 118u8, 101u8] {
            let body = b.subrange(hl, hl + cl);
            let text = if valid_utf8(body) { body } else { Seq::empty() };
            match form_settings(text, current, timing) {
                Ok(s) => Route::Save(s),
                Err(e) => Route::Page(Some(match e {
                    FormError::Field(l) => l,
                    FormError::Invalid(l) => l,
                })),
            }
        } else {
            Route::Redirect
        },
        None => Route::Redirect,
    }
}

/// Decide the answer to a complete request.
pub fn route(request: &[u8], current: &Settings, timing: Timing) -> (r: Route)
    requires
        progress_of(request@, request@.len() as int) is Complete,
    ensures
        r == route_of(request@, *current, timing),
{
    let req = match parse_request(request) {
        Some(r) => r,
        None => return Route::Redirect,
    };
    let total = request.len();
    proof {
        let (m, pb, hl, cl) = request_of(request@)->0;
        assert(hl + cl <= request@.len());
        assert(req.header_len == hl && req.content_length == cl);
        assert(req.header_len + req.content_length <= total);
    }
    let root: [u8; 1] = [47];
    let save: [u8; 5] = [47, 115, 97, 118, 101];
    assert(root@ == seq![47u8]);
    assert(save@ == seq![47u8, 115u8, 97u8, 118u8, 101u8]);
    if req.method == Method::Get && same_bytes(req.path.as_bytes(), &root) {
        Route::Page(None)
    } else if req.method == Method::Post && same_bytes(req.path.as_bytes(), &save) {
        let body_bytes = &request[req.header_len..req.header_len + req.content_length];
        let body = match utf8_str(body_bytes) {
            Some(t) => t,
            None => "",
        };
        proof {
            if !valid_utf8(body_bytes@) {
                assert(body.spec_bytes() =~= Seq::<u8>::empty()) by {
                    reveal_strlit("");
                }
            }
        }
        match apply_form(body, current, timing) {
            Ok(s) => Route::Save(s),
            Err(e) => Route::Page(Some(e.message())),
        }
    } else {
        Route::Redirect
    }
}

/// Append the decimal digits of `n`.
fn append_usize(page: &mut String, n: usize)
    ensures
        final(page)@ == old(page)@ + decimal(n as nat),
{
    append_decimal(page, n as u64);
}

/// Response head: status line, content type and length, no caching, and
/// the connection closed after the body.
pub open spec fn response_head(status: Seq<char>, content_type: Seq<char>, len: nat) -> Seq<char> {
    "HTTP/1.1 "@ + status + "\r\nContent-Type: "@ + content_type + "\r\nContent-Length: "@ + decimal(len)
        + "\r\nCache-Control: no-store\r\nConnection: close\r\n\r\n"@
}

pub fn respond_head(status: &str, content_type: &str, body_len: usize) -> (r: String)
    ensures
        r@ == response_head(status@, content_type@, body_len as nat),
{
    let mut head = String::new();
    head.append("HTTP/1.1 ");
    head.append(status);
    head.append("\r\nContent-Type: ");
    head.append(content_type);
    head.append("\r\nContent-Length: ");
    append_usize(&mut head, body_len);
    head.append("\r\nCache-Control: no-store\r\nConnection: close\r\n\r\n");
    assert(head@ =~= response_head(status@, content_type@, body_len as nat));
    head
}

/// Redirect to `url`, with an empty body.
pub open spec fn redirect_head(url: Seq<char>) -> Seq<char> {
    "HTTP/1.1 302 Found\r\nLocation: "@ + url + "\r\nContent-Length: 0\r\nConnection: close\r\n\r\n"@
}

pub fn redirect(url: &str) -> (r: String)
    ensures
        r@ == redirect_head(url@),
{
    let mut head = String::new();
    head.append("HTTP/1.1 302 Found\r\nLocation: ");
    head.append(url);
    head.append("\r\nContent-Length: 0\r\nConnection: close\r\n\r\n");
    assert(head@ =~= redirect_head(url@));
    head
}

} // verus!
