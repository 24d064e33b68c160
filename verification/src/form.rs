//! The settings form as a browser submits it, and the law that applying it
//! gives the settings back.
use vstd::prelude::*;
use vstd::utf8::{decode_utf8, encode_utf8, is_ascii_chars, valid_utf8};
use vstd::string::StringSliceAdditionalSpecFns;
use crate::digits::{all_digits, digits_value, find, is_digit, lemma_digits_push, lemma_find, pow10};
use crate::settings::{field_set, field_spec, field_value, first_bad_field, lemma_field_set_get, lemma_no_bad_field, Field, Kind, Settings, Timing, FIELD_COUNT};
use crate::web::{
    apply_pairs, decimal4, field_index_from, field_input, flags_cleared, form_settings, key_of, missing_from, none_seen,
    padded4, parse_i64, pieces, raw_of, trim_chars, trim_end_chars, trim_start_chars, url_decoded, FormError,
};

verus! {

/// Decimal digits of `n`, most significant first, without leading zeros.
pub open spec fn dec_bytes(n: nat) -> Seq<u8>
    decreases n,
{
    if n < 10 {
        seq![(48 + n) as u8]
    } else {
        dec_bytes(n / 10).push((48 + n % 10) as u8)
    }
}

/// The `w` lowest decimal digits of `n`, zero-padded.
pub open spec fn low_bytes(n: nat, w: nat) -> Seq<u8>
    decreases w,
{
    if w == 0 {
        Seq::empty()
    } else {
        low_bytes(n / 10, (w - 1) as nat).push((48 + n % 10) as u8)
    }
}

proof fn lemma_dec_bytes(n: nat, k: nat)
    requires
        k >= 1,
    ensures
        dec_bytes(n).len() >= 1,
        all_digits(dec_bytes(n)),
        digits_value(dec_bytes(n)) == n,
        n < pow10(k) ==> dec_bytes(n).len() <= k,
    decreases n,
{
    reveal_with_fuel(pow10, 2);
    if n < 10 {
        let c = (48 + n) as u8;
        assert(seq![c] =~= Seq::<u8>::empty().push(c));
        lemma_digits_push(Seq::<u8>::empty(), c);
    } else {
        let m = n / 10;
        if k >= 2 {
            lemma_dec_bytes(m, (k - 1) as nat);
            assert(n < pow10(k) ==> m < pow10((k - 1) as nat)) by (nonlinear_arith)
                requires pow10(k) == 10 * pow10((k - 1) as nat), m == n / 10;
        } else {
            lemma_dec_bytes(m, 1);
        }
        let d = dec_bytes(m);
        let c = (48 + n % 10) as u8;
        lemma_digits_push(d, c);
        assert(m * 10 + n % 10 == n);
        assert(forall|i: int| 0 <= i < d.len() ==> #[trigger] d.push(c)[i] == d[i]);
    }
}

proof fn lemma_low_bytes(n: nat, w: nat)
    ensures
        low_bytes(n, w).len() == w,
        all_digits(low_bytes(n, w)),
        digits_value(low_bytes(n, w)) == n % pow10(w),
    decreases w,
{
    if w > 0 {
        let m = n / 10;
        lemma_low_bytes(m, (w - 1) as nat);
        let d = low_bytes(m, (w - 1) as nat);
        let c = (48 + n % 10) as u8;
        lemma_digits_push(d, c);
        assert(forall|i: int| 0 <= i < d.len() ==> #[trigger] d.push(c)[i] == d[i]);
        crate::digits::lemma_pow10_pos((w - 1) as nat);
        vstd::arithmetic::div_mod::lemma_mod_breakdown(n as int, 10, pow10((w - 1) as nat) as int);
        assert(pow10(w) == 10 * pow10((w - 1) as nat));
    }
}

proof fn lemma_digits_concat(a: Seq<u8>, b: Seq<u8>)
    requires
        all_digits(b),
    ensures
        digits_value(a + b) == digits_value(a) * pow10(b.len()) + digits_value(b),
    decreases b.len(),
{
    if b.len() == 0 {
        assert(a + b =~= a);
        assert(pow10(0) == 1);
        assert(digits_value(b) == 0);
        assert(digits_value(a + b) == digits_value(a) * pow10(b.len()) + digits_value(b));
    } else {
        let bd = b.drop_last();
        assert((a + b).drop_last() =~= a + bd);
        assert((a + b).last() == b.last());
        assert(is_digit(b[b.len() - 1]));
        let x = (b.last() - 48) as nat;
        assert(digits_value(a + b) == digits_value(a + bd) * 10 + x);
        assert(digits_value(b) == digits_value(bd) * 10 + x);
        assert(all_digits(bd)) by {
            assert forall|i: int| 0 <= i < bd.len() implies is_digit(#[trigger] bd[i]) by {
                assert(bd[i] == b[i]);
            }
        }
        lemma_digits_concat(a, bd);
        let p = pow10(bd.len());
        assert(pow10(b.len()) == 10 * p);
        let va = digits_value(a);
        let vb = digits_value(bd);
        assert((va * p + vb) * 10 + x == va * (10 * p) + (vb * 10 + x)) by (nonlinear_arith);
        assert(digits_value(a + b) == va * pow10(b.len()) + digits_value(b));
    }
}

/// The text a browser submits for a setting of kind `f.kind` holding `v`:
/// the decimal number, four decimals for a `Decimal4`, `1` for a ticked box.
pub open spec fn value_text(f: Field, v: int) -> Seq<u8> {
    match f.kind {
        Kind::Flag => seq![49u8],
        Kind::Integer => dec_bytes(v as nat),
        Kind::Decimal4 => dec_bytes((v / 10000) as nat) + seq![46u8] + low_bytes((v % 10000) as nat, 4),
    }
}

/// Digits and points only.
pub open spec fn plain_text(b: Seq<u8>) -> bool {
    forall|k: int| 0 <= k < b.len() ==> is_digit(#[trigger] b[k]) || b[k] == 46
}

proof fn lemma_url_plain(b: Seq<u8>)
    requires
        plain_text(b),
    ensures
        url_decoded(b) == Some(b),
    decreases b.len(),
{
    if b.len() > 0 {
        let r = b.drop_first();
        assert(plain_text(r)) by {
            assert forall|k: int| 0 <= k < r.len() implies is_digit(#[trigger] r[k]) || r[k] == 46 by {
                assert(r[k] == b[k + 1]);
            }
        }
        lemma_url_plain(r);
        assert(is_digit(b[0]) || b[0] == 46);
        assert(seq![b[0]] + r =~= b);
    }
}

/// Digits and points as characters.
pub open spec fn chars_of(b: Seq<u8>) -> Seq<char> {
    Seq::new(b.len(), |k: int| b[k] as char)
}

proof fn lemma_plain_utf8(b: Seq<u8>)
    requires
        plain_text(b),
        b.len() >= 1,
        is_digit(b[0]),
        is_digit(b.last()),
    ensures
        valid_utf8(b),
        encode_utf8(trim_chars(decode_utf8(b))) == b,
{
    let c = chars_of(b);
    assert forall|k: int| 0 <= k < c.len() implies '\0' <= #[trigger] c[k] <= '\u{7f}' by {
        assert(is_digit(b[k]) || b[k] == 46);
    }
    assert(is_ascii_chars(c));
    vstd::utf8::is_ascii_chars_encode_utf8(c);
    assert forall|k: int| 0 <= k < b.len() implies #[trigger] encode_utf8(c)[k] == b[k] by {
        assert(c[k] as u8 == encode_utf8(c)[k]);
        assert(is_digit(b[k]) || b[k] == 46);
    }
    assert(encode_utf8(c) =~= b);
    vstd::utf8::encode_utf8_valid_utf8(c);
    vstd::utf8::encode_utf8_decode_utf8(c);
    assert(decode_utf8(b) == c);
    assert(!crate::web::is_white_space(c[0]));
    assert(trim_start_chars(c) == c);
    assert(c.last() == c[c.len() - 1]);
    assert(!crate::web::is_white_space(c.last()));
    assert(trim_end_chars(c) == c);
}

/// The text of a setting's value reads back as that value.
proof fn lemma_value_text(f: Field, v: int)
    requires
        0 <= v <= u32::MAX,
        f.min <= v <= f.max,
        f.kind == Kind::Flag ==> v == 1,
    ensures
        field_input(value_text(f, v), f) == Ok::<i64, FormError>(v as i64),
        plain_text(value_text(f, v)),
{
    reveal_with_fuel(pow10, 11);
    let b = value_text(f, v);
    match f.kind {
        Kind::Flag => {
            assert(is_digit(b[0]));
            assert(b.last() == b[0]);
        },
        Kind::Integer => {
            lemma_dec_bytes(v as nat, 10);
            assert(is_digit(b[0]));
            assert(is_digit(b[b.len() - 1]));
            assert(b[0] != 45 && b[0] != 43);
            assert(parse_i64(b) == Some(v));
        },
        Kind::Decimal4 => {
            let q = (v / 10000) as nat;
            let r = (v % 10000) as nat;
            let w = dec_bytes(q);
            let fr = low_bytes(r, 4);
            lemma_dec_bytes(q, 10);
            lemma_low_bytes(r, 4);
            assert(b == w + seq![46u8] + fr);
            assert forall|k: int| 0 <= k < b.len() implies is_digit(#[trigger] b[k]) || b[k] == 46 by {
                if k < w.len() {
                    assert(b[k] == w[k]);
                } else if k > w.len() {
                    assert(b[k] == fr[k - w.len() - 1]);
                }
            }
            assert(is_digit(b[0]));
            assert(b.last() == fr[3]);
            assert(is_digit(fr[3]));
            lemma_find(b, 46);
            let k = find(b, 46);
            assert(b[w.len() as int] == 46);
            if k < w.len() {
                assert(b[k] == w[k]);
                assert(is_digit(w[k]));
            }
            assert(k == w.len());
            assert(b.take(k) =~= w);
            assert(b.skip(k + 1) =~= fr);
            assert(padded4(fr) =~= fr);
            lemma_digits_concat(w, fr);
            assert(pow10(4) == 10000);
            assert(r < 10000);
            assert(r % 10000 == r);
            assert(digits_value(fr) == r);
            assert(digits_value(w) == q);
            assert(digits_value(w + fr) == q * 10000 + r);
            assert(q * 10000 + r == v);
            assert(decimal4(b) == Some(v));
        },
    }
    assert(plain_text(b));
    lemma_url_plain(b);
    lemma_plain_utf8(b);
}

/// A byte of a setting's key: a lower-case letter, a digit or `_`.
pub open spec fn key_byte(c: u8) -> bool {
    (97 <= c <= 122) || is_digit(c) || c == 95
}

/// A setting's key: at least one key byte, nothing else.
pub open spec fn key_text(k: Seq<u8>) -> bool {
    k.len() >= 1 && forall|i: int| 0 <= i < k.len() ==> key_byte(#[trigger] k[i])
}

proof fn lemma_key(s: &str)
    requires
        s@.len() >= 1,
        forall|i: int| 0 <= i < s@.len() ==> ('a' <= #[trigger] s@[i] <= 'z' || '0' <= s@[i] <= '9' || s@[i] == '_'),
    ensures
        key_text(s.spec_bytes()),
        s.spec_bytes().len() == s@.len(),
        s.spec_bytes()[0] == s@[0] as u8,
        s.spec_bytes()[s@.len() - 1] == s@[s@.len() - 1] as u8,
{
    assert(is_ascii_chars(s@));
    vstd::utf8::is_ascii_chars_encode_utf8(s@);
    assert forall|i: int| 0 <= i < s.spec_bytes().len() implies key_byte(#[trigger] s.spec_bytes()[i]) by {
        assert(s@[i] as u8 == encode_utf8(s@)[i]);
    }
}

/// Every setting's key is key text, and looking it up finds that setting.
proof fn lemma_field_keys(i: usize)
    requires
        i < FIELD_COUNT,
    ensures
        key_text(field_spec(i).key.spec_bytes()),
        field_index_from(field_spec(i).key.spec_bytes(), 0) == Some(i),
{
    reveal_strlit("encoder_ppr");
    lemma_key("encoder_ppr");
    reveal_strlit("encoder_backlash");
    lemma_key("encoder_backlash");
    reveal_strlit("encoder_filter");
    lemma_key("encoder_filter");
    reveal_strlit("invert_spindle");
    lemma_key("invert_spindle");
    reveal_strlit("screw_pitch");
    lemma_key("screw_pitch");
    reveal_strlit("motor_steps");
    lemma_key("motor_steps");
    reveal_strlit("speed_start");
    lemma_key("speed_start");
    reveal_strlit("speed_max");
    lemma_key("speed_max");
    reveal_strlit("acceleration");
    lemma_key("acceleration");
    reveal_strlit("max_pitch");
    lemma_key("max_pitch");
    reveal_strlit("invert_dir");
    lemma_key("invert_dir");
    reveal_strlit("invert_enable");
    lemma_key("invert_enable");
    reveal_strlit("step_active_low");
    lemma_key("step_active_low");
    reveal_strlit("step_pulse");
    lemma_key("step_pulse");
    reveal_strlit("dir_setup");
    lemma_key("dir_setup");
    reveal_strlit("jog_speed_1");
    lemma_key("jog_speed_1");
    reveal_strlit("jog_speed_2");
    lemma_key("jog_speed_2");
    reveal_strlit("jog_speed_3");
    lemma_key("jog_speed_3");
    reveal_strlit("jog_speed_4");
    lemma_key("jog_speed_4");
    reveal_strlit("jog_hold_after");
    lemma_key("jog_hold_after");
    reveal_strlit("jog_level_every");
    lemma_key("jog_level_every");
    reveal_with_fuel(field_index_from, 22);
}

/// `key=value` for setting `i` of `s`, as a browser submits it.
pub open spec fn form_pair(s: Settings, i: usize) -> Seq<u8> {
    field_spec(i).key.spec_bytes() + seq![61u8] + value_text(field_spec(i), field_value(s, i))
}

/// The pairs for settings `i..`: every setting, except unticked boxes.
pub open spec fn form_pairs(s: Settings, i: int) -> Seq<Seq<u8>>
    decreases FIELD_COUNT - i,
{
    if i < 0 || i >= FIELD_COUNT {
        Seq::empty()
    } else if field_spec(i as usize).kind == Kind::Flag && field_value(s, i as usize) == 0 {
        form_pairs(s, i + 1)
    } else {
        seq![form_pair(s, i as usize)] + form_pairs(s, i + 1)
    }
}

/// `ps` joined with `sep` between them.
pub open spec fn joined(ps: Seq<Seq<u8>>, sep: u8) -> Seq<u8>
    decreases ps.len(),
{
    if ps.len() == 0 {
        Seq::empty()
    } else if ps.len() == 1 {
        ps[0]
    } else {
        ps[0] + seq![sep] + joined(ps.drop_first(), sep)
    }
}

/// The form body a browser submits for the settings page showing `s`.
pub open spec fn form_body(s: Settings) -> Seq<u8> {
    joined(form_pairs(s, 0), 38)
}

/// `b` holds no `x`.
pub open spec fn lacks(b: Seq<u8>, x: u8) -> bool {
    forall|k: int| 0 <= k < b.len() ==> #[trigger] b[k] != x
}

proof fn lemma_find_after(a: Seq<u8>, x: u8, c: Seq<u8>)
    requires
        lacks(a, x),
    ensures
        find(a + seq![x] + c, x) == a.len(),
        (a + seq![x] + c).take(a.len() as int) =~= a,
        (a + seq![x] + c).skip(a.len() + 1int) =~= c,
{
    let b = a + seq![x] + c;
    lemma_find(b, x);
    assert(b[a.len() as int] == x);
    let k = find(b, x);
    if k < a.len() {
        assert(b[k] == a[k]);
    }
}

proof fn lemma_find_none(a: Seq<u8>, x: u8)
    requires
        lacks(a, x),
    ensures
        find(a, x) == a.len(),
{
    lemma_find(a, x);
}

proof fn lemma_pieces_joined(ps: Seq<Seq<u8>>)
    requires
        ps.len() >= 1,
        forall|i: int| 0 <= i < ps.len() ==> lacks(#[trigger] ps[i], 38),
    ensures
        pieces(joined(ps, 38), 38) == ps,
    decreases ps.len(),
{
    if ps.len() == 1 {
        lemma_find_none(ps[0], 38);
        assert(ps[0].take(ps[0].len() as int) =~= ps[0]);
        assert(seq![ps[0]] =~= ps);
    } else {
        let rest = ps.drop_first();
        assert forall|i: int| 0 <= i < rest.len() implies lacks(#[trigger] rest[i], 38) by {
            assert(rest[i] == ps[i + 1]);
        }
        lemma_pieces_joined(rest);
        assert(lacks(ps[0], 38));
        lemma_find_after(ps[0], 38, joined(rest, 38));
        assert(seq![ps[0]] + rest =~= ps);
    }
}

/// What a form pair of a setting holds, and that it reads back.
proof fn lemma_form_pair(s: Settings, i: usize)
    requires
        i < FIELD_COUNT,
        first_bad_field(s, 0) is None,
        field_spec(i).kind == Kind::Flag ==> field_value(s, i) != 0,
    ensures
        lacks(form_pair(s, i), 38),
        field_index_from(key_of(form_pair(s, i)), 0) == Some(i),
        field_input(raw_of(form_pair(s, i)), field_spec(i)) == Ok::<i64, FormError>(field_value(s, i) as i64),
{
    let f = field_spec(i);
    let v = field_value(s, i);
    let k = f.key.spec_bytes();
    let t = value_text(f, v);
    lemma_no_bad_field(s, 0, i as int);
    lemma_field_value_range(s, i);
    lemma_value_text(f, v);
    lemma_field_keys(i);
    assert(lacks(k, 61));
    lemma_find_after(k, 61, t);
    let p = form_pair(s, i);
    assert(key_of(p) =~= k);
    assert(raw_of(p) =~= t);
    assert forall|j: int| 0 <= j < p.len() implies #[trigger] p[j] != 38 by {
        if j < k.len() {
            assert(p[j] == k[j]);
            assert(key_byte(k[j]));
        } else if j > k.len() {
            assert(p[j] == t[j - k.len() - 1]);
        }
    }
}

proof fn lemma_field_value_range(s: Settings, i: usize)
    ensures
        0 <= field_value(s, i) <= u32::MAX,
        field_spec(i).kind == Kind::Flag ==> (field_value(s, i) == 0 || field_value(s, i) == 1),
{
}

/// Clearing the boxes from `i` on leaves them 0 and the settings before `i`
/// as they were.
proof fn lemma_flags_cleared(x: Settings, i: int)
    requires
        0 <= i <= FIELD_COUNT,
    ensures
        forall|j: usize| i <= j < FIELD_COUNT && field_spec(j).kind == Kind::Flag
            ==> #[trigger] field_value(flags_cleared(x, i), j) == 0,
        forall|j: usize| j < i ==> #[trigger] field_value(flags_cleared(x, i), j) == field_value(x, j),
    decreases FIELD_COUNT - i,
{
    if i < FIELD_COUNT {
        let iu = i as usize;
        let x1 = if field_spec(iu).kind == Kind::Flag { field_set(x, iu, 0) } else { x };
        lemma_flags_cleared(x1, i + 1);
        assert(flags_cleared(x, i) == flags_cleared(x1, i + 1));
        assert forall|j: usize| j < FIELD_COUNT implies #[trigger] field_value(x1, j) == (if j == iu
            && field_spec(iu).kind == Kind::Flag { 0 } else { field_value(x, j) }) by {
            if field_spec(iu).kind == Kind::Flag {
                lemma_field_set_get(x, iu, j, 0);
            }
        }
        let y = flags_cleared(x, i);
        assert forall|j: usize| i <= j < FIELD_COUNT && field_spec(j).kind == Kind::Flag
            implies #[trigger] field_value(y, j) == 0 by {
            if j == iu {
                assert(field_value(y, j) == field_value(x1, j));
            }
        }
        assert forall|j: usize| j < i implies #[trigger] field_value(y, j) == field_value(x, j) by {
            assert(field_value(y, j) == field_value(x1, j));
        }
    }
}

proof fn lemma_missing_none(seen: Seq<bool>, i: int)
    requires
        0 <= i <= FIELD_COUNT,
        seen.len() == FIELD_COUNT,
        forall|j: int| i <= j < FIELD_COUNT && field_spec(j as usize).kind != Kind::Flag ==> #[trigger] seen[j],
    ensures
        missing_from(seen, i) is None,
    decreases FIELD_COUNT - i,
{
    if i < FIELD_COUNT {
        lemma_missing_none(seen, i + 1);
    }
}

/// Applying the pairs of settings `i..` of `s` on top of `x`, which agrees
/// with `s` before `i` and has the boxes from `i` on cleared, gives settings
/// that agree with `s` everywhere, with every numeric setting seen.
proof fn lemma_apply_form_pairs(s: Settings, i: int, x: Settings, seen: Seq<bool>)
    requires
        0 <= i <= FIELD_COUNT,
        first_bad_field(s, 0) is None,
        seen.len() == FIELD_COUNT,
        forall|j: usize| j < i ==> #[trigger] field_value(x, j) == field_value(s, j),
        forall|j: usize| i <= j < FIELD_COUNT && field_spec(j).kind == Kind::Flag ==> #[trigger] field_value(x, j) == 0,
        forall|j: int| 0 <= j < i && field_spec(j as usize).kind != Kind::Flag ==> #[trigger] seen[j],
    ensures
        apply_pairs(form_pairs(s, i), x, seen) matches Ok((x2, seen2)) && seen2.len() == FIELD_COUNT
            && (forall|j: usize| j < FIELD_COUNT ==> #[trigger] field_value(x2, j) == field_value(s, j))
            && (forall|j: int| 0 <= j < FIELD_COUNT && field_spec(j as usize).kind != Kind::Flag ==> #[trigger] seen2[j]),
    decreases FIELD_COUNT - i,
{
    if i == FIELD_COUNT {
        assert(form_pairs(s, i) =~= Seq::<Seq<u8>>::empty());
    } else {
        let iu = i as usize;
        lemma_field_value_range(s, iu);
        if field_spec(iu).kind == Kind::Flag && field_value(s, iu) == 0 {
            lemma_apply_form_pairs(s, i + 1, x, seen);
        } else {
            let v = field_value(s, iu);
            lemma_form_pair(s, iu);
            lemma_no_bad_field(s, 0, i);
            let x1 = field_set(x, iu, v as i64);
            let seen1 = seen.update(i, true);
            assert forall|j: usize| j < FIELD_COUNT implies #[trigger] field_value(x1, j) == (if j == iu { v } else {
                field_value(x, j) }) by {
                lemma_field_set_get(x, iu, j, v as i64);
            }
            lemma_apply_form_pairs(s, i + 1, x1, seen1);
            let ps = form_pairs(s, i);
            assert(ps[0] == form_pair(s, iu));
            assert(ps.drop_first() =~= form_pairs(s, i + 1));
        }
    }
}

/// Settings that agree on every setting are equal.
proof fn lemma_settings_ext(a: Settings, b: Settings)
    requires
        forall|j: usize| j < FIELD_COUNT ==> #[trigger] field_value(a, j) == field_value(b, j),
    ensures
        a == b,
{
    assert(field_value(a, 0) == field_value(b, 0));
    assert(field_value(a, 1) == field_value(b, 1));
    assert(field_value(a, 2) == field_value(b, 2));
    assert(field_value(a, 3) == field_value(b, 3));
    assert(field_value(a, 4) == field_value(b, 4));
    assert(field_value(a, 5) == field_value(b, 5));
    assert(field_value(a, 6) == field_value(b, 6));
    assert(field_value(a, 7) == field_value(b, 7));
    assert(field_value(a, 8) == field_value(b, 8));
    assert(field_value(a, 9) == field_value(b, 9));
    assert(field_value(a, 10) == field_value(b, 10));
    assert(field_value(a, 11) == field_value(b, 11));
    assert(field_value(a, 12) == field_value(b, 12));
    assert(field_value(a, 13) == field_value(b, 13));
    assert(field_value(a, 14) == field_value(b, 14));
    assert(field_value(a, 15) == field_value(b, 15));
    assert(field_value(a, 16) == field_value(b, 16));
    assert(field_value(a, 17) == field_value(b, 17));
    assert(field_value(a, 18) == field_value(b, 18));
    assert(field_value(a, 19) == field_value(b, 19));
    assert(field_value(a, 20) == field_value(b, 20));
    assert(a.jog_speeds_du_per_s =~= b.jog_speeds_du_per_s);
}

/// The settings page reads back: submitting the form for valid settings
/// `s`, as a browser fills it in from the page, gives `s` again, whatever
/// settings it is applied on top of.
pub proof fn lemma_form_round_trip(s: Settings, base: Settings, t: Timing)
    requires
        s.validation(t) is Ok,
    ensures
        form_settings(form_body(s), base, t) == Ok::<Settings, FormError>(s),
{
    assert(first_bad_field(s, 0) is None);
    let x = flags_cleared(base, 0);
    lemma_flags_cleared(base, 0);
    lemma_apply_form_pairs(s, 0, x, none_seen());
    let ps = form_pairs(s, 0);
    assert(field_spec(0).kind == Kind::Integer);
    assert(ps.len() >= 1);
    assert forall|j: int| 0 <= j < ps.len() implies lacks(#[trigger] ps[j], 38) by {
        lemma_pairs_lack(s, 0, j);
    }
    lemma_pieces_joined(ps);
    let (x2, seen2) = apply_pairs(ps, x, none_seen())->Ok_0;
    lemma_missing_none(seen2, 0);
    lemma_settings_ext(x2, s);
}

proof fn lemma_pairs_lack(s: Settings, i: int, j: int)
    requires
        0 <= i <= FIELD_COUNT,
        first_bad_field(s, 0) is None,
        0 <= j < form_pairs(s, i).len(),
    ensures
        lacks(form_pairs(s, i)[j], 38),
    decreases FIELD_COUNT - i,
{
    if i < FIELD_COUNT {
        let iu = i as usize;
        lemma_field_value_range(s, iu);
        if field_spec(iu).kind == Kind::Flag && field_value(s, iu) == 0 {
            lemma_pairs_lack(s, i + 1, j);
        } else if j == 0 {
            lemma_form_pair(s, iu);
        } else {
            lemma_pairs_lack(s, i + 1, j - 1);
        }
    }
}

} // verus!
