//! Fixed-capacity buffers from `heapless`, as the contracts see them.
//!
//! A `heapless::Vec<T, N>` holds at most `N` items in order; `push` appends
//! while there is room and otherwise leaves the vector unchanged. Each
//! instantiation the library uses gets a name for its contents and wrappers
//! for the methods it calls.
use vstd::prelude::*;
use vstd::utf8::encode_utf8;
use crate::stepgen::Item;

verus! {

#[verifier::external_type_specification]
#[verifier::external_body]
#[verifier::reject_recursive_types(T)]
pub struct ExHeaplessVec<T, const N: usize>(heapless::Vec<T, N>);

/// Capacity of the pulse list of a segment.
pub const STEP_CAPACITY: usize = 32;

/// Capacity of the sequencer item list of a segment.
pub const ITEM_CAPACITY: usize = 33;

/// Contents of a segment's pulse list, first pushed first.
pub uninterp spec fn step_list(v: heapless::Vec<u32, 32>) -> Seq<u32>;

/// Contents of a segment's sequencer item list, first pushed first.
pub uninterp spec fn item_list(v: heapless::Vec<Item, 33>) -> Seq<Item>;

/// `heapless::Vec::new`: an empty vector.
#[verifier::external_body]
pub(crate) fn steps_new() -> (r: heapless::Vec<u32, 32>)
    ensures
        step_list(r) == Seq::<u32>::empty(),
{
    heapless::Vec::new()
}

/// `heapless::Vec::push`: appends `x` and returns `true` when fewer than 32
/// items are held; otherwise changes nothing and returns `false`.
#[verifier::external_body]
pub(crate) fn steps_push(v: &mut heapless::Vec<u32, 32>, x: u32) -> (ok: bool)
    ensures
        ok == (step_list(*old(v)).len() < 32),
        ok ==> step_list(*final(v)) == step_list(*old(v)).push(x),
        !ok ==> step_list(*final(v)) == step_list(*old(v)),
{
    v.push(x).is_ok()
}

/// `heapless::Vec::as_slice`: the items held, never more than the capacity.
#[verifier::external_body]
pub(crate) fn steps_slice(v: &heapless::Vec<u32, 32>) -> (r: &[u32])
    ensures
        r@ == step_list(*v),
        r@.len() <= 32,
{
    v.as_slice()
}

/// `heapless::Vec::new`: an empty vector.
#[verifier::external_body]
pub(crate) fn items_new() -> (r: heapless::Vec<Item, 33>)
    ensures
        item_list(r) == Seq::<Item>::empty(),
{
    heapless::Vec::new()
}

/// `heapless::Vec::push`: appends `x` and returns `true` when fewer than 33
/// items are held; otherwise changes nothing and returns `false`.
#[verifier::external_body]
pub(crate) fn items_push(v: &mut heapless::Vec<Item, 33>, x: Item) -> (ok: bool)
    ensures
        ok == (item_list(*old(v)).len() < 33),
        ok ==> item_list(*final(v)) == item_list(*old(v)).push(x),
        !ok ==> item_list(*final(v)) == item_list(*old(v)),
{
    v.push(x).is_ok()
}

#[verifier::external_type_specification]
#[verifier::external_body]
pub struct ExHeaplessString<const N: usize>(heapless::String<N>);

/// Bytes of a display command being assembled (at most 64).
pub uninterp spec fn command_bytes(v: heapless::Vec<u8, 64>) -> Seq<u8>;

/// `heapless::Vec::push`: appends `x` and returns `true` when fewer than 64
/// bytes are held; otherwise changes nothing and returns `false`.
#[verifier::external_body]
pub(crate) fn command_push(v: &mut heapless::Vec<u8, 64>, x: u8) -> (ok: bool)
    ensures
        ok == (command_bytes(*old(v)).len() < 64),
        ok ==> command_bytes(*final(v)) == command_bytes(*old(v)).push(x),
        !ok ==> command_bytes(*final(v)) == command_bytes(*old(v)),
{
    v.push(x).is_ok()
}

/// `heapless::Vec::extend_from_slice`: appends all of `xs` and returns `true`
/// when they fit the 64 bytes of capacity; otherwise changes nothing.
#[verifier::external_body]
pub(crate) fn command_extend(v: &mut heapless::Vec<u8, 64>, xs: &[u8]) -> (ok: bool)
    ensures
        ok == (command_bytes(*old(v)).len() + xs@.len() <= 64),
        ok ==> command_bytes(*final(v)) == command_bytes(*old(v)) + xs@,
        !ok ==> command_bytes(*final(v)) == command_bytes(*old(v)),
{
    v.extend_from_slice(xs).is_ok()
}

/// `heapless::Vec::new`: an empty vector.
#[verifier::external_body]
pub(crate) fn command_new() -> (r: heapless::Vec<u8, 64>)
    ensures
        command_bytes(r) == Seq::<u8>::empty(),
{
    heapless::Vec::new()
}

/// Text of a keypad entry (at most 8 bytes).
pub uninterp spec fn entry_chars(s: heapless::String<8>) -> Seq<char>;

/// `heapless::String::new`: an empty string.
#[verifier::external_body]
pub(crate) fn entry_new() -> (r: heapless::String<8>)
    ensures
        entry_chars(r) == Seq::<char>::empty(),
{
    heapless::String::new()
}

/// `heapless::String::push`: appends `c` and returns `true` when its UTF-8
/// bytes fit the 8 bytes of capacity; otherwise changes nothing.
#[verifier::external_body]
pub(crate) fn entry_push(s: &mut heapless::String<8>, c: char) -> (ok: bool)
    ensures
        ok == (encode_utf8(entry_chars(*old(s))).len() + encode_utf8(seq![c]).len() <= 8),
        ok ==> entry_chars(*final(s)) == entry_chars(*old(s)).push(c),
        !ok ==> entry_chars(*final(s)) == entry_chars(*old(s)),
{
    s.push(c).is_ok()
}

/// `heapless::String::pop`: removes and returns the last character.
#[verifier::external_body]
pub(crate) fn entry_pop(s: &mut heapless::String<8>) -> (r: Option<char>)
    ensures
        entry_chars(*old(s)).len() == 0 ==> r is None && entry_chars(*final(s)) == entry_chars(*old(s)),
        entry_chars(*old(s)).len() > 0 ==> r == Some(entry_chars(*old(s)).last())
            && entry_chars(*final(s)) == entry_chars(*old(s)).drop_last(),
{
    s.pop()
}

/// `heapless::String::as_str`: the text held.
#[verifier::external_body]
pub(crate) fn entry_str(s: &heapless::String<8>) -> (r: &str)
    ensures
        r@ == entry_chars(*s),
{
    s.as_str()
}

/// Text of a display field (at most 40 bytes).
pub uninterp spec fn field_chars(t: heapless::String<40>) -> Seq<char>;

/// `heapless::String::new`: an empty string.
#[verifier::external_body]
pub(crate) fn field_new() -> (r: heapless::String<40>)
    ensures
        field_chars(r) == Seq::<char>::empty(),
{
    heapless::String::new()
}

/// `heapless::String::push`: appends `c` and returns `true` when its UTF-8
/// bytes fit the 40 bytes of capacity; otherwise changes nothing.
#[verifier::external_body]
pub(crate) fn field_push(t: &mut heapless::String<40>, c: char) -> (ok: bool)
    ensures
        ok == (encode_utf8(field_chars(*old(t))).len() + encode_utf8(seq![c]).len() <= 40),
        ok ==> field_chars(*final(t)) == field_chars(*old(t)).push(c),
        !ok ==> field_chars(*final(t)) == field_chars(*old(t)),
{
    t.push(c).is_ok()
}

/// `heapless::String::push_str`: appends all of `s` and returns `true` when
/// its UTF-8 bytes fit the 40 bytes of capacity; otherwise changes nothing.
#[verifier::external_body]
pub(crate) fn field_push_str(t: &mut heapless::String<40>, s: &str) -> (ok: bool)
    ensures
        ok == (encode_utf8(field_chars(*old(t))).len() + encode_utf8(s@).len() <= 40),
        ok ==> field_chars(*final(t)) == field_chars(*old(t)) + s@,
        !ok ==> field_chars(*final(t)) == field_chars(*old(t)),
{
    t.push_str(s).is_ok()
}

/// `heapless::String::pop`: removes and returns the last character.
#[verifier::external_body]
pub(crate) fn field_pop(t: &mut heapless::String<40>) -> (r: Option<char>)
    ensures
        field_chars(*old(t)).len() == 0 ==> r is None && field_chars(*final(t)) == field_chars(*old(t)),
        field_chars(*old(t)).len() > 0 ==> r == Some(field_chars(*old(t)).last())
            && field_chars(*final(t)) == field_chars(*old(t)).drop_last(),
{
    t.pop()
}

/// `heapless::String::as_str`: the text held.
#[verifier::external_body]
pub(crate) fn field_str(t: &heapless::String<40>) -> (r: &str)
    ensures
        r@ == field_chars(*t),
{
    t.as_str()
}

} // verus!
