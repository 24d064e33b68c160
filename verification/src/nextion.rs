//! Nextion serial protocol: touch event parsing, component → key mapping and
//! text command encoding.
use vstd::prelude::*;
use crate::buffers::{command_bytes, command_extend, command_push};
use crate::ui::Key;
use vstd::string::StringSliceAdditionalSpecFns;

verus! {

/// Ends every message in both directions.
pub const TERM: [u8; 3] = [0xFF, 0xFF, 0xFF];

#[derive(Clone, Copy, Debug, PartialEq, Eq, Structural)]
pub struct Touch {
    pub page: u8,
    pub component: u8,
    pub pressed: bool,
}

/// Accumulates bytes from the display until a `FF FF FF` terminator.
pub struct Parser {
    buf: [u8; 32],
    len: usize,
}

impl Parser {
    /// Bytes received since the last terminator (or since the buffer last
    /// overflowed).
    pub closed spec fn pending(&self) -> Seq<u8> {
        self.buf@.take(self.len as int)
    }

    pub closed spec fn wf(&self) -> bool {
        self.len <= 32
    }
}

impl Default for Parser {
    fn default() -> (r: Self)
        ensures
            r.wf(),
            r.pending() == Seq::<u8>::empty(),
    {
        Parser { buf: [0u8; 32], len: 0 }
    }
}

/// Pending bytes after receiving `byte`: a full 32-byte buffer starts over.
pub open spec fn received(pending: Seq<u8>, byte: u8) -> Seq<u8> {
    (if pending.len() >= 32 { Seq::empty() } else { pending }).push(byte)
}

/// `m` ends with the terminator.
pub open spec fn terminated(m: Seq<u8>) -> bool {
    m.len() >= 3 && m[m.len() - 3] == 0xFF && m[m.len() - 2] == 0xFF && m[m.len() - 1] == 0xFF
}

/// The touch event a terminated message holds: `0x65 page component event`,
/// event 1 being a press.
pub open spec fn touch_in(msg: Seq<u8>) -> Option<Touch> {
    if msg.len() == 4 && msg[0] == 0x65 {
        Some(Touch { page: msg[1], component: msg[2], pressed: msg[3] == 1 })
    } else {
        None
    }
}

impl Parser {
    pub fn push(&mut self, byte: u8) -> (r: Option<Touch>)
        requires
            old(self).wf(),
        ensures
            final(self).wf(),
            ({
                let m = received(old(self).pending(), byte);
                if terminated(m) {
                    &&& final(self).pending() == Seq::<u8>::empty()
                    &&& r == touch_in(m.take(m.len() - 3))
                } else {
                    &&& final(self).pending() == m
                    &&& r is None
                }
            }),
    {
        let ghost m = received(self.pending(), byte);
        if self.len == 32 {
            self.len = 0;
        }
        self.buf[self.len] = byte;
        self.len += 1;
        assert(self.pending() =~= m);
        if self.len < 3 || self.buf[self.len - 3] != 0xFF || self.buf[self.len - 2] != 0xFF
            || self.buf[self.len - 1] != 0xFF {
            return None;
        }
        let n = self.len - 3;
        self.len = 0;
        // Touch event: 0x65 page component event(1 = press, 0 = release).
        if n == 4 && self.buf[0] == 0x65 {
            Some(Touch { page: self.buf[1], component: self.buf[2], pressed: self.buf[3] == 1 })
        } else {
            None
        }
    }
}

/// Key for a touch on page 0: the ids of `docs/nextion.md`. The jog buttons
/// report both press and release; every other button acts on press only.
pub open spec fn spec_key_for(touch: Touch) -> Option<Key> {
    if touch.page != 0 {
        None
    } else if touch.component == 48 || touch.component == 49 {
        Some(Key::Jog { left: touch.component == 48, pressed: touch.pressed })
    } else if !touch.pressed {
        None
    } else {
        let c = touch.component;
        if c == 3 || c == 23 {
            Some(Key::Disengage)
        } else if c == 5 {
            Some(Key::Reverse)
        } else if c == 6 {
            Some(Key::ToggleUnit)
        } else if c == 7 {
            Some(Key::CycleStep)
        } else if c == 9 || c == 10 {
            Some(Key::ZeroTurns)
        } else if c == 21 {
            Some(Key::ZeroZ)
        } else if c == 24 {
            Some(Key::Backspace)
        } else if c == 25 {
            Some(Key::Engage)
        } else if 26 <= c <= 35 {
            Some(Key::Digit((c - 26) as u8))
        } else if c == 40 {
            Some(Key::StopLeft)
        } else if c == 41 {
            Some(Key::StopRight)
        } else if c == 42 {
            Some(Key::Plus)
        } else if c == 43 {
            Some(Key::Minus)
        } else if c == 51 {
            Some(Key::Enter)
        } else if c == 52 {
            Some(Key::Point)
        } else if 53 <= c <= 57 {
            Some(Key::StepSize((c - 53) as u8))
        } else if c == 58 {
            Some(Key::JogCycle)
        } else if c == 59 {
            Some(Key::Setup)
        } else {
            None
        }
    }
}

/// The buttons of `docs/nextion.md`, one by one: a press on page 0 of each
/// documented component id gives that button's key; Jog L (48) and Jog R
/// (49) report press and release; any other id, a release of any other
/// button, or another page gives nothing.
pub proof fn lemma_documented_buttons(t: Touch)
    ensures
        (t.page == 0 && t.pressed && t.component == 3) ==> spec_key_for(t) == Some(Key::Disengage),
        (t.page == 0 && t.pressed && t.component == 23) ==> spec_key_for(t) == Some(Key::Disengage),
        (t.page == 0 && t.pressed && t.component == 5) ==> spec_key_for(t) == Some(Key::Reverse),
        (t.page == 0 && t.pressed && t.component == 6) ==> spec_key_for(t) == Some(Key::ToggleUnit),
        (t.page == 0 && t.pressed && t.component == 7) ==> spec_key_for(t) == Some(Key::CycleStep),
        (t.page == 0 && t.pressed && t.component == 9) ==> spec_key_for(t) == Some(Key::ZeroTurns),
        (t.page == 0 && t.pressed && t.component == 10) ==> spec_key_for(t) == Some(Key::ZeroTurns),
        (t.page == 0 && t.pressed && t.component == 21) ==> spec_key_for(t) == Some(Key::ZeroZ),
        (t.page == 0 && t.pressed && t.component == 24) ==> spec_key_for(t) == Some(Key::Backspace),
        (t.page == 0 && t.pressed && t.component == 25) ==> spec_key_for(t) == Some(Key::Engage),
        (t.page == 0 && t.pressed && t.component == 26) ==> spec_key_for(t) == Some(Key::Digit(0)),
        (t.page == 0 && t.pressed && t.component == 27) ==> spec_key_for(t) == Some(Key::Digit(1)),
        (t.page == 0 && t.pressed && t.component == 28) ==> spec_key_for(t) == Some(Key::Digit(2)),
        (t.page == 0 && t.pressed && t.component == 29) ==> spec_key_for(t) == Some(Key::Digit(3)),
        (t.page == 0 && t.pressed && t.component == 30) ==> spec_key_for(t) == Some(Key::Digit(4)),
        (t.page == 0 && t.pressed && t.component == 31) ==> spec_key_for(t) == Some(Key::Digit(5)),
        (t.page == 0 && t.pressed && t.component == 32) ==> spec_key_for(t) == Some(Key::Digit(6)),
        (t.page == 0 && t.pressed && t.component == 33) ==> spec_key_for(t) == Some(Key::Digit(7)),
        (t.page == 0 && t.pressed && t.component == 34) ==> spec_key_for(t) == Some(Key::Digit(8)),
        (t.page == 0 && t.pressed && t.component == 35) ==> spec_key_for(t) == Some(Key::Digit(9)),
        (t.page == 0 && t.pressed && t.component == 40) ==> spec_key_for(t) == Some(Key::StopLeft),
        (t.page == 0 && t.pressed && t.component == 41) ==> spec_key_for(t) == Some(Key::StopRight),
        (t.page == 0 && t.pressed && t.component == 42) ==> spec_key_for(t) == Some(Key::Plus),
        (t.page == 0 && t.pressed && t.component == 43) ==> spec_key_for(t) == Some(Key::Minus),
        (t.page == 0 && t.pressed && t.component == 51) ==> spec_key_for(t) == Some(Key::Enter),
        (t.page == 0 && t.pressed && t.component == 52) ==> spec_key_for(t) == Some(Key::Point),
        (t.page == 0 && t.pressed && t.component == 53) ==> spec_key_for(t) == Some(Key::StepSize(0)),
        (t.page == 0 && t.pressed && t.component == 54) ==> spec_key_for(t) == Some(Key::StepSize(1)),
        (t.page == 0 && t.pressed && t.component == 55) ==> spec_key_for(t) == Some(Key::StepSize(2)),
        (t.page == 0 && t.pressed && t.component == 56) ==> spec_key_for(t) == Some(Key::StepSize(3)),
        (t.page == 0 && t.pressed && t.component == 57) ==> spec_key_for(t) == Some(Key::StepSize(4)),
        (t.page == 0 && t.pressed && t.component == 58) ==> spec_key_for(t) == Some(Key::JogCycle),
        (t.page == 0 && t.pressed && t.component == 59) ==> spec_key_for(t) == Some(Key::Setup),
        (t.page == 0 && t.component == 48) ==> spec_key_for(t) == Some(Key::Jog { left: true, pressed: t.pressed }),
        (t.page == 0 && t.component == 49) ==> spec_key_for(t) == Some(Key::Jog { left: false, pressed: t.pressed }),
        (t.page == 0 && !t.pressed && t.component != 48 && t.component != 49) ==> spec_key_for(t) is None,
        (t.component != 3 && t.component != 5 && t.component != 6 && t.component != 7 && t.component != 9 && t.component != 10 && t.component != 21 && t.component != 23 && t.component != 24 && t.component != 25 && t.component != 26 && t.component != 27 && t.component != 28 && t.component != 29 && t.component != 30 && t.component != 31 && t.component != 32 && t.component != 33 && t.component != 34 && t.component != 35 && t.component != 40 && t.component != 41 && t.component != 42 && t.component != 43 && t.component != 48 && t.component != 49 && t.component != 51 && t.component != 52 && t.component != 53 && t.component != 54 && t.component != 55 && t.component != 56 && t.component != 57 && t.component != 58 && t.component != 59) ==> spec_key_for(t) is None,
        t.page != 0 ==> spec_key_for(t) is None,
{
}

/// Component ids on page 0 of the HMI. Existing NanoEls H5 ids are kept where
/// the function is unchanged; 51+ are new buttons. See docs/nextion.md.
pub fn key_for(touch: Touch) -> (r: Option<Key>)
    ensures
        r == spec_key_for(touch),
{
    if touch.page != 0 {
        return None;
    }
    match touch.component {
        48 => return Some(Key::Jog { left: true, pressed: touch.pressed }), // bLeft
        49 => return Some(Key::Jog { left: false, pressed: touch.pressed }), // bRight
        _ => {},
    }
    if !touch.pressed {
        return None;
    }
    match touch.component {
        3 | 23 => Some(Key::Disengage), // bStatus, bOff
        5 => Some(Key::Reverse), // bReverse
        6 => Some(Key::ToggleUnit), // bMeasure
        7 => Some(Key::CycleStep), // bStep / tStepVal
        9 | 10 => Some(Key::ZeroTurns), // tTurns, tAngle
        21 => Some(Key::ZeroZ), // bZ0
        24 => Some(Key::Backspace),
        25 => Some(Key::Engage), // bOn
        26..=35 => Some(Key::Digit(touch.component - 26)),
        40 => Some(Key::StopLeft),
        41 => Some(Key::StopRight),
        42 => Some(Key::Plus),
        43 => Some(Key::Minus),
        51 => Some(Key::Enter),
        52 => Some(Key::Point),
        53..=57 => Some(Key::StepSize(touch.component - 53)),
        58 => Some(Key::JogCycle), // bJogDist
        59 => Some(Key::Setup), // bSetup
        _ => None,
    }
}

/// The output buffer is too small for the command.
#[derive(Debug, PartialEq, Eq, Structural)]
pub struct BufferFull;

/// Byte sent for `c`: `°` as Nextion's 0xDF glyph, printable ASCII as itself,
/// quotes, backslashes and anything else as `?`.
pub open spec fn glyph(c: char) -> u8 {
    if c == '\u{b0}' {
        0xDF
    } else if c == '"' || c == '\\' {
        63
    } else if 0x20 <= (c as u32) < 0x7F {
        (c as u32) as u8
    } else {
        63
    }
}

/// Bytes sent for `text`.
pub open spec fn glyphs(text: Seq<char>) -> Seq<u8> {
    text.map_values(|c: char| glyph(c))
}

/// `.txt="`
pub open spec fn txt_prefix() -> Seq<u8> {
    seq![46u8, 116u8, 120u8, 116u8, 61u8, 34u8]
}

/// `id.txt="text"` + terminator.
pub open spec fn text_command(id: Seq<u8>, text: Seq<char>) -> Seq<u8> {
    id + txt_prefix() + glyphs(text) + seq![34u8] + TERM@
}

/// A text command byte by byte: the id, `.txt="`, one byte per character
/// of the text (the degree sign as the display's 0xDF glyph, printable
/// ASCII as itself except quote and backslash, `?` for anything else, so
/// the text can never close the quotes early), a closing quote and the
/// three 0xFF bytes that end every Nextion command.
pub proof fn lemma_text_command_bytes(id: Seq<u8>, text: Seq<char>)
    ensures
        ({
            let b = text_command(id, text);
            let n = id.len() as int;
            &&& b.len() == n + text.len() + 10
            &&& b.subrange(0, n) == id
            &&& b[n] == 46 && b[n + 1] == 116 && b[n + 2] == 120 && b[n + 3] == 116 && b[n + 4] == 61 && b[n + 5] == 34
            &&& forall|k: int| 0 <= k < text.len() ==> {
                let c = #[trigger] text[k];
                let x = b[n + 6 + k];
                &&& c == '\u{b0}' ==> x == 0xDF
                &&& (0x20 <= (c as u32) < 0x7F && c != '"' && c != '\\') ==> x == c as u32
                &&& (c != '\u{b0}' && !(0x20 <= (c as u32) < 0x7F && c != '"' && c != '\\')) ==> x == 63
                &&& x != 34
            }
            &&& b[n + 6 + text.len()] == 34
            &&& b[n + 7 + text.len()] == 0xFF && b[n + 8 + text.len()] == 0xFF && b[n + 9 + text.len()] == 0xFF
        }),
{
    let b = text_command(id, text);
    let n = id.len() as int;
    let g = glyphs(text);
    assert(b.subrange(0, n) =~= id);
    assert forall|k: int| 0 <= k < text.len() implies b[n + 6 + k] == g[k] by {}
    assert forall|k: int| 0 <= k < text.len() implies {
        let c = #[trigger] text[k];
        let x = b[n + 6 + k];
        &&& c == '\u{b0}' ==> x == 0xDF
        &&& (0x20 <= (c as u32) < 0x7F && c != '"' && c != '\\') ==> x == c as u32
        &&& (c != '\u{b0}' && !(0x20 <= (c as u32) < 0x7F && c != '"' && c != '\\')) ==> x == 63
        &&& x != 34
    } by {
        let c = text[k];
        let u = c as u32;
        if 0x20 <= u < 0x7F && c != '"' && c != '\\' {
            assert((u as u8) as int == u) by (bit_vector) requires u < 0x7F;
            assert(c != '\u{b0}');
            assert(u != 34) by {
                if u == 34 {
                    vstd::utf8::char_u32_cast(c, u);
                    vstd::utf8::char_u32_cast('"', 34u32);
                }
            }
        }
    }
    assert(TERM@ =~= seq![0xFFu8, 0xFFu8, 0xFFu8]);
    assert(b[n + 6 + text.len()] == 34);
}

/// What `encode_text` leaves after `old` when the command doesn't fit: the
/// id and `.txt="` only as a whole, then as many text bytes as fit, then the
/// closing quote if there is room; the terminator only as a whole.
pub open spec fn text_command_written(old: Seq<u8>, id: Seq<u8>, text: Seq<char>) -> Seq<u8> {
    let g = glyphs(text);
    let l = old.len() + id.len() + 6 + text.len();
    if old.len() + id.len() > 64 {
        old
    } else if old.len() + id.len() + 6 > 64 {
        old + id
    } else if l >= 64 {
        (old + id + txt_prefix() + g).take(64)
    } else if l + 4 > 64 {
        old + id + txt_prefix() + g + seq![34u8]
    } else {
        old + text_command(id, text)
    }
}

fn glyph_of(c: char) -> (r: u8)
    ensures
        r == glyph(c),
{
    if c == '\u{b0}' {
        0xDF
    } else if c == '"' || c == '\\' {
        63
    } else if 0x20 <= (c as u32) && (c as u32) < 0x7F {
        (c as u32) as u8
    } else {
        63
    }
}

/// Append `id.txt="text"` + terminator. `°` is sent as Nextion's 0xDF glyph;
/// other non-ASCII characters and quotes become `?`.
pub fn encode_text(out: &mut heapless::Vec<u8, 64>, id: &str, text: &str) -> (r: Result<(), BufferFull>)
    ensures
        r is Ok <==> command_bytes(*old(out)).len() + id.spec_bytes().len() + text@.len() + 10 <= 64,
        command_bytes(*final(out)) == text_command_written(command_bytes(*old(out)), id.spec_bytes(), text@),
{
    broadcast use vstd::string::axiom_spec_iter;
    let ghost o = command_bytes(*out);
    let ghost ib = id.spec_bytes();
    let ghost g = glyphs(text@);
    if !command_extend(out, id.as_bytes()) {
        return Err(BufferFull);
    }
    let txt: [u8; 6] = [46u8, 116u8, 120u8, 116u8, 61u8, 34u8];
    assert(txt@ == txt_prefix());
    if !command_extend(out, &txt) {
        return Err(BufferFull);
    }
    let ghost base = command_bytes(*out);
    for c in it: text.chars()
        invariant
            it.seq() == text@,
            g == glyphs(text@),
            g.len() == text@.len(),
            it.index() <= text@.len(),
            base.len() + it.index() <= 64,
            base == o + ib + txt_prefix(),
            o == command_bytes(*old(out)),
            ib == id.spec_bytes(),
            base.len() <= 64,
            command_bytes(*out) == base + g.take(it.index() as int),
    {
        let b = glyph_of(c);
        assert(it.index() < text@.len());
        assert(g[it.index() as int] == b);
        assert(g.take(it.index() + 1) == g.take(it.index() as int).push(b));
        if !command_push(out, b) {
            proof {
                assert(base.len() + it.index() == 64);
                assert(base + g.take(it.index() as int) =~= (base + g).take(64));
            }
            return Err(BufferFull);
        }
    }
    assert(g.take(text@.len() as int) =~= g);
    if !command_push(out, 34u8) {
        proof {
            assert(base + g =~= (base + g).take(64));
        }
        return Err(BufferFull);
    }
    if !command_extend(out, &TERM) {
        return Err(BufferFull);
    }
    proof {
        assert(command_bytes(*out) =~= o + text_command(ib, text@));
    }
    Ok(())
}

/// Short beep through the display's speaker: `play 0,0,0` + terminator.
pub const BEEP: [u8; 13] = [112, 108, 97, 121, 32, 48, 44, 48, 44, 48, 0xFF, 0xFF, 0xFF];

} // verus!
