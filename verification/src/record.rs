//! Framing for small records persisted in flash.
//!
//! ```text
//! offset  size  field
//!      0     4  magic     identifies the record kind; erased flash reads 0xFFFFFFFF
//!      4     2  version   payload format version, for migrations
//!      6     2  length    payload length in bytes
//!      8     4  sequence  incremented on every save; the newer valid slot wins
//!     12     4  crc32     over version, length, sequence and payload
//!     16     n  payload
//! ```
//!
//! Each record kind uses two slots (flash sectors) written alternately, so a
//! power cut during a save leaves the previous copy intact. Everything is
//! little-endian.
use vstd::prelude::*;

verus! {

pub const HEADER_LEN: usize = 16;

/// Little-endian bytes of a 16-bit value.
pub open spec fn le16(x: int) -> Seq<u8> {
    seq![(x % 256) as u8, ((x / 256) % 256) as u8]
}

/// Little-endian bytes of a 32-bit value.
pub open spec fn le32(x: int) -> Seq<u8> {
    seq![(x % 256) as u8, ((x / 256) % 256) as u8, ((x / 65536) % 256) as u8, ((x / 16777216) % 256) as u8]
}

/// Value of two little-endian bytes.
pub open spec fn from_le16(b: Seq<u8>) -> int {
    b[0] + 256 * b[1]
}

/// Value of four little-endian bytes.
pub open spec fn from_le32(b: Seq<u8>) -> int {
    b[0] + 256 * b[1] + 65536 * b[2] + 16777216 * b[3]
}

pub proof fn lemma_le16(x: int)
    requires
        0 <= x < 65536,
    ensures
        le16(x).len() == 2,
        from_le16(le16(x)) == x,
{
}

pub proof fn lemma_le32(x: int)
    requires
        0 <= x < 0x1_0000_0000,
    ensures
        le32(x).len() == 4,
        from_le32(le32(x)) == x,
{
}

/// One bit step of the reflected CRC-32 (IEEE 802.3) shift register.
pub open spec fn crc_bit(c: u32) -> u32 {
    if c & 1 != 0 { (c >> 1) ^ 0xEDB8_8320 } else { c >> 1 }
}

/// `k` bit steps.
pub open spec fn crc_bits(c: u32, k: nat) -> u32
    decreases k,
{
    if k == 0 { c } else { crc_bit(crc_bits(c, (k - 1) as nat)) }
}

/// CRC register after feeding `bytes`, starting from `c`.
pub open spec fn crc_update(c: u32, bytes: Seq<u8>) -> u32
    decreases bytes.len(),
{
    if bytes.len() == 0 {
        c
    } else {
        crc_bits(crc_update(c, bytes.drop_last()) ^ (bytes.last() as u32), 8)
    }
}

/// CRC-32 (IEEE 802.3) of `bytes`.
pub open spec fn crc32_of(bytes: Seq<u8>) -> u32 {
    !crc_update(0xFFFF_FFFF, bytes)
}

/// The bytes of several slices, one after the other.
pub open spec fn concat(parts: Seq<Seq<u8>>) -> Seq<u8>
    decreases parts.len(),
{
    if parts.len() == 0 { Seq::empty() } else { concat(parts.drop_last()) + parts.last() }
}

/// Views of the slices in `parts`.
pub open spec fn views(parts: Seq<&[u8]>) -> Seq<Seq<u8>> {
    parts.map_values(|p: &[u8]| p@)
}

/// CRC-32 (IEEE 802.3) over several byte slices.
pub fn crc32(parts: &[&[u8]]) -> (r: u32)
    ensures
        r == crc32_of(concat(views(parts@))),
{
    let mut crc = 0xFFFF_FFFFu32;
    let mut i: usize = 0;
    while i < parts.len()
        invariant
            0 <= i <= parts.len(),
            crc == crc_update(0xFFFF_FFFF, concat(views(parts@.take(i as int)))),
        decreases parts.len() - i,
    {
        let part: &[u8] = parts[i];
        let ghost before = concat(views(parts@.take(i as int)));
        let mut j: usize = 0;
        while j < part.len()
            invariant
                0 <= j <= part.len(),
                crc == crc_update(0xFFFF_FFFF, before + part@.take(j as int)),
            decreases part.len() - j,
        {
            let byte = part[j];
            crc = crc ^ byte as u32;
            let ghost start = crc;
            let mut k: u32 = 0;
            while k < 8
                invariant
                    0 <= k <= 8,
                    crc == crc_bits(start, k as nat),
                decreases 8 - k,
            {
                crc = if crc & 1 != 0 { (crc >> 1) ^ 0xEDB8_8320 } else { crc >> 1 };
                k += 1;
            }
            assert((before + part@.take(j + 1)).drop_last() =~= before + part@.take(j as int));
            j += 1;
        }
        assert(part@.take(part@.len() as int) =~= part@);
        assert(views(parts@.take(i + 1)).drop_last() =~= views(parts@.take(i as int)));
        i += 1;
    }
    assert(parts@.take(parts@.len() as int) =~= parts@);
    !crc
}


/// Why a slot didn't hold a usable record.
#[derive(Clone, Copy, Debug, PartialEq, Eq, Structural)]
pub enum SlotError {
    /// Erased flash: nothing was ever written.
    Blank,
    /// Something is there but it isn't a valid record of this kind (random
    /// data, a torn write, bit rot).
    Corrupt,
}

/// A valid record read from a slot.
#[derive(Clone, Copy, Debug, PartialEq, Eq)]
pub struct Record<'a> {
    pub version: u16,
    pub sequence: u32,
    pub payload: &'a [u8],
}

/// Result of loading the newest valid record from a pair of slots.
#[derive(Clone, Copy, Debug, PartialEq, Eq)]
pub enum Loaded<'a> {
    Found { record: Record<'a>, slot: usize },
    /// Both slots erased.
    Blank,
    /// No valid record and at least one slot held garbage.
    Corrupt,
}

/// Model of a record: version, sequence and payload bytes.
pub struct RecordView {
    pub version: u16,
    pub sequence: u32,
    pub payload: Seq<u8>,
}

impl<'a> Record<'a> {
    pub open spec fn model(self) -> RecordView {
        RecordView { version: self.version, sequence: self.sequence, payload: self.payload@ }
    }
}

/// Model of a [`Loaded`].
pub enum LoadedView {
    Found { record: RecordView, slot: int },
    Blank,
    Corrupt,
}

impl<'a> Loaded<'a> {
    pub open spec fn model(self) -> LoadedView {
        match self {
            Loaded::Found { record, slot } => LoadedView::Found { record: record.model(), slot: slot as int },
            Loaded::Blank => LoadedView::Blank,
            Loaded::Corrupt => LoadedView::Corrupt,
        }
    }
}

/// The bytes the CRC covers: version, length, sequence and payload.
pub open spec fn crc_input(version: u16, sequence: u32, payload: Seq<u8>) -> Seq<u8> {
    le16(version as int) + le16(payload.len() as int) + le32(sequence as int) + payload
}

/// A whole encoded record.
pub open spec fn record_bytes(magic: u32, version: u16, sequence: u32, payload: Seq<u8>) -> Seq<u8> {
    le32(magic as int) + le16(version as int) + le16(payload.len() as int) + le32(sequence as int)
        + le32(crc32_of(crc_input(version, sequence, payload)) as int) + payload
}

/// What `decode` finds in `slot` for a record of kind `magic`.
pub open spec fn decoded(magic: u32, slot: Seq<u8>) -> Result<RecordView, SlotError> {
    let len = from_le16(slot.subrange(6, 8));
    if slot.len() < HEADER_LEN {
        Err(SlotError::Corrupt)
    } else if forall|i: int| 0 <= i < HEADER_LEN ==> slot[i] == 0xFF {
        Err(SlotError::Blank)
    } else if from_le32(slot.subrange(0, 4)) != magic {
        Err(SlotError::Corrupt)
    } else if HEADER_LEN + len > slot.len() {
        Err(SlotError::Corrupt)
    } else if crc32_of(slot.subrange(4, 12) + slot.subrange(16, 16 + len)) != from_le32(slot.subrange(12, 16)) {
        Err(SlotError::Corrupt)
    } else {
        Ok(RecordView {
            version: from_le16(slot.subrange(4, 6)) as u16,
            sequence: from_le32(slot.subrange(8, 12)) as u32,
            payload: slot.subrange(16, 16 + len),
        })
    }
}

/// `b` is newer than `a`: sequence numbers wrap, and the newer one is at
/// most half the range ahead.
pub open spec fn is_newer(b: u32, a: u32) -> bool {
    let d = (b - a) % 0x1_0000_0000;
    0 < d < 0x8000_0000
}

/// The newest valid record of kind `magic` in two slots.
pub open spec fn loaded(magic: u32, a: Seq<u8>, b: Seq<u8>) -> LoadedView {
    pick(decoded(magic, a), decoded(magic, b))
}

/// The newer of two decoded slots.
pub open spec fn pick(da: Result<RecordView, SlotError>, db: Result<RecordView, SlotError>) -> LoadedView {
    match (da, db) {
        (Ok(x), Ok(y)) => if is_newer(y.sequence, x.sequence) {
            LoadedView::Found { record: y, slot: 1 }
        } else {
            LoadedView::Found { record: x, slot: 0 }
        },
        (Ok(x), _) => LoadedView::Found { record: x, slot: 0 },
        (_, Ok(y)) => LoadedView::Found { record: y, slot: 1 },
        (Err(SlotError::Blank), Err(SlotError::Blank)) => LoadedView::Blank,
        _ => LoadedView::Corrupt,
    }
}

/// Slot and sequence number for the next save.
pub open spec fn next_slot_of(loaded: LoadedView) -> (int, u32) {
    match loaded {
        LoadedView::Found { record, slot } => (1 - slot, ((record.sequence + 1) % 0x1_0000_0000) as u32),
        _ => (0, 1),
    }
}

fn put_le16(out: &mut [u8], at: usize, x: u16)
    requires
        at + 2 <= old(out)@.len(),
    ensures
        final(out)@ == old(out)@.update(at as int, le16(x as int)[0]).update(at + 1, le16(x as int)[1]),
{
    out[at] = (x % 256) as u8;
    out[at + 1] = (x / 256) as u8;
}

fn put_le32(out: &mut [u8], at: usize, x: u32)
    requires
        at + 4 <= old(out)@.len(),
    ensures
        final(out)@.len() == old(out)@.len(),
        final(out)@.subrange(at as int, at + 4) == le32(x as int),
        forall|i: int| 0 <= i < old(out)@.len() && !(at <= i < at + 4) ==> final(out)@[i] == old(out)@[i],
{
    out[at] = (x % 256) as u8;
    out[at + 1] = ((x / 256) % 256) as u8;
    out[at + 2] = ((x / 65536) % 256) as u8;
    out[at + 3] = (x / 16777216) as u8;
    assert(final(out)@.subrange(at as int, at + 4) =~= le32(x as int));
}

fn get_le16(b: &[u8], at: usize) -> (r: u16)
    requires
        at + 2 <= b@.len(),
    ensures
        r == from_le16(b@.subrange(at as int, at + 2)),
{
    b[at] as u16 + 256 * b[at + 1] as u16
}

fn get_le32(b: &[u8], at: usize) -> (r: u32)
    requires
        at + 4 <= b@.len(),
    ensures
        r == from_le32(b@.subrange(at as int, at + 4)),
{
    b[at] as u32 + 256 * b[at + 1] as u32 + 65536 * b[at + 2] as u32 + 16777216 * b[at + 3] as u32
}

proof fn lemma_concat_two(a: Seq<u8>, b: Seq<u8>)
    ensures
        concat(seq![a, b]) == a + b,
{
    let v = seq![a, b];
    let w = seq![a];
    let e = Seq::<Seq<u8>>::empty();
    assert(v.drop_last() =~= w);
    assert(w.drop_last() =~= e);
    assert(concat(e) == Seq::<u8>::empty());
    assert(concat(w) == concat(e) + a);
    assert(concat(w) =~= a);
    assert(concat(v) == concat(w) + b);
}

proof fn lemma_layout(
    out: Seq<u8>,
    before: Seq<u8>,
    orig: Seq<u8>,
    magic: u32,
    version: u16,
    sequence: u32,
    payload: Seq<u8>,
    crc: u32,
)
    requires
        payload.len() <= 65535,
        HEADER_LEN + payload.len() <= orig.len(),
        before.len() == orig.len(),
        out.len() == orig.len(),
        before.subrange(0, 4) == le32(magic as int),
        before.subrange(4, 6) == le16(version as int),
        before.subrange(6, 8) == le16(payload.len() as int),
        before.subrange(8, 12) == le32(sequence as int),
        forall|k: int| 0 <= k < payload.len() ==> before[HEADER_LEN + k] == payload[k],
        forall|k: int| HEADER_LEN + payload.len() <= k < orig.len() ==> before[k] == orig[k],
        out.subrange(12, 16) == le32(crc as int),
        forall|i: int| 0 <= i < before.len() && !(12 <= i < 16) ==> out[i] == before[i],
        crc == crc32_of(crc_input(version, sequence, payload)),
    ensures
        out == record_bytes(magic, version, sequence, payload) + orig.skip(HEADER_LEN + payload.len()),
{
    let total = HEADER_LEN + payload.len();
    let rb = record_bytes(magic, version, sequence, payload);
    assert(rb.len() == total);
    assert forall|k: int| 0 <= k < out.len() implies out[k] == (rb + orig.skip(total as int))[k] by {
        if k < 4 {
            assert(out[k] == before.subrange(0, 4)[k]);
        } else if k < 6 {
            assert(out[k] == before.subrange(4, 6)[k - 4]);
        } else if k < 8 {
            assert(out[k] == before.subrange(6, 8)[k - 6]);
        } else if k < 12 {
            assert(out[k] == before.subrange(8, 12)[k - 8]);
        } else if k < 16 {
            assert(out[k] == out.subrange(12, 16)[k - 12]);
        } else if k < total {
            assert(out[k] == payload[k - 16]);
        }
    }
    assert(out =~= rb + orig.skip(total as int));
}

/// Write a record into `out`; returns the number of bytes used.
pub fn encode(magic: u32, version: u16, sequence: u32, payload: &[u8], out: &mut [u8]) -> (r: Option<usize>)
    ensures
        (payload@.len() > 65535 || old(out)@.len() < HEADER_LEN + payload@.len()) ==> r is None
            && final(out)@ == old(out)@,
        !(payload@.len() > 65535 || old(out)@.len() < HEADER_LEN + payload@.len()) ==> r == Some(
            (HEADER_LEN + payload@.len()) as usize,
        ) && final(out)@ == record_bytes(magic, version, sequence, payload@) + old(out)@.skip(
            HEADER_LEN + payload@.len(),
        ),
{
    if payload.len() > 65535 || out.len() < HEADER_LEN || out.len() - HEADER_LEN < payload.len() {
        return None;
    }
    let n = payload.len();
    let total = HEADER_LEN + n;
    let ghost orig = out@;
    put_le32(out, 0, magic);
    put_le16(out, 4, version);
    put_le16(out, 6, n as u16);
    put_le32(out, 8, sequence);
    let mut i: usize = 0;
    while i < n
        invariant
            0 <= i <= n,
            n == payload@.len(),
            total == HEADER_LEN + n,
            out@.len() == orig.len(),
            total <= out@.len(),
            out@.subrange(0, 4) == le32(magic as int),
            out@.subrange(4, 6) == le16(version as int),
            out@.subrange(6, 8) == le16(n as int),
            out@.subrange(8, 12) == le32(sequence as int),
            forall|k: int| 0 <= k < i ==> out@[HEADER_LEN + k] == payload@[k],
            forall|k: int| total <= k < out@.len() ==> out@[k] == orig[k],
        decreases n - i,
    {
        out[HEADER_LEN + i] = payload[i];
        i += 1;
    }
    let crc = {
        let head: &[u8] = &out[4..12];
        let parts: [&[u8]; 2] = [head, payload];
        let r = crc32(&parts);
        proof {
            assert(head@ =~= le16(version as int) + le16(n as int) + le32(sequence as int));
            assert(views(parts@) =~= seq![head@, payload@]);
            lemma_concat_two(head@, payload@);
        }
        r
    };
    let ghost before_crc = out@;
    put_le32(out, 12, crc);
    proof {
        lemma_layout(out@, before_crc, orig, magic, version, sequence, payload@, crc);
    }
    Some(total)
}


/// `r` is the result that `decoded` describes.
pub open spec fn decode_matches(r: Result<Record, SlotError>, d: Result<RecordView, SlotError>) -> bool {
    match (r, d) {
        (Ok(x), Ok(y)) => x.model() == y,
        (Err(e1), Err(e2)) => e1 == e2,
        _ => false,
    }
}

/// Read and check a record of kind `magic` from the start of `slot`.
pub fn decode(magic: u32, slot: &[u8]) -> (r: Result<Record<'_>, SlotError>)
    ensures
        decode_matches(r, decoded(magic, slot@)),
{
    if slot.len() < HEADER_LEN {
        return Err(SlotError::Corrupt);
    }
    let mut blank = true;
    let mut i: usize = 0;
    while i < HEADER_LEN
        invariant
            0 <= i <= HEADER_LEN,
            HEADER_LEN <= slot@.len(),
            blank == forall|k: int| 0 <= k < i ==> slot@[k] == 0xFF,
        decreases HEADER_LEN - i,
    {
        if slot[i] != 0xFF {
            blank = false;
        }
        i += 1;
    }
    if blank {
        return Err(SlotError::Blank);
    }
    if get_le32(slot, 0) != magic {
        return Err(SlotError::Corrupt);
    }
    let len = get_le16(slot, 6) as usize;
    if slot.len() - HEADER_LEN < len {
        return Err(SlotError::Corrupt);
    }
    let payload: &[u8] = &slot[HEADER_LEN..HEADER_LEN + len];
    let head: &[u8] = &slot[4..12];
    let parts: [&[u8]; 2] = [head, payload];
    let crc = crc32(&parts);
    proof {
        assert(views(parts@) =~= seq![head@, payload@]);
        lemma_concat_two(head@, payload@);
    }
    if crc != get_le32(slot, 12) {
        return Err(SlotError::Corrupt);
    }
    Ok(Record { version: get_le16(slot, 4), sequence: get_le32(slot, 8), payload })
}

/// `b` is newer than `a` under wrapping sequence numbers.
fn newer(b: u32, a: u32) -> (r: bool)
    ensures
        r == is_newer(b, a),
{
    let d: u32 = if b >= a { b - a } else { (b as u64 + 0x1_0000_0000 - a as u64) as u32 };
    proof {
        if b >= a {
            assert((b - a) % 0x1_0000_0000 == b - a);
        } else {
            assert((b - a) % 0x1_0000_0000 == b - a + 0x1_0000_0000);
        }
    }
    0 < d && d < 0x8000_0000
}

/// Pick the newest valid record of kind `magic` from two slots.
pub fn load<'a>(magic: u32, slots: [&'a [u8]; 2]) -> (r: Loaded<'a>)
    ensures
        r.model() == loaded(magic, slots[0]@, slots[1]@),
{
    let a = decode(magic, slots[0]);
    let b = decode(magic, slots[1]);
    match (a, b) {
        (Ok(x), Ok(y)) => {
            if newer(y.sequence, x.sequence) {
                Loaded::Found { record: y, slot: 1 }
            } else {
                Loaded::Found { record: x, slot: 0 }
            }
        },
        (Ok(x), _) => Loaded::Found { record: x, slot: 0 },
        (_, Ok(y)) => Loaded::Found { record: y, slot: 1 },
        (Err(SlotError::Blank), Err(SlotError::Blank)) => Loaded::Blank,
        _ => Loaded::Corrupt,
    }
}

/// Slot and sequence number for the next save, given what `load` found.
pub fn next_slot(loaded: &Loaded) -> (r: (usize, u32))
    requires
        loaded matches Loaded::Found { slot, .. } ==> slot <= 1,
    ensures
        (r.0 as int, r.1) == next_slot_of(loaded.model()),
{
    match loaded {
        Loaded::Found { record, slot } => {
            let seq = if record.sequence == u32::MAX { 0 } else { record.sequence + 1 };
            (1 - *slot, seq)
        },
        _ => (0, 1),
    }
}

/// Slot and sequence number for the save after one made at `cursor`: the
/// other slot, the next sequence number (wrapping).
pub fn after_save(cursor: (usize, u32)) -> (r: (usize, u32))
    requires
        cursor.0 <= 1,
    ensures
        r.0 == 1 - cursor.0,
        r.1 == (cursor.1 + 1) % 0x1_0000_0000,
{
    (1 - cursor.0, cursor.1.wrapping_add(1))
}

/// Copy `b` into `out` at `at`.
fn copy_into(out: &mut [u8], at: usize, b: &[u8])
    requires
        at + b@.len() <= old(out)@.len(),
    ensures
        final(out)@ == old(out)@.take(at as int) + b@ + old(out)@.skip(at + b@.len()),
{
    let ghost before = out@;
    let n = out.len();
    let mut i: usize = 0;
    while i < b.len()
        invariant
            0 <= i <= b@.len(),
            n == out@.len(),
            at + b@.len() <= out@.len(),
            out@.len() == before.len(),
            forall|k: int| 0 <= k < at ==> out@[k] == before[k],
            forall|k: int| 0 <= k < i ==> out@[at + k] == b@[k],
            forall|k: int| at + b@.len() <= k < before.len() ==> out@[k] == before[k],
        decreases b@.len() - i,
    {
        out[at + i] = b[i];
        i += 1;
    }
    assert(out@ =~= before.take(at as int) + b@ + before.skip(at + b@.len()));
}

/// Little-endian payload writer.
pub struct Writer<'a> {
    buf: &'a mut [u8],
    pos: usize,
    overflow: bool,
}

impl<'a> Writer<'a> {
    /// The buffer being written.
    pub closed spec fn buf(&self) -> &'a mut [u8] {
        self.buf
    }

    /// Current contents of the buffer.
    pub closed spec fn contents(&self) -> Seq<u8> {
        self.buf@
    }

    /// Bytes written so far.
    pub closed spec fn pos(&self) -> int {
        self.pos as int
    }

    /// A write did not fit.
    pub closed spec fn overflow(&self) -> bool {
        self.overflow
    }

    pub open spec fn wf(&self) -> bool {
        0 <= self.pos() <= self.contents().len()
    }

    /// The written prefix.
    pub open spec fn written(&self) -> Seq<u8> {
        self.contents().take(self.pos())
    }

    /// State after writing `b`: appended if it fits, otherwise the overflow
    /// flag is set and nothing else changes.
    pub open spec fn wrote(old: &Self, new: &Self, b: Seq<u8>) -> bool {
        &&& new.wf()
        &&& new.contents().len() == old.contents().len()
        &&& (old.pos() + b.len() <= old.contents().len()) ==> {
            &&& new.pos() == old.pos() + b.len()
            &&& new.overflow() == old.overflow()
            &&& new.written() == old.written() + b
            &&& new.contents().skip(new.pos()) == old.contents().skip(new.pos())
        }
        &&& (old.pos() + b.len() > old.contents().len()) ==> {
            &&& new.pos() == old.pos()
            &&& new.overflow()
            &&& new.contents() == old.contents()
        }
    }

    pub fn new(buf: &'a mut [u8]) -> (r: Self)
        ensures
            r.wf(),
            r.contents() == old(buf)@,
            r.pos() == 0,
            !r.overflow(),
            final(r.buf())@ == final(buf)@,
    {
        Writer { buf, pos: 0, overflow: false }
    }

    pub fn bytes(&mut self, b: &[u8])
        requires
            old(self).wf(),
        ensures
            Self::wrote(old(self), final(self), b@),
            final(final(self).buf())@ == final(old(self).buf())@,
    {
        if b.len() <= self.buf.len() - self.pos {
            let ghost before = self.buf@;
            copy_into(self.buf, self.pos, b);
            self.pos += b.len();
            proof {
                assert(self.buf@.take(self.pos as int) =~= before.take(self.pos - b@.len()) + b@);
                assert(self.buf@.skip(self.pos as int) =~= before.skip(self.pos as int));
            }
        } else {
            self.overflow = true;
        }
    }

    pub fn u8(&mut self, v: u8)
        requires
            old(self).wf(),
        ensures
            Self::wrote(old(self), final(self), seq![v]),
            final(final(self).buf())@ == final(old(self).buf())@,
    {
        let a = [v];
        proof {
            assert(a@ =~= seq![v]);
        }
        self.bytes(&a);
    }

    pub fn u16(&mut self, v: u16)
        requires
            old(self).wf(),
        ensures
            Self::wrote(old(self), final(self), le16(v as int)),
            final(final(self).buf())@ == final(old(self).buf())@,
    {
        let a = [(v % 256) as u8, (v / 256) as u8];
        proof {
            assert(a@ =~= le16(v as int));
        }
        self.bytes(&a);
    }

    pub fn u32(&mut self, v: u32)
        requires
            old(self).wf(),
        ensures
            Self::wrote(old(self), final(self), le32(v as int)),
            final(final(self).buf())@ == final(old(self).buf())@,
    {
        let a = [(v % 256) as u8, ((v / 256) % 256) as u8, ((v / 65536) % 256) as u8, (v / 16777216) as u8];
        proof {
            assert(a@ =~= le32(v as int));
        }
        self.bytes(&a);
    }

    pub fn bool(&mut self, v: bool)
        requires
            old(self).wf(),
        ensures
            Self::wrote(old(self), final(self), seq![if v { 1u8 } else { 0u8 }]),
            final(final(self).buf())@ == final(old(self).buf())@,
    {
        self.u8(if v { 1 } else { 0 });
    }

    /// Bytes written, or `None` if the buffer was too small.
    pub fn finish(self) -> (r: Option<usize>)
        requires
            self.wf(),
        ensures
            r == if self.overflow() { None } else { Some(self.pos() as usize) },
            final(self.buf())@ == self.contents(),
    {
        if self.overflow {
            None
        } else {
            Some(self.pos)
        }
    }
}

/// Little-endian payload reader. Reading past the end yields `None`.
pub struct Reader<'a> {
    buf: &'a [u8],
    pos: usize,
}

impl<'a> Reader<'a> {
    /// The bytes being read.
    pub closed spec fn data(&self) -> Seq<u8> {
        self.buf@
    }

    /// Bytes consumed so far.
    pub closed spec fn pos(&self) -> int {
        self.pos as int
    }

    pub open spec fn wf(&self) -> bool {
        0 <= self.pos() <= self.data().len()
    }

    /// State and result after taking `n` bytes.
    pub open spec fn took(old: &Self, new: &Self, n: int) -> Option<Seq<u8>> {
        if old.pos() + n <= old.data().len() {
            Some(old.data().subrange(old.pos(), old.pos() + n))
        } else {
            None
        }
    }

    pub open spec fn advanced(old: &Self, new: &Self, n: int) -> bool {
        &&& new.data() == old.data()
        &&& new.wf()
        &&& new.pos() == if old.pos() + n <= old.data().len() { old.pos() + n } else { old.pos() }
    }

    pub fn new(buf: &'a [u8]) -> (r: Self)
        ensures
            r.wf(),
            r.data() == buf@,
            r.pos() == 0,
    {
        Reader { buf, pos: 0 }
    }

    pub fn u8(&mut self) -> (r: Option<u8>)
        requires
            old(self).wf(),
        ensures
            Self::advanced(old(self), final(self), 1),
            r == match Self::took(old(self), final(self), 1) {
                Some(b) => Some(b[0]),
                None => None,
            },
    {
        if self.pos < self.buf.len() {
            let v = self.buf[self.pos];
            self.pos += 1;
            Some(v)
        } else {
            None
        }
    }

    pub fn u16(&mut self) -> (r: Option<u16>)
        requires
            old(self).wf(),
        ensures
            Self::advanced(old(self), final(self), 2),
            r == match Self::took(old(self), final(self), 2) {
                Some(b) => Some(from_le16(b) as u16),
                None => None,
            },
    {
        if self.buf.len() - self.pos >= 2 {
            let v = get_le16(self.buf, self.pos);
            self.pos += 2;
            Some(v)
        } else {
            None
        }
    }

    pub fn u32(&mut self) -> (r: Option<u32>)
        requires
            old(self).wf(),
        ensures
            Self::advanced(old(self), final(self), 4),
            r == match Self::took(old(self), final(self), 4) {
                Some(b) => Some(from_le32(b) as u32),
                None => None,
            },
    {
        if self.buf.len() - self.pos >= 4 {
            let v = get_le32(self.buf, self.pos);
            self.pos += 4;
            Some(v)
        } else {
            None
        }
    }

    pub fn bool(&mut self) -> (r: Option<bool>)
        requires
            old(self).wf(),
        ensures
            Self::advanced(old(self), final(self), 1),
            r == match Self::took(old(self), final(self), 1) {
                Some(b) => if b[0] == 0 { Some(false) } else if b[0] == 1 { Some(true) } else { None },
                None => None,
            },
    {
        match self.u8() {
            Some(0) => Some(false),
            Some(1) => Some(true),
            _ => None,
        }
    }

    /// True if every byte was consumed.
    pub fn done(&self) -> (r: bool)
        ensures
            r == (self.pos() == self.data().len()),
    {
        self.pos == self.buf.len()
    }
}


/// A value written with [`Writer`] reads back equal through [`Reader`]:
/// when a reader over the written bytes stands where the writer stood, the
/// matching read gives the value that was written.
pub proof fn lemma_written_reads_back(
    before: &Writer,
    after: &Writer,
    data: Seq<u8>,
    bytes: Seq<u8>,
    v32: u32,
    v16: u16,
    v8: u8,
    flag: bool,
)
    requires
        before.wf(),
        Writer::wrote(before, after, bytes),
        before.pos() + bytes.len() <= before.contents().len(),
        after.pos() <= data.len(),
        data.take(after.pos()) == after.written(),
    ensures
        data.subrange(before.pos(), before.pos() + bytes.len()) == bytes,
        bytes == le32(v32 as int) ==> from_le32(data.subrange(before.pos(), before.pos() + 4)) as u32 == v32,
        bytes == le16(v16 as int) ==> from_le16(data.subrange(before.pos(), before.pos() + 2)) as u16 == v16,
        bytes == seq![v8] ==> data.subrange(before.pos(), before.pos() + 1)[0] == v8,
        bytes == seq![if flag { 1u8 } else { 0u8 }] ==> {
            let b = data.subrange(before.pos(), before.pos() + 1)[0];
            (if b == 0 { Some(false) } else if b == 1 { Some(true) } else { None }) == Some(flag)
        },
{
    let p = before.pos();
    let n = bytes.len();
    assert(after.written() == before.written() + bytes);
    assert(data.subrange(p, p + n) =~= after.written().subrange(p, p + n));
    assert(after.written().subrange(p, p + n) =~= bytes);
    if bytes == le32(v32 as int) {
        lemma_le32(v32 as int);
    }
    if bytes == le16(v16 as int) {
        lemma_le16(v16 as int);
    }
}

/// Reading back what was written: a record decodes to the version, sequence
/// and payload it was encoded with, whatever follows it in the slot. (A
/// record whose kind is `0xFFFFFFFF` is indistinguishable from erased flash.)
pub proof fn lemma_decode_encoded(
    magic: u32,
    version: u16,
    sequence: u32,
    payload: Seq<u8>,
    rest: Seq<u8>,
)
    requires
        magic != 0xFFFF_FFFF,
        payload.len() <= 65535,
    ensures
        decoded(magic, record_bytes(magic, version, sequence, payload) + rest) == Ok::<RecordView, SlotError>(
            RecordView { version, sequence, payload },
        ),
{
    let slot = record_bytes(magic, version, sequence, payload) + rest;
    let len = payload.len() as int;
    lemma_le32(magic as int);
    lemma_le16(version as int);
    lemma_le16(len);
    lemma_le32(sequence as int);
    let crc = crc32_of(crc_input(version, sequence, payload));
    lemma_le32(crc as int);
    assert(slot.subrange(0, 4) =~= le32(magic as int));
    assert(slot.subrange(4, 6) =~= le16(version as int));
    assert(slot.subrange(6, 8) =~= le16(len));
    assert(slot.subrange(8, 12) =~= le32(sequence as int));
    assert(slot.subrange(12, 16) =~= le32(crc as int));
    assert(slot.subrange(16, 16 + len) =~= payload);
    assert(slot.subrange(4, 12) + slot.subrange(16, 16 + len) =~= crc_input(version, sequence, payload));
    if forall|i: int| 0 <= i < HEADER_LEN ==> slot[i] == 0xFF {
        assert(slot.subrange(0, 4) =~= seq![0xFFu8, 0xFFu8, 0xFFu8, 0xFFu8]);
        assert(from_le32(slot.subrange(0, 4)) == 0xFFFF_FFFF);
    }
}

/// The header layout of an encoded record: the kind at offset 0, the
/// version at 4, the payload length at 6, the sequence at 8 and the CRC-32
/// of bytes 4..12 followed by the payload at 12, all little-endian, then the
/// payload itself from offset 16.
pub proof fn lemma_record_layout(magic: u32, version: u16, sequence: u32, payload: Seq<u8>)
    requires
        payload.len() <= 65535,
    ensures
        ({
            let r = record_bytes(magic, version, sequence, payload);
            let n = payload.len() as int;
            &&& r.len() == HEADER_LEN + n
            &&& r[0] + 256 * r[1] + 65536 * r[2] + 16777216 * r[3] == magic
            &&& r[4] + 256 * r[5] == version
            &&& r[6] + 256 * r[7] == n
            &&& r[8] + 256 * r[9] + 65536 * r[10] + 16777216 * r[11] == sequence
            &&& r[12] + 256 * r[13] + 65536 * r[14] + 16777216 * r[15] == crc32_of(
                r.subrange(4, 12) + r.subrange(16, 16 + n),
            )
            &&& r.subrange(16, 16 + n) == payload
        }),
{
    let r = record_bytes(magic, version, sequence, payload);
    let n = payload.len() as int;
    lemma_le32(magic as int);
    lemma_le16(version as int);
    lemma_le16(n);
    lemma_le32(sequence as int);
    let crc = crc32_of(crc_input(version, sequence, payload));
    lemma_le32(crc as int);
    assert(r.subrange(0, 4) =~= le32(magic as int));
    assert(r.subrange(4, 6) =~= le16(version as int));
    assert(r.subrange(6, 8) =~= le16(n));
    assert(r.subrange(8, 12) =~= le32(sequence as int));
    assert(r.subrange(12, 16) =~= le32(crc as int));
    assert(r.subrange(16, 16 + n) =~= payload);
    assert(r.subrange(4, 12) + r.subrange(16, 16 + n) =~= crc_input(version, sequence, payload));
    assert(from_le32(r.subrange(0, 4)) == magic);
    assert(from_le16(r.subrange(4, 6)) == version);
    assert(from_le16(r.subrange(6, 8)) == n);
    assert(from_le32(r.subrange(8, 12)) == sequence);
    assert(from_le32(r.subrange(12, 16)) == crc);
}

/// A record of one kind never decodes as another kind.
pub proof fn lemma_decode_other_kind(
    magic: u32,
    other: u32,
    version: u16,
    sequence: u32,
    payload: Seq<u8>,
    rest: Seq<u8>,
)
    requires
        magic != 0xFFFF_FFFF,
        other != magic,
        payload.len() <= 65535,
    ensures
        decoded(other, record_bytes(magic, version, sequence, payload) + rest) == Err::<RecordView, SlotError>(
            SlotError::Corrupt,
        ),
{
    let slot = record_bytes(magic, version, sequence, payload) + rest;
    lemma_le32(magic as int);
    assert(slot.subrange(0, 4) =~= le32(magic as int));
    if forall|i: int| 0 <= i < HEADER_LEN ==> slot[i] == 0xFF {
        assert(slot.subrange(0, 4) =~= seq![0xFFu8, 0xFFu8, 0xFFu8, 0xFFu8]);
        assert(from_le32(slot.subrange(0, 4)) == 0xFFFF_FFFF);
    }
}

/// Saving to the slot and sequence that `next_slot` names makes the new
/// record the one that `load` finds, while a save that did not complete
/// (the slot holds no valid record) leaves the previous record in place.
pub proof fn lemma_save_then_load(
    magic: u32,
    a: Seq<u8>,
    b: Seq<u8>,
    version: u16,
    payload: Seq<u8>,
    rest: Seq<u8>,
    torn: Seq<u8>,
)
    requires
        magic != 0xFFFF_FFFF,
        payload.len() <= 65535,
    ensures
        ({
            let before = loaded(magic, a, b);
            let (slot, sequence) = next_slot_of(before);
            let fresh = record_bytes(magic, version, sequence, payload) + rest;
            let after = if slot == 0 { loaded(magic, fresh, b) } else { loaded(magic, a, fresh) };
            after == LoadedView::Found { record: RecordView { version, sequence, payload }, slot }
        }),
        ({
            let before = loaded(magic, a, b);
            let (slot, _) = next_slot_of(before);
            let after = if slot == 0 { loaded(magic, torn, b) } else { loaded(magic, a, torn) };
            (before is Found && decoded(magic, torn) is Err) ==> after == before
        }),
{
    let da = decoded(magic, a);
    let db = decoded(magic, b);
    let before = pick(da, db);
    let (slot, sequence) = next_slot_of(before);
    lemma_decode_encoded(magic, version, sequence, payload, rest);
    lemma_pick_save(da, db, RecordView { version, sequence, payload }, decoded(magic, torn));
}

proof fn lemma_pick_save(
    da: Result<RecordView, SlotError>,
    db: Result<RecordView, SlotError>,
    fresh: RecordView,
    torn: Result<RecordView, SlotError>,
)
    requires
        fresh.sequence == next_slot_of(pick(da, db)).1,
    ensures
        ({
            let slot = next_slot_of(pick(da, db)).0;
            let after = if slot == 0 { pick(Ok(fresh), db) } else { pick(da, Ok(fresh)) };
            after == LoadedView::Found { record: fresh, slot }
        }),
        ({
            let slot = next_slot_of(pick(da, db)).0;
            let after = if slot == 0 { pick(torn, db) } else { pick(da, torn) };
            (pick(da, db) is Found && torn is Err) ==> after == pick(da, db)
        }),
{
    match pick(da, db) {
        LoadedView::Found { record, slot } => {
            assert(is_newer(fresh.sequence, record.sequence));
            assert(!is_newer(record.sequence, fresh.sequence));
        },
        _ => {},
    }
}

/// Once a record has been saved at `cursor`, the cursor `after_save` gives
/// is the one `next_slot` would give after reading the slots back, so saves
/// keep alternating without reading flash again.
pub proof fn lemma_after_save_is_next_slot(cursor: (usize, u32), version: u16, payload: Seq<u8>)
    requires
        cursor.0 <= 1,
    ensures
        ({
            let found = LoadedView::Found {
                record: RecordView { version, sequence: cursor.1, payload },
                slot: cursor.0 as int,
            };
            next_slot_of(found) == (1 - cursor.0, ((cursor.1 + 1) % 0x1_0000_0000) as u32)
        }),
{
}

/// The CRC register can be fed in pieces.
pub proof fn lemma_crc_update_concat(c: u32, x: Seq<u8>, y: Seq<u8>)
    ensures
        crc_update(c, x + y) == crc_update(crc_update(c, x), y),
    decreases y.len(),
{
    if y.len() == 0 {
        assert(x + y =~= x);
    } else {
        assert((x + y).drop_last() =~= x + y.drop_last());
        lemma_crc_update_concat(c, x, y.drop_last());
    }
}

} // verus!
