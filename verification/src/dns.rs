//! Captive-portal DNS: answers every A query with the device's own address,
//! so any name a phone looks up leads to the setup page.
use vstd::prelude::*;

verus! {

/// End of the question name that starts at `i`: labels of at most 63 bytes,
/// ended by a zero length (compression pointers don't occur in queries).
pub open spec fn name_end(q: Seq<u8>, i: int) -> Option<int>
    decreases q.len() + 256 - i,
    when 0 <= i
{
    if i >= q.len() {
        None
    } else if q[i] == 0 {
        Some(i + 1)
    } else if q[i] >= 64 {
        None
    } else {
        name_end(q, i + 1 + q[i])
    }
}

/// Big-endian 16-bit value at `i`.
pub open spec fn be16_at(q: Seq<u8>, i: int) -> int {
    q[i] * 256 + q[i + 1]
}

/// Response to the query `q`, or `None` if it isn't a usable query: too
/// short, itself a response, not exactly one question, or a malformed name.
/// The header and question are echoed with the response flags set; an A
/// question of class IN gets one answer holding `ip` with a 60 s TTL, any
/// other question none.
pub open spec fn reply(q: Seq<u8>, ip: Seq<u8>) -> Option<Seq<u8>> {
    if q.len() < 12 || q[2] >= 0x80 || be16_at(q, 4) != 1 {
        None
    } else {
        match name_end(q, 12) {
            None => None,
            Some(i) => if i + 4 > q.len() {
                None
            } else {
                let is_a = be16_at(q, i) == 1 && be16_at(q, i + 2) == 1;
                let head = seq![
                    q[0], q[1], 0x84u8 | (q[2] & 0x79u8), 0x80u8,
                    0u8, 1u8, 0u8, if is_a { 1u8 } else { 0u8 }, 0u8, 0u8, 0u8, 0u8,
                ];
                let answer = if is_a {
                    seq![0xC0u8, 0x0Cu8, 0u8, 1u8, 0u8, 1u8, 0u8, 0u8, 0u8, 60u8, 0u8, 4u8] + ip
                } else {
                    Seq::empty()
                };
                Some(head + q.subrange(12, i + 4) + answer)
            },
        }
    }
}

fn question_name_end(query: &[u8]) -> (r: Option<usize>)
    requires
        query@.len() >= 12,
    ensures
        match r {
            Some(e) => name_end(query@, 12) == Some(e as int) && 13 <= e <= query@.len(),
            None => name_end(query@, 12) is None,
        },
{
    let mut i: usize = 12;
    loop
        invariant
            12 <= i <= query@.len() + 256,
            name_end(query@, 12) == name_end(query@, i as int),
        decreases query@.len() + 256 - i,
    {
        if i >= query.len() {
            return None;
        }
        let len = query[i];
        if len == 0 {
            return Some(i + 1);
        }
        if len & 0xC0 != 0 {
            assert(len >= 64) by (bit_vector) requires len & 0xC0 != 0;
            return None;
        }
        assert(len < 64) by (bit_vector) requires len & 0xC0 == 0;
        if len as usize >= query.len() - i - 1 {
            // The next label would start past the end.
            assert(name_end(query@, i + 1 + len) is None);
            return None;
        }
        i = i + 1 + len as usize;
    }
}

/// Build a response to `query` in `out`; `None` if it isn't a usable query
/// or the response doesn't fit. Bytes of `out` past the response are left as
/// they were.
#[verifier::rlimit(60)]
pub fn answer(query: &[u8], ip: [u8; 4], out: &mut [u8]) -> (r: Option<usize>)
    ensures
        match reply(query@, ip@) {
            Some(resp) if resp.len() <= old(out)@.len() => {
                &&& r == Some(resp.len() as usize)
                &&& final(out)@ == resp + old(out)@.skip(resp.len() as int)
            },
            _ => r is None && final(out)@ == old(out)@,
        },
{
    let ghost q = query@;
    if query.len() < 12 || query[2] & 0x80 != 0 {
        proof {
            if query.len() >= 12 {
                let b = query[2];
                assert(b >= 0x80) by (bit_vector) requires b & 0x80 != 0;
            }
        }
        return None; // too short, or itself a response
    }
    proof {
        let b = query[2];
        assert(b < 0x80) by (bit_vector) requires b & 0x80 == 0;
    }
    let qdcount = query[4] as u16 * 256 + query[5] as u16;
    if qdcount != 1 {
        return None;
    }
    let i = match question_name_end(query) {
        Some(i) => i,
        None => return None,
    };
    if query.len() - i < 4 {
        return None;
    }
    let question_end = i + 4;
    let qtype = query[i] as u16 * 256 + query[i + 1] as u16;
    let qclass = query[i + 2] as u16 * 256 + query[i + 3] as u16;
    let is_a = qtype == 1 && qclass == 1;
    let extra: usize = if is_a { 16 } else { 0 };
    if out.len() < question_end || out.len() - question_end < extra {
        return None;
    }
    let total = question_end + extra;
    assert(be16_at(q, 4) == 1);
    assert(be16_at(q, i as int) == qtype);
    assert(be16_at(q, i + 2) == qclass);
    assert(reply(q, ip@) is Some);
    let ghost resp = reply(q, ip@)->0;
    assert(ip@.len() == 4);
    assert(q.subrange(12, i + 4).len() == i + 4 - 12);
    assert(resp.len() == total);
    let ghost before = out@;
    let mut k: usize = 0;
    while k < question_end
        invariant
            question_end <= total <= out@.len(),
            question_end <= query@.len(),
            out@.len() == before.len(),
            0 <= k <= question_end,
            forall|j: int| 0 <= j < k ==> out@[j] == query@[j],
            forall|j: int| k <= j < before.len() ==> out@[j] == before[j],
        decreases question_end - k,
    {
        out[k] = query[k];
        k += 1;
    }
    // Response, opcode copied, authoritative, recursion desired copied, recursion available.
    out[2] = 0x84 | (query[2] & 0x79);
    out[3] = 0x80;
    out[4] = 0;
    out[5] = 1;
    out[6] = 0;
    out[7] = if is_a { 1 } else { 0 };
    out[8] = 0;
    out[9] = 0;
    out[10] = 0;
    out[11] = 0;
    if is_a {
        let a = question_end;
        out[a] = 0xC0; // name: pointer to the question
        out[a + 1] = 0x0C;
        out[a + 2] = 0; // type A
        out[a + 3] = 1;
        out[a + 4] = 0; // class IN
        out[a + 5] = 1;
        out[a + 6] = 0; // TTL
        out[a + 7] = 0;
        out[a + 8] = 0;
        out[a + 9] = 60;
        out[a + 10] = 0; // address length
        out[a + 11] = 4;
        out[a + 12] = ip[0];
        out[a + 13] = ip[1];
        out[a + 14] = ip[2];
        out[a + 15] = ip[3];
    }
    assert(out@ =~= resp + before.skip(total as int));
    Some(total)
}

} // verus!

verus! {

proof fn lemma_name_end_after(q: Seq<u8>, i: int)
    requires
        0 <= i,
    ensures
        name_end(q, i) matches Some(e) ==> i < e <= q.len(),
    decreases q.len() + 256 - i,
{
    if i < q.len() && q[i] != 0 && q[i] < 64 {
        lemma_name_end_after(q, i + 1 + q[i]);
    }
}

/// What the captive-portal DNS answers, byte by byte. It answers exactly the
/// usable queries: at least a header, not itself a response, one question
/// with a well-formed name followed by its type and class. The reply keeps
/// the query's id and question, is marked as a response with no error
/// (`NOERROR`, recursion available), holds one question, and for an A query
/// of class IN one answer: a pointer to the question's name, type A, class
/// IN, a 60 s TTL and the 4 bytes of `ip`. Any other question gets no answer.
pub proof fn lemma_reply_bytes(q: Seq<u8>, ip: Seq<u8>)
    requires
        ip.len() == 4,
    ensures
        reply(q, ip) is Some <==> (q.len() >= 12 && q[2] < 0x80 && q[4] == 0 && q[5] == 1
            && name_end(q, 12) is Some && name_end(q, 12)->0 + 4 <= q.len()),
        reply(q, ip) matches Some(r) ==> {
            let e = name_end(q, 12)->0;
            let is_a = q[e] == 0 && q[e + 1] == 1 && q[e + 2] == 0 && q[e + 3] == 1;
            &&& r[0] == q[0] && r[1] == q[1]
            &&& r[2] >= 0x80
            &&& r[3] % 16 == 0
            &&& r[3] >= 0x80
            &&& r[4] == 0 && r[5] == 1
            &&& r[8] == 0 && r[9] == 0 && r[10] == 0 && r[11] == 0
            &&& r.subrange(12, e + 4) == q.subrange(12, e + 4)
            &&& is_a ==> {
                &&& r.len() == e + 20
                &&& r[6] == 0 && r[7] == 1
                &&& r.subrange(e + 4, e + 16) == seq![0xC0u8, 0x0Cu8, 0u8, 1u8, 0u8, 1u8, 0u8, 0u8, 0u8, 60u8, 0u8, 4u8]
                &&& r.subrange(e + 16, e + 20) == ip
            }
            &&& !is_a ==> r.len() == e + 4 && r[6] == 0 && r[7] == 0
        },
{
    lemma_name_end_after(q, 12);
    if let Some(r) = reply(q, ip) {
        let e = name_end(q, 12)->0;
        let is_a0 = be16_at(q, e) == 1 && be16_at(q, e + 2) == 1;
        let head = seq![
            q[0], q[1], 0x84u8 | (q[2] & 0x79u8), 0x80u8,
            0u8, 1u8, 0u8, if is_a0 { 1u8 } else { 0u8 }, 0u8, 0u8, 0u8, 0u8,
        ];
        let mid = q.subrange(12, e + 4);
        let answer = if is_a0 {
            seq![0xC0u8, 0x0Cu8, 0u8, 1u8, 0u8, 1u8, 0u8, 0u8, 0u8, 60u8, 0u8, 4u8] + ip
        } else {
            Seq::empty()
        };
        assert(r == head + mid + answer);
        assert(is_a0 == (q[e] == 0 && q[e + 1] == 1 && q[e + 2] == 0 && q[e + 3] == 1));
        let q2 = q[2];
        assert((0x84u8 | (q2 & 0x79u8)) >= 0x80) by (bit_vector);
        assert(r.subrange(12, e + 4) =~= q.subrange(12, e + 4));
        let is_a = q[e] == 0 && q[e + 1] == 1 && q[e + 2] == 0 && q[e + 3] == 1;
        if is_a {
            assert(r.subrange(e + 4, e + 16) =~= seq![0xC0u8, 0x0Cu8, 0u8, 1u8, 0u8, 1u8, 0u8, 0u8, 0u8, 60u8, 0u8, 4u8]);
            assert(r.subrange(e + 16, e + 20) =~= ip);
        }
    }
}

} // verus!
