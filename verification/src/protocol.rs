//! Length-prefixed framing of the wire protocol.
//!
//! A frame is the payload's length as a 4-byte big-endian integer followed by
//! the payload. Serial data that starts with such a frame carries one
//! consonance message; `framed_payload` finds it.

use vstd::prelude::*;

verus! {

/// The four bytes of `x`, most significant first.
pub open spec fn be_bytes(x: u32) -> Seq<u8> {
    seq![
        (x / 0x100_0000) as u8,
        ((x / 0x1_0000) % 0x100) as u8,
        ((x / 0x100) % 0x100) as u8,
        (x % 0x100) as u8,
    ]
}

/// The integer that four bytes denote, most significant first.
pub open spec fn be_value(b: Seq<u8>) -> int {
    b[0] * 0x100_0000 + b[1] * 0x1_0000 + b[2] * 0x100 + b[3]
}

/// The length prefix written for a payload of `len` bytes: the length modulo 2^32.
pub open spec fn length_prefix(len: int) -> u32 {
    (len % 0x1_0000_0000) as u32
}

/// A payload with its length prefix.
pub open spec fn framed(payload: Seq<u8>) -> Seq<u8> {
    be_bytes(length_prefix(payload.len() as int)) + payload
}

/// Frames longer than this are not taken for consonance messages.
pub const MAX_DETECTED_PAYLOAD: usize = 1024;

/// The payload of the frame that serial data starts with: present when the
/// data holds at least five bytes and the prefix announces a non-empty
/// payload shorter than `MAX_DETECTED_PAYLOAD` that fits in what follows.
pub open spec fn detected_payload(data: Seq<u8>) -> Option<Seq<u8>> {
    if data.len() >= 5 {
        let len = be_value(data);
        if 0 < len && len <= data.len() - 4 && len < MAX_DETECTED_PAYLOAD {
            Some(data.subrange(4, 4 + len))
        } else {
            None
        }
    } else {
        None
    }
}

/// Prefixes a payload with its length as a 4-byte big-endian integer.
pub fn frame_payload(payload: &[u8]) -> (out: Vec<u8>)
    ensures
        out@ == framed(payload@),
{
    let len: u64 = payload.len() as u64;
    let n: u32 = (len % 0x1_0000_0000) as u32;
    let mut out: Vec<u8> = Vec::new();
    out.push((n / 0x100_0000) as u8);
    out.push(((n / 0x1_0000) % 0x100) as u8);
    out.push(((n / 0x100) % 0x100) as u8);
    out.push((n % 0x100) as u8);
    assert(out@ =~= be_bytes(length_prefix(payload@.len() as int)));
    let mut i: usize = 0;
    while i < payload.len()
        invariant
            0 <= i <= payload@.len(),
            out@ == be_bytes(length_prefix(payload@.len() as int)) + payload@.take(i as int),
        decreases payload@.len() - i,
    {
        out.push(payload[i]);
        i = i + 1;
        assert(payload@.take(i as int) =~= payload@.take(i - 1).push(payload@[i - 1]));
    }
    assert(payload@.take(i as int) =~= payload@);
    out
}

/// The payload of the frame that the data starts with, if it is one that
/// may carry a consonance message (see `detected_payload`).
pub fn framed_payload(data: &[u8]) -> (r: Option<Vec<u8>>)
    ensures
        r matches Some(p) ==> detected_payload(data@) == Some(p@),
        r is None ==> detected_payload(data@) is None,
{
    if data.len() < 5 {
        return None;
    }
    let len: u32 = (data[0] as u32) * 0x100_0000 + (data[1] as u32) * 0x1_0000 + (data[2] as u32)
        * 0x100 + data[3] as u32;
    let len: usize = len as usize;
    if len > 0 && len <= data.len() - 4 && len < MAX_DETECTED_PAYLOAD {
        let mut p: Vec<u8> = Vec::new();
        let mut i: usize = 4;
        while i < 4 + len
            invariant
                4 <= i <= 4 + len,
                len < MAX_DETECTED_PAYLOAD,
                4 + len <= data@.len(),
                p@ == data@.subrange(4, i as int),
            decreases 4 + len - i,
        {
            p.push(data[i]);
            i = i + 1;
            assert(data@.subrange(4, i as int) =~= data@.subrange(4, i - 1).push(data@[i - 1]));
        }
        Some(p)
    } else {
        None
    }
}

/// The prefix of a frame announces the payload's length, and the payload
/// follows it unchanged.
pub proof fn lemma_frame_layout(payload: Seq<u8>)
    requires
        payload.len() < 0x1_0000_0000,
    ensures
        framed(payload).len() == payload.len() + 4,
        be_value(framed(payload)) == payload.len(),
        framed(payload).skip(4) == payload,
{
    let f = framed(payload);
    let x = length_prefix(payload.len() as int);
    assert(x == payload.len());
    assert(f[0] == (x / 0x100_0000) as u8);
    assert(f[1] == ((x / 0x1_0000) % 0x100) as u8);
    assert(f[2] == ((x / 0x100) % 0x100) as u8);
    assert(f[3] == (x % 0x100) as u8);
    assert(f.skip(4) =~= payload);
}

/// A framed payload that may carry a consonance message is found again at the
/// start of the serial data, whatever follows the frame.
pub proof fn lemma_framed_payload_detected(payload: Seq<u8>, rest: Seq<u8>)
    requires
        0 < payload.len() < MAX_DETECTED_PAYLOAD,
    ensures
        detected_payload(framed(payload) + rest) == Some(payload),
{
    lemma_frame_layout(payload);
    let d = framed(payload) + rest;
    assert(be_value(d) == be_value(framed(payload)));
    assert(d.subrange(4, 4 + payload.len() as int) =~= payload);
}

} // verus!
