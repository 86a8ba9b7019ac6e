//! The frame layout: a 13-byte header and the payload.
//!
//! ```text
//! [magic: b"WAL1"][version: u8 = 1][len: u32 LE][crc32: u32 LE][payload: len bytes]
//! ```
//!
//! The checksum covers version, length and payload. The magic never changes;
//! the version byte is the only way the format evolves.
use crate::text::{dec, push_u64};
use vstd::prelude::*;
use vstd::slice::slice_subrange;
use vstd::slice::slice_to_vec;
use vstd::string::*;

verus! {

pub const WIRE_VERSION: u8 = 1;

pub const HEADER_LEN: usize = 13;

pub const MAX_FRAME_LEN: usize = 16_777_216;

/// The four bytes every frame starts with.
pub open spec fn magic() -> Seq<u8> {
    seq![87u8, 65u8, 76u8, 49u8]
}

#[derive(Debug)]
pub enum WireError {
    Encode(String),
    Decode(String),
    /// The slice does not hold a complete frame.
    InsufficientData,
    BadMagic { offset: u64 },
    /// The version byte is not `WIRE_VERSION`: the bytes belong to another
    /// decoder, which is not a matter for corruption recovery.
    BadVersion(u8),
    BadCrc,
    FrameTooLarge { len: usize },
    Io(String),
}

impl WireError {
    /// The message an operator sees.
    pub open spec fn text(self) -> Seq<char> {
        match self {
            WireError::Encode(m) => "encode error: "@ + m@,
            WireError::Decode(m) => "decode error: "@ + m@,
            WireError::InsufficientData => "insufficient data"@,
            WireError::BadMagic { offset } => "bad magic at offset "@ + dec(offset as nat),
            WireError::BadVersion(v) => "unsupported wire version "@ + dec(v as nat),
            WireError::BadCrc => "crc mismatch"@,
            WireError::FrameTooLarge { len } => "frame length "@ + dec(len as nat)
                + " exceeds maximum"@,
            WireError::Io(m) => "io error: "@ + m@,
        }
    }

    pub fn message(&self) -> (r: String)
        ensures
            r@ == self.text(),
    {
        match self {
            WireError::Encode(m) => "encode error: ".to_owned().concat(m.as_str()),
            WireError::Decode(m) => "decode error: ".to_owned().concat(m.as_str()),
            WireError::InsufficientData => "insufficient data".to_owned(),
            WireError::BadMagic { offset } => {
                let mut s: String = "bad magic at offset ".to_owned();
                push_u64(&mut s, *offset);
                s
            },
            WireError::BadVersion(v) => {
                let mut s: String = "unsupported wire version ".to_owned();
                push_u64(&mut s, *v as u64);
                s
            },
            WireError::BadCrc => "crc mismatch".to_owned(),
            WireError::FrameTooLarge { len } => {
                let mut s: String = "frame length ".to_owned();
                push_u64(&mut s, *len as u64);
                s.append(" exceeds maximum");
                s
            },
            WireError::Io(m) => "io error: ".to_owned().concat(m.as_str()),
        }
    }
}

// ---------------------------------------------------------------------------
// Little-endian words
// ---------------------------------------------------------------------------

/// `n` as four bytes, least significant first.
pub open spec fn le_bytes(n: int) -> Seq<u8> {
    seq![
        (n % 256) as u8,
        ((n / 256) % 256) as u8,
        ((n / 65536) % 256) as u8,
        ((n / 16777216) % 256) as u8,
    ]
}

/// The number four bytes spell, least significant first.
pub open spec fn le_value(b: Seq<u8>) -> int {
    b[0] + 256 * b[1] + 65536 * b[2] + 16777216 * b[3]
}

/// Spelling a word out and reading it back gives the word.
pub proof fn law_le_round_trip(n: int)
    requires
        0 <= n < 0x1_0000_0000,
    ensures
        le_bytes(n).len() == 4,
        le_value(le_bytes(n)) == n,
{
}

fn push_le(buf: &mut Vec<u8>, n: u32)
    ensures
        final(buf)@ == old(buf)@ + le_bytes(n as int),
{
    buf.push((n % 256) as u8);
    buf.push(((n / 256) % 256) as u8);
    buf.push(((n / 65536) % 256) as u8);
    buf.push(((n / 16777216) % 256) as u8);
    assert(buf@ =~= old(buf)@ + le_bytes(n as int));
}

fn read_le(b: &[u8], at: usize) -> (n: u32)
    requires
        at + 4 <= b@.len(),
    ensures
        n == le_value(b@.subrange(at as int, at + 4)),
{
    let ghost s = b@.subrange(at as int, at + 4);
    assert(s[0] == b@[at as int] && s[1] == b@[at + 1] && s[2] == b@[at + 2] && s[3] == b@[at + 3]);
    b[at] as u32 + 256 * (b[at + 1] as u32) + 65536 * (b[at + 2] as u32) + 16777216 * (b[at + 3]
        as u32)
}

// ---------------------------------------------------------------------------
// Frames
// ---------------------------------------------------------------------------

/// The CRC-32 of a byte string.
pub uninterp spec fn crc32(bytes: Seq<u8>) -> u32;

/// `crc32fast::Hasher`: feeding it two slices one after the other and
/// finalizing gives the CRC-32 of their concatenation. Which 32-bit value that
/// is for given bytes is not spelled out here, it only gets a name.
#[verifier::external_body]
fn checksum(head: &[u8], payload: &[u8]) -> (r: u32)
    ensures
        r == crc32(head@ + payload@),
{
    let mut hasher = crc32fast::Hasher::new();
    hasher.update(head);
    hasher.update(payload);
    hasher.finalize()
}

/// Version and length as the checksum sees them.
pub open spec fn guarded_head(len: int) -> Seq<u8> {
    seq![WIRE_VERSION] + le_bytes(len)
}

/// The frame around a payload.
pub open spec fn frame(payload: Seq<u8>) -> Seq<u8> {
    magic() + guarded_head(payload.len() as int) + le_bytes(
        crc32(guarded_head(payload.len() as int) + payload) as int,
    ) + payload
}

/// Whether the magic stands at `k`.
pub open spec fn magic_at(b: Seq<u8>, k: int) -> bool {
    0 <= k && k + 4 <= b.len() && b.subrange(k, k + 4) == magic()
}

/// The payload length a header announces.
pub open spec fn header_len(b: Seq<u8>) -> int {
    le_value(b.subrange(5, 9))
}

/// The checksum a header carries.
pub open spec fn header_crc(b: Seq<u8>) -> int {
    le_value(b.subrange(9, 13))
}

/// The payload behind a header.
pub open spec fn body(b: Seq<u8>) -> Seq<u8> {
    b.subrange(13, 13 + header_len(b))
}

/// Whether the bytes start with a header of this version that announces a
/// payload of acceptable length.
pub open spec fn header_ok(b: Seq<u8>) -> bool {
    b.len() >= HEADER_LEN && magic_at(b, 0) && b[4] == WIRE_VERSION && header_len(b)
        <= MAX_FRAME_LEN
}

/// Whether the checksum of the frame at the front is right.
pub open spec fn crc_ok(b: Seq<u8>) -> bool {
    crc32(b.subrange(4, 9) + body(b)) == header_crc(b)
}

/// Whether the bytes start with a whole, intact frame.
pub open spec fn frame_ok(b: Seq<u8>) -> bool {
    header_ok(b) && b.len() >= HEADER_LEN + header_len(b) && crc_ok(b)
}

/// Whether the magic stands at `at`.
pub(crate) fn is_magic(b: &[u8], at: usize) -> (r: bool)
    requires
        at + 4 <= b@.len(),
    ensures
        r == magic_at(b@, at as int),
{
    let r: bool = b[at] == 87 && b[at + 1] == 65 && b[at + 2] == 76 && b[at + 3] == 49;
    let ghost s = b@.subrange(at as int, at + 4);
    assert(s[0] == b@[at as int] && s[1] == b@[at + 1] && s[2] == b@[at + 2] && s[3] == b@[at + 3]);
    assert(r ==> s =~= magic());
    r
}

pub(crate) fn announced_len(b: &[u8]) -> (n: usize)
    requires
        b@.len() >= HEADER_LEN,
    ensures
        n == header_len(b@),
{
    read_le(b, 5) as usize
}

pub(crate) fn intact(b: &[u8]) -> (r: bool)
    requires
        b@.len() >= HEADER_LEN,
        header_len(b@) <= MAX_FRAME_LEN,
        b@.len() >= HEADER_LEN + header_len(b@),
    ensures
        r == crc_ok(b@),
{
    let n: usize = announced_len(b);
    let crc: u32 = checksum(slice_subrange(b, 4, 9), slice_subrange(b, 13, 13 + n));
    crc == read_le(b, 9)
}

/// Append the frame around `payload` to `buf`. A payload longer than
/// `MAX_FRAME_LEN` is refused and nothing is written.
pub fn encode_frame(payload: &[u8], buf: &mut Vec<u8>) -> (r: Result<(), WireError>)
    ensures
        payload@.len() <= MAX_FRAME_LEN ==> r == Ok::<(), WireError>(()) && final(buf)@ == old(
            buf,
        )@ + frame(payload@),
        payload@.len() > MAX_FRAME_LEN ==> r == Err::<(), WireError>(
            WireError::FrameTooLarge { len: payload@.len() as usize },
        ) && final(buf)@ == old(buf)@,
{
    let n: usize = payload.len();
    if n > MAX_FRAME_LEN {
        return Err(WireError::FrameTooLarge { len: n });
    }
    let len: u32 = n as u32;
    let mut head: Vec<u8> = Vec::new();
    head.push(WIRE_VERSION);
    push_le(&mut head, len);
    assert(head@ =~= guarded_head(n as int));
    let crc: u32 = checksum(head.as_slice(), payload);
    buf.push(87);
    buf.push(65);
    buf.push(76);
    buf.push(49);
    buf.push(WIRE_VERSION);
    push_le(buf, len);
    push_le(buf, crc);
    let mut tail: Vec<u8> = slice_to_vec(payload);
    buf.append(&mut tail);
    assert(buf@ =~= old(buf)@ + frame(payload@));
    Ok(())
}

/// What decoding the front of a slice gives: the payload and the number of
/// bytes it took, or the first thing found wrong.
pub open spec fn decoded(b: Seq<u8>, r: Result<(Vec<u8>, usize), WireError>) -> bool {
    if b.len() < HEADER_LEN {
        r == Err::<(Vec<u8>, usize), WireError>(WireError::InsufficientData)
    } else if !magic_at(b, 0) {
        r == Err::<(Vec<u8>, usize), WireError>(WireError::BadMagic { offset: 0 })
    } else if b[4] != WIRE_VERSION {
        r == Err::<(Vec<u8>, usize), WireError>(WireError::BadVersion(b[4]))
    } else if header_len(b) > MAX_FRAME_LEN {
        r == Err::<(Vec<u8>, usize), WireError>(
            WireError::FrameTooLarge { len: header_len(b) as usize },
        )
    } else if b.len() < HEADER_LEN + header_len(b) {
        r == Err::<(Vec<u8>, usize), WireError>(WireError::InsufficientData)
    } else if !crc_ok(b) {
        r == Err::<(Vec<u8>, usize), WireError>(WireError::BadCrc)
    } else {
        r matches Ok((p, n)) && p@ == body(b) && n == HEADER_LEN + header_len(b)
    }
}

/// Decode the payload of one frame from the front of a slice, strictly: no
/// searching past damage. Gives the payload and the bytes consumed.
pub fn decode_frame(buf: &[u8]) -> (r: Result<(Vec<u8>, usize), WireError>)
    ensures
        decoded(buf@, r),
{
    if buf.len() < HEADER_LEN {
        return Err(WireError::InsufficientData);
    }
    if !is_magic(buf, 0) {
        return Err(WireError::BadMagic { offset: 0 });
    }
    let version: u8 = buf[4];
    if version != WIRE_VERSION {
        return Err(WireError::BadVersion(version));
    }
    let len: usize = announced_len(buf);
    if len > MAX_FRAME_LEN {
        return Err(WireError::FrameTooLarge { len });
    }
    if buf.len() < HEADER_LEN + len {
        return Err(WireError::InsufficientData);
    }
    if !intact(buf) {
        return Err(WireError::BadCrc);
    }
    Ok((slice_to_vec(slice_subrange(buf, HEADER_LEN, HEADER_LEN + len)), HEADER_LEN + len))
}

/// A frame followed by anything starts with a whole, intact frame around the
/// payload it was made from.
pub proof fn lemma_frame(payload: Seq<u8>, rest: Seq<u8>)
    requires
        payload.len() <= MAX_FRAME_LEN,
    ensures
        frame(payload).len() == HEADER_LEN + payload.len(),
        frame_ok(frame(payload) + rest),
        header_len(frame(payload) + rest) == payload.len(),
        body(frame(payload) + rest) == payload,
        (frame(payload) + rest).skip(HEADER_LEN + payload.len()) == rest,
{
    let b = frame(payload) + rest;
    let n = payload.len() as int;
    let crc = crc32(guarded_head(n) + payload) as int;
    law_le_round_trip(n);
    law_le_round_trip(crc);
    assert(b.subrange(0, 4) =~= magic());
    assert(b.subrange(5, 9) =~= le_bytes(n));
    assert(b.subrange(9, 13) =~= le_bytes(crc));
    assert(b.subrange(4, 9) =~= guarded_head(n));
    assert(b.subrange(13, 13 + n) =~= payload);
    assert(b.skip(HEADER_LEN + payload.len()) =~= rest);
}

/// Whatever decoding gives for a frame followed by anything, it is the payload
/// the frame was made from and the length of the frame.
pub proof fn law_decode_reads_encode(
    payload: Seq<u8>,
    rest: Seq<u8>,
    r: Result<(Vec<u8>, usize), WireError>,
)
    requires
        payload.len() <= MAX_FRAME_LEN,
        decoded(frame(payload) + rest, r),
    ensures
        r matches Ok((p, n)) && p@ == payload && n == frame(payload).len(),
{
    lemma_frame(payload, rest);
}

/// No strict prefix of a frame decodes: it is reported as incomplete.
pub proof fn law_decode_refuses_partial(
    payload: Seq<u8>,
    k: int,
    r: Result<(Vec<u8>, usize), WireError>,
)
    requires
        payload.len() <= MAX_FRAME_LEN,
        0 <= k < frame(payload).len(),
        decoded(frame(payload).take(k), r),
    ensures
        r == Err::<(Vec<u8>, usize), WireError>(WireError::InsufficientData),
{
    lemma_frame(payload, Seq::<u8>::empty());
    let b = frame(payload) + Seq::<u8>::empty();
    assert(b =~= frame(payload));
    let t = frame(payload).take(k);
    if k >= HEADER_LEN {
        assert(t.subrange(0, 4) =~= b.subrange(0, 4));
        assert(t.subrange(5, 9) =~= b.subrange(5, 9));
    }
}

} // verus!
