//! The gossip wire format: little-endian binary frames over UDP.
//!
//! A frame is `magic "HBGP" | version 1 | kind | flags(2) | len(4) |
//! body(len) | crc32(4)`, the checksum taken over the body. Encoding and
//! decoding are verified against one specification, and decoding an
//! encoded frame gives the frame back.

use vstd::prelude::*;
use crate::crc::{crc32, crc32_of};
use crate::election::{Election, ElectionStatus, ElectionView};
use crate::gossip::{DigestEntry, DigestEntryView};
use crate::rumor::{Rumor, RumorKind, RumorView};

verus! {

/// The four magic bytes opening every frame: "HBGP".
pub open spec fn magic_bytes() -> Seq<u8> {
    seq![0x48u8, 0x42u8, 0x47u8, 0x50u8]
}

/// The one wire version this library speaks.
pub const WIRE_VERSION: u8 = 1;

/// What a frame carries.
#[derive(Clone, Copy, Debug, PartialEq, Eq, Structural)]
pub enum FrameKind {
    /// A liveness probe.
    Ping,
    /// The answer to a probe.
    Ack,
    /// Ask a third member to probe a suspect.
    PingReq,
    /// A compact summary of held rumors.
    Digest,
    /// The rumors a digest showed missing.
    Delta,
}

/// The kind byte on the wire.
pub open spec fn spec_kind_code(k: FrameKind) -> u8 {
    match k {
        FrameKind::Ping => 1,
        FrameKind::Ack => 2,
        FrameKind::PingReq => 3,
        FrameKind::Digest => 4,
        FrameKind::Delta => 5,
    }
}

/// The kind a wire byte names, if any.
pub open spec fn spec_kind_of_code(c: u8) -> Option<FrameKind> {
    if c == 1 {
        Some(FrameKind::Ping)
    } else if c == 2 {
        Some(FrameKind::Ack)
    } else if c == 3 {
        Some(FrameKind::PingReq)
    } else if c == 4 {
        Some(FrameKind::Digest)
    } else if c == 5 {
        Some(FrameKind::Delta)
    } else {
        None
    }
}

/// The kind byte on the wire.
pub fn kind_code(k: FrameKind) -> (c: u8)
    ensures
        c == spec_kind_code(k),
{
    match k {
        FrameKind::Ping => 1,
        FrameKind::Ack => 2,
        FrameKind::PingReq => 3,
        FrameKind::Digest => 4,
        FrameKind::Delta => 5,
    }
}

/// The kind a wire byte names, if any.
pub fn kind_of_code(c: u8) -> (k: Option<FrameKind>)
    ensures
        k == spec_kind_of_code(c),
{
    if c == 1 {
        Some(FrameKind::Ping)
    } else if c == 2 {
        Some(FrameKind::Ack)
    } else if c == 3 {
        Some(FrameKind::PingReq)
    } else if c == 4 {
        Some(FrameKind::Digest)
    } else if c == 5 {
        Some(FrameKind::Delta)
    } else {
        None
    }
}

/// A 16-bit value as its two little-endian bytes.
pub open spec fn u16_le(x: u16) -> Seq<u8> {
    seq![(x % 256) as u8, (x / 256) as u8]
}

/// A 32-bit value as its four little-endian bytes.
pub open spec fn u32_le(x: u32) -> Seq<u8> {
    seq![
        (x % 256) as u8,
        ((x / 256) % 256) as u8,
        ((x / 65536) % 256) as u8,
        (x / 16777216) as u8,
    ]
}

/// Two little-endian bytes as their 16-bit value.
pub open spec fn u16_of_le(b0: u8, b1: u8) -> u16 {
    (b0 + 256 * (b1 as u16)) as u16
}

/// Four little-endian bytes as their 32-bit value.
pub open spec fn u32_of_le(b0: u8, b1: u8, b2: u8, b3: u8) -> u32 {
    (b0 + 256 * (b1 as u32) + 65536 * (b2 as u32) + 16777216 * (b3 as u32)) as u32
}

/// Reading back two little-endian bytes gives the value.
pub proof fn lemma_u16_le_round_trip(x: u16)
    ensures
        u16_of_le(u16_le(x)[0], u16_le(x)[1]) == x,
{
}

/// Reading back four little-endian bytes gives the value.
pub proof fn lemma_u32_le_round_trip(x: u32)
    ensures
        u32_of_le(u32_le(x)[0], u32_le(x)[1], u32_le(x)[2], u32_le(x)[3]) == x,
{
}

/// A 64-bit value as its eight little-endian bytes.
pub open spec fn u64_le(x: u64) -> Seq<u8> {
    seq![
        (x % 256) as u8,
        ((x / 0x100) % 256) as u8,
        ((x / 0x10000) % 256) as u8,
        ((x / 0x1000000) % 256) as u8,
        ((x / 0x100000000) % 256) as u8,
        ((x / 0x10000000000) % 256) as u8,
        ((x / 0x1000000000000) % 256) as u8,
        (x / 0x100000000000000) as u8,
    ]
}

/// Eight little-endian bytes as their 64-bit value.
pub open spec fn u64_of_le(b: Seq<u8>) -> u64
    recommends
        b.len() == 8,
{
    (b[0] + b[1] * 0x100 + b[2] * 0x10000 + b[3] * 0x1000000 + b[4] * 0x100000000 + b[5]
        * 0x10000000000 + b[6] * 0x1000000000000 + b[7] * 0x100000000000000) as u64
}

/// Reading back eight little-endian bytes gives the value.
#[verifier::rlimit(100)]
pub proof fn lemma_u64_le_round_trip(x: u64)
    ensures
        u64_of_le(u64_le(x)) == x,
{
    assert(x % 256 + ((x / 0x100) % 256) * 0x100 + ((x / 0x10000) % 256) * 0x10000 + ((x
        / 0x1000000) % 256) * 0x1000000 + ((x / 0x100000000) % 256) * 0x100000000 + ((x
        / 0x10000000000) % 256) * 0x10000000000 + ((x / 0x1000000000000) % 256) * 0x1000000000000
        + (x / 0x100000000000000) * 0x100000000000000 == x) by (bit_vector);
}

/// A 128-bit member id as its sixteen little-endian bytes.
pub open spec fn u128_le(x: u128) -> Seq<u8> {
    u64_le((x % 0x10000000000000000) as u64) + u64_le((x / 0x10000000000000000) as u64)
}

/// Sixteen little-endian bytes as their 128-bit value.
pub open spec fn u128_of_le(b: Seq<u8>) -> u128
    recommends
        b.len() == 16,
{
    (u64_of_le(b.subrange(0, 8)) + u64_of_le(b.subrange(8, 16)) * 0x10000000000000000) as u128
}

/// Reading back sixteen little-endian bytes gives the value.
pub proof fn lemma_u128_le_round_trip(x: u128)
    ensures
        u128_of_le(u128_le(x)) == x,
{
    let lo = (x % 0x10000000000000000) as u64;
    let hi = (x / 0x10000000000000000) as u64;
    lemma_u64_le_round_trip(lo);
    lemma_u64_le_round_trip(hi);
    assert(u128_le(x).subrange(0, 8) =~= u64_le(lo));
    assert(u128_le(x).subrange(8, 16) =~= u64_le(hi));
}

/// Append the eight little-endian bytes of `x`.
pub fn push_u64_le(out: &mut Vec<u8>, x: u64)
    ensures
        final(out)@ == old(out)@ + u64_le(x),
{
    out.push((x % 256) as u8);
    out.push(((x / 0x100) % 256) as u8);
    out.push(((x / 0x10000) % 256) as u8);
    out.push(((x / 0x1000000) % 256) as u8);
    out.push(((x / 0x100000000) % 256) as u8);
    out.push(((x / 0x10000000000) % 256) as u8);
    out.push(((x / 0x1000000000000) % 256) as u8);
    out.push((x / 0x100000000000000) as u8);
    proof {
        assert(out@ =~= old(out)@ + u64_le(x));
    }
}

/// Append the sixteen little-endian bytes of `x`.
pub fn push_u128_le(out: &mut Vec<u8>, x: u128)
    ensures
        final(out)@ == old(out)@ + u128_le(x),
{
    push_u64_le(out, (x % 0x10000000000000000) as u64);
    push_u64_le(out, (x / 0x10000000000000000) as u64);
    proof {
        assert(out@ =~= old(out)@ + u128_le(x));
    }
}

/// Read the 64-bit value at `at`.
pub fn read_u64_le(data: &[u8], at: usize) -> (r: u64)
    requires
        at + 8 <= data@.len(),
    ensures
        r == u64_of_le(data@.subrange(at as int, at + 8)),
{
    let ghost b = data@.subrange(at as int, at + 8);
    let r = (data[at] as u64) + (data[at + 1] as u64) * 0x100 + (data[at + 2] as u64) * 0x10000 + (
    data[at + 3] as u64) * 0x1000000 + (data[at + 4] as u64) * 0x100000000 + (data[at + 5] as u64)
        * 0x10000000000 + (data[at + 6] as u64) * 0x1000000000000 + (data[at + 7] as u64)
        * 0x100000000000000;
    proof {
        assert(b[0] == data@[at as int] && b[1] == data@[at + 1] && b[2] == data@[at + 2] && b[3]
            == data@[at + 3] && b[4] == data@[at + 4] && b[5] == data@[at + 5] && b[6] == data@[at
            + 6] && b[7] == data@[at + 7]);
    }
    r
}

/// Read the 128-bit value at `at`.
pub fn read_u128_le(data: &[u8], at: usize) -> (r: u128)
    requires
        at + 16 <= data@.len(),
    ensures
        r == u128_of_le(data@.subrange(at as int, at + 16)),
{
    let n = data.len();
    let lo = read_u64_le(data, at);
    let hi = read_u64_le(data, at + 8);
    proof {
        assert(data@.subrange(at as int, at + 16).subrange(0, 8) =~= data@.subrange(
            at as int,
            at + 8,
        ));
        assert(data@.subrange(at as int, at + 16).subrange(8, 16) =~= data@.subrange(
            at + 8,
            at + 16,
        ));
    }
    (lo as u128) + (hi as u128) * 0x10000000000000000
}

/// A probe or its acknowledgment: who speaks, at which incarnation.
#[derive(Clone, Copy, Debug, PartialEq, Eq, Structural)]
pub struct PingBody {
    pub from_id: u128,
    pub incarnation: u64,
}

/// A ping or ack body on the wire: the sender id, then its incarnation.
pub open spec fn spec_ping_body(p: PingBody) -> Seq<u8> {
    u128_le(p.from_id) + u64_le(p.incarnation)
}

/// Encode a ping or ack body.
pub fn encode_ping_body(p: &PingBody) -> (r: Vec<u8>)
    ensures
        r@ == spec_ping_body(*p),
{
    let mut r: Vec<u8> = Vec::new();
    push_u128_le(&mut r, p.from_id);
    push_u64_le(&mut r, p.incarnation);
    proof {
        assert(r@ =~= spec_ping_body(*p));
    }
    r
}

/// Decode a ping or ack body: exactly twenty-four bytes.
pub fn decode_ping_body(data: &[u8]) -> (r: Option<PingBody>)
    ensures
        match r {
            Some(p) => data@.len() == 24 && p.from_id == u128_of_le(data@.subrange(0, 16))
                && p.incarnation == u64_of_le(data@.subrange(16, 24)),
            None => data@.len() != 24,
        },
{
    if data.len() != 24 {
        return None;
    }
    let from_id = read_u128_le(data, 0);
    let incarnation = read_u64_le(data, 16);
    Some(PingBody { from_id, incarnation })
}

/// Law: a ping body round-trips.
#[verifier::rlimit(100)]
pub proof fn lemma_ping_body_round_trip(p: PingBody)
    ensures
        spec_ping_body(p).len() == 24,
        u128_of_le(spec_ping_body(p).subrange(0, 16)) == p.from_id,
        u64_of_le(spec_ping_body(p).subrange(16, 24)) == p.incarnation,
{
    lemma_u128_le_round_trip(p.from_id);
    lemma_u64_le_round_trip(p.incarnation);
    assert(spec_ping_body(p).subrange(0, 16) =~= u128_le(p.from_id));
    assert(spec_ping_body(p).subrange(16, 24) =~= u64_le(p.incarnation));
}

/// Ask a third member to probe a suspect: who asks, whom to probe, at
/// which incarnation.
#[derive(Clone, Copy, Debug, PartialEq, Eq, Structural)]
pub struct PingReqBody {
    pub from_id: u128,
    pub target_id: u128,
    pub incarnation: u64,
}

/// A ping-request body on the wire: asker, target, incarnation.
pub open spec fn spec_ping_req_body(p: PingReqBody) -> Seq<u8> {
    u128_le(p.from_id) + u128_le(p.target_id) + u64_le(p.incarnation)
}

/// Encode a ping-request body.
pub fn encode_ping_req_body(p: &PingReqBody) -> (r: Vec<u8>)
    ensures
        r@ == spec_ping_req_body(*p),
{
    let mut r: Vec<u8> = Vec::new();
    push_u128_le(&mut r, p.from_id);
    push_u128_le(&mut r, p.target_id);
    push_u64_le(&mut r, p.incarnation);
    proof {
        assert(r@ =~= spec_ping_req_body(*p));
    }
    r
}

/// Decode a ping-request body: exactly forty bytes.
pub fn decode_ping_req_body(data: &[u8]) -> (r: Option<PingReqBody>)
    ensures
        match r {
            Some(p) => data@.len() == 40 && p.from_id == u128_of_le(data@.subrange(0, 16))
                && p.target_id == u128_of_le(data@.subrange(16, 32)) && p.incarnation == u64_of_le(
                data@.subrange(32, 40),
            ),
            None => data@.len() != 40,
        },
{
    if data.len() != 40 {
        return None;
    }
    let from_id = read_u128_le(data, 0);
    let target_id = read_u128_le(data, 16);
    let incarnation = read_u64_le(data, 32);
    Some(PingReqBody { from_id, target_id, incarnation })
}

/// Law: a ping-request body round-trips.
#[verifier::rlimit(100)]
#[verifier::spinoff_prover]
pub proof fn lemma_ping_req_body_round_trip(p: PingReqBody)
    ensures
        spec_ping_req_body(p).len() == 40,
        u128_of_le(spec_ping_req_body(p).subrange(0, 16)) == p.from_id,
        u128_of_le(spec_ping_req_body(p).subrange(16, 32)) == p.target_id,
        u64_of_le(spec_ping_req_body(p).subrange(32, 40)) == p.incarnation,
{
    lemma_u128_le_round_trip(p.from_id);
    lemma_u128_le_round_trip(p.target_id);
    lemma_u64_le_round_trip(p.incarnation);
    assert(u128_le(p.from_id).len() == 16);
    assert(u128_le(p.target_id).len() == 16);
    assert(u64_le(p.incarnation).len() == 8);
    assert(spec_ping_req_body(p).subrange(0, 16) =~= u128_le(p.from_id));
    assert(spec_ping_req_body(p).subrange(16, 32) =~= u128_le(p.target_id));
    assert(spec_ping_req_body(p).subrange(32, 40) =~= u64_le(p.incarnation));
}

/// A frame: its kind, its flags, its body.
#[derive(Clone, Debug)]
pub struct Frame {
    pub kind: FrameKind,
    pub flags: u16,
    pub body: Vec<u8>,
}

/// The mathematical value of a frame.
#[verifier::ext_equal]
pub ghost struct FrameView {
    pub kind: FrameKind,
    pub flags: u16,
    pub body: Seq<u8>,
}

impl View for Frame {
    type V = FrameView;

    open spec fn view(&self) -> FrameView {
        FrameView { kind: self.kind, flags: self.flags, body: self.body@ }
    }
}

/// What is wrong with a datagram that is no frame. Such a datagram is
/// dropped and counted, never retried.
#[derive(Clone, Copy, Debug, PartialEq, Eq, Structural)]
pub enum WireError {
    /// Shorter than the fixed header and trailer.
    TooShort,
    /// Does not open with "HBGP".
    BadMagic,
    /// A wire version this library does not speak.
    BadVersion,
    /// A kind byte naming no frame kind.
    BadKind,
    /// The length field disagrees with the datagram length.
    BadLength,
    /// The checksum does not match the body.
    BadChecksum,
}

/// A frame on the wire: header, body, checksum.
pub open spec fn spec_encode_frame(f: FrameView) -> Seq<u8> {
    magic_bytes() + seq![WIRE_VERSION, spec_kind_code(f.kind)] + u16_le(f.flags) + u32_le(
        f.body.len() as u32,
    ) + f.body + u32_le(crc32_of(f.body))
}

/// What a datagram decodes to: the unique frame it encodes, or the first
/// thing wrong with it.
pub open spec fn spec_decode_frame(data: Seq<u8>) -> Result<FrameView, WireError> {
    if data.len() < 16 {
        Err(WireError::TooShort)
    } else if !(data[0] == 0x48 && data[1] == 0x42 && data[2] == 0x47 && data[3] == 0x50) {
        Err(WireError::BadMagic)
    } else if data[4] != WIRE_VERSION {
        Err(WireError::BadVersion)
    } else if spec_kind_of_code(data[5]) is None {
        Err(WireError::BadKind)
    } else if u32_of_le(data[8], data[9], data[10], data[11]) != data.len() - 16 {
        Err(WireError::BadLength)
    } else {
        let body = data.subrange(12, data.len() - 4);
        let n = data.len() as int;
        if u32_of_le(data[n - 4], data[n - 3], data[n - 2], data[n - 1]) != crc32_of(body) {
            Err(WireError::BadChecksum)
        } else {
            Ok(
                FrameView {
                    kind: spec_kind_of_code(data[5])->Some_0,
                    flags: u16_of_le(data[6], data[7]),
                    body,
                },
            )
        }
    }
}

/// Encode a frame for the wire.
pub fn encode_frame(f: &Frame) -> (r: Vec<u8>)
    requires
        f.body@.len() + 16 <= u32::MAX,
    ensures
        r@ == spec_encode_frame(f@),
{
    let mut r: Vec<u8> = Vec::new();
    r.push(0x48);
    r.push(0x42);
    r.push(0x47);
    r.push(0x50);
    r.push(WIRE_VERSION);
    r.push(kind_code(f.kind));
    r.push((f.flags % 256) as u8);
    r.push((f.flags / 256) as u8);
    let len: u32 = f.body.len() as u32;
    r.push((len % 256) as u8);
    r.push(((len / 256) % 256) as u8);
    r.push(((len / 65536) % 256) as u8);
    r.push((len / 16777216) as u8);
    let mut i: usize = 0;
    while i < f.body.len()
        invariant
            0 <= i <= f.body@.len(),
            r@ =~= magic_bytes() + seq![WIRE_VERSION, spec_kind_code(f@.kind)] + u16_le(f@.flags)
                + u32_le(f.body@.len() as u32) + f.body@.subrange(0, i as int),
        decreases f.body@.len() - i,
    {
        r.push(f.body[i]);
        proof {
            assert(f.body@.subrange(0, i + 1) =~= f.body@.subrange(0, i as int).push(
                f.body@[i as int],
            ));
        }
        i = i + 1;
    }
    proof {
        assert(f.body@.subrange(0, f.body@.len() as int) =~= f.body@);
    }
    let c: u32 = crc32(f.body.as_slice());
    r.push((c % 256) as u8);
    r.push(((c / 256) % 256) as u8);
    r.push(((c / 65536) % 256) as u8);
    r.push((c / 16777216) as u8);
    proof {
        assert(r@ =~= spec_encode_frame(f@));
    }
    r
}

/// Decode a datagram: the frame it encodes, or the first thing wrong
/// with it — which is then dropped and counted, never retried.
pub fn decode_frame(data: &[u8]) -> (r: Result<Frame, WireError>)
    ensures
        match r {
            Ok(f) => spec_decode_frame(data@) == Ok::<FrameView, WireError>(f@),
            Err(e) => spec_decode_frame(data@) == Err::<FrameView, WireError>(e),
        },
{
    let n = data.len();
    if n < 16 {
        return Err(WireError::TooShort);
    }
    if !(data[0] == 0x48 && data[1] == 0x42 && data[2] == 0x47 && data[3] == 0x50) {
        return Err(WireError::BadMagic);
    }
    if data[4] != WIRE_VERSION {
        return Err(WireError::BadVersion);
    }
    let kind = match kind_of_code(data[5]) {
        Some(k) => k,
        None => {
            return Err(WireError::BadKind);
        },
    };
    let len_field: u32 = (data[8] as u32) + 256 * (data[9] as u32) + 65536 * (data[10] as u32)
        + 16777216 * (data[11] as u32);
    if len_field as usize != n - 16 {
        return Err(WireError::BadLength);
    }
    let mut body: Vec<u8> = Vec::new();
    let mut i: usize = 12;
    while i < n - 4
        invariant
            12 <= i <= n - 4,
            n == data@.len(),
            n >= 16,
            body@ =~= data@.subrange(12, i as int),
        decreases n - 4 - i,
    {
        body.push(data[i]);
        proof {
            assert(data@.subrange(12, i + 1) =~= data@.subrange(12, i as int).push(
                data@[i as int],
            ));
        }
        i = i + 1;
    }
    let expected: u32 = crc32(body.as_slice());
    let stored: u32 = (data[n - 4] as u32) + 256 * (data[n - 3] as u32) + 65536 * (data[n
        - 2] as u32) + 16777216 * (data[n - 1] as u32);
    if stored != expected {
        return Err(WireError::BadChecksum);
    }
    let flags: u16 = (data[6] as u16) + 256 * (data[7] as u16);
    Ok(Frame { kind, flags, body })
}

/// Law: the codec round-trips — decoding an encoded frame gives the
/// frame back.
pub proof fn lemma_frame_round_trip(f: FrameView)
    requires
        f.body.len() + 16 <= u32::MAX,
    ensures
        spec_decode_frame(spec_encode_frame(f)) == Ok::<FrameView, WireError>(f),
{
    let data = spec_encode_frame(f);
    assert(data.len() == 16 + f.body.len());
    assert(data[0] == 0x48 && data[1] == 0x42 && data[2] == 0x47 && data[3] == 0x50);
    assert(data[4] == WIRE_VERSION);
    assert(data[5] == spec_kind_code(f.kind));
    assert(spec_kind_of_code(spec_kind_code(f.kind)) == Some(f.kind));
    let len: u32 = f.body.len() as u32;
    assert(data[8] == u32_le(len)[0] && data[9] == u32_le(len)[1] && data[10] == u32_le(len)[2]
        && data[11] == u32_le(len)[3]);
    lemma_u32_le_round_trip(len);
    assert(u32_of_le(data[8], data[9], data[10], data[11]) == data.len() - 16);
    assert(data.subrange(12, data.len() - 4) =~= f.body);
    let n = data.len() as int;
    let c: u32 = crc32_of(f.body);
    assert(data[n - 4] == u32_le(c)[0] && data[n - 3] == u32_le(c)[1] && data[n - 2] == u32_le(
        c,
    )[2] && data[n - 1] == u32_le(c)[3]);
    lemma_u32_le_round_trip(c);
    assert(data[6] == u16_le(f.flags)[0] && data[7] == u16_le(f.flags)[1]);
    lemma_u16_le_round_trip(f.flags);
    assert(spec_decode_frame(data) == Ok::<FrameView, WireError>(
        FrameView { kind: f.kind, flags: f.flags, body: f.body },
    ));
    assert(FrameView { kind: f.kind, flags: f.flags, body: f.body } =~= f);
}

/// The kind byte of a rumor inside a digest or delta body.
pub open spec fn spec_rumor_kind_code(k: RumorKind) -> u8 {
    match k {
        RumorKind::ServiceConfig => 1,
        RumorKind::Election => 2,
        RumorKind::Membership => 3,
        RumorKind::GossipFile => 4,
    }
}

/// The rumor kind a byte names, if any.
pub open spec fn spec_rumor_kind_of_code(c: u8) -> Option<RumorKind> {
    if c == 1 {
        Some(RumorKind::ServiceConfig)
    } else if c == 2 {
        Some(RumorKind::Election)
    } else if c == 3 {
        Some(RumorKind::Membership)
    } else if c == 4 {
        Some(RumorKind::GossipFile)
    } else {
        None
    }
}

/// The kind byte of a rumor inside a digest or delta body.
pub fn rumor_kind_code(k: RumorKind) -> (c: u8)
    ensures
        c == spec_rumor_kind_code(k),
{
    match k {
        RumorKind::ServiceConfig => 1,
        RumorKind::Election => 2,
        RumorKind::Membership => 3,
        RumorKind::GossipFile => 4,
    }
}

/// The rumor kind a byte names, if any.
pub fn rumor_kind_of_code(c: u8) -> (k: Option<RumorKind>)
    ensures
        k == spec_rumor_kind_of_code(c),
{
    if c == 1 {
        Some(RumorKind::ServiceConfig)
    } else if c == 2 {
        Some(RumorKind::Election)
    } else if c == 3 {
        Some(RumorKind::Membership)
    } else if c == 4 {
        Some(RumorKind::GossipFile)
    } else {
        None
    }
}

/// One digest entry on the wire: kind, key length, key, incarnation.
pub open spec fn digest_entry_bytes(e: DigestEntryView) -> Seq<u8> {
    seq![spec_rumor_kind_code(e.kind)] + u16_le(e.key.len() as u16) + e.key + u64_le(e.incarnation)
}

/// A run of digest entries on the wire, in order.
pub open spec fn digest_entries_bytes(s: Seq<DigestEntryView>) -> Seq<u8>
    decreases s.len(),
{
    if s.len() == 0 {
        Seq::empty()
    } else {
        digest_entries_bytes(s.drop_last()) + digest_entry_bytes(s.last())
    }
}

/// A digest body on the wire: the count, then the entries.
pub open spec fn spec_digest_body(s: Seq<DigestEntryView>) -> Seq<u8> {
    u16_le(s.len() as u16) + digest_entries_bytes(s)
}

/// One delta entry on the wire: a digest entry, then the body.
pub open spec fn delta_entry_bytes(r: RumorView) -> Seq<u8> {
    seq![spec_rumor_kind_code(r.kind)] + u16_le(r.key.len() as u16) + r.key + u64_le(r.incarnation)
        + u32_le(r.body.len() as u32) + r.body
}

/// A run of delta entries on the wire, in order.
pub open spec fn delta_entries_bytes(s: Seq<RumorView>) -> Seq<u8>
    decreases s.len(),
{
    if s.len() == 0 {
        Seq::empty()
    } else {
        delta_entries_bytes(s.drop_last()) + delta_entry_bytes(s.last())
    }
}

/// A delta body on the wire: the count, then the rumors.
pub open spec fn spec_delta_body(s: Seq<RumorView>) -> Seq<u8> {
    u16_le(s.len() as u16) + delta_entries_bytes(s)
}

/// The rumors of a delta, as mathematical values.
pub open spec fn rumor_views(s: Seq<Rumor>) -> Seq<RumorView> {
    s.map_values(|r: Rumor| r@)
}

/// Append the two little-endian bytes of `x`.
fn push_u16_le(out: &mut Vec<u8>, x: u16)
    ensures
        final(out)@ == old(out)@ + u16_le(x),
{
    out.push((x % 256) as u8);
    out.push((x / 256) as u8);
    proof {
        assert(out@ =~= old(out)@ + u16_le(x));
    }
}

/// Append the four little-endian bytes of `x`.
fn push_u32_le(out: &mut Vec<u8>, x: u32)
    ensures
        final(out)@ == old(out)@ + u32_le(x),
{
    out.push((x % 256) as u8);
    out.push(((x / 256) % 256) as u8);
    out.push(((x / 65536) % 256) as u8);
    out.push((x / 16777216) as u8);
    proof {
        assert(out@ =~= old(out)@ + u32_le(x));
    }
}

/// Append a byte run.
fn push_bytes(out: &mut Vec<u8>, bytes: &[u8])
    ensures
        final(out)@ == old(out)@ + bytes@,
{
    let mut i: usize = 0;
    while i < bytes.len()
        invariant
            0 <= i <= bytes@.len(),
            out@ =~= old(out)@ + bytes@.subrange(0, i as int),
        decreases bytes@.len() - i,
    {
        out.push(bytes[i]);
        proof {
            assert(bytes@.subrange(0, i + 1) =~= bytes@.subrange(0, i as int).push(
                bytes@[i as int],
            ));
        }
        i = i + 1;
    }
    proof {
        assert(bytes@.subrange(0, bytes@.len() as int) =~= bytes@);
        assert(out@ =~= old(out)@ + bytes@);
    }
}

/// Encode a delta body: the count, then each rumor with its key,
/// incarnation and body.
pub fn encode_delta_body(rumors: &Vec<Rumor>) -> (r: Vec<u8>)
    requires
        rumors@.len() <= u16::MAX,
        forall|i: int| 0 <= i < rumors@.len() ==> (#[trigger] rumors@[i])@.key.len() <= u16::MAX,
        forall|i: int| 0 <= i < rumors@.len() ==> (#[trigger] rumors@[i])@.body.len() <= u32::MAX,
    ensures
        r@ == spec_delta_body(rumor_views(rumors@)),
{
    let mut out: Vec<u8> = Vec::new();
    push_u16_le(&mut out, rumors.len() as u16);
    let ghost base = out@;
    let mut k: usize = 0;
    while k < rumors.len()
        invariant
            0 <= k <= rumors@.len(),
            rumors@.len() <= u16::MAX,
            forall|i: int|
                0 <= i < rumors@.len() ==> (#[trigger] rumors@[i])@.key.len() <= u16::MAX,
            forall|i: int|
                0 <= i < rumors@.len() ==> (#[trigger] rumors@[i])@.body.len() <= u32::MAX,
            base == u16_le(rumors@.len() as u16),
            out@ =~= base + delta_entries_bytes(rumor_views(rumors@).take(k as int)),
        decreases rumors@.len() - k,
    {
        let ghost before = out@;
        let r = &rumors[k];
        out.push(rumor_kind_code(r.kind));
        push_u16_le(&mut out, r.key.len() as u16);
        push_bytes(&mut out, r.key.as_slice());
        push_u64_le(&mut out, r.incarnation);
        push_u32_le(&mut out, r.body.len() as u32);
        push_bytes(&mut out, r.body.as_slice());
        proof {
            assert(out@ =~= before + delta_entry_bytes(rumors@[k as int]@));
            let taken = rumor_views(rumors@).take(k + 1);
            assert(taken.drop_last() =~= rumor_views(rumors@).take(k as int));
            assert(taken.last() == rumors@[k as int]@);
            assert(out@ =~= base + delta_entries_bytes(taken));
        }
        k = k + 1;
    }
    proof {
        assert(rumor_views(rumors@).take(rumors@.len() as int) =~= rumor_views(rumors@));
    }
    out
}

/// Copy `data[lo..hi]`.
fn copy_range(data: &[u8], lo: usize, hi: usize) -> (r: Vec<u8>)
    requires
        lo <= hi <= data@.len(),
    ensures
        r@ == data@.subrange(lo as int, hi as int),
{
    let mut r: Vec<u8> = Vec::new();
    let mut i: usize = lo;
    while i < hi
        invariant
            lo <= i <= hi <= data@.len(),
            r@ =~= data@.subrange(lo as int, i as int),
        decreases hi - i,
    {
        r.push(data[i]);
        proof {
            assert(data@.subrange(lo as int, i + 1) =~= data@.subrange(lo as int, i as int).push(
                data@[i as int],
            ));
        }
        i = i + 1;
    }
    r
}

/// The spec-level reading of `k` delta entries starting at `at`: the
/// entries and where they end, or nothing if the bytes are malformed.
pub open spec fn spec_decode_delta_entries(data: Seq<u8>, at: int, k: nat) -> Option<
    (Seq<RumorView>, int),
>
    decreases k,
{
    if k == 0 {
        Some((Seq::<RumorView>::empty(), at))
    } else if at + 15 > data.len() || spec_rumor_kind_of_code(data[at]) is None {
        None
    } else {
        let key_len = u16_of_le(data[at + 1], data[at + 2]) as int;
        if at + 15 + key_len > data.len() {
            None
        } else {
            let body_len = u32_of_le(
                data[at + 11 + key_len],
                data[at + 12 + key_len],
                data[at + 13 + key_len],
                data[at + 14 + key_len],
            ) as int;
            if at + 15 + key_len + body_len > data.len() {
                None
            } else {
                let rv = RumorView {
                    kind: spec_rumor_kind_of_code(data[at])->Some_0,
                    key: data.subrange(at + 3, at + 3 + key_len),
                    incarnation: u64_of_le(data.subrange(at + 3 + key_len, at + 11 + key_len)),
                    body: data.subrange(at + 15 + key_len, at + 15 + key_len + body_len),
                };
                match spec_decode_delta_entries(
                    data,
                    at + 15 + key_len + body_len,
                    (k - 1) as nat,
                ) {
                    Some(p) => Some((seq![rv] + p.0, p.1)),
                    None => None,
                }
            }
        }
    }
}

/// What a delta body reads as: the unique rumor sequence it encodes, or
/// nothing for anything malformed or trailing.
pub open spec fn spec_decode_delta_body(data: Seq<u8>) -> Option<Seq<RumorView>> {
    if data.len() < 2 {
        None
    } else {
        match spec_decode_delta_entries(data, 2, u16_of_le(data[0], data[1]) as nat) {
            Some(p) => if p.1 == data.len() {
                Some(p.0)
            } else {
                None
            },
            None => None,
        }
    }
}

/// The decode loop's tie to the whole-body spec reading: what remains at
/// `at` decides the total outcome, given what was already parsed.
spec fn delta_tail_ok(
    data: Seq<u8>,
    at: int,
    remaining: nat,
    parsed: Seq<RumorView>,
    count: u16,
) -> bool {
    match spec_decode_delta_entries(data, at, remaining) {
        Some(p) => spec_decode_delta_entries(data, 2, count as nat) matches Some(q) && q.0
            =~= parsed + p.0 && q.1 == p.1,
        None => spec_decode_delta_entries(data, 2, count as nat) is None,
    }
}

/// Decode a delta body. On success the rumors returned are exactly the
/// ones whose encoding the datagram is: re-encoding them gives the bytes
/// back, and the spec-level reading names them. On failure the spec-level
/// reading rejects the datagram too — a decoder that drops well-formed
/// deltas does not meet this contract. Anything malformed — a bad kind
/// byte, a length pointing past the end, trailing garbage — is rejected
/// whole.
#[verifier::rlimit(100)]
#[verifier::spinoff_prover]
pub fn decode_delta_body(data: &[u8]) -> (r: Option<Vec<Rumor>>)
    ensures
        match r {
            Some(v) => data@ == spec_delta_body(rumor_views(v@)) && spec_decode_delta_body(data@)
                == Some(rumor_views(v@)),
            None => spec_decode_delta_body(data@) is None,
        },
{
    let n = data.len();
    if n < 2 {
        return None;
    }
    let count: u16 = (data[0] as u16) + 256 * (data[1] as u16);
    let mut out: Vec<Rumor> = Vec::new();
    let mut at: usize = 2;
    let mut k: u16 = 0;
    proof {
        assert(data@.subrange(0, 2) =~= u16_le(count));
        assert(rumor_views(out@).take(0) =~= Seq::<RumorView>::empty());
        assert(delta_tail_ok(data@, 2, count as nat, rumor_views(out@), count)) by {
            match spec_decode_delta_entries(data@, 2, count as nat) {
                Some(p) => {
                    assert(rumor_views(out@) + p.0 =~= p.0);
                },
                None => {},
            }
        }
    }
    while k < count
        invariant
            0 <= k <= count,
            out@.len() == k,
            2 <= at <= n,
            n == data@.len(),
            count == u16_of_le(data@[0], data@[1]),
            forall|i: int| 0 <= i < out@.len() ==> (#[trigger] out@[i])@.key.len() <= u16::MAX,
            forall|i: int| 0 <= i < out@.len() ==> (#[trigger] out@[i])@.body.len() <= u32::MAX,
            data@.subrange(0, at as int) =~= u16_le(count) + delta_entries_bytes(
                rumor_views(out@),
            ),
            delta_tail_ok(data@, at as int, (count - k) as nat, rumor_views(out@), count),
        decreases count - k,
    {
        let ghost m = (count - k) as nat;
        if n - at < 15 {
            proof {
                assert(spec_decode_delta_entries(data@, at as int, m) is None);
            }
            return None;
        }
        let kind = match rumor_kind_of_code(data[at]) {
            Some(kd) => kd,
            None => {
                proof {
                    assert(spec_decode_delta_entries(data@, at as int, m) is None);
                }
                return None;
            },
        };
        let key_len: usize = ((data[at + 1] as u16) + 256 * (data[at + 2] as u16)) as usize;
        if n - at < 15 || n - at - 15 < key_len {
            proof {
                assert(spec_decode_delta_entries(data@, at as int, m) is None);
            }
            return None;
        }
        let key = copy_range(data, at + 3, at + 3 + key_len);
        let inc_at = at + 3 + key_len;
        let incarnation = read_u64_le(data, inc_at);
        let blen_at = inc_at + 8;
        let body_len: usize = ((data[blen_at] as u32) + 256 * (data[blen_at + 1] as u32) + 65536
            * (data[blen_at + 2] as u32) + 16777216 * (data[blen_at + 3] as u32)) as usize;
        let body_at = blen_at + 4;
        if n - body_at < body_len {
            proof {
                assert(spec_decode_delta_entries(data@, at as int, m) is None);
            }
            return None;
        }
        let body = copy_range(data, body_at, body_at + body_len);
        let next = body_at + body_len;
        let r = Rumor { kind, key, incarnation, body };
        let ghost entries_before = rumor_views(out@);
        let ghost rv = r@;
        out.push(r);
        proof {
            assert(rumor_views(out@) =~= entries_before.push(rv));
            lemma_delta_entry_shape(data@, at as int, key_len as int, body_len as int, rv);
            lemma_delta_entry_extend(
                data@,
                at as int,
                next as int,
                count,
                entries_before,
                rv,
            );
            assert(data@.subrange(0, next as int) =~= u16_le(count) + delta_entries_bytes(
                rumor_views(out@),
            ));
            // The spec reading peels exactly this entry here.
            assert(rv.key =~= data@.subrange(at + 3, at + 3 + key_len as int));
            assert(rv.body =~= data@.subrange(body_at as int, body_at + body_len as int));
            assert(spec_decode_delta_entries(data@, at as int, m) == (
            match spec_decode_delta_entries(data@, next as int, (m - 1) as nat) {
                Some(p) => Some::<(Seq<RumorView>, int)>((seq![rv] + p.0, p.1)),
                None => None::<(Seq<RumorView>, int)>,
            }));
            assert(delta_tail_ok(data@, next as int, (m - 1) as nat, rumor_views(out@), count))
                by {
                match spec_decode_delta_entries(data@, next as int, (m - 1) as nat) {
                    Some(p) => {
                        assert(spec_decode_delta_entries(data@, at as int, m) == Some::<
                            (Seq<RumorView>, int),
                        >((seq![rv] + p.0, p.1)));
                        assert(entries_before + (seq![rv] + p.0) =~= entries_before.push(rv)
                            + p.0);
                    },
                    None => {},
                }
            }
        }
        at = next;
        k = k + 1;
    }
    proof {
        assert(spec_decode_delta_entries(data@, at as int, 0) == Some::<(Seq<RumorView>, int)>((
            Seq::<RumorView>::empty(),
            at as int,
        )));
        assert(spec_decode_delta_entries(data@, 2, count as nat) matches Some(q) && q.0
            =~= rumor_views(out@) && q.1 == at as int) by {
            assert(rumor_views(out@) + Seq::<RumorView>::empty() =~= rumor_views(out@));
        }
    }
    if at != n {
        return None;
    }
    proof {
        assert(data@.subrange(0, n as int) =~= data@);
        assert(out@.len() == count);
        assert(rumor_views(out@).len() == count);
        assert(spec_decode_delta_body(data@) matches Some(v) && v =~= rumor_views(out@));
    }
    Some(out)
}

/// The bytes at `at` spell exactly one delta entry whose fields were
/// read from them.
#[verifier::rlimit(100)]
#[verifier::spinoff_prover]
proof fn lemma_delta_entry_shape(data: Seq<u8>, at: int, key_len: int, body_len: int, rv: RumorView)
    requires
        0 <= at,
        at + 15 + key_len + body_len <= data.len(),
        0 <= key_len <= u16::MAX,
        0 <= body_len <= u32::MAX,
        data[at] == spec_rumor_kind_code(rv.kind),
        rv.key =~= data.subrange(at + 3, at + 3 + key_len),
        rv.key.len() == key_len,
        key_len == data[at + 1] + 256 * data[at + 2],
        rv.incarnation == u64_of_le(data.subrange(at + 3 + key_len, at + 11 + key_len)),
        rv.body =~= data.subrange(at + 15 + key_len, at + 15 + key_len + body_len),
        rv.body.len() == body_len,
        body_len == data[at + 11 + key_len] + 256 * data[at + 12 + key_len] + 65536 * data[at + 13
            + key_len] + 16777216 * data[at + 14 + key_len],
    ensures
        data.subrange(at, at + 15 + key_len + body_len) =~= delta_entry_bytes(rv),
{
    assert(u16_le(rv.key.len() as u16) =~= data.subrange(at + 1, at + 3));
    lemma_u64_le_injective(rv.incarnation, data.subrange(at + 3 + key_len, at + 11 + key_len));
    assert(u64_le(rv.incarnation) =~= data.subrange(at + 3 + key_len, at + 11 + key_len));
    assert(u32_le(rv.body.len() as u32) =~= data.subrange(at + 11 + key_len, at + 15 + key_len));
}

/// Consuming one well-shaped entry extends the parsed prefix by it.
#[verifier::spinoff_prover]
proof fn lemma_delta_entry_extend(
    data: Seq<u8>,
    at: int,
    next: int,
    count: u16,
    entries: Seq<RumorView>,
    rv: RumorView,
)
    requires
        0 <= at <= next <= data.len(),
        data.subrange(0, at) =~= u16_le(count) + delta_entries_bytes(entries),
        data.subrange(at, next) =~= delta_entry_bytes(rv),
    ensures
        data.subrange(0, next) =~= u16_le(count) + delta_entries_bytes(entries.push(rv)),
{
    assert(entries.push(rv).drop_last() =~= entries);
    assert(entries.push(rv).last() == rv);
    assert(delta_entries_bytes(entries.push(rv)) == delta_entries_bytes(entries)
        + delta_entry_bytes(rv));
    assert(data.subrange(0, next) =~= data.subrange(0, at) + data.subrange(at, next));
}

/// The digest entries of a digest, as mathematical values.
pub open spec fn digest_entry_views(s: Seq<DigestEntry>) -> Seq<DigestEntryView> {
    s.map_values(|e: DigestEntry| e@)
}

/// Encode a digest body: the count, then each subject with its
/// incarnation.
pub fn encode_digest_body(entries: &Vec<DigestEntry>) -> (r: Vec<u8>)
    requires
        entries@.len() <= u16::MAX,
        forall|i: int| 0 <= i < entries@.len() ==> (#[trigger] entries@[i])@.key.len() <= u16::MAX,
    ensures
        r@ == spec_digest_body(digest_entry_views(entries@)),
{
    let mut out: Vec<u8> = Vec::new();
    push_u16_le(&mut out, entries.len() as u16);
    let ghost base = out@;
    let mut k: usize = 0;
    while k < entries.len()
        invariant
            0 <= k <= entries@.len(),
            entries@.len() <= u16::MAX,
            forall|i: int|
                0 <= i < entries@.len() ==> (#[trigger] entries@[i])@.key.len() <= u16::MAX,
            base == u16_le(entries@.len() as u16),
            out@ =~= base + digest_entries_bytes(digest_entry_views(entries@).take(k as int)),
        decreases entries@.len() - k,
    {
        let ghost before = out@;
        let e = &entries[k];
        out.push(rumor_kind_code(e.kind));
        push_u16_le(&mut out, e.key.len() as u16);
        push_bytes(&mut out, e.key.as_slice());
        push_u64_le(&mut out, e.incarnation);
        proof {
            assert(out@ =~= before + digest_entry_bytes(entries@[k as int]@));
            let taken = digest_entry_views(entries@).take(k + 1);
            assert(taken.drop_last() =~= digest_entry_views(entries@).take(k as int));
            assert(taken.last() == entries@[k as int]@);
            assert(out@ =~= base + digest_entries_bytes(taken));
        }
        k = k + 1;
    }
    proof {
        assert(digest_entry_views(entries@).take(entries@.len() as int) =~= digest_entry_views(
            entries@,
        ));
    }
    out
}

/// The spec-level reading of `k` digest entries starting at `at`: the
/// entries and where they end, or nothing if the bytes are malformed.
pub open spec fn spec_decode_digest_entries(data: Seq<u8>, at: int, k: nat) -> Option<
    (Seq<DigestEntryView>, int),
>
    decreases k,
{
    if k == 0 {
        Some((Seq::<DigestEntryView>::empty(), at))
    } else if at + 11 > data.len() || spec_rumor_kind_of_code(data[at]) is None {
        None
    } else {
        let key_len = u16_of_le(data[at + 1], data[at + 2]) as int;
        if at + 11 + key_len > data.len() {
            None
        } else {
            let ev = DigestEntryView {
                kind: spec_rumor_kind_of_code(data[at])->Some_0,
                key: data.subrange(at + 3, at + 3 + key_len),
                incarnation: u64_of_le(data.subrange(at + 3 + key_len, at + 11 + key_len)),
            };
            match spec_decode_digest_entries(data, at + 11 + key_len, (k - 1) as nat) {
                Some(p) => Some((seq![ev] + p.0, p.1)),
                None => None,
            }
        }
    }
}

/// What a digest body reads as: the unique entry sequence it encodes, or
/// nothing for anything malformed or trailing.
pub open spec fn spec_decode_digest_body(data: Seq<u8>) -> Option<Seq<DigestEntryView>> {
    if data.len() < 2 {
        None
    } else {
        match spec_decode_digest_entries(data, 2, u16_of_le(data[0], data[1]) as nat) {
            Some(p) => if p.1 == data.len() {
                Some(p.0)
            } else {
                None
            },
            None => None,
        }
    }
}

/// The digest decode loop's tie to the whole-body spec reading.
spec fn digest_tail_ok(
    data: Seq<u8>,
    at: int,
    remaining: nat,
    parsed: Seq<DigestEntryView>,
    count: u16,
) -> bool {
    match spec_decode_digest_entries(data, at, remaining) {
        Some(p) => spec_decode_digest_entries(data, 2, count as nat) matches Some(q) && q.0
            =~= parsed + p.0 && q.1 == p.1,
        None => spec_decode_digest_entries(data, 2, count as nat) is None,
    }
}

/// Decode a digest body. On success the entries returned are exactly the
/// ones whose encoding the datagram is: re-encoding them gives the bytes
/// back, and the spec-level reading names them. On failure the spec-level
/// reading rejects the datagram too — a decoder that drops well-formed
/// digests does not meet this contract. Anything malformed is rejected
/// whole.
#[verifier::rlimit(100)]
#[verifier::spinoff_prover]
pub fn decode_digest_body(data: &[u8]) -> (r: Option<Vec<DigestEntry>>)
    ensures
        match r {
            Some(v) => data@ == spec_digest_body(digest_entry_views(v@))
                && spec_decode_digest_body(data@) == Some(digest_entry_views(v@)),
            None => spec_decode_digest_body(data@) is None,
        },
{
    let n = data.len();
    if n < 2 {
        return None;
    }
    let count: u16 = (data[0] as u16) + 256 * (data[1] as u16);
    let mut out: Vec<DigestEntry> = Vec::new();
    let mut at: usize = 2;
    let mut k: u16 = 0;
    proof {
        assert(data@.subrange(0, 2) =~= u16_le(count));
        assert(digest_entry_views(out@).take(0) =~= Seq::<DigestEntryView>::empty());
        assert(digest_tail_ok(data@, 2, count as nat, digest_entry_views(out@), count)) by {
            match spec_decode_digest_entries(data@, 2, count as nat) {
                Some(p) => {
                    assert(digest_entry_views(out@) + p.0 =~= p.0);
                },
                None => {},
            }
        }
    }
    while k < count
        invariant
            0 <= k <= count,
            out@.len() == k,
            2 <= at <= n,
            n == data@.len(),
            count == u16_of_le(data@[0], data@[1]),
            data@.subrange(0, at as int) =~= u16_le(count) + digest_entries_bytes(
                digest_entry_views(out@),
            ),
            digest_tail_ok(data@, at as int, (count - k) as nat, digest_entry_views(out@), count),
        decreases count - k,
    {
        let ghost m = (count - k) as nat;
        if n - at < 11 {
            proof {
                assert(spec_decode_digest_entries(data@, at as int, m) is None);
            }
            return None;
        }
        let kind = match rumor_kind_of_code(data[at]) {
            Some(kd) => kd,
            None => {
                proof {
                    assert(spec_decode_digest_entries(data@, at as int, m) is None);
                }
                return None;
            },
        };
        let key_len: usize = ((data[at + 1] as u16) + 256 * (data[at + 2] as u16)) as usize;
        if n - at - 11 < key_len {
            proof {
                assert(spec_decode_digest_entries(data@, at as int, m) is None);
            }
            return None;
        }
        let key = copy_range(data, at + 3, at + 3 + key_len);
        let inc_at = at + 3 + key_len;
        let incarnation = read_u64_le(data, inc_at);
        let next = inc_at + 8;
        let e = DigestEntry { kind, key, incarnation };
        let ghost entries_before = digest_entry_views(out@);
        let ghost ev = e@;
        out.push(e);
        proof {
            assert(digest_entry_views(out@) =~= entries_before.push(ev));
            lemma_digest_entry_shape(data@, at as int, key_len as int, ev);
            lemma_digest_entry_extend(data@, at as int, next as int, count, entries_before, ev);
            assert(data@.subrange(0, next as int) =~= u16_le(count) + digest_entries_bytes(
                digest_entry_views(out@),
            ));
            assert(ev.key =~= data@.subrange(at + 3, at + 3 + key_len as int));
            assert(spec_decode_digest_entries(data@, at as int, m) == (
            match spec_decode_digest_entries(data@, next as int, (m - 1) as nat) {
                Some(p) => Some::<(Seq<DigestEntryView>, int)>((seq![ev] + p.0, p.1)),
                None => None::<(Seq<DigestEntryView>, int)>,
            }));
            assert(digest_tail_ok(
                data@,
                next as int,
                (m - 1) as nat,
                digest_entry_views(out@),
                count,
            )) by {
                match spec_decode_digest_entries(data@, next as int, (m - 1) as nat) {
                    Some(p) => {
                        assert(spec_decode_digest_entries(data@, at as int, m) == Some::<
                            (Seq<DigestEntryView>, int),
                        >((seq![ev] + p.0, p.1)));
                        assert(entries_before + (seq![ev] + p.0) =~= entries_before.push(ev)
                            + p.0);
                    },
                    None => {},
                }
            }
        }
        at = next;
        k = k + 1;
    }
    proof {
        assert(spec_decode_digest_entries(data@, at as int, 0) == Some::<
            (Seq<DigestEntryView>, int),
        >((Seq::<DigestEntryView>::empty(), at as int)));
        assert(spec_decode_digest_entries(data@, 2, count as nat) matches Some(q) && q.0
            =~= digest_entry_views(out@) && q.1 == at as int) by {
            assert(digest_entry_views(out@) + Seq::<DigestEntryView>::empty()
                =~= digest_entry_views(out@));
        }
    }
    if at != n {
        return None;
    }
    proof {
        assert(data@.subrange(0, n as int) =~= data@);
        assert(spec_decode_digest_body(data@) matches Some(v) && v =~= digest_entry_views(out@));
    }
    Some(out)
}

/// The bytes at `at` spell exactly one digest entry whose fields were
/// read from them.
#[verifier::rlimit(100)]
#[verifier::spinoff_prover]
proof fn lemma_digest_entry_shape(data: Seq<u8>, at: int, key_len: int, ev: DigestEntryView)
    requires
        0 <= at,
        at + 11 + key_len <= data.len(),
        0 <= key_len <= u16::MAX,
        data[at] == spec_rumor_kind_code(ev.kind),
        ev.key =~= data.subrange(at + 3, at + 3 + key_len),
        ev.key.len() == key_len,
        key_len == data[at + 1] + 256 * data[at + 2],
        ev.incarnation == u64_of_le(data.subrange(at + 3 + key_len, at + 11 + key_len)),
    ensures
        data.subrange(at, at + 11 + key_len) =~= digest_entry_bytes(ev),
{
    assert(u16_le(ev.key.len() as u16) =~= data.subrange(at + 1, at + 3));
    lemma_u64_le_injective(ev.incarnation, data.subrange(at + 3 + key_len, at + 11 + key_len));
    assert(u64_le(ev.incarnation) =~= data.subrange(at + 3 + key_len, at + 11 + key_len));
}

/// Consuming one well-shaped digest entry extends the parsed prefix by it.
#[verifier::spinoff_prover]
proof fn lemma_digest_entry_extend(
    data: Seq<u8>,
    at: int,
    next: int,
    count: u16,
    entries: Seq<DigestEntryView>,
    ev: DigestEntryView,
)
    requires
        0 <= at <= next <= data.len(),
        data.subrange(0, at) =~= u16_le(count) + digest_entries_bytes(entries),
        data.subrange(at, next) =~= digest_entry_bytes(ev),
    ensures
        data.subrange(0, next) =~= u16_le(count) + digest_entries_bytes(entries.push(ev)),
{
    assert(entries.push(ev).drop_last() =~= entries);
    assert(entries.push(ev).last() == ev);
    assert(digest_entries_bytes(entries.push(ev)) == digest_entries_bytes(entries)
        + digest_entry_bytes(ev));
    assert(data.subrange(0, next) =~= data.subrange(0, at) + data.subrange(at, next));
}

/// The status byte of a ballot on the wire.
pub open spec fn spec_ballot_status_code(s: ElectionStatus) -> u8 {
    match s {
        ElectionStatus::NoQuorum => 1,
        ElectionStatus::InProgress => 2,
        ElectionStatus::Finished => 3,
    }
}

/// The ballot status a wire byte names, if any.
pub open spec fn spec_ballot_status_of_code(c: u8) -> Option<ElectionStatus> {
    if c == 1 {
        Some(ElectionStatus::NoQuorum)
    } else if c == 2 {
        Some(ElectionStatus::InProgress)
    } else if c == 3 {
        Some(ElectionStatus::Finished)
    } else {
        None
    }
}

/// The status byte of a ballot on the wire.
pub fn ballot_status_code(s: ElectionStatus) -> (c: u8)
    ensures
        c == spec_ballot_status_code(s),
{
    match s {
        ElectionStatus::NoQuorum => 1,
        ElectionStatus::InProgress => 2,
        ElectionStatus::Finished => 3,
    }
}

/// The ballot status a wire byte names, if any.
pub fn ballot_status_of_code(c: u8) -> (s: Option<ElectionStatus>)
    ensures
        s == spec_ballot_status_of_code(c),
{
    if c == 1 {
        Some(ElectionStatus::NoQuorum)
    } else if c == 2 {
        Some(ElectionStatus::InProgress)
    } else if c == 3 {
        Some(ElectionStatus::Finished)
    } else {
        None
    }
}

/// A run of votes on the wire, sixteen bytes each, in order.
pub open spec fn votes_bytes(v: Seq<u128>) -> Seq<u8>
    decreases v.len(),
{
    if v.len() == 0 {
        Seq::empty()
    } else {
        votes_bytes(v.drop_last()) + u128_le(v.last())
    }
}

/// A ballot on the wire: term, candidate, status, the group's name, and
/// the votes cast, each length-prefixed where variable.
pub open spec fn spec_ballot_bytes(e: ElectionView) -> Seq<u8> {
    u64_le(e.term) + u128_le(e.candidate) + seq![spec_ballot_status_code(e.status)] + u16_le(
        e.service_group.len() as u16,
    ) + e.service_group + u16_le(e.votes.len() as u16) + votes_bytes(e.votes)
}

/// Encode a ballot for the rumor list: elections travel the ring as
/// `Election`-kind rumor bodies and their votes union-merge through the
/// rumor merge.
pub fn encode_ballot(e: &Election) -> (r: Vec<u8>)
    requires
        e.service_group@.len() <= u16::MAX,
        e.votes@.len() <= u16::MAX,
    ensures
        r@ == spec_ballot_bytes(e@),
{
    let mut r: Vec<u8> = Vec::new();
    push_u64_le(&mut r, e.term);
    push_u128_le(&mut r, e.candidate);
    r.push(ballot_status_code(e.status));
    push_u16_le(&mut r, e.service_group.len() as u16);
    push_bytes(&mut r, e.service_group.as_slice());
    push_u16_le(&mut r, e.votes.len() as u16);
    let ghost base = r@;
    let mut k: usize = 0;
    while k < e.votes.len()
        invariant
            0 <= k <= e.votes@.len(),
            r@ =~= base + votes_bytes(e.votes@.take(k as int)),
        decreases e.votes@.len() - k,
    {
        let ghost before = r@;
        push_u128_le(&mut r, e.votes[k]);
        proof {
            let taken = e.votes@.take(k + 1);
            assert(taken.drop_last() =~= e.votes@.take(k as int));
            assert(taken.last() == e.votes@[k as int]);
            assert(r@ =~= base + votes_bytes(taken));
        }
        k = k + 1;
    }
    proof {
        assert(e.votes@.take(e.votes@.len() as int) =~= e.votes@);
        assert(r@ =~= spec_ballot_bytes(e@));
    }
    r
}

/// The spec-level reading of `k` votes starting at `at`.
pub open spec fn spec_decode_votes(data: Seq<u8>, at: int, k: nat) -> Option<(Seq<u128>, int)>
    decreases k,
{
    if k == 0 {
        Some((Seq::<u128>::empty(), at))
    } else if at + 16 > data.len() {
        None
    } else {
        match spec_decode_votes(data, at + 16, (k - 1) as nat) {
            Some(p) => Some((seq![u128_of_le(data.subrange(at, at + 16))] + p.0, p.1)),
            None => None,
        }
    }
}

/// What a ballot body reads as: the unique well-formed ballot it encodes
/// (votes counted once), or nothing for anything malformed or trailing.
pub open spec fn spec_decode_ballot(data: Seq<u8>) -> Option<ElectionView> {
    if data.len() < 29 || spec_ballot_status_of_code(data[24]) is None {
        None
    } else {
        let sg_len = u16_of_le(data[25], data[26]) as int;
        if 29 + sg_len > data.len() {
            None
        } else {
            match spec_decode_votes(
                data,
                29 + sg_len,
                u16_of_le(data[27 + sg_len], data[28 + sg_len]) as nat,
            ) {
                Some(p) => if p.1 == data.len() && p.0.no_duplicates() {
                    Some(
                        ElectionView {
                            service_group: data.subrange(27, 27 + sg_len),
                            term: u64_of_le(data.subrange(0, 8)),
                            candidate: u128_of_le(data.subrange(8, 24)),
                            votes: p.0,
                            status: spec_ballot_status_of_code(data[24])->Some_0,
                        },
                    )
                } else {
                    None
                },
                None => None,
            }
        }
    }
}

/// Whether a ballot counts nobody twice.
fn votes_no_duplicates(v: &Vec<u128>) -> (r: bool)
    ensures
        r == v@.no_duplicates(),
{
    let mut k: usize = 0;
    while k < v.len()
        invariant
            0 <= k <= v@.len(),
            forall|a: int, b: int| 0 <= a < b < k ==> v@[a] != v@[b],
        decreases v@.len() - k,
    {
        let mut j: usize = 0;
        while j < k
            invariant
                0 <= j <= k < v@.len(),
                forall|a: int| 0 <= a < j ==> v@[a] != v@[k as int],
            decreases k - j,
        {
            if v[j] == v[k] {
                return false;
            }
            j = j + 1;
        }
        k = k + 1;
    }
    true
}

/// The ballot decode loop's tie to the whole-body spec reading.
spec fn votes_tail_ok(data: Seq<u8>, at: int, remaining: nat, parsed: Seq<u128>, start: int, count: nat) -> bool {
    match spec_decode_votes(data, at, remaining) {
        Some(p) => spec_decode_votes(data, start, count) matches Some(q) && q.0 =~= parsed + p.0
            && q.1 == p.1,
        None => spec_decode_votes(data, start, count) is None,
    }
}

/// Read `nv` sixteen-byte votes from `start`: the votes, and where they
/// end. The spec reading agrees with the outcome either way, and the
/// bytes read are exactly the votes' encoding.
#[verifier::rlimit(100)]
#[verifier::spinoff_prover]
fn read_votes(data: &[u8], start: usize, nv: u16) -> (r: Option<(Vec<u128>, usize)>)
    requires
        start <= data@.len(),
    ensures
        match r {
            Some(p) => start <= p.1 <= data@.len() && p.0@.len() == nv && data@.subrange(
                start as int,
                p.1 as int,
            ) == votes_bytes(p.0@) && spec_decode_votes(data@, start as int, nv as nat)
                == Some::<(Seq<u128>, int)>((p.0@, p.1 as int)),
            None => spec_decode_votes(data@, start as int, nv as nat) is None,
        },
{
    let n = data.len();
    let mut votes: Vec<u128> = Vec::new();
    let mut at: usize = start;
    let mut k: u16 = 0;
    proof {
        assert(data@.subrange(start as int, start as int) =~= votes_bytes(votes@));
        assert(data@.subrange(start as int, start as int) == votes_bytes(votes@));
        assert(votes_tail_ok(data@, at as int, nv as nat, votes@, start as int, nv as nat)) by {
            match spec_decode_votes(data@, start as int, nv as nat) {
                Some(p) => {
                    assert(votes@ + p.0 =~= p.0);
                },
                None => {},
            }
        }
    }
    while k < nv
        invariant
            0 <= k <= nv,
            votes@.len() == k,
            start <= at <= n,
            n == data@.len(),
            data@.subrange(start as int, at as int) == votes_bytes(votes@),
            votes_tail_ok(data@, at as int, (nv - k) as nat, votes@, start as int, nv as nat),
        decreases nv - k,
    {
        let ghost m = (nv - k) as nat;
        if n - at < 16 {
            proof {
                assert(spec_decode_votes(data@, at as int, m) is None);
            }
            return None;
        }
        let v = read_u128_le(data, at);
        let ghost votes_before = votes@;
        votes.push(v);
        let next = at + 16;
        proof {
            assert(votes@ =~= votes_before.push(v));
            lemma_vote_step(data@, start as int, at as int, v, votes_before, m, nv as nat);
            assert(data@.subrange(start as int, next as int) == votes_bytes(votes@));
        }
        at = next;
        k = k + 1;
    }
    proof {
        assert(spec_decode_votes(data@, at as int, 0) == Some::<(Seq<u128>, int)>((
            Seq::<u128>::empty(),
            at as int,
        )));
        assert(spec_decode_votes(data@, start as int, nv as nat) matches Some(q) && q.0 =~= votes@
            && q.1 == at as int) by {
            assert(votes@ + Seq::<u128>::empty() =~= votes@);
        }
    }
    Some((votes, at))
}

/// One parsed vote extends both the re-encoding of the prefix and the
/// spec reading's tie.
#[verifier::rlimit(100)]
#[verifier::spinoff_prover]
proof fn lemma_vote_step(
    data: Seq<u8>,
    start: int,
    at: int,
    v: u128,
    parsed: Seq<u128>,
    m: nat,
    count: nat,
)
    requires
        m > 0,
        0 <= start <= at,
        at + 16 <= data.len(),
        v == u128_of_le(data.subrange(at, at + 16)),
        data.subrange(start, at) =~= votes_bytes(parsed),
        votes_tail_ok(data, at, m, parsed, start, count),
    ensures
        data.subrange(start, at + 16) =~= votes_bytes(parsed.push(v)),
        votes_tail_ok(data, at + 16, (m - 1) as nat, parsed.push(v), start, count),
{
    lemma_u128_le_injective(v, data.subrange(at, at + 16));
    assert(data.subrange(start, at + 16) =~= votes_bytes(parsed.push(v))) by {
        assert(parsed.push(v).drop_last() =~= parsed);
        assert(parsed.push(v).last() == v);
        assert(data.subrange(start, at + 16) =~= data.subrange(start, at) + data.subrange(
            at,
            at + 16,
        ));
        assert(u128_le(v) =~= data.subrange(at, at + 16));
    }
    assert(spec_decode_votes(data, at, m) == (
    match spec_decode_votes(data, at + 16, (m - 1) as nat) {
        Some(p) => Some::<(Seq<u128>, int)>((seq![v] + p.0, p.1)),
        None => None::<(Seq<u128>, int)>,
    }));
    assert(votes_tail_ok(data, at + 16, (m - 1) as nat, parsed.push(v), start, count)) by {
        match spec_decode_votes(data, at + 16, (m - 1) as nat) {
            Some(p) => {
                assert(spec_decode_votes(data, at, m) == Some::<(Seq<u128>, int)>((
                    seq![v] + p.0,
                    p.1,
                )));
                assert(parsed + (seq![v] + p.0) =~= parsed.push(v) + p.0);
            },
            None => {},
        }
    }
}

/// Decode a ballot body. On success the ballot returned is exactly the
/// one whose encoding the body is: re-encoding it gives the bytes back,
/// the spec-level reading names it, and its votes count nobody twice. On
/// failure the spec-level reading rejects the body too.
#[verifier::rlimit(100)]
#[verifier::spinoff_prover]
pub fn decode_ballot(data: &[u8]) -> (r: Option<Election>)
    ensures
        match r {
            Some(e) => data@ == spec_ballot_bytes(e@) && spec_decode_ballot(data@) == Some(e@)
                && e.wf(),
            None => spec_decode_ballot(data@) is None,
        },
{
    let n = data.len();
    if n < 29 {
        return None;
    }
    let term = read_u64_le(data, 0);
    let candidate = read_u128_le(data, 8);
    let status = match ballot_status_of_code(data[24]) {
        Some(s) => s,
        None => {
            return None;
        },
    };
    let sg_len: usize = ((data[25] as u16) + 256 * (data[26] as u16)) as usize;
    if n - 29 < sg_len {
        return None;
    }
    let service_group = copy_range(data, 27, 27 + sg_len);
    let nv: u16 = (data[27 + sg_len] as u16) + 256 * (data[28 + sg_len] as u16);
    let start = 29 + sg_len;
    let read = read_votes(data, start, nv);
    let (votes, at) = match read {
        Some(p) => p,
        None => {
            return None;
        },
    };
    if at != n {
        return None;
    }
    if !votes_no_duplicates(&votes) {
        return None;
    }
    let e = Election { service_group, term, candidate, votes, status };
    proof {
        lemma_u64_le_injective(term, data@.subrange(0, 8));
        lemma_u128_le_injective(candidate, data@.subrange(8, 24));
        lemma_u16_le_round_trip(sg_len as u16);
        lemma_u16_le_round_trip(nv);
        assert(spec_decode_ballot(data@) matches Some(v2) && v2 =~= e@);
        assert(data@ =~= spec_ballot_bytes(e@)) by {
            assert(u64_le(term) =~= data@.subrange(0, 8));
            assert(u128_le(candidate) =~= data@.subrange(8, 24));
            assert(u16_le(sg_len as u16) =~= data@.subrange(25, 27));
            assert(u16_le(nv) =~= data@.subrange(27 + sg_len, 29 + sg_len));
            assert(e.service_group@ =~= data@.subrange(27, 27 + sg_len as int));
            assert(votes_bytes(e.votes@) =~= data@.subrange(start as int, n as int));
        }
    }
    Some(e)
}

/// Bytes whose 128-bit reading is `x` are the encoding of `x`.
proof fn lemma_u128_le_injective(x: u128, b: Seq<u8>)
    requires
        b.len() == 16,
        u128_of_le(b) == x,
    ensures
        u128_le(x) =~= b,
{
    let lo = u64_of_le(b.subrange(0, 8));
    let hi = u64_of_le(b.subrange(8, 16));
    assert(x == lo + hi * 0x10000000000000000);
    assert((x % 0x10000000000000000) as u64 == lo && (x / 0x10000000000000000) as u64 == hi) by {
        assert(lo < 0x10000000000000000 && hi < 0x10000000000000000);
    }
    lemma_u64_le_injective(lo, b.subrange(0, 8));
    lemma_u64_le_injective(hi, b.subrange(8, 16));
    assert(u128_le(x).subrange(0, 8) =~= u64_le(lo));
    assert(u128_le(x).subrange(8, 16) =~= u64_le(hi));
}

/// Bytes whose 64-bit reading is `x` are the encoding of `x`.
proof fn lemma_u64_le_injective(x: u64, b: Seq<u8>)
    requires
        b.len() == 8,
        u64_of_le(b) == x,
    ensures
        u64_le(x) =~= b,
{
    let b0 = b[0];
    let b1 = b[1];
    let b2 = b[2];
    let b3 = b[3];
    let b4 = b[4];
    let b5 = b[5];
    let b6 = b[6];
    let b7 = b[7];
    assert((x % 256) as u8 == b0 && ((x / 0x100) % 256) as u8 == b1 && ((x / 0x10000)
        % 256) as u8 == b2 && ((x / 0x1000000) % 256) as u8 == b3 && ((x / 0x100000000)
        % 256) as u8 == b4 && ((x / 0x10000000000) % 256) as u8 == b5 && ((x / 0x1000000000000)
        % 256) as u8 == b6 && (x / 0x100000000000000) as u8 == b7) by (bit_vector)
        requires
            x == (b0 + b1 * 0x100 + b2 * 0x10000 + b3 * 0x1000000 + b4 * 0x100000000 + b5
                * 0x10000000000 + b6 * 0x1000000000000 + b7 * 0x100000000000000) as u64,
    ;
}

} // verus!
