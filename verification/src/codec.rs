//! The wire frame of the protocol: little-endian length-prefixed packets.
//!
//! A packet is `[size:i32][request_id:i32][type:i32][body][0x00 0x00]`, every
//! integer little-endian, where `size` counts everything after itself:
//! `size == 4 + 4 + body.len() + 2`. A declared size below 10 leaves no room
//! for the two id/type fields plus the terminator and is malformed.

use vstd::prelude::*;
use vstd::bytes::{
    lemma_auto_spec_u32_to_from_le_bytes, spec_u32_from_le_bytes, spec_u32_to_le_bytes,
    u32_from_le_bytes, u32_to_le_bytes,
};
use vstd::slice::{slice_subrange, slice_to_vec};
use crate::error::RConError;

verus! {

/// Every byte of a packet after the size field that is not body: the id
/// field, the type field and the two-byte terminator.
pub const HEADER_AND_TERMINATOR: usize = 10;

/// The four bytes of `v`, least significant first.
pub open spec fn i32_le_bytes(v: i32) -> Seq<u8> {
    spec_u32_to_le_bytes(v as u32)
}

/// The signed 32-bit value read little-endian from four bytes.
pub open spec fn le_bytes_to_i32(s: Seq<u8>) -> i32
    recommends
        s.len() == 4,
{
    spec_u32_from_le_bytes(s) as i32
}

pub proof fn lemma_i32_le_roundtrip(v: i32)
    ensures
        i32_le_bytes(v).len() == 4,
        le_bytes_to_i32(i32_le_bytes(v)) == v,
{
    lemma_auto_spec_u32_to_from_le_bytes();
    let u: u32 = v as u32;
    assert(spec_u32_to_le_bytes(u).len() == 4);
    assert(spec_u32_from_le_bytes(spec_u32_to_le_bytes(u)) == u);
    assert(((v as u32) as i32) == v) by (bit_vector);
}

/// The encoding of one whole packet, size field included.
pub open spec fn packet_bytes(request_id: i32, ty: i32, body: Seq<u8>) -> Seq<u8>
    recommends
        body.len() + HEADER_AND_TERMINATOR <= i32::MAX,
{
    i32_le_bytes((body.len() + HEADER_AND_TERMINATOR) as i32) + i32_le_bytes(request_id)
        + i32_le_bytes(ty) + body + seq![0u8, 0u8]
}

/// One decoded packet: the correlation id the remote echoed, the packet type,
/// and the raw body bytes (terminator stripped).
#[derive(Debug)]
pub struct Packet {
    pub request_id: i32,
    pub ty: i32,
    pub body: Vec<u8>,
}

/// What decoding finds at a position of a byte sequence.
pub enum DecodeResult {
    /// Fewer bytes are available than `expected`; `got` were there.
    Truncated { expected: int, got: int },
    /// The declared size was below the 10-byte minimum.
    BadLength(i32),
    /// A well-formed packet, ending at offset `next`.
    Found { request_id: i32, ty: i32, body: Seq<u8>, next: int },
}

/// What `decode_one` returns on every input: read the declared size, reject
/// one below the minimum, then split the declared bytes into id, type, body
/// and the discarded two-byte terminator.
pub open spec fn spec_decode(input: Seq<u8>, pos: int) -> DecodeResult
    recommends
        0 <= pos <= input.len(),
{
    if input.len() - pos < 4 {
        DecodeResult::Truncated { expected: 4, got: input.len() - pos }
    } else {
        let declared = le_bytes_to_i32(input.subrange(pos, pos + 4));
        if declared < HEADER_AND_TERMINATOR {
            DecodeResult::BadLength(declared)
        } else if input.len() - pos - 4 < declared {
            DecodeResult::Truncated { expected: declared as int, got: input.len() - pos - 4 }
        } else {
            DecodeResult::Found {
                request_id: le_bytes_to_i32(input.subrange(pos + 4, pos + 8)),
                ty: le_bytes_to_i32(input.subrange(pos + 8, pos + 12)),
                body: input.subrange(pos + 12, pos + 4 + declared - 2),
                next: pos + 4 + declared,
            }
        }
    }
}

/// Appends the four little-endian bytes of `v`.
pub fn push_i32_le(out: &mut Vec<u8>, v: i32)
    ensures
        final(out)@ == old(out)@ + i32_le_bytes(v),
{
    let mut bs = u32_to_le_bytes(#[verifier::truncate] (v as u32));
    out.append(&mut bs);
}

/// Reads the signed 32-bit little-endian value at `pos`.
pub fn read_i32_le(input: &[u8], pos: usize) -> (v: i32)
    requires
        pos + 4 <= input@.len(),
    ensures
        v == le_bytes_to_i32(input@.subrange(pos as int, pos as int + 4)),
{
    let n: usize = input.len();
    assert(pos + 4 <= n);
    let w = u32_from_le_bytes(slice_subrange(input, pos, pos + 4));
    #[verifier::truncate] (w as i32)
}

/// Encodes one packet: the declared size, the request id, the type, the body,
/// then the two zero terminator bytes.
pub fn encode(request_id: i32, ty: i32, body: &[u8]) -> (r: Vec<u8>)
    requires
        body@.len() + HEADER_AND_TERMINATOR <= i32::MAX,
    ensures
        r@ == packet_bytes(request_id, ty, body@),
{
    let declared: i32 = (body.len() + HEADER_AND_TERMINATOR) as i32;
    let mut out: Vec<u8> = Vec::new();
    push_i32_le(&mut out, declared);
    push_i32_le(&mut out, request_id);
    push_i32_le(&mut out, ty);
    let mut tail = slice_to_vec(body);
    out.append(&mut tail);
    out.push(0u8);
    out.push(0u8);
    proof {
        assert(out@ =~= packet_bytes(request_id, ty, body@));
    }
    out
}

/// Judges a declared packet size as the stream reader meets it: sizes below
/// the 10-byte minimum are malformed, and the error carries the declared
/// size; any other leaves `declared` bytes to read.
pub fn check_header(declared: i32) -> (r: Result<usize, RConError>)
    ensures
        declared >= 10 ==> r == Ok::<usize, RConError>(declared as usize),
        declared < 10 ==> r == Err::<usize, RConError>(RConError::LengthTooSmall(declared)),
{
    if declared < 10 {
        Err(RConError::LengthTooSmall(declared))
    } else {
        Ok(declared as usize)
    }
}

/// Decodes the packet that starts at `pos`, returning it and the offset just
/// past it. Truncated input is a `LengthMismatch`; a declared size below the
/// minimum is a `LengthTooSmall` carrying that declared size.
pub fn decode_one(input: &[u8], pos: usize) -> (r: Result<(Packet, usize), RConError>)
    requires
        pos <= input@.len(),
    ensures
        match spec_decode(input@, pos as int) {
            DecodeResult::Truncated { expected, got } => (r matches Err(
                RConError::LengthMismatch(e, g),
            ) && e as int == expected && g as int == got),
            DecodeResult::BadLength(l) => r == Err::<(Packet, usize), RConError>(
                RConError::LengthTooSmall(l),
            ),
            DecodeResult::Found { request_id, ty, body, next } => (r matches Ok((p, n))
                && p.request_id == request_id && p.ty == ty && p.body@ == body && n as int == next),
        },
{
    let remaining: usize = input.len() - pos;
    if remaining < 4 {
        return Err(RConError::LengthMismatch(4, remaining));
    }
    let declared: i32 = read_i32_le(input, pos);
    if declared < 10 {
        return Err(RConError::LengthTooSmall(declared));
    }
    let declared_len: usize = declared as usize;
    if remaining - 4 < declared_len {
        return Err(RConError::LengthMismatch(declared_len, remaining - 4));
    }
    let request_id: i32 = read_i32_le(input, pos + 4);
    let ty: i32 = read_i32_le(input, pos + 8);
    let body = slice_to_vec(slice_subrange(input, pos + 12, pos + 4 + declared_len - 2));
    Ok((Packet { request_id, ty, body }, pos + 4 + declared_len))
}

/// Decoding inverts encoding: a packet encoded from any id, type and body
/// decodes back to exactly that id, type and body.
pub proof fn lemma_round_trip(request_id: i32, ty: i32, body: Seq<u8>)
    requires
        body.len() + HEADER_AND_TERMINATOR <= i32::MAX,
    ensures
        spec_decode(packet_bytes(request_id, ty, body), 0) == (DecodeResult::Found {
            request_id,
            ty,
            body,
            next: body.len() as int + 14,
        }),
{
    let p = packet_bytes(request_id, ty, body);
    lemma_packet_bytes_len(request_id, ty, body);
    assert(p.subrange(0, body.len() as int + 14) =~= p);
    lemma_decode_at(p, 0, request_id, ty, body);
}

/// An encoded packet is 14 bytes longer than its body: the size, id and type
/// fields and the terminator.
pub proof fn lemma_packet_bytes_len(request_id: i32, ty: i32, body: Seq<u8>)
    requires
        body.len() + HEADER_AND_TERMINATOR <= i32::MAX,
    ensures
        packet_bytes(request_id, ty, body).len() == body.len() + 14,
{
    lemma_i32_le_roundtrip((body.len() + HEADER_AND_TERMINATOR) as i32);
    lemma_i32_le_roundtrip(request_id);
    lemma_i32_le_roundtrip(ty);
}

/// A well-formed packet embedded at `pos` of a longer sequence decodes from
/// there, whatever surrounds it.
pub proof fn lemma_decode_at(input: Seq<u8>, pos: int, request_id: i32, ty: i32, body: Seq<u8>)
    requires
        body.len() + HEADER_AND_TERMINATOR <= i32::MAX,
        0 <= pos,
        pos + body.len() + 14 <= input.len(),
        input.subrange(pos, pos + body.len() + 14) == packet_bytes(request_id, ty, body),
    ensures
        spec_decode(input, pos) == (DecodeResult::Found {
            request_id,
            ty,
            body,
            next: pos + body.len() + 14,
        }),
{
    let declared: i32 = (body.len() + HEADER_AND_TERMINATOR) as i32;
    let n = body.len() as int;
    let w = input.subrange(pos, pos + n + 14);
    lemma_i32_le_roundtrip(declared);
    lemma_i32_le_roundtrip(request_id);
    lemma_i32_le_roundtrip(ty);
    assert(w.subrange(0, 4) =~= i32_le_bytes(declared));
    assert(w.subrange(4, 8) =~= i32_le_bytes(request_id));
    assert(w.subrange(8, 12) =~= i32_le_bytes(ty));
    assert(w.subrange(12, 12 + n) =~= body);
    assert(input.subrange(pos, pos + 4) =~= w.subrange(0, 4));
    assert(input.subrange(pos + 4, pos + 8) =~= w.subrange(4, 8));
    assert(input.subrange(pos + 8, pos + 12) =~= w.subrange(8, 12));
    assert(le_bytes_to_i32(input.subrange(pos, pos + 4)) == declared);
    assert(declared >= 10);
    assert(input.subrange(pos + 12, pos + 4 + declared - 2) =~= w.subrange(12, 12 + n));
}

} // verus!
