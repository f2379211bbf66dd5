//! Reassembly of one logical response from consecutive packets.
//!
//! The remote may split a response into fragments of which only the last has
//! a body shorter than [`CHUNK_THRESHOLD`] bytes. End-of-response is inferred
//! from that short final fragment — a heuristic of this protocol family, not
//! an explicit terminator: a response whose total length is an exact multiple
//! of the threshold would keep the reader waiting for a further packet. A
//! packet whose echoed request id is `-1` aborts the whole exchange as not
//! authorized, at any point of it.

use vstd::prelude::*;
use crate::codec::{
    decode_one, lemma_decode_at, lemma_packet_bytes_len, lemma_round_trip, packet_bytes,
    spec_decode, DecodeResult, Packet, HEADER_AND_TERMINATOR,
};
use crate::error::RConError;

verus! {

/// The fragmentation boundary: every fragment but the last carries at least
/// this many body bytes, and the last strictly fewer.
pub const CHUNK_THRESHOLD: usize = 8192;

/// The outcome of reading one whole response from a byte sequence.
pub enum ReassemblyResult {
    /// The response ended; `body` is the concatenation of the fragment
    /// bodies and `next` the offset just past the last fragment.
    Done { body: Seq<u8>, next: int },
    /// The exchange failed with this protocol error.
    Failed(RConError),
}

/// What reassembly starting at `pos` with `acc` already gathered yields:
/// decode a packet, abort on a malformed length, truncated input or the
/// not-authorized id, otherwise gather its body and stop once a fragment
/// falls short of the threshold.
pub open spec fn spec_reassemble(input: Seq<u8>, pos: int, acc: Seq<u8>) -> ReassemblyResult
    recommends
        0 <= pos <= input.len(),
    decreases input.len() - pos,
{
    match spec_decode(input, pos) {
        DecodeResult::Truncated { expected, got } => ReassemblyResult::Failed(
            RConError::LengthMismatch(expected as usize, got as usize),
        ),
        DecodeResult::BadLength(l) => ReassemblyResult::Failed(RConError::LengthTooSmall(l)),
        DecodeResult::Found { request_id, ty, body, next } => {
            if request_id == -1 {
                ReassemblyResult::Failed(RConError::NotAuthorized)
            } else if body.len() < CHUNK_THRESHOLD {
                ReassemblyResult::Done { body: acc + body, next }
            } else {
                spec_reassemble(input, next, acc + body)
            }
        },
    }
}

/// Whatever `spec_decode` finds lies within bounds: a found packet ends
/// after its position and inside the input, and a truncation report carries
/// counts that fit the machine.
pub proof fn lemma_decode_bounds(input: Seq<u8>, pos: int)
    requires
        0 <= pos <= input.len(),
    ensures
        match spec_decode(input, pos) {
            DecodeResult::Truncated { expected, got } => 0 <= expected <= i32::MAX && 0 <= got,
            DecodeResult::BadLength(l) => true,
            DecodeResult::Found { request_id, ty, body, next } => pos + 14 <= next <= input.len()
                && body.len() == next - pos - 14,
        },
{
}

/// The accumulator of one in-flight response: the body bytes gathered so
/// far, and whether the short final fragment has been seen.
pub struct Reassembler {
    pub body: Vec<u8>,
    pub done: bool,
}

impl Reassembler {
    /// An empty accumulator, ready for the first fragment.
    pub fn new() -> (r: Reassembler)
        ensures
            r.body@ == Seq::<u8>::empty(),
            !r.done,
    {
        Reassembler { body: Vec::new(), done: false }
    }

    /// Folds one decoded packet in: aborts on the not-authorized id,
    /// otherwise appends the body and reports whether it was the final
    /// fragment.
    pub fn push(&mut self, p: Packet) -> (r: Result<bool, RConError>)
        requires
            !old(self).done,
        ensures
            p.request_id == -1 ==> r == Err::<bool, RConError>(RConError::NotAuthorized)
                && *final(self) == *old(self),
            p.request_id != -1 ==> {
                &&& r == Ok::<bool, RConError>(p.body@.len() < CHUNK_THRESHOLD)
                &&& final(self).body@ == old(self).body@ + p.body@
                &&& final(self).done == (p.body@.len() < CHUNK_THRESHOLD)
            },
    {
        if p.request_id == -1 {
            return Err(RConError::NotAuthorized);
        }
        let mut p = p;
        let last = p.body.len() < CHUNK_THRESHOLD;
        self.body.append(&mut p.body);
        self.done = last;
        Ok(last)
    }

    /// Hands the gathered body out once the response is complete.
    pub fn into_body(self) -> (r: Vec<u8>)
        requires
            self.done,
        ensures
            r@ == self.body@,
    {
        self.body
    }
}

/// Reads one whole response from `input` starting at `start`, returning the
/// reassembled body and the offset just past its last fragment.
pub fn read_response(input: &[u8], start: usize) -> (r: Result<(Vec<u8>, usize), RConError>)
    requires
        start <= input@.len(),
    ensures
        match spec_reassemble(input@, start as int, Seq::<u8>::empty()) {
            ReassemblyResult::Done { body, next } => (r matches Ok((b, n)) && b@ == body && n as int
                == next),
            ReassemblyResult::Failed(e) => r == Err::<(Vec<u8>, usize), RConError>(e),
        },
{
    let mut re = Reassembler::new();
    let mut pos: usize = start;
    loop
        invariant
            start <= pos <= input@.len(),
            !re.done,
            spec_reassemble(input@, start as int, Seq::<u8>::empty()) == spec_reassemble(
                input@,
                pos as int,
                re.body@,
            ),
        decreases input@.len() - pos,
    {
        proof {
            lemma_decode_bounds(input@, pos as int);
        }
        let ghost acc0 = re.body@;
        let step = decode_one(input, pos);
        match step {
            Err(e) => {
                return Err(e);
            },
            Ok((p, next)) => {
                let ghost chunk = p.body@;
                match re.push(p) {
                    Err(e) => {
                        return Err(e);
                    },
                    Ok(true) => {
                        assert(spec_reassemble(input@, pos as int, acc0)
                            == (ReassemblyResult::Done { body: acc0 + chunk, next: next as int }));
                        return Ok((re.into_body(), next));
                    },
                    Ok(false) => {
                        assert(spec_reassemble(input@, pos as int, acc0) == spec_reassemble(
                            input@,
                            next as int,
                            acc0 + chunk,
                        ));
                        pos = next;
                    },
                }
            },
        }
    }
}

/// One well-formed packet with a body shorter than the threshold and an id
/// other than `-1` is a whole response: reassembly yields exactly its body.
pub proof fn lemma_single_fragment(request_id: i32, ty: i32, body: Seq<u8>)
    requires
        request_id != -1,
        body.len() < CHUNK_THRESHOLD,
        body.len() + HEADER_AND_TERMINATOR <= i32::MAX,
    ensures
        spec_reassemble(packet_bytes(request_id, ty, body), 0, Seq::<u8>::empty())
            == (ReassemblyResult::Done { body, next: body.len() as int + 14 }),
{
    lemma_round_trip(request_id, ty, body);
    assert(Seq::<u8>::empty() + body =~= body);
}

/// A response packet with an empty body and an id other than `-1` completes
/// an authorize exchange with an empty reassembled body, on which
/// `finish_authorize` reports success.
pub proof fn lemma_authorize_success(request_id: i32, ty: i32)
    requires
        request_id != -1,
    ensures
        spec_reassemble(packet_bytes(request_id, ty, Seq::<u8>::empty()), 0, Seq::<u8>::empty())
            == (ReassemblyResult::Done { body: Seq::<u8>::empty(), next: 14 }),
{
    lemma_single_fragment(request_id, ty, Seq::<u8>::empty());
}

/// A response whose first packet echoes id `-1` aborts as not authorized,
/// whatever its body.
pub proof fn lemma_not_authorized(ty: i32, body: Seq<u8>)
    requires
        body.len() + HEADER_AND_TERMINATOR <= i32::MAX,
    ensures
        spec_reassemble(packet_bytes(-1i32, ty, body), 0, Seq::<u8>::empty())
            == ReassemblyResult::Failed(RConError::NotAuthorized),
{
    lemma_round_trip(-1i32, ty, body);
}

/// Two consecutive packets, the first with a threshold-sized body and an id
/// other than `-1`, the second shorter: if the second echoes `-1` the whole
/// exchange aborts as not authorized even though the first fragment was
/// well-formed; otherwise the response is the concatenation of both bodies.
pub proof fn lemma_two_fragments(id1: i32, ty1: i32, b1: Seq<u8>, id2: i32, ty2: i32, b2: Seq<u8>)
    requires
        id1 != -1,
        b1.len() >= CHUNK_THRESHOLD,
        b1.len() + HEADER_AND_TERMINATOR <= i32::MAX,
        b2.len() < CHUNK_THRESHOLD,
        b2.len() + HEADER_AND_TERMINATOR <= i32::MAX,
    ensures
        ({
            let input = packet_bytes(id1, ty1, b1) + packet_bytes(id2, ty2, b2);
            spec_reassemble(input, 0, Seq::<u8>::empty()) == if id2 == -1 {
                ReassemblyResult::Failed(RConError::NotAuthorized)
            } else {
                ReassemblyResult::Done {
                    body: b1 + b2,
                    next: b1.len() + b2.len() + 28 as int,
                }
            }
        }),
{
    let p1 = packet_bytes(id1, ty1, b1);
    let p2 = packet_bytes(id2, ty2, b2);
    let input = p1 + p2;
    lemma_packet_bytes_len(id1, ty1, b1);
    lemma_packet_bytes_len(id2, ty2, b2);
    let n1 = b1.len() as int + 14;
    assert(input.subrange(0, n1) =~= p1);
    lemma_decode_at(input, 0, id1, ty1, b1);
    assert(input.subrange(n1, n1 + b2.len() + 14) =~= p2);
    lemma_decode_at(input, n1, id2, ty2, b2);
    assert(spec_reassemble(input, 0, Seq::<u8>::empty()) == spec_reassemble(
        input,
        n1,
        Seq::<u8>::empty() + b1,
    ));
    assert(Seq::<u8>::empty() + b1 =~= b1);
}

} // verus!
