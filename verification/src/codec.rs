//! Frame codec: a big-endian 4-byte length prefix followed by exactly that
//! many bytes of UTF-8 JSON.  A declared length above the 16 MiB cap is
//! rejected before any buffer is allocated; both sides of a connection use
//! the same rules.

use vstd::prelude::*;

use crate::envelope::{Envelope, EnvelopeV, encode_envelope, decode_envelope};
use crate::envelope::{spec_encode, spec_decode, lemma_decode_encode};
use crate::errors::ProtocolError;

verus! {

/// Hard cap on a frame's payload length: 16 MiB.
pub const MAX_MESSAGE_SIZE: usize = 16 * 1024 * 1024;

/// Big-endian bytes of a 32-bit length.
pub open spec fn be_bytes(n: int) -> Seq<u8> {
    seq![
        (n / 0x1000000 % 256) as u8,
        (n / 0x10000 % 256) as u8,
        (n / 0x100 % 256) as u8,
        (n % 256) as u8,
    ]
}

/// Value of four big-endian bytes.
pub open spec fn be_val(b0: u8, b1: u8, b2: u8, b3: u8) -> int {
    b0 * 0x1000000 + b1 * 0x10000 + b2 * 0x100 + b3
}

/// Reading back the big-endian bytes of a length below 2^32 gives the
/// length.
pub proof fn lemma_be_round_trip(n: int)
    requires
        0 <= n < 0x100000000,
    ensures
        be_val(be_bytes(n)[0], be_bytes(n)[1], be_bytes(n)[2], be_bytes(n)[3]) == n,
{
    let b0 = n / 0x1000000 % 256;
    let b1 = n / 0x10000 % 256;
    let b2 = n / 0x100 % 256;
    let b3 = n % 256;
    assert(b0 * 0x1000000 + b1 * 0x10000 + b2 * 0x100 + b3 == n) by (nonlinear_arith)
        requires
            0 <= n < 0x100000000,
            b0 == n / 0x1000000 % 256,
            b1 == n / 0x10000 % 256,
            b2 == n / 0x100 % 256,
            b3 == n % 256,
    ;
}

/// A whole frame: length prefix then payload.
pub open spec fn spec_frame(e: EnvelopeV) -> Seq<u8> {
    be_bytes(spec_encode(e).len() as int) + spec_encode(e)
}

/// Deterministic decoder for a whole frame held in one buffer.
pub open spec fn spec_frame_decode(b: Seq<u8>) -> Option<EnvelopeV> {
    if b.len() < 4 {
        None
    } else {
        let n = be_val(b[0], b[1], b[2], b[3]);
        if n > MAX_MESSAGE_SIZE {
            None
        } else if b.len() != 4 + n {
            None
        } else {
            spec_decode(b.skip(4))
        }
    }
}

/// Encode an envelope as one frame.  Fails exactly when the payload would
/// exceed the 16 MiB cap; on success the first four bytes hold the payload
/// length big-endian and the rest is the payload itself.
pub fn encode_frame(e: &Envelope) -> (r: Result<Vec<u8>, ProtocolError>)
    ensures
        spec_encode(e@).len() <= MAX_MESSAGE_SIZE ==> (r matches Ok(f) && f@ == spec_frame(e@)
            && f@.len() == 4 + spec_encode(e@).len()),
        spec_encode(e@).len() > MAX_MESSAGE_SIZE ==> r == Err::<Vec<u8>, ProtocolError>(
            ProtocolError::FrameTooLarge,
        ),
{
    let mut payload = encode_envelope(e);
    if payload.len() > MAX_MESSAGE_SIZE {
        return Err(ProtocolError::FrameTooLarge);
    }
    let n = payload.len() as u64;
    let mut out: Vec<u8> = Vec::new();
    out.push((n / 0x1000000 % 256) as u8);
    out.push((n / 0x10000 % 256) as u8);
    out.push((n / 0x100 % 256) as u8);
    out.push((n % 256) as u8);
    let ghost prefix = out@;
    proof {
        assert(prefix =~= be_bytes(spec_encode(e@).len() as int));
    }
    out.append(&mut payload);
    proof {
        assert(out@ =~= spec_frame(e@));
    }
    Ok(out)
}

/// Interpret a frame header.  Accepts exactly the declared lengths up to
/// the 16 MiB cap, so an oversized frame is refused before any allocation.
pub fn frame_payload_len(b0: u8, b1: u8, b2: u8, b3: u8) -> (r: Result<usize, ProtocolError>)
    ensures
        be_val(b0, b1, b2, b3) <= MAX_MESSAGE_SIZE ==> (r matches Ok(n) && n == be_val(
            b0,
            b1,
            b2,
            b3,
        )),
        be_val(b0, b1, b2, b3) > MAX_MESSAGE_SIZE ==> r == Err::<usize, ProtocolError>(
            ProtocolError::FrameTooLarge,
        ),
{
    let v: u64 = (b0 as u64) * 0x1000000 + (b1 as u64) * 0x10000 + (b2 as u64) * 0x100 + (
    b3 as u64);
    if v > MAX_MESSAGE_SIZE as u64 {
        Err(ProtocolError::FrameTooLarge)
    } else {
        Ok(v as usize)
    }
}

/// Decode one whole frame held in a buffer.  Succeeds exactly when the
/// buffer is a well-formed frame whose payload is one canonical envelope.
pub fn decode_frame(buf: &Vec<u8>) -> (r: Result<Envelope, ProtocolError>)
    ensures
        match spec_frame_decode(buf@) {
            None => r is Err,
            Some(v) => (r matches Ok(env) && env@ == v),
        },
        buf@.len() >= 4 && be_val(buf@[0], buf@[1], buf@[2], buf@[3]) > MAX_MESSAGE_SIZE ==> r
            == Err::<Envelope, ProtocolError>(ProtocolError::FrameTooLarge),
{
    if buf.len() < 4 {
        return Err(ProtocolError::MalformedEnvelope);
    }
    let n = match frame_payload_len(buf[0], buf[1], buf[2], buf[3]) {
        Ok(n) => n,
        Err(e) => {
            return Err(e);
        },
    };
    if buf.len() - 4 != n {
        return Err(ProtocolError::MalformedEnvelope);
    }
    let mut payload: Vec<u8> = Vec::new();
    let mut i: usize = 4;
    while i < buf.len()
        invariant
            4 <= i <= buf@.len(),
            payload@ == buf@.subrange(4, i as int),
        decreases buf@.len() - i,
    {
        payload.push(buf[i]);
        proof {
            assert(buf@.subrange(4, i + 1) =~= buf@.subrange(4, i as int).push(buf@[i as int]));
        }
        i = i + 1;
    }
    proof {
        assert(payload@ =~= buf@.skip(4));
    }
    decode_envelope(&payload)
}

/// Encoding an envelope as a frame and decoding that frame gives the
/// envelope back, whenever the payload fits under the cap.
pub proof fn lemma_frame_round_trip(e: EnvelopeV)
    requires
        spec_encode(e).len() <= MAX_MESSAGE_SIZE,
    ensures
        spec_frame_decode(spec_frame(e)) == Some(e),
{
    let p = spec_encode(e);
    let f = spec_frame(e);
    assert(f.len() == 4 + p.len());
    lemma_be_round_trip(p.len() as int);
    assert(f[0] == be_bytes(p.len() as int)[0]);
    assert(f[1] == be_bytes(p.len() as int)[1]);
    assert(f[2] == be_bytes(p.len() as int)[2]);
    assert(f[3] == be_bytes(p.len() as int)[3]);
    assert(f.skip(4) =~= p);
    lemma_decode_encode(e);
}

/// Shell for the frame protocol spoken over a plugin's socket.  The byte
/// stream itself is read and written by the embedding runtime; framing and
/// envelope rules live in [`encode_frame`], [`frame_payload_len`] and
/// [`decode_frame`].
#[derive(Debug)]
pub struct PluginProtocol;

impl PluginProtocol {
    /// Create a protocol shell.
    pub fn new() -> (r: Self) {
        PluginProtocol
    }
}

} // verus!
