//! The wire format of the RPC protocol: each message travels as a frame, a
//! four-byte big-endian length followed by that many bytes of payload.
use vstd::prelude::*;

verus! {

/// The largest payload, in bytes, that a reader accepts.
pub const MAX_FRAME_LEN: usize = 1048576;

/// Why bytes do not hold a frame.
#[derive(Debug, Clone, Copy, PartialEq, Eq, Structural)]
pub enum FrameError {
    /// Fewer than four bytes: the length is missing.
    MissingHeader,
    /// The length announces more than [`MAX_FRAME_LEN`] bytes.
    TooLarge { len: usize },
    /// The length is acceptable but fewer bytes than it announces follow.
    MissingPayload { len: usize },
}

/// The four big-endian bytes of `n`.
pub open spec fn spec_be32(n: u32) -> Seq<u8> {
    seq![
        ((n >> 24u32) & 0xffu32) as u8,
        ((n >> 16u32) & 0xffu32) as u8,
        ((n >> 8u32) & 0xffu32) as u8,
        (n & 0xffu32) as u8,
    ]
}

/// The number that four big-endian bytes stand for.
pub open spec fn spec_be32_value(b: Seq<u8>) -> nat
    recommends
        b.len() >= 4,
{
    (b[0] as nat) * 16777216 + (b[1] as nat) * 65536 + (b[2] as nat) * 256 + (b[3] as nat)
}

/// The frame that carries `payload`. The length field holds the payload's
/// length reduced to 32 bits, as the sender's `as u32` conversion does.
pub open spec fn spec_encode_frame(payload: Seq<u8>) -> Seq<u8> {
    spec_be32(payload.len() as u32) + payload
}

/// What a reader makes of `bytes`: the payload of the frame they start with and
/// the number of bytes that frame takes, or why there is none.
pub open spec fn spec_decode_frame(bytes: Seq<u8>) -> Result<(Seq<u8>, nat), FrameError> {
    if bytes.len() < 4 {
        Err(FrameError::MissingHeader)
    } else {
        let n = spec_be32_value(bytes);
        if n > MAX_FRAME_LEN {
            Err(FrameError::TooLarge { len: n as usize })
        } else if bytes.len() < 4 + n {
            Err(FrameError::MissingPayload { len: n as usize })
        } else {
            Ok((bytes.subrange(4, 4 + n as int), 4 + n))
        }
    }
}

/// The bytes of `n` read back give `n`.
pub proof fn lemma_be32_roundtrip(n: u32)
    ensures
        spec_be32(n).len() == 4,
        spec_be32_value(spec_be32(n)) == n,
{
    let b0 = ((n >> 24u32) & 0xffu32) as u8;
    let b1 = ((n >> 16u32) & 0xffu32) as u8;
    let b2 = ((n >> 8u32) & 0xffu32) as u8;
    let b3 = (n & 0xffu32) as u8;
    assert(b0 as u32 * 16777216u32 + b1 as u32 * 65536u32 + b2 as u32 * 256u32 + b3 as u32 == n
        && b0 as u32 * 16777216u32 + b1 as u32 * 65536u32 + b2 as u32 * 256u32 + b3 as u32
        <= 0xffff_ffffu32) by (bit_vector)
        requires
            b0 == ((n >> 24u32) & 0xffu32) as u8,
            b1 == ((n >> 16u32) & 0xffu32) as u8,
            b2 == ((n >> 8u32) & 0xffu32) as u8,
            b3 == (n & 0xffu32) as u8,
    ;
}

/// Frames a payload: its length in four big-endian bytes, then the payload.
pub fn encode_frame(payload: &[u8]) -> (r: Vec<u8>)
    ensures
        r@ == spec_encode_frame(payload@),
{
    #[verifier::truncate]
    let n = payload.len() as u32;
    let mut r: Vec<u8> = Vec::new();
    r.push(((n >> 24u32) & 0xffu32) as u8);
    r.push(((n >> 16u32) & 0xffu32) as u8);
    r.push(((n >> 8u32) & 0xffu32) as u8);
    r.push((n & 0xffu32) as u8);
    assert(r@ == spec_be32(n));
    let ghost head = r@;
    for i in 0..payload.len()
        invariant
            r@ == head + payload@.take(i as int),
    {
        r.push(payload[i]);
        assert(payload@.take(i + 1) == payload@.take(i as int).push(payload@[i as int]));
    }
    assert(payload@.take(payload@.len() as int) == payload@);
    r
}

/// The payload length that a frame header announces, refused above
/// [`MAX_FRAME_LEN`].
pub fn frame_payload_len(header: [u8; 4]) -> (r: Result<usize, FrameError>)
    ensures
        match r {
            Ok(n) => n == spec_be32_value(header@) && n <= MAX_FRAME_LEN,
            Err(e) => spec_be32_value(header@) > MAX_FRAME_LEN && e == FrameError::TooLarge {
                len: spec_be32_value(header@) as usize,
            },
        },
{
    let b0 = header[0] as u32;
    let b1 = header[1] as u32;
    let b2 = header[2] as u32;
    let b3 = header[3] as u32;
    assert(b0 * 16777216 + b1 * 65536 + b2 * 256 + b3 <= 0xffff_ffff) by (nonlinear_arith)
        requires
            b0 < 256,
            b1 < 256,
            b2 < 256,
            b3 < 256,
    ;
    let n = (b0 * 16777216 + b1 * 65536 + b2 * 256 + b3) as usize;
    if n > MAX_FRAME_LEN {
        Err(FrameError::TooLarge { len: n })
    } else {
        Ok(n)
    }
}

/// Reads the frame that `bytes` start with: its payload and the number of
/// bytes it takes. Bytes after the frame are left alone.
pub fn decode_frame(bytes: &[u8]) -> (r: Result<(Vec<u8>, usize), FrameError>)
    ensures
        match r {
            Ok((payload, used)) => spec_decode_frame(bytes@) == Ok::<(Seq<u8>, nat), FrameError>(
                (payload@, used as nat),
            ),
            Err(e) => spec_decode_frame(bytes@) == Err::<(Seq<u8>, nat), FrameError>(e),
        },
{
    if bytes.len() < 4 {
        return Err(FrameError::MissingHeader);
    }
    let header: [u8; 4] = [bytes[0], bytes[1], bytes[2], bytes[3]];
    assert(spec_be32_value(header@) == spec_be32_value(bytes@));
    let n = frame_payload_len(header)?;
    if bytes.len() - 4 < n {
        return Err(FrameError::MissingPayload { len: n });
    }
    let mut payload: Vec<u8> = Vec::new();
    for i in 0..n
        invariant
            n <= MAX_FRAME_LEN,
            4 + n <= bytes@.len(),
            payload@ == bytes@.subrange(4, 4 + i),
    {
        payload.push(bytes[4 + i]);
        assert(bytes@.subrange(4, 4 + i + 1) == bytes@.subrange(4, 4 + i).push(bytes@[4 + i]));
    }
    Ok((payload, 4 + n))
}

/// A frame of at most [`MAX_FRAME_LEN`] bytes reads back as its payload,
/// whatever follows it on the stream.
pub proof fn lemma_frame_roundtrip(payload: Seq<u8>, rest: Seq<u8>)
    requires
        payload.len() <= MAX_FRAME_LEN,
    ensures
        spec_decode_frame(spec_encode_frame(payload) + rest) == Ok::<(Seq<u8>, nat), FrameError>(
            (payload, payload.len() + 4),
        ),
{
    let n = payload.len() as u32;
    lemma_be32_roundtrip(n);
    let bytes = spec_encode_frame(payload) + rest;
    assert(bytes.subrange(0, 4) == spec_be32(n));
    assert(spec_be32_value(bytes) == spec_be32_value(spec_be32(n)));
    assert(bytes.subrange(4, 4 + payload.len() as int) == payload);
}

/// A frame whose payload is larger than [`MAX_FRAME_LEN`] (and whose length
/// fits the 32-bit field) is refused as too large.
pub proof fn lemma_frame_too_large(payload: Seq<u8>, rest: Seq<u8>)
    requires
        MAX_FRAME_LEN < payload.len() <= u32::MAX,
    ensures
        spec_decode_frame(spec_encode_frame(payload) + rest) == Err::<(Seq<u8>, nat), FrameError>(
            FrameError::TooLarge { len: payload.len() as usize },
        ),
{
    let n = payload.len() as u32;
    lemma_be32_roundtrip(n);
    let bytes = spec_encode_frame(payload) + rest;
    assert(bytes.subrange(0, 4) == spec_be32(n));
    assert(spec_be32_value(bytes) == spec_be32_value(spec_be32(n)));
}

/// Whatever a reader accepts is exactly the framing of the payload it returns:
/// the bytes it consumed are the frame of that payload.
pub proof fn lemma_decode_consumes_a_frame(bytes: Seq<u8>)
    ensures
        spec_decode_frame(bytes) matches Ok((payload, used)) ==> bytes.take(used as int)
            == spec_encode_frame(payload),
{
    if let Ok((payload, used)) = spec_decode_frame(bytes) {
        let n = spec_be32_value(bytes);
        let b0 = bytes[0];
        let b1 = bytes[1];
        let b2 = bytes[2];
        let b3 = bytes[3];
        let v = n as u32;
        assert(v == b0 as u32 * 16777216u32 + b1 as u32 * 65536u32 + b2 as u32 * 256u32 + b3 as u32);
        assert(((v >> 24u32) & 0xffu32) as u8 == b0 && ((v >> 16u32) & 0xffu32) as u8 == b1 && ((v
            >> 8u32) & 0xffu32) as u8 == b2 && (v & 0xffu32) as u8 == b3) by (bit_vector)
            requires
                v == b0 as u32 * 16777216u32 + b1 as u32 * 65536u32 + b2 as u32 * 256u32 + b3 as u32,
        ;
        assert(payload.len() == n);
        assert(bytes.take(used as int) == spec_be32(v) + payload);
    }
}

} // verus!
