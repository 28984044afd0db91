use vstd::prelude::*;

verus! {

/// The value of four bytes read as a big-endian unsigned 32-bit integer.
pub open spec fn be32_value(b: Seq<u8>) -> int
    recommends
        b.len() == 4,
{
    b[0] * 0x100_0000 + b[1] * 0x1_0000 + b[2] * 0x100 + b[3]
}

/// The four big-endian bytes of an unsigned 32-bit integer.
pub open spec fn be32_bytes(x: u32) -> Seq<u8> {
    seq![
        (x / 0x100_0000) as u8,
        ((x / 0x1_0000) % 0x100) as u8,
        ((x / 0x100) % 0x100) as u8,
        (x % 0x100) as u8,
    ]
}

/// A wire frame: the payload's length as four big-endian bytes, then the
/// payload itself.
pub open spec fn spec_encode_frame(payload: Seq<u8>) -> Seq<u8>
    recommends
        payload.len() <= u32::MAX,
{
    be32_bytes(payload.len() as u32) + payload
}

/// Reading back the four bytes of a big-endian encoding yields the encoded
/// value.
pub proof fn lemma_be32_round_trip(x: u32)
    ensures
        be32_bytes(x).len() == 4,
        be32_value(be32_bytes(x)) == x,
{
    assert(be32_value(be32_bytes(x)) == x) by (nonlinear_arith);
}

/// Decodes a big-endian frame length from its four bytes.
pub fn u32_from_be(b0: u8, b1: u8, b2: u8, b3: u8) -> (r: u32)
    ensures
        r == be32_value(seq![b0, b1, b2, b3]),
{
    (b0 as u32) * 0x100_0000 + (b1 as u32) * 0x1_0000 + (b2 as u32) * 0x100 + (b3 as u32)
}

/// Encodes a frame-length prefix: the four big-endian bytes of `x`.
pub fn u32_to_be(x: u32) -> (r: Vec<u8>)
    ensures
        r@ =~= be32_bytes(x),
{
    let mut r: Vec<u8> = Vec::new();
    r.push((x / 0x100_0000) as u8);
    r.push(((x / 0x1_0000) % 0x100) as u8);
    r.push(((x / 0x100) % 0x100) as u8);
    r.push((x % 0x100) as u8);
    r
}

/// Builds the wire frame for a payload: a four-byte big-endian length prefix
/// followed by the payload bytes, verbatim.
pub fn encode_frame(payload: &Vec<u8>) -> (r: Vec<u8>)
    requires
        payload@.len() <= u32::MAX,
    ensures
        r@ =~= spec_encode_frame(payload@),
        r@.len() == payload@.len() + 4,
{
    let len = payload.len();
    let mut r = u32_to_be(len as u32);
    let mut i: usize = 0;
    while i < payload.len()
        invariant
            i <= payload@.len(),
            payload@.len() <= u32::MAX,
            r@ =~= be32_bytes(payload@.len() as u32) + payload@.subrange(0, i as int),
        decreases payload@.len() - i,
    {
        r.push(payload[i]);
        i = i + 1;
    }
    proof {
        assert(r@ =~= spec_encode_frame(payload@));
    }
    r
}

/// A frame decodes back to exactly the payload it was built from: the prefix
/// reads as the payload's length and what follows is the payload, byte for
/// byte.
pub proof fn lemma_frame_round_trip(payload: Seq<u8>)
    requires
        payload.len() <= u32::MAX,
    ensures
        spec_encode_frame(payload).len() == payload.len() + 4,
        be32_value(spec_encode_frame(payload).subrange(0, 4)) == payload.len(),
        spec_encode_frame(payload).subrange(4, spec_encode_frame(payload).len() as int)
            =~= payload,
{
    lemma_be32_round_trip(payload.len() as u32);
    assert(spec_encode_frame(payload).subrange(0, 4) =~= be32_bytes(payload.len() as u32));
}

} // verus!
