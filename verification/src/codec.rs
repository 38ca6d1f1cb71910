//! Big-endian encoding of 32-bit words, used for deaddrop rendezvous tags
//! and for the fixed per-purpose AEAD nonces.

use vstd::prelude::*;

verus! {

/// The four big-endian bytes of a 32-bit word.
pub open spec fn be_bytes_of(v: u32) -> Seq<u8> {
    seq![
        (v >> 24) as u8,
        ((v >> 16) & 0xff) as u8,
        ((v >> 8) & 0xff) as u8,
        (v & 0xff) as u8,
    ]
}

/// The 32-bit word held by four big-endian bytes.
pub open spec fn be_u32_of(s: Seq<u8>) -> u32
    recommends
        s.len() == 4,
{
    ((s[0] as u32) << 24) | ((s[1] as u32) << 16) | ((s[2] as u32) << 8) | (s[3] as u32)
}

/// Decoding inverts encoding.
pub proof fn lemma_be_round_trip(v: u32)
    ensures
        be_u32_of(be_bytes_of(v)) == v,
{
    let b0 = (v >> 24) as u8;
    let b1 = ((v >> 16) & 0xff) as u8;
    let b2 = ((v >> 8) & 0xff) as u8;
    let b3 = (v & 0xff) as u8;
    assert((((b0 as u32) << 24) | ((b1 as u32) << 16) | ((b2 as u32) << 8) | (b3 as u32)) == v)
        by (bit_vector)
        requires
            b0 == (v >> 24) as u8,
            b1 == ((v >> 16) & 0xff) as u8,
            b2 == ((v >> 8) & 0xff) as u8,
            b3 == (v & 0xff) as u8,
    ;
}

/// Encoding inverts decoding: any four bytes are the encoding of their word.
pub proof fn lemma_be_round_trip_bytes(s: Seq<u8>)
    requires
        s.len() == 4,
    ensures
        be_bytes_of(be_u32_of(s)) == s,
{
    let v = be_u32_of(s);
    let b0 = s[0];
    let b1 = s[1];
    let b2 = s[2];
    let b3 = s[3];
    assert((v >> 24) as u8 == b0 && ((v >> 16) & 0xff) as u8 == b1 && ((v >> 8) & 0xff) as u8
        == b2 && (v & 0xff) as u8 == b3) by (bit_vector)
        requires
            v == (((b0 as u32) << 24) | ((b1 as u32) << 16) | ((b2 as u32) << 8) | (b3 as u32)),
    ;
    assert(be_bytes_of(v) =~= s);
}

/// Writes a 32-bit word as four big-endian bytes.
pub fn write_u32_be(v: u32) -> (r: Vec<u8>)
    ensures
        r@ == be_bytes_of(v),
{
    let mut r: Vec<u8> = Vec::with_capacity(4);
    assert(v >> 24 <= 0xff && (v >> 16) & 0xff <= 0xff && (v >> 8) & 0xff <= 0xff && v & 0xff
        <= 0xff) by (bit_vector);
    r.push((v >> 24) as u8);
    r.push(((v >> 16) & 0xff) as u8);
    r.push(((v >> 8) & 0xff) as u8);
    r.push((v & 0xff) as u8);
    assert(r@ =~= be_bytes_of(v));
    r
}

/// Reads a 32-bit word from four big-endian bytes.
pub fn read_u32_be(b: &[u8]) -> (r: u32)
    requires
        b@.len() == 4,
    ensures
        r == be_u32_of(b@),
{
    ((b[0] as u32) << 24) | ((b[1] as u32) << 16) | ((b[2] as u32) << 8) | (b[3] as u32)
}

} // verus!
