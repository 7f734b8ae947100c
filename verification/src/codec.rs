//! Wire format of a Counter Record: an unsigned 32-bit value in a fixed
//! four-byte little-endian layout, stable across redeployments.

use vstd::prelude::*;

verus! {

/// The four little-endian bytes of a 32-bit counter value.
pub open spec fn le_bytes_of(v: u32) -> Seq<u8> {
    seq![
        (v & 0xff) as u8,
        ((v >> 8) & 0xff) as u8,
        ((v >> 16) & 0xff) as u8,
        ((v >> 24) & 0xff) as u8,
    ]
}

/// The counter value denoted by the first four bytes of a record, read
/// little-endian.
pub open spec fn le_value_of(b: Seq<u8>) -> u32 {
    (b[0] as u32) | ((b[1] as u32) << 8) | ((b[2] as u32) << 16) | ((b[3] as u32) << 24)
}

/// Encodes a counter value into its four-byte little-endian record.
pub fn encode_count(v: u32) -> (r: Vec<u8>)
    ensures
        r@ == le_bytes_of(v),
        r@.len() == 4,
{
    proof {
        assert(v & 0xff <= 0xff) by (bit_vector);
        assert((v >> 8) & 0xff <= 0xff) by (bit_vector);
        assert((v >> 16) & 0xff <= 0xff) by (bit_vector);
        assert((v >> 24) & 0xff <= 0xff) by (bit_vector);
    }
    let mut out: Vec<u8> = Vec::new();
    out.push((v & 0xff) as u8);
    out.push(((v >> 8) & 0xff) as u8);
    out.push(((v >> 16) & 0xff) as u8);
    out.push(((v >> 24) & 0xff) as u8);
    proof {
        assert(out@ =~= le_bytes_of(v));
    }
    out
}

/// Decodes a stored record: the little-endian value of the first four
/// bytes, or `None` for a malformed (shorter) record.
pub fn decode_count(b: &Vec<u8>) -> (r: Option<u32>)
    ensures
        b@.len() >= 4 ==> r == Some(le_value_of(b@)),
        b@.len() < 4 ==> r is None,
{
    if b.len() < 4 {
        return None;
    }
    let b0 = b[0] as u32;
    let b1 = b[1] as u32;
    let b2 = b[2] as u32;
    let b3 = b[3] as u32;
    proof {
        assert(b1 <= 0xff && b2 <= 0xff && b3 <= 0xff);
        assert(b1 <= 0xff ==> (b1 << 8) <= 0xff00) by (bit_vector);
        assert(b2 <= 0xff ==> (b2 << 16) <= 0xff0000) by (bit_vector);
        assert(b3 <= 0xff ==> (b3 << 24) <= 0xff000000) by (bit_vector);
    }
    Some(b0 | (b1 << 8) | (b2 << 16) | (b3 << 24))
}

/// Law: decoding an encoded counter value yields the value back, for every
/// value in range.
pub proof fn lemma_count_round_trip(v: u32)
    ensures
        le_value_of(le_bytes_of(v)) == v,
{
    let b0 = (v & 0xff) as u8;
    let b1 = ((v >> 8) & 0xff) as u8;
    let b2 = ((v >> 16) & 0xff) as u8;
    let b3 = ((v >> 24) & 0xff) as u8;
    assert((((v & 0xff) as u8) as u32) | ((((v >> 8) & 0xff) as u8) as u32) << 8 | ((((v >> 16)
        & 0xff) as u8) as u32) << 16 | ((((v >> 24) & 0xff) as u8) as u32) << 24 == v)
        by (bit_vector);
    assert(le_bytes_of(v)[0] == b0);
    assert(le_bytes_of(v)[1] == b1);
    assert(le_bytes_of(v)[2] == b2);
    assert(le_bytes_of(v)[3] == b3);
}

} // verus!
