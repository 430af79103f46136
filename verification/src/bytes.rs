//! Big-endian integers at an offset of a byte buffer.

use byteorder::{BigEndian, ByteOrder};
use vstd::prelude::*;
use vstd::slice::slice_subrange;

verus! {

/// The unsigned integer whose big-endian representation is the first four
/// bytes of `b`.
pub open spec fn be_u32(b: Seq<u8>) -> u32
    recommends
        b.len() >= 4,
{
    (b[0] as int * 0x100_0000 + b[1] as int * 0x1_0000 + b[2] as int * 0x100 + b[3] as int) as u32
}

/// The four bytes that represent `x` in big-endian order.
#[verifier::opaque]
pub open spec fn be_bytes(x: u32) -> Seq<u8> {
    seq![
        (x as int / 0x100_0000) as u8,
        (x as int / 0x1_0000 % 0x100) as u8,
        (x as int / 0x100 % 0x100) as u8,
        (x as int % 0x100) as u8,
    ]
}

/// The big-endian integer that `bytes` holds at `at`, if four bytes are
/// available there.
pub open spec fn u32_at(bytes: Seq<u8>, at: int) -> Option<u32> {
    if 0 <= at && at + 4 <= bytes.len() {
        Some(be_u32(bytes.subrange(at, at + 4)))
    } else {
        None
    }
}

/// Decoding undoes encoding.
pub proof fn lemma_be_u32_of_be_bytes(x: u32)
    ensures
        be_bytes(x).len() == 4,
        be_u32(be_bytes(x)) == x,
{
    reveal(be_bytes);
}

/// Two four-byte sequences with the same big-endian value are the same
/// sequence.
pub proof fn lemma_be_u32_injective(a: Seq<u8>, b: Seq<u8>)
    requires
        a.len() == 4,
        b.len() == 4,
        be_u32(a) == be_u32(b),
    ensures
        a == b,
{
    assert(a =~= b);
}

/// Calls `byteorder::BigEndian::read_u32`, which panics on fewer than four
/// bytes and otherwise returns `u32::from_be_bytes` of the first four.
#[verifier::external_body]
fn be_read_u32(buf: &[u8]) -> (r: u32)
    requires
        buf@.len() >= 4,
    ensures
        r == be_u32(buf@),
{
    BigEndian::read_u32(buf)
}

/// Reads a big-endian `u32` at `offset`, or nothing when fewer than four
/// bytes remain there.
pub fn read_u32_at(bytes: &[u8], offset: usize) -> (r: Option<u32>)
    ensures
        r == u32_at(bytes@, offset as int),
{
    if bytes.len() < 4 || offset > bytes.len() - 4 {
        return None;
    }
    let field = slice_subrange(bytes, offset, offset + 4);
    Some(be_read_u32(field))
}

} // verus!
