//! Byte-level helpers shared by the record and instruction codecs.
use vstd::prelude::*;
use vstd::bytes::{spec_u32_from_le_bytes, spec_u32_to_le_bytes, u32_from_le_bytes, u32_to_le_bytes};
use vstd::slice::slice_to_vec;
use vstd::utf8::{encode_utf8, valid_utf8};
use crate::address::Address;

verus! {

/// Reads the 32 bytes at `offset` as an address.
pub fn read_address(src: &Vec<u8>, offset: usize) -> (r: Address)
    requires
        offset + 32 <= src@.len(),
    ensures
        r@ == src@.subrange(offset as int, offset as int + 32),
{
    let n = src.len();
    assert(offset + 32 <= n);
    let mut bytes: [u8; 32] = [0; 32];
    let mut j: usize = 0;
    while j < 32
        invariant
            j <= 32,
            offset + 32 <= src@.len(),
            src@.len() <= usize::MAX,
            forall|k: int| 0 <= k < j ==> bytes@[k] == src@[offset + k],
        decreases 32 - j,
    {
        bytes[j] = src[offset + j];
        j = j + 1;
    }
    proof {
        assert(bytes@ =~= src@.subrange(offset as int, offset as int + 32));
    }
    Address { bytes }
}

/// Writes the 32 bytes of an address at `offset`, leaving the rest alone.
pub fn write_address(dst: &mut Vec<u8>, offset: usize, a: &Address)
    requires
        offset + 32 <= old(dst)@.len(),
    ensures
        final(dst)@ == old(dst)@.subrange(0, offset as int) + a@ + old(dst)@.skip(
            offset as int + 32,
        ),
        final(dst)@.len() == old(dst)@.len(),
{
    let n = dst.len();
    assert(offset + 32 <= n);
    let mut j: usize = 0;
    while j < 32
        invariant
            j <= 32,
            offset + 32 <= old(dst)@.len(),
            old(dst)@.len() <= usize::MAX,
            dst@.len() == old(dst)@.len(),
            forall|k: int| 0 <= k < j ==> dst@[offset + k] == a@[k],
            forall|k: int| 0 <= k < old(dst)@.len() && !(offset <= k < offset + j) ==> dst@[k]
                == old(dst)@[k],
        decreases 32 - j,
    {
        dst[offset + j] = a.bytes[j];
        j = j + 1;
    }
    proof {
        assert(dst@ =~= old(dst)@.subrange(0, offset as int) + a@ + old(dst)@.skip(
            offset as int + 32,
        ));
    }
}

/// Reads the four bytes at `offset` as a little-endian 32-bit integer.
pub fn read_u32_le(src: &Vec<u8>, offset: usize) -> (r: u32)
    requires
        offset + 4 <= src@.len(),
    ensures
        r == spec_u32_from_le_bytes(src@.subrange(offset as int, offset as int + 4)),
{
    let n = src.len();
    assert(offset + 4 <= n);
    let mut four: Vec<u8> = Vec::new();
    four.push(src[offset]);
    four.push(src[offset + 1]);
    four.push(src[offset + 2]);
    four.push(src[offset + 3]);
    proof {
        assert(four@ =~= src@.subrange(offset as int, offset as int + 4));
    }
    u32_from_le_bytes(four.as_slice())
}

/// Writes `x` at `offset` as four little-endian bytes, leaving the rest alone.
pub fn write_u32_le(dst: &mut Vec<u8>, offset: usize, x: u32)
    requires
        offset + 4 <= old(dst)@.len(),
    ensures
        final(dst)@ == old(dst)@.subrange(0, offset as int) + spec_u32_to_le_bytes(x) + old(
            dst,
        )@.skip(offset as int + 4),
        final(dst)@.len() == old(dst)@.len(),
{
    let n = dst.len();
    assert(offset + 4 <= n);
    let four = u32_to_le_bytes(x);
    dst[offset] = four[0];
    dst[offset + 1] = four[1];
    dst[offset + 2] = four[2];
    dst[offset + 3] = four[3];
    proof {
        assert(dst@ =~= old(dst)@.subrange(0, offset as int) + spec_u32_to_le_bytes(x) + old(
            dst,
        )@.skip(offset as int + 4));
    }
}

/// The UTF-8 bytes of a string, as a fresh vector.
pub fn string_bytes(s: &String) -> (r: Vec<u8>)
    ensures
        r@ == encode_utf8(s@),
{
    slice_to_vec(s.as_str().as_bytes())
}

/// Relies on `String::from_utf8`: it returns `Ok` exactly when the bytes are
/// a valid UTF-8 encoding, and the string it returns holds those very bytes.
#[verifier::external_body]
pub fn bytes_to_string(v: Vec<u8>) -> (r: Option<String>)
    ensures
        (match r {
            Some(s) => valid_utf8(v@) && encode_utf8(s@) =~= v@,
            None => !valid_utf8(v@),
        }),
{
    match String::from_utf8(v) {
        Ok(s) => Some(s),
        Err(_) => None,
    }
}

} // verus!
