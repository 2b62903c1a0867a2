//! The 64-bit xxHash of a text, as a number with sign.

use vstd::prelude::*;
use vstd::utf8::encode_utf8;

verus! {

/// The hash that `xxhash_rust::xxh64::xxh64` computes of `bytes` with `seed`.
pub uninterp spec fn xxh64_of(bytes: Seq<u8>, seed: u64) -> u64;

/// `xxhash_rust::xxh64::xxh64`: the hash depends on the bytes and the seed
/// alone.
#[verifier::external_body]
pub(crate) fn xxh64(bytes: &[u8], seed: u64) -> (hash: u64)
    ensures
        hash == xxh64_of(bytes@, seed),
{
    xxhash_rust::xxh64::xxh64(bytes, seed)
}

/// The number with sign that has the 64 bits of `h`.
pub open spec fn as_signed(h: u64) -> int {
    if h < 0x8000_0000_0000_0000 {
        h as int
    } else {
        h - 0x1_0000_0000_0000_0000
    }
}

/// The number with sign that has the 64 bits of `h`.
pub fn signed(h: u64) -> (n: i64)
    ensures
        n == as_signed(h),
{
    if h < 0x8000_0000_0000_0000 {
        h as i64
    } else {
        let low: u64 = h - 0x8000_0000_0000_0000;
        i64::MIN + (low as i64)
    }
}

/// The xxHash of 64 bits of the UTF-8 bytes of `text`, with the seed 0, as a
/// number with sign.
pub fn xx_hash(text: &str) -> (hash: i64)
    ensures
        hash == as_signed(xxh64_of(encode_utf8(text@), 0)),
{
    signed(xxh64(text.as_bytes(), 0))
}

} // verus!
