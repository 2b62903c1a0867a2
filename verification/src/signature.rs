//! Files that are known by their first bytes.

use vstd::prelude::*;

verus! {

/// Whether `sig` stands at the start of `buf`.
pub open spec fn has_signature(buf: Seq<u8>, sig: Seq<u8>) -> bool {
    sig.len() <= buf.len() && buf.subrange(0, sig.len() as int) == sig
}

/// Compares the first bytes of `buf` with `sig`.
pub fn starts_with_bytes(buf: &[u8], sig: &[u8]) -> (found: bool)
    ensures
        found == has_signature(buf@, sig@),
{
    if buf.len() < sig.len() {
        return false;
    }
    let mut i: usize = 0;
    while i < sig.len()
        invariant
            i <= sig.len() <= buf.len(),
            forall|k: int| 0 <= k < i ==> buf@[k] == sig@[k],
        decreases sig.len() - i,
    {
        if buf[i] != sig[i] {
            assert(buf@.subrange(0, sig.len() as int)[i as int] == buf@[i as int]);
            return false;
        }
        i += 1;
    }
    assert(buf@.subrange(0, sig.len() as int) =~= sig@);
    true
}

/// The bytes `%YAML`, with which an asset body in the dialect begins.
pub open spec fn yaml_signature() -> Seq<u8> {
    seq![0x25u8, 0x59u8, 0x41u8, 0x4du8, 0x4cu8]
}

/// The bytes `Kaydara FBX Binary`, with which a binary FBX file begins.
pub open spec fn fbx_signature() -> Seq<u8> {
    seq![
        0x4bu8,
        0x61u8,
        0x79u8,
        0x64u8,
        0x61u8,
        0x72u8,
        0x61u8,
        0x20u8,
        0x46u8,
        0x42u8,
        0x58u8,
        0x20u8,
        0x42u8,
        0x69u8,
        0x6eu8,
        0x61u8,
        0x72u8,
        0x79u8,
    ]
}

/// Whether `buf` begins with `%YAML`.
pub fn yaml_matcher(buf: &[u8]) -> (found: bool)
    ensures
        found == has_signature(buf@, yaml_signature()),
{
    let sig: [u8; 5] = [0x25, 0x59, 0x41, 0x4d, 0x4c];
    assert(sig@ =~= yaml_signature());
    starts_with_bytes(buf, sig.as_slice())
}

/// Whether `buf` begins with `Kaydara FBX Binary`.
pub fn fbx_matcher(buf: &[u8]) -> (found: bool)
    ensures
        found == has_signature(buf@, fbx_signature()),
{
    let sig: [u8; 18] = [
        0x4b,
        0x61,
        0x79,
        0x64,
        0x61,
        0x72,
        0x61,
        0x20,
        0x46,
        0x42,
        0x58,
        0x20,
        0x42,
        0x69,
        0x6e,
        0x61,
        0x72,
        0x79,
    ];
    assert(sig@ =~= fbx_signature());
    starts_with_bytes(buf, sig.as_slice())
}

} // verus!
