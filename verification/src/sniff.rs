//! The kind of a file, told from its first bytes by the `infer` crate.

use vstd::prelude::*;
use crate::signature::{fbx_matcher, fbx_signature, has_signature, yaml_matcher, yaml_signature};
use crate::text::text_of;

verus! {

/// The MIME type of the first of `infer`'s own matchers that accepts `buf`,
/// as `infer::Infer::get` finds it where no matcher was added; nothing where
/// none accepts.
pub uninterp spec fn sniffed_mime(buf: Seq<u8>) -> Option<Seq<char>>;

/// `infer::get`, then `Type::mime_type`: the MIME type that `infer` tells
/// from `buf`. It depends on `buf` alone.
#[verifier::external_body]
pub(crate) fn sniff(buf: &[u8]) -> (mime: Option<String>)
    ensures
        text_of(mime) == sniffed_mime(buf@),
{
    infer::get(buf).map(|kind| kind.mime_type().to_owned())
}

/// The type of content that a sniffer tells from `buf` when it asks the two
/// matchers of this library first, the one for YAML before the one for FBX,
/// and gives `yaml` or `fbx` where one of them accepts.
pub open spec fn content_type_of(buf: Seq<u8>, yaml: Seq<char>, fbx: Seq<char>) -> Option<
    Seq<char>,
> {
    if has_signature(buf, yaml_signature()) {
        Some(yaml)
    } else if has_signature(buf, fbx_signature()) {
        Some(fbx)
    } else {
        sniffed_mime(buf)
    }
}

/// `infer::Infer::get` on a sniffer to which `infer::Infer::add` gave the
/// two matchers of this library, under the MIME types `yaml.0` and `fbx.0`
/// and the extensions `yaml.1` and `fbx.1`. `get` returns the first matcher
/// that accepts `buf`, and asks the added ones first, in the order in which
/// they were added.
#[verifier::external_body]
pub(crate) fn sniff_content(
    buf: &[u8],
    yaml: (&'static str, &'static str),
    fbx: (&'static str, &'static str),
) -> (mime: Option<String>)
    ensures
        text_of(mime) == content_type_of(buf@, yaml.0@, fbx.0@),
{
    let mut info = infer::Infer::new();
    info.add(yaml.0, yaml.1, yaml_matcher);
    info.add(fbx.0, fbx.1, fbx_matcher);
    info.get(buf).map(|kind| kind.mime_type().to_owned())
}

} // verus!
