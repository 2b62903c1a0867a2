//! Single files of a package: finding one by the identifier of its asset,
//! and putting what it holds into the form that was asked for.

use base64::Engine;
use vstd::prelude::*;
use vstd::utf8::{decode_utf8, valid_utf8};
use crate::asset::{asset_result, asset_yaml_cleanup};
use crate::entry::{decode, PackageEntry};
use crate::error::PackageError;
use crate::meta::{asset_meta_yaml_cleanup, meta_result};
use crate::text::{
    append_str, first_line, first_line_of, same_str, text_result, to_chars, to_text,
};

verus! {

/// The text that the standard engine of the `base64` crate, with padding,
/// makes of `bytes`.
pub uninterp spec fn base64_of(bytes: Seq<u8>) -> Seq<char>;

/// Whether content of `len` bytes is short enough for its base64 text to
/// have a length that the machine can count.
pub open spec fn can_encode(len: nat) -> bool {
    len / 3 < usize::MAX / 4
}

/// `base64::Engine::encode` on `base64::engine::general_purpose::STANDARD`:
/// the text depends on the bytes alone. The crate stops the program where
/// the length of the text is more than the machine can count, so such bytes
/// are left out.
#[verifier::external_body]
pub(crate) fn encode_base64(bytes: &[u8]) -> (text: String)
    requires
        can_encode(bytes@.len()),
    ensures
        text@ == base64_of(bytes@),
{
    base64::engine::general_purpose::STANDARD.encode(bytes)
}

/// How the content of a file is to be put out.
pub struct ExtractOptions {
    /// Take the `asset.meta` file of the asset, not its `asset` file.
    pub meta: bool,
    /// Rewrite the dialect, for a JSON writer.
    pub json: bool,
    /// Hand the content to the converter from FBX to glTF.
    pub fbx2gltf: bool,
    /// Encode the output as base64.
    pub base64: bool,
}

/// Content, in the form that was asked for.
pub enum Extracted {
    /// Rewritten text of the dialect, to be read as YAML and written as JSON.
    Yaml(String),
    /// Bytes for the converter from FBX to glTF.
    Convert(Vec<u8>),
    /// Text to be printed.
    Text(String),
    /// Bytes to be written as they are.
    Raw(Vec<u8>),
}

/// Content in the form that was asked for, as mathematical values.
pub enum ExtractedModel {
    /// Rewritten text of the dialect.
    Yaml(Seq<char>),
    /// Bytes for the converter.
    Convert(Seq<u8>),
    /// Text to be printed.
    Text(Seq<char>),
    /// Bytes to be written as they are.
    Raw(Seq<u8>),
}

impl View for Extracted {
    type V = ExtractedModel;

    open spec fn view(&self) -> ExtractedModel {
        match *self {
            Extracted::Yaml(text) => ExtractedModel::Yaml(text@),
            Extracted::Convert(bytes) => ExtractedModel::Convert(bytes@),
            Extracted::Text(text) => ExtractedModel::Text(text@),
            Extracted::Raw(bytes) => ExtractedModel::Raw(bytes@),
        }
    }
}

/// Whether `r` is the content or the error that `model` asks for.
pub open spec fn is_extracted(r: Result<Extracted, PackageError>, model: Result<
    ExtractedModel,
    PackageError,
>) -> bool {
    match model {
        Ok(m) => r matches Ok(x) && x@ == m,
        Err(e) => r matches Err(f) && f == e,
    }
}

/// The path of the `pathname` file of the asset `guid`.
pub open spec fn pathname_path(guid: Seq<char>) -> Seq<char> {
    guid + "/pathname"@
}

/// The path of the file of the asset `guid` that is extracted: its
/// `asset.meta` file where `meta` is set, its `asset` file otherwise.
pub open spec fn extract_path(guid: Seq<char>, meta: bool) -> Seq<char> {
    guid + "/"@ + (if meta {
        "asset.meta"@
    } else {
        "asset"@
    })
}

/// The path of the `pathname` file of the asset `guid`.
pub fn pathname_target(guid: &str) -> (path: String)
    ensures
        path@ == pathname_path(guid@),
{
    let mut out = to_chars(guid);
    append_str(&mut out, "/pathname");
    to_text(out.as_slice())
}

/// The path of the file of the asset `guid` that is extracted.
pub fn extract_target(guid: &str, meta: bool) -> (path: String)
    ensures
        path@ == extract_path(guid@, meta),
{
    let mut out = to_chars(guid);
    append_str(&mut out, "/");
    if meta {
        append_str(&mut out, "asset.meta");
    } else {
        append_str(&mut out, "asset");
    }
    to_text(out.as_slice())
}

/// Whether `entry` is the file at `target`.
pub fn is_target(entry: &PackageEntry, target: &str) -> (yes: bool)
    ensures
        yes == (entry.relative_path() == target@),
{
    let path = entry.path_text();
    same_str(path.as_str(), target)
}

/// The name in the `pathname` file that holds `content`: its first line.
/// Fails with `Io` where `content` is not valid UTF-8.
pub open spec fn name_in(content: Seq<u8>) -> Result<Seq<char>, PackageError> {
    if valid_utf8(content) {
        Ok(first_line(decode_utf8(content)))
    } else {
        Err(PackageError::Io)
    }
}

/// Reads the name in the `pathname` file that holds `content`.
pub fn read_name(content: &[u8]) -> (r: Result<String, PackageError>)
    ensures
        text_result(r) == name_in(content@),
{
    match decode(content) {
        Some(text) => {
            let chars = to_chars(text);
            let line = first_line_of(chars.as_slice());
            Ok(to_text(line.as_slice()))
        },
        None => Err(PackageError::Io),
    }
}

/// `bytes` as output: as base64 text where `base64` is set, as they are
/// otherwise. Fails with `Io` where they are too many to encode.
pub open spec fn output_of(bytes: Seq<u8>, base64: bool) -> Result<ExtractedModel, PackageError> {
    if !base64 {
        Ok(ExtractedModel::Raw(bytes))
    } else if can_encode(bytes.len()) {
        Ok(ExtractedModel::Text(base64_of(bytes)))
    } else {
        Err(PackageError::Io)
    }
}

/// Puts `bytes` into the form of output that `base64` asks for.
pub fn output(bytes: Vec<u8>, base64: bool) -> (r: Result<Extracted, PackageError>)
    ensures
        is_extracted(r, output_of(bytes@, base64)),
{
    if !base64 {
        Ok(Extracted::Raw(bytes))
    } else if bytes.len() / 3 < usize::MAX / 4 {
        Ok(Extracted::Text(encode_base64(bytes.as_slice())))
    } else {
        Err(PackageError::Io)
    }
}

/// What is extracted from a file that holds `content`. For JSON the content
/// is rewritten, as a meta body where `meta` is set and as an asset body
/// otherwise; that fails with `Io` where the content is not valid UTF-8, and
/// as the rewrite fails. Otherwise the content goes to the converter where
/// that is asked for, and to the output where it is not.
pub open spec fn extracted(content: Seq<u8>, options: ExtractOptions) -> Result<
    ExtractedModel,
    PackageError,
> {
    if options.json {
        if !valid_utf8(content) {
            Err(PackageError::Io)
        } else {
            let rewritten = if options.meta {
                meta_result(decode_utf8(content))
            } else {
                asset_result(decode_utf8(content))
            };
            match rewritten {
                Ok(text) => Ok(ExtractedModel::Yaml(text)),
                Err(e) => Err(e),
            }
        }
    } else if options.fbx2gltf {
        Ok(ExtractedModel::Convert(content))
    } else {
        output_of(content, options.base64)
    }
}

/// Extracts from a file that holds `content` what `options` asks for.
pub fn extract(content: Vec<u8>, options: &ExtractOptions) -> (r: Result<Extracted, PackageError>)
    ensures
        is_extracted(r, extracted(content@, *options)),
{
    if options.json {
        match decode(content.as_slice()) {
            Some(text) => {
                let rewritten = if options.meta {
                    asset_meta_yaml_cleanup(text)
                } else {
                    asset_yaml_cleanup(text)
                };
                match rewritten {
                    Ok(clean) => Ok(Extracted::Yaml(clean)),
                    Err(e) => Err(e),
                }
            },
            None => Err(PackageError::Io),
        }
    } else if options.fbx2gltf {
        Ok(Extracted::Convert(content))
    } else {
        output(content, options.base64)
    }
}

/// The documents `docs`, with a comma between each two.
pub open spec fn comma_separated(docs: Seq<Seq<char>>) -> Seq<char>
    decreases docs.len(),
{
    if docs.len() == 0 {
        Seq::empty()
    } else if docs.len() == 1 {
        docs[0]
    } else {
        comma_separated(docs.drop_last()) + ","@ + docs.last()
    }
}

/// The JSON documents `docs` as one text: an opening bracket, the documents
/// with commas between them, two closing brackets and a line feed.
pub open spec fn framed(docs: Seq<Seq<char>>) -> Seq<char> {
    "["@ + comma_separated(docs) + "]]\n"@
}

/// Puts the JSON documents `docs` into one text.
pub fn frame_documents(docs: &Vec<String>) -> (text: String)
    ensures
        text@ == framed(Seq::new(docs.len() as nat, |i: int| docs[i]@)),
{
    let ghost all = Seq::new(docs.len() as nat, |i: int| docs[i]@);
    let mut out: Vec<char> = Vec::new();
    append_str(&mut out, "[");
    let ghost head = out@;
    let mut i: usize = 0;
    assert(all.take(0) =~= Seq::<Seq<char>>::empty());
    assert(head + Seq::<char>::empty() =~= head);
    while i < docs.len()
        invariant
            i <= docs.len(),
            all == Seq::new(docs.len() as nat, |i: int| docs[i]@),
            out@ == head + comma_separated(all.take(i as int)),
        decreases docs.len() - i,
    {
        proof {
            assert(all.take(i as int + 1).drop_last() =~= all.take(i as int));
            assert(all.take(i as int + 1).last() == docs[i as int]@);
            if i == 0 {
                assert(all.take(1)[0] == docs[0]@);
            }
        }
        let ghost before = out@;
        if i > 0 {
            append_str(&mut out, ",");
        }
        append_str(&mut out, docs[i].as_str());
        proof {
            if i > 0 {
                assert(out@ =~= head + (comma_separated(all.take(i as int)) + ","@
                    + docs[i as int]@));
            } else {
                assert(out@ =~= head + docs[0]@);
            }
        }
        i += 1;
    }
    assert(all.take(docs.len() as int) =~= all);
    append_str(&mut out, "]]\n");
    assert(out@ =~= "["@ + comma_separated(all) + "]]\n"@) by {
        assert(head =~= "["@);
    }
    to_text(out.as_slice())
}

} // verus!
