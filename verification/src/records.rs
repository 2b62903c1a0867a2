//! What is known of each asset of a package, collected file by file.

use vstd::prelude::*;
use vstd::utf8::{decode_utf8, valid_utf8};
use crate::asset::{asset_result, asset_yaml_cleanup};
use crate::entry::{decode, PackageEntry};
use crate::error::PackageError;
use crate::meta::{asset_meta_yaml_cleanup, meta_result};
use crate::signature::{has_signature, yaml_matcher, yaml_signature};
use crate::sniff::{content_type_of, sniff_content};
use crate::text::{ends_with_str, first_line, first_line_of, text_of, to_chars, to_text};

verus! {

/// What is known of one asset.
pub struct Record {
    /// The identifier of the asset.
    pub guid: String,
    /// The path of the asset in its project: the first line of its
    /// `pathname` file.
    pub pathname: Option<String>,
    /// The type of content told from the first bytes of its `asset` file.
    pub content_type: Option<String>,
    /// The rewritten text of its `asset` file, where that is in the dialect.
    pub asset: Option<String>,
    /// The rewritten text of its `asset.meta` file.
    pub asset_meta: Option<String>,
}

/// What is known of one asset, as mathematical values.
pub struct RecordModel {
    /// The identifier of the asset.
    pub guid: Seq<char>,
    /// The path of the asset in its project.
    pub pathname: Option<Seq<char>>,
    /// The type of content of its `asset` file.
    pub content_type: Option<Seq<char>>,
    /// The rewritten text of its `asset` file.
    pub asset: Option<Seq<char>>,
    /// The rewritten text of its `asset.meta` file.
    pub asset_meta: Option<Seq<char>>,
}

impl View for Record {
    type V = RecordModel;

    open spec fn view(&self) -> RecordModel {
        RecordModel {
            guid: self.guid@,
            pathname: text_of(self.pathname),
            content_type: text_of(self.content_type),
            asset: text_of(self.asset),
            asset_meta: text_of(self.asset_meta),
        }
    }
}

/// The record of an asset of which nothing is known but its identifier.
pub open spec fn blank(guid: Seq<char>) -> RecordModel {
    RecordModel { guid, pathname: None, content_type: None, asset: None, asset_meta: None }
}

/// `rec` after its `pathname` file: it has the first line of the file as its
/// path. Fails with `Io` where the file is not valid UTF-8.
pub open spec fn after_pathname(rec: RecordModel, content: Seq<u8>) -> Result<
    RecordModel,
    PackageError,
> {
    if valid_utf8(content) {
        Ok(RecordModel { pathname: Some(first_line(decode_utf8(content))), ..rec })
    } else {
        Err(PackageError::Io)
    }
}

/// `rec` after its `asset.meta` file: it has the rewritten text of the file.
/// Fails with `Io` where the file is not valid UTF-8, and as the rewrite fails.
pub open spec fn after_meta(rec: RecordModel, content: Seq<u8>) -> Result<
    RecordModel,
    PackageError,
> {
    if valid_utf8(content) {
        match meta_result(decode_utf8(content)) {
            Ok(text) => Ok(RecordModel { asset_meta: Some(text), ..rec }),
            Err(e) => Err(e),
        }
    } else {
        Err(PackageError::Io)
    }
}

/// `rec` with the type of content that the first bytes `content` tell, where
/// they tell one.
pub open spec fn with_content_type(rec: RecordModel, content: Seq<u8>) -> RecordModel {
    match content_type_of(content, "text/yaml"@, "data/fbx"@) {
        Some(mime) => RecordModel { content_type: Some(mime), ..rec },
        None => rec,
    }
}

/// `rec` after its `asset` file: it has the type of content of the file and,
/// where the file begins with `%YAML`, its rewritten text. Such a file fails
/// with `Io` where it is not valid UTF-8, and as the rewrite fails.
pub open spec fn after_asset(rec: RecordModel, content: Seq<u8>) -> Result<
    RecordModel,
    PackageError,
> {
    let typed = with_content_type(rec, content);
    if !has_signature(content, yaml_signature()) {
        Ok(typed)
    } else if valid_utf8(content) {
        match asset_result(decode_utf8(content)) {
            Ok(text) => Ok(RecordModel { asset: Some(text), ..typed }),
            Err(e) => Err(e),
        }
    } else {
        Err(PackageError::Io)
    }
}

/// Whether a file at `path` is read when the assets are collected: whether
/// it is the `pathname`, the `asset.meta` or the `asset` file of its asset.
pub open spec fn is_read(path: Seq<char>) -> bool {
    "/pathname"@.is_suffix_of(path) || "/asset.meta"@.is_suffix_of(path) || "/asset"@.is_suffix_of(
        path,
    )
}

/// `rec` after the file at `path` that holds `content`.
pub open spec fn after_file(rec: RecordModel, path: Seq<char>, content: Seq<u8>) -> Result<
    RecordModel,
    PackageError,
> {
    if "/pathname"@.is_suffix_of(path) {
        after_pathname(rec, content)
    } else if "/asset.meta"@.is_suffix_of(path) {
        after_meta(rec, content)
    } else if "/asset"@.is_suffix_of(path) {
        after_asset(rec, content)
    } else {
        Ok(rec)
    }
}

/// Whether `r` is the record or the error that `model` asks for.
pub open spec fn is_record(r: Result<Record, PackageError>, model: Result<
    RecordModel,
    PackageError,
>) -> bool {
    match model {
        Ok(m) => r matches Ok(rec) && rec@ == m,
        Err(e) => r == Err::<Record, PackageError>(e),
    }
}

fn copy_text(s: &Option<String>) -> (c: Option<String>)
    ensures
        text_of(c) == text_of(*s),
{
    match s {
        Some(t) => Some(t.clone()),
        None => None,
    }
}

impl Record {
    /// The record of an asset of which nothing is known but its identifier.
    pub fn new(guid: String) -> (rec: Record)
        ensures
            rec@ == blank(guid@),
    {
        Record { guid, pathname: None, content_type: None, asset: None, asset_meta: None }
    }

    /// A copy of the record.
    pub fn copy(&self) -> (rec: Record)
        ensures
            rec@ == self@,
    {
        Record {
            guid: self.guid.clone(),
            pathname: copy_text(&self.pathname),
            content_type: copy_text(&self.content_type),
            asset: copy_text(&self.asset),
            asset_meta: copy_text(&self.asset_meta),
        }
    }

    /// The record after its `pathname` file.
    pub fn read_pathname(self, content: &[u8]) -> (r: Result<Record, PackageError>)
        ensures
            is_record(r, after_pathname(self@, content@)),
    {
        match decode(content) {
            Some(text) => {
                let chars = to_chars(text);
                let line = first_line_of(chars.as_slice());
                Ok(Record { pathname: Some(to_text(line.as_slice())), ..self })
            },
            None => Err(PackageError::Io),
        }
    }

    /// The record after its `asset.meta` file.
    pub fn read_meta(self, content: &[u8]) -> (r: Result<Record, PackageError>)
        ensures
            is_record(r, after_meta(self@, content@)),
    {
        match decode(content) {
            Some(text) => match asset_meta_yaml_cleanup(text) {
                Ok(clean) => Ok(Record { asset_meta: Some(clean), ..self }),
                Err(e) => Err(e),
            },
            None => Err(PackageError::Io),
        }
    }

    /// The record after its `asset` file.
    pub fn read_asset(self, content: &[u8]) -> (r: Result<Record, PackageError>)
        ensures
            is_record(r, after_asset(self@, content@)),
    {
        let typed = match sniff_content(content, ("text/yaml", "yaml"), ("data/fbx", "fbx")) {
            Some(mime) => Record { content_type: Some(mime), ..self },
            None => self,
        };
        if !yaml_matcher(content) {
            return Ok(typed);
        }
        match decode(content) {
            Some(text) => match asset_yaml_cleanup(text) {
                Ok(clean) => Ok(Record { asset: Some(clean), ..typed }),
                Err(e) => Err(e),
            },
            None => Err(PackageError::Io),
        }
    }

    /// The record after the file at `path` that holds `content`.
    pub fn read_file(self, path: &str, content: &[u8]) -> (r: Result<Record, PackageError>)
        ensures
            is_record(r, after_file(self@, path@, content@)),
    {
        let p = to_chars(path);
        if ends_with_str(p.as_slice(), "/pathname") {
            self.read_pathname(content)
        } else if ends_with_str(p.as_slice(), "/asset.meta") {
            self.read_meta(content)
        } else if ends_with_str(p.as_slice(), "/asset") {
            self.read_asset(content)
        } else {
            Ok(self)
        }
    }
}

/// Whether the content of a file at `path` is read when the assets are
/// collected.
pub fn reads_content(path: &str) -> (yes: bool)
    ensures
        yes == is_read(path@),
{
    let p = to_chars(path);
    ends_with_str(p.as_slice(), "/pathname") || ends_with_str(p.as_slice(), "/asset.meta")
        || ends_with_str(p.as_slice(), "/asset")
}

/// The place of the first record of `guid` in `rs`, or the length of `rs`
/// where it has none.
pub open spec fn slot_of(rs: Seq<RecordModel>, guid: Seq<char>) -> int
    decreases rs.len(),
{
    if rs.len() == 0 || rs[0].guid == guid {
        0
    } else {
        1 + slot_of(rs.skip(1), guid)
    }
}

/// `slot_of` returns a place in `rs` or its end, with no record of `guid`
/// before it and one at it unless it is the end.
pub proof fn lemma_slot(rs: Seq<RecordModel>, guid: Seq<char>)
    ensures
        0 <= slot_of(rs, guid) <= rs.len(),
        slot_of(rs, guid) < rs.len() ==> rs[slot_of(rs, guid)].guid == guid,
        forall|k: int| 0 <= k < slot_of(rs, guid) ==> rs[k].guid != guid,
    decreases rs.len(),
{
    if rs.len() == 0 || rs[0].guid == guid {
    } else {
        lemma_slot(rs.skip(1), guid);
        assert forall|k: int| 0 <= k < slot_of(rs, guid) implies rs[k].guid != guid by {
            if k > 0 {
                assert(rs.skip(1)[k - 1] == rs[k]);
            }
        }
    }
}

/// A place before which `rs` has no record of `guid`, and which is the end
/// or holds one, is the one that `slot_of` returns.
pub proof fn lemma_slot_is(rs: Seq<RecordModel>, guid: Seq<char>, i: int)
    requires
        0 <= i <= rs.len(),
        i < rs.len() ==> rs[i].guid == guid,
        forall|k: int| 0 <= k < i ==> rs[k].guid != guid,
    ensures
        slot_of(rs, guid) == i,
    decreases rs.len(),
{
    if rs.len() == 0 || rs[0].guid == guid {
        if i > 0 {
            assert(rs[0].guid != guid);
        }
    } else {
        let t = rs.skip(1);
        assert forall|k: int| 0 <= k < i - 1 implies t[k].guid != guid by {
            assert(t[k] == rs[k + 1]);
        }
        lemma_slot_is(t, guid, i - 1);
    }
}

/// Whether no two records of `rs` have the same identifier.
pub open spec fn distinct_guids(rs: Seq<RecordModel>) -> bool {
    forall|i: int, j: int| 0 <= i < j < rs.len() ==> rs[i].guid != rs[j].guid
}

/// `rs` with a record for `guid`: itself where it has one, and with a blank
/// one at its end where it has none.
pub open spec fn with_slot(rs: Seq<RecordModel>, guid: Seq<char>) -> Seq<RecordModel> {
    if slot_of(rs, guid) < rs.len() {
        rs
    } else {
        rs.push(blank(guid))
    }
}

/// The records `rs` after the file `entry`. A file that belongs to no asset
/// changes nothing. Any other file gives its asset a record, where it has
/// none yet, and that record takes from the file what `after_file` says.
pub open spec fn absorbed(rs: Seq<RecordModel>, entry: PackageEntry) -> Result<
    Seq<RecordModel>,
    PackageError,
> {
    if !entry.in_bucket() {
        Ok(rs)
    } else {
        let at = slot_of(rs, entry.bucket());
        let all = with_slot(rs, entry.bucket());
        match after_file(all[at], entry.relative_path(), entry.file().content@) {
            Ok(rec) => Ok(all.update(at, rec)),
            Err(e) => Err(e),
        }
    }
}

/// The records of the assets of a package, in the order in which the assets
/// were first met. No two of them have the same identifier.
pub struct Records {
    items: Vec<Record>,
}

impl View for Records {
    type V = Seq<RecordModel>;

    closed spec fn view(&self) -> Seq<RecordModel> {
        Seq::new(self.items.len() as nat, |i: int| self.items[i]@)
    }
}

impl Records {
    /// Whether no two records have the same identifier.
    pub open spec fn wf(&self) -> bool {
        distinct_guids(self@)
    }

    /// No records.
    pub fn new() -> (rs: Records)
        ensures
            rs@ == Seq::<RecordModel>::empty(),
            rs.wf(),
    {
        let rs = Records { items: Vec::new() };
        assert(rs@ =~= Seq::<RecordModel>::empty());
        rs
    }

    /// The number of records.
    pub fn len(&self) -> (n: usize)
        ensures
            n == self@.len(),
    {
        self.items.len()
    }

    /// The `i`-th record.
    pub fn get(&self, i: usize) -> (rec: &Record)
        requires
            i < self@.len(),
        ensures
            rec@ == self@[i as int],
    {
        &self.items[i]
    }

    /// The place of the record of `guid`, or the number of records where
    /// there is none.
    pub fn find(&self, guid: &str) -> (at: usize)
        ensures
            at == slot_of(self@, guid@),
            at <= self@.len(),
    {
        let wanted = guid.to_owned();
        let mut i: usize = 0;
        while i < self.items.len()
            invariant
                i <= self.items.len(),
                wanted@ == guid@,
                forall|k: int| 0 <= k < i ==> self@[k].guid != guid@,
            decreases self.items.len() - i,
        {
            if self.items[i].guid == wanted {
                proof {
                    lemma_slot_is(self@, guid@, i as int);
                }
                return i;
            }
            i += 1;
        }
        proof {
            lemma_slot_is(self@, guid@, i as int);
        }
        i
    }

    /// Takes in the file `entry`. Where that fails, the records stay as they
    /// were.
    pub fn absorb(&mut self, entry: &PackageEntry) -> (r: Result<(), PackageError>)
        requires
            old(self).wf(),
        ensures
            final(self).wf(),
            match absorbed(old(self)@, *entry) {
                Ok(rs) => r is Ok && final(self)@ == rs,
                Err(e) => r == Err::<(), PackageError>(e) && final(self)@ == old(self)@,
            },
    {
        if !entry.is_asset_file() {
            return Ok(());
        }
        let guid = entry.guid();
        let path = entry.path_text();
        let content = entry.content();
        let at = self.find(guid.as_str());
        let ghost before = self@;
        let ghost all = with_slot(before, guid@);
        proof {
            lemma_slot(before, guid@);
        }
        let current = if at < self.items.len() {
            self.items[at].copy()
        } else {
            Record::new(guid)
        };
        assert(current@ == all[at as int]);
        match current.read_file(path.as_str(), content.as_slice()) {
            Ok(rec) => {
                assert(rec@.guid == entry.bucket());
                if at < self.items.len() {
                    self.items.set(at, rec);
                } else {
                    self.items.push(rec);
                }
                proof {
                    assert(self@ =~= all.update(at as int, rec@));
                    assert forall|i: int, j: int| 0 <= i < j < self@.len() implies self@[i].guid
                        != self@[j].guid by {
                        if i < before.len() {
                            assert(self@[i].guid == before[i].guid);
                        }
                        if j < before.len() {
                            assert(self@[j].guid == before[j].guid);
                        }
                    }
                }
                Ok(())
            },
            Err(e) => Err(e),
        }
    }

    /// The records, in the order in which the assets were first met.
    pub fn into_vec(self) -> (items: Vec<Record>)
        ensures
            items.len() == self@.len(),
            forall|i: int| 0 <= i < items.len() ==> items[i]@ == self@[i],
    {
        self.items
    }
}

/// A file whose identifier has fewer than 32 characters belongs to no asset:
/// it changes no record.
pub proof fn lemma_short_guid_is_skipped(rs: Seq<RecordModel>, entry: PackageEntry)
    requires
        entry.bucket().len() < 32,
    ensures
        absorbed(rs, entry) == Ok::<Seq<RecordModel>, PackageError>(rs),
{
}

/// Files with the same path below the root and the same content are taken
/// in alike, whatever the kind of their package.
pub proof fn lemma_kind_does_not_matter(rs: Seq<RecordModel>, a: PackageEntry, b: PackageEntry)
    requires
        a.relative_path() == b.relative_path(),
        a.file().content@ == b.file().content@,
    ensures
        absorbed(rs, a) == absorbed(rs, b),
{
}

/// The three files of an asset have names of which none ends with another,
/// so a path ends with at most one of them.
pub proof fn lemma_names_exclude_each_other(path: Seq<char>)
    ensures
        "/pathname"@.is_suffix_of(path) ==> !"/asset.meta"@.is_suffix_of(path) && !"/asset"@.is_suffix_of(
            path,
        ),
        "/asset.meta"@.is_suffix_of(path) ==> !"/asset"@.is_suffix_of(path),
{
    reveal_strlit("/pathname");
    reveal_strlit("/asset.meta");
    reveal_strlit("/asset");
    let n = path.len() as int;
    if "/pathname"@.is_suffix_of(path) {
        assert(path.subrange(n - 9, n)[8] == 'e');
        if "/asset.meta"@.is_suffix_of(path) {
            assert(path.subrange(n - 11, n)[10] == 'a');
        }
        if "/asset"@.is_suffix_of(path) {
            assert(path.subrange(n - 6, n)[5] == 't');
        }
    }
    if "/asset.meta"@.is_suffix_of(path) {
        assert(path.subrange(n - 11, n)[10] == 'a');
        if "/asset"@.is_suffix_of(path) {
            assert(path.subrange(n - 6, n)[5] == 't');
        }
    }
}

/// A file that is not read is taken in without regard to what it holds.
pub proof fn lemma_unread_content(rec: RecordModel, path: Seq<char>, a: Seq<u8>, b: Seq<u8>)
    requires
        !is_read(path),
    ensures
        after_file(rec, path, a) == Ok::<RecordModel, PackageError>(rec),
        after_file(rec, path, a) == after_file(rec, path, b),
{
}

} // verus!
