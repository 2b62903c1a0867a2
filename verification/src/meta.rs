//! The rewrite of a meta body: the importer block becomes a `type` and a
//! `content` key, and the common header fields are collected and written
//! once, after the last line.

use vstd::prelude::*;
use crate::asset::{file_id_pattern, quoted_ids};
use crate::decimal::{digits_of, parse_u64, parsed, push_digits};
use crate::error::PackageError;
use crate::pattern::{compile, compiles, rewrite, source_of};
use crate::space::{trim, trimmed};
use crate::text::{
    append, append_str, ends_with_str, find, find_from, lines_of, remove_char, slice_of,
    split_lines, starts_with_str, text_result, texts, to_chars, to_text, without,
};

verus! {

/// The kinds of line in a meta body.
#[derive(Debug, Clone, Copy, PartialEq, Eq, Structural)]
pub enum MetaLine {
    /// An item of the list of labels.
    Label,
    /// The version of the file format.
    Version,
    /// The identifier of the asset.
    Guid,
    /// The time of creation.
    TimeCreated,
    /// The type of licence.
    LicenseType,
    /// Whether the asset is a folder.
    FolderAsset,
    /// Opens the list of labels.
    Labels,
    /// The type tag of the importer: any other line at the left margin.
    Tag,
    /// An indented line.
    Field,
}

/// The kind of `line`, where `capturing` says that the list of labels is open.
pub open spec fn meta_line_kind(capturing: bool, line: Seq<char>) -> MetaLine {
    if capturing && "-"@.is_prefix_of(line) {
        MetaLine::Label
    } else if "fileFormatVersion:"@.is_prefix_of(line) {
        MetaLine::Version
    } else if "guid:"@.is_prefix_of(line) {
        MetaLine::Guid
    } else if "timeCreated:"@.is_prefix_of(line) {
        MetaLine::TimeCreated
    } else if "licenseType:"@.is_prefix_of(line) {
        MetaLine::LicenseType
    } else if "folderAsset:"@.is_prefix_of(line) {
        MetaLine::FolderAsset
    } else if "labels:"@.is_prefix_of(line) {
        MetaLine::Labels
    } else if !" "@.is_prefix_of(line) {
        MetaLine::Tag
    } else {
        MetaLine::Field
    }
}

/// Tells the kind of `line`.
pub fn classify_meta_line(capturing: bool, line: &[char]) -> (kind: MetaLine)
    ensures
        kind == meta_line_kind(capturing, line@),
{
    if capturing && starts_with_str(line, "-") {
        MetaLine::Label
    } else if starts_with_str(line, "fileFormatVersion:") {
        MetaLine::Version
    } else if starts_with_str(line, "guid:") {
        MetaLine::Guid
    } else if starts_with_str(line, "timeCreated:") {
        MetaLine::TimeCreated
    } else if starts_with_str(line, "licenseType:") {
        MetaLine::LicenseType
    } else if starts_with_str(line, "folderAsset:") {
        MetaLine::FolderAsset
    } else if starts_with_str(line, "labels:") {
        MetaLine::Labels
    } else if !starts_with_str(line, " ") {
        MetaLine::Tag
    } else {
        MetaLine::Field
    }
}

/// The value of the field `line`: what stands between its first colon and
/// its second (or its end), without the white space around it. Empty where
/// `line` has no colon.
pub open spec fn field_value(line: Seq<char>) -> Seq<char> {
    let colon = find(line, ':');
    if 0 <= colon < line.len() {
        let rest = line.skip(colon + 1);
        trimmed(rest.take(find(rest, ':')))
    } else {
        Seq::empty()
    }
}

/// Reads the value of the field `line`.
pub fn read_field_value(line: &[char]) -> (value: Vec<char>)
    ensures
        value@ == field_value(line@),
{
    assert(line@.skip(0) =~= line@);
    let colon = find_from(line, 0, ':');
    if colon < line.len() {
        let end = find_from(line, colon + 1, ':');
        let piece = slice_of(line, colon + 1, end);
        proof {
            let rest = line@.skip(colon as int + 1);
            assert(piece@ =~= rest.take(find(rest, ':')));
        }
        trim(piece.as_slice())
    } else {
        Vec::new()
    }
}

/// What the rewrite has collected, as mathematical values.
pub struct MetaModel {
    /// The version of the file format; 2 until a line says otherwise.
    pub version: nat,
    /// The identifier of the asset.
    pub guid: Seq<char>,
    /// Whether the asset is a folder.
    pub folder: bool,
    /// The time of creation.
    pub time_created: Seq<char>,
    /// The type of licence.
    pub license_type: Seq<char>,
    /// Whether the list of labels is open.
    pub capturing: bool,
    /// The labels read so far, each as its line stood, trimmed.
    pub labels: Seq<Seq<char>>,
}

/// What the rewrite has collected.
pub struct MetaState {
    /// The version of the file format; 2 until a line says otherwise.
    pub version: u64,
    /// The identifier of the asset.
    pub guid: Vec<char>,
    /// Whether the asset is a folder.
    pub folder: bool,
    /// The time of creation.
    pub time_created: Vec<char>,
    /// The type of licence.
    pub license_type: Vec<char>,
    /// Whether the list of labels is open.
    pub capturing: bool,
    /// The labels read so far, each as its line stood, trimmed.
    pub labels: Vec<Vec<char>>,
}

impl View for MetaState {
    type V = MetaModel;

    open spec fn view(&self) -> MetaModel {
        MetaModel {
            version: self.version as nat,
            guid: self.guid@,
            folder: self.folder,
            time_created: self.time_created@,
            license_type: self.license_type@,
            capturing: self.capturing,
            labels: texts(self.labels@),
        }
    }
}

/// The state before the first line.
pub open spec fn meta_start() -> MetaModel {
    MetaModel {
        version: 2,
        guid: Seq::empty(),
        folder: false,
        time_created: Seq::empty(),
        license_type: Seq::empty(),
        capturing: false,
        labels: Seq::empty(),
    }
}

impl MetaState {
    /// The state before the first line.
    pub fn new() -> (st: MetaState)
        ensures
            st@ == meta_start(),
    {
        let st = MetaState {
            version: 2,
            guid: Vec::new(),
            folder: false,
            time_created: Vec::new(),
            license_type: Vec::new(),
            capturing: false,
            labels: Vec::new(),
        };
        assert(texts(st.labels@) =~= Seq::<Seq<char>>::empty());
        st
    }
}

/// The two lines that stand in place of the type tag `line`: the tag without
/// its colons as the type, and the key under which the indented lines that
/// follow belong.
pub open spec fn importer_head(line: Seq<char>) -> Seq<char> {
    "type: "@ + without(line, ':') + "\ncontent:\n"@
}

/// The state after `line`, and the text that `line` becomes; nothing where
/// `line` gives a version of the file format that is no number of 64 bits.
///
/// An item of the open list of labels is collected. Any other line closes the
/// list before it is looked at: a header field is collected and leaves no
/// text, the type tag becomes two keys, and in an indented line the first
/// reference to a file id is quoted.
pub open spec fn meta_step(m: MetaModel, line: Seq<char>) -> Option<(MetaModel, Seq<char>)> {
    let closed = MetaModel { capturing: false, ..m };
    match meta_line_kind(m.capturing, line) {
        MetaLine::Label => Some(
            (MetaModel { labels: m.labels.push(trimmed(line)), ..m }, Seq::empty()),
        ),
        MetaLine::Version => match parsed(field_value(line), 0, u64::MAX as int) {
            Some(version) => Some(
                (MetaModel { version: version as nat, ..closed }, Seq::empty()),
            ),
            None => None,
        },
        MetaLine::Guid => Some((MetaModel { guid: field_value(line), ..closed }, Seq::empty())),
        MetaLine::TimeCreated => Some(
            (MetaModel { time_created: field_value(line), ..closed }, Seq::empty()),
        ),
        MetaLine::LicenseType => Some(
            (MetaModel { license_type: field_value(line), ..closed }, Seq::empty()),
        ),
        MetaLine::FolderAsset => Some(
            (MetaModel { folder: "yes"@.is_suffix_of(line), ..closed }, Seq::empty()),
        ),
        MetaLine::Labels => Some((MetaModel { capturing: true, ..closed }, Seq::empty())),
        MetaLine::Tag => Some((closed, importer_head(line))),
        MetaLine::Field => Some((closed, quoted_ids(line) + "\n"@)),
    }
}

/// A line that does not begin with a dash closes the list of labels before
/// it is looked at: it is rewritten as if the list had not been open, and
/// leaves the list closed unless it opens it itself.
pub proof fn lemma_other_line_closes_labels(m: MetaModel, line: Seq<char>)
    requires
        m.capturing,
        !"-"@.is_prefix_of(line),
    ensures
        meta_step(m, line) == meta_step(MetaModel { capturing: false, ..m }, line),
        meta_step(m, line) matches Some((next, _)) ==> next.labels == m.labels && next.capturing
            == (meta_line_kind(false, line) == MetaLine::Labels),
{
}

/// After the line `open` that opens the list of labels, two lines `a` and
/// `b` that begin with a dash, and a line `c` that does not, the labels are
/// those that were there before, then `a` and `b` without the white space
/// around them; and `c` is rewritten with the list closed.
pub proof fn lemma_labels_are_captured(
    m: MetaModel,
    open: Seq<char>,
    a: Seq<char>,
    b: Seq<char>,
    c: Seq<char>,
)
    requires
        meta_line_kind(m.capturing, open) == MetaLine::Labels,
        "-"@.is_prefix_of(a),
        "-"@.is_prefix_of(b),
        !"-"@.is_prefix_of(c),
        meta_line_kind(false, c) != MetaLine::Labels,
    ensures
        ({
            let opened = MetaModel { capturing: true, ..m };
            let first = MetaModel { labels: m.labels.push(trimmed(a)), ..opened };
            let second = MetaModel { labels: first.labels.push(trimmed(b)), ..first };
            &&& meta_step(m, open) == Some((opened, Seq::<char>::empty()))
            &&& meta_step(opened, a) == Some((first, Seq::<char>::empty()))
            &&& meta_step(first, b) == Some((second, Seq::<char>::empty()))
            &&& meta_step(second, c) == meta_step(MetaModel { capturing: false, ..second }, c)
            &&& meta_step(second, c) matches Some((last, _)) ==> !last.capturing && last.labels
                == m.labels.push(trimmed(a)).push(trimmed(b))
        }),
{
}

/// Rewrites one line: updates `st` and appends to `out` the text that `line`
/// becomes. Returns false, and leaves both as they were, where `line` gives
/// a version of the file format that is no number of 64 bits.
pub(crate) fn meta_line(
    st: &mut MetaState,
    out: &mut Vec<char>,
    line: &[char],
    ids: &regex::Regex,
) -> (ok: bool)
    requires
        source_of(*ids) == file_id_pattern(),
    ensures
        match meta_step(old(st)@, line@) {
            Some((m, piece)) => ok && final(st)@ == m && final(out)@ == old(out)@ + piece,
            None => !ok && *final(st) == *old(st) && *final(out) == *old(out),
        },
{
    let kind = classify_meta_line(st.capturing, line);
    proof {
        assert(out@ + Seq::<char>::empty() =~= out@);
    }
    match kind {
        MetaLine::Label => {
            let label = trim(line);
            let ghost before = texts(st.labels@);
            st.labels.push(label);
            assert(texts(st.labels@) =~= before.push(trimmed(line@)));
            true
        },
        MetaLine::Version => {
            let value = read_field_value(line);
            match parse_u64(value.as_slice()) {
                Some(version) => {
                    st.version = version;
                    st.capturing = false;
                    true
                },
                None => false,
            }
        },
        MetaLine::Guid => {
            st.guid = read_field_value(line);
            st.capturing = false;
            true
        },
        MetaLine::TimeCreated => {
            st.time_created = read_field_value(line);
            st.capturing = false;
            true
        },
        MetaLine::LicenseType => {
            st.license_type = read_field_value(line);
            st.capturing = false;
            true
        },
        MetaLine::FolderAsset => {
            st.folder = ends_with_str(line, "yes");
            st.capturing = false;
            true
        },
        MetaLine::Labels => {
            st.capturing = true;
            true
        },
        MetaLine::Tag => {
            st.capturing = false;
            append_str(out, "type: ");
            let tag = remove_char(line, ':');
            append(out, tag.as_slice());
            append_str(out, "\ncontent:\n");
            assert(final(out)@ =~= old(out)@ + importer_head(line@));
            true
        },
        MetaLine::Field => {
            st.capturing = false;
            let quote = to_chars("fileID: \"$1\"");
            let quoted = rewrite(ids, line, quote.as_slice());
            append(out, quoted.as_slice());
            append_str(out, "\n");
            assert(final(out)@ =~= old(out)@ + (quoted_ids(line@) + "\n"@));
            true
        },
    }
}

/// The state after the lines `lines`, and the text that they become; nothing
/// where one of them gives a version that is no number.
pub open spec fn meta_run(lines: Seq<Seq<char>>) -> Option<(MetaModel, Seq<char>)>
    decreases lines.len(),
{
    if lines.len() == 0 {
        Some((meta_start(), Seq::empty()))
    } else {
        match meta_run(lines.drop_last()) {
            None => None,
            Some((m, out)) => match meta_step(m, lines.last()) {
                None => None,
                Some((next, piece)) => Some((next, out + piece)),
            },
        }
    }
}

/// Lines that fail after their first `n` fail as a whole.
pub proof fn lemma_meta_run_fails(lines: Seq<Seq<char>>, n: int)
    requires
        0 <= n <= lines.len(),
        meta_run(lines.take(n)) is None,
    ensures
        meta_run(lines) is None,
    decreases lines.len() - n,
{
    if n == lines.len() {
        assert(lines.take(n) =~= lines);
    } else {
        assert(lines.take(n + 1).drop_last() =~= lines.take(n));
        lemma_meta_run_fails(lines, n + 1);
    }
}

/// The labels `labels`, each followed by a line feed.
pub open spec fn label_lines(labels: Seq<Seq<char>>) -> Seq<char>
    decreases labels.len(),
{
    if labels.len() == 0 {
        Seq::empty()
    } else {
        label_lines(labels.drop_last()) + labels.last() + "\n"@
    }
}

/// The header fields, as they are written after the last line: the version
/// of the file format, the identifier, the folder flag where it is set, and
/// the labels where there are any.
pub open spec fn meta_trailer(m: MetaModel) -> Seq<char> {
    "fileFormatVersion: "@ + digits_of(m.version) + "\nguid: "@ + m.guid + "\n"@ + (if m.folder {
        "folderAsset: true\n\n"@
    } else {
        Seq::empty()
    }) + (if m.labels.len() > 0 {
        "labels:\n"@ + label_lines(m.labels)
    } else {
        Seq::empty()
    })
}

/// Appends the header fields to `out`.
pub fn push_meta_trailer(out: &mut Vec<char>, st: &MetaState)
    ensures
        final(out)@ == old(out)@ + meta_trailer(st@),
{
    append_str(out, "fileFormatVersion: ");
    push_digits(out, st.version);
    append_str(out, "\nguid: ");
    append(out, st.guid.as_slice());
    append_str(out, "\n");
    if st.folder {
        append_str(out, "folderAsset: true\n\n");
    }
    let ghost head = out@;
    let ghost labels = texts(st.labels@);
    if st.labels.len() > 0 {
        append_str(out, "labels:\n");
        let ghost base = out@;
        let mut i: usize = 0;
        assert(labels.take(0) =~= Seq::<Seq<char>>::empty());
        assert(base + Seq::<char>::empty() =~= base);
        while i < st.labels.len()
            invariant
                i <= st.labels.len(),
                labels == texts(st.labels@),
                out@ == base + label_lines(labels.take(i as int)),
            decreases st.labels.len() - i,
        {
            proof {
                assert(labels.take(i as int + 1).drop_last() =~= labels.take(i as int));
                assert(labels.take(i as int + 1).last() == st.labels@[i as int]@);
            }
            let ghost so_far = out@;
            append(out, st.labels[i].as_slice());
            append_str(out, "\n");
            assert(out@ =~= base + (label_lines(labels.take(i as int)) + st.labels@[i as int]@
                + "\n"@));
            i += 1;
        }
        assert(labels.take(st.labels.len() as int) =~= labels);
        assert(out@ =~= head + ("labels:\n"@ + label_lines(labels)));
    } else {
        assert(out@ =~= head + Seq::<char>::empty());
    }
    proof {
        let folder = if st.folder {
            "folderAsset: true\n\n"@
        } else {
            Seq::empty()
        };
        let tail = if labels.len() > 0 {
            "labels:\n"@ + label_lines(labels)
        } else {
            Seq::empty()
        };
        assert(head =~= old(out)@ + ("fileFormatVersion: "@ + digits_of(st@.version) + "\nguid: "@
            + st@.guid + "\n"@ + folder));
        assert(final(out)@ =~= old(out)@ + ("fileFormatVersion: "@ + digits_of(st@.version)
            + "\nguid: "@ + st@.guid + "\n"@ + folder + tail));
    }
}

/// The text that the meta body `yaml` becomes; nothing where one of its
/// lines gives a version that is no number.
pub open spec fn meta_output(yaml: Seq<char>) -> Option<Seq<char>> {
    match meta_run(lines_of(yaml)) {
        Some((m, out)) => Some(out + meta_trailer(m)),
        None => None,
    }
}

/// What the rewrite of the meta body `yaml` gives: its text, or the reason
/// for which there is none.
pub open spec fn meta_result(yaml: Seq<char>) -> Result<Seq<char>, PackageError> {
    if !compiles(file_id_pattern()) {
        Err(PackageError::BadPattern)
    } else {
        match meta_output(yaml) {
            Some(text) => Ok(text),
            None => Err(PackageError::MalformedDialect),
        }
    }
}

/// Rewrites the meta body `yaml` into one mapping that a YAML reader accepts.
///
/// The header fields (`fileFormatVersion`, `guid`, `timeCreated`,
/// `licenseType`, `folderAsset`, `labels` and the items under it) leave the
/// text; the type tag of the importer becomes the keys `type` and `content`;
/// in each indented line the first reference to a file id is quoted. After
/// the last line come the version, the identifier, the folder flag where it
/// is set and the labels where there are any.
///
/// Fails with `MalformedDialect` where the version is no number, and with
/// `BadPattern` where the pattern engine refuses the pattern of a file id.
pub fn asset_meta_yaml_cleanup(yaml: &str) -> (r: Result<String, PackageError>)
    ensures
        text_result(r) == meta_result(yaml@),
{
    let ids = match compile("fileID: ([\\-0-9]+)") {
        Ok(re) => re,
        Err(_) => {
            return Err(PackageError::BadPattern);
        },
    };
    let text = to_chars(yaml);
    let lines = split_lines(text.as_slice());
    let ghost all = texts(lines@);
    let mut st = MetaState::new();
    let mut out: Vec<char> = Vec::new();
    let mut i: usize = 0;
    assert(all.take(0) =~= Seq::<Seq<char>>::empty());
    while i < lines.len()
        invariant
            i <= lines.len(),
            all == texts(lines@),
            all == lines_of(yaml@),
            compiles(file_id_pattern()),
            meta_run(all.take(i as int)) == Some((st@, out@)),
            source_of(ids) == file_id_pattern(),
        decreases lines.len() - i,
    {
        proof {
            assert(all.take(i as int + 1).drop_last() =~= all.take(i as int));
            assert(all.take(i as int + 1).last() == lines@[i as int]@);
        }
        let ghost before = meta_run(all.take(i as int));
        let ok = meta_line(&mut st, &mut out, lines[i].as_slice(), &ids);
        if !ok {
            proof {
                assert(before == Some((st@, out@)));
                assert(meta_step(st@, lines@[i as int]@) is None);
                assert(meta_run(all.take(i as int + 1)) is None);
                lemma_meta_run_fails(all, i as int + 1);
            }
            return Err(PackageError::MalformedDialect);
        }
        i += 1;
    }
    assert(all.take(lines.len() as int) =~= all);
    push_meta_trailer(&mut out, &st);
    Ok(to_text(out.as_slice()))
}

} // verus!
