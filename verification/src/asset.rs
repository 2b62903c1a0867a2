//! The rewrite of an asset body, line by line, into documents that a YAML
//! reader accepts.

use vstd::prelude::*;
use crate::decimal::{decimal, digits_of, parse_i32, parse_i64, parsed, push_decimal, push_digits};
use crate::error::PackageError;
use crate::pattern::{compile, compiles, replaced_first, rewrite, source_of};
use crate::space::{split_words, words};
use crate::text::{
    append, append_str, lines_of, remove_char, slice_of, split_lines, starts_with_str, texts,
    text_result, to_chars, to_text, without,
};

verus! {

/// The pattern of a reference to a file id: the key, then a run of digits
/// and minus signs, which is its first group.
pub open spec fn file_id_pattern() -> Seq<char> {
    "fileID: ([\\-0-9]+)"@
}

/// What replaces a reference to a file id: the same, its number in quotes.
pub open spec fn file_id_quoted() -> Seq<char> {
    "fileID: \"$1\""@
}

/// The pattern of the key of a name field.
pub open spec fn name_pattern() -> Seq<char> {
    "m_Name:"@
}

/// `line` with its first reference to a file id quoted, as the pattern engine
/// rewrites it.
pub open spec fn quoted_ids(line: Seq<char>) -> Seq<char> {
    replaced_first(file_id_pattern(), line, file_id_quoted())
}

/// The kinds of line in an asset body.
#[derive(Debug, Clone, Copy, PartialEq, Eq, Structural)]
pub enum AssetLine {
    /// Opens a document and announces its class id, file id and extra word.
    Header,
    /// A directive or an empty line.
    Dropped,
    /// The type tag of a document: a line at the left margin.
    Tag,
    /// A name field directly under the type tag.
    Name,
    /// Any other line.
    Field,
}

/// The kind of `line`.
pub open spec fn asset_line_kind(line: Seq<char>) -> AssetLine {
    if "--- !u!"@.is_prefix_of(line) {
        AssetLine::Header
    } else if "%"@.is_prefix_of(line) || line.len() == 0 {
        AssetLine::Dropped
    } else if !" "@.is_prefix_of(line) && !"'"@.is_prefix_of(line) {
        AssetLine::Tag
    } else if "  m_Name:"@.is_prefix_of(line) {
        AssetLine::Name
    } else {
        AssetLine::Field
    }
}

/// Tells the kind of `line`.
pub fn classify_asset_line(line: &[char]) -> (kind: AssetLine)
    ensures
        kind == asset_line_kind(line@),
{
    if starts_with_str(line, "--- !u!") {
        AssetLine::Header
    } else if starts_with_str(line, "%") || line.len() == 0 {
        AssetLine::Dropped
    } else if !starts_with_str(line, " ") && !starts_with_str(line, "'") {
        AssetLine::Tag
    } else if starts_with_str(line, "  m_Name:") {
        AssetLine::Name
    } else {
        AssetLine::Field
    }
}

/// What the rewrite remembers between lines, as mathematical values.
pub struct AssetModel {
    /// The class id of the last header.
    pub class_id: int,
    /// The file id of the last header.
    pub file_id: int,
    /// The extra word of the last header, if it had one.
    pub extra: Option<Seq<char>>,
    /// The number of name fields since the last header.
    pub names: nat,
}

/// What the rewrite remembers between lines.
pub struct AssetState {
    /// The class id of the last header.
    pub class_id: i32,
    /// The file id of the last header.
    pub file_id: i64,
    /// The extra word of the last header, if it had one.
    pub extra: Option<Vec<char>>,
    /// The number of name fields since the last header.
    pub names: usize,
}

impl View for AssetState {
    type V = AssetModel;

    open spec fn view(&self) -> AssetModel {
        AssetModel {
            class_id: self.class_id as int,
            file_id: self.file_id as int,
            extra: match self.extra {
                Some(word) => Some(word@),
                None => None,
            },
            names: self.names as nat,
        }
    }
}

/// The state before the first line.
pub open spec fn asset_start() -> AssetModel {
    AssetModel { class_id: 0, file_id: 0, extra: None, names: 0 }
}

impl AssetState {
    /// The state before the first line.
    pub fn new() -> (st: AssetState)
        ensures
            st@ == asset_start(),
    {
        AssetState { class_id: 0, file_id: 0, extra: None, names: 0 }
    }
}

/// The `n`-th of `w`, or the empty text where `w` is shorter.
pub open spec fn word_at(w: Seq<Seq<char>>, n: int) -> Seq<char> {
    if 0 <= n < w.len() {
        w[n]
    } else {
        Seq::empty()
    }
}

/// The state that the header `line` announces: the words after the mark are
/// the class id, the file id and the extra word. Nothing where the class id
/// is no number of 32 bits. The file id is read without its `&`, and is 0
/// where that is no number of 64 bits.
pub open spec fn header_of(line: Seq<char>) -> Option<AssetModel> {
    let w = words(line.skip("--- !u!"@.len() as int));
    match parsed(word_at(w, 0), i32::MIN as int, i32::MAX as int) {
        None => None,
        Some(class_id) => Some(
            AssetModel {
                class_id,
                file_id: match parsed(
                    without(word_at(w, 1), '&'),
                    i64::MIN as int,
                    i64::MAX as int,
                ) {
                    Some(id) => id,
                    None => 0,
                },
                extra: if w.len() > 2 {
                    Some(w[2])
                } else {
                    None
                },
                names: 0,
            },
        ),
    }
}

/// Reads the header `line`.
pub fn read_header(line: &[char]) -> (r: Option<AssetState>)
    requires
        "--- !u!"@.is_prefix_of(line@),
    ensures
        match header_of(line@) {
            Some(m) => r matches Some(st) && st@ == m,
            None => r is None,
        },
{
    let mark = to_chars("--- !u!");
    let rest = slice_of(line, mark.len(), line.len());
    assert(rest@ =~= line@.skip("--- !u!"@.len() as int));
    let w = split_words(rest.as_slice());
    let ghost ws = texts(w@);
    assert(ws == words(rest@));
    let empty: Vec<char> = Vec::new();
    assert(empty@ =~= Seq::<char>::empty());
    let class = if w.len() > 0 {
        assert(ws[0] == w@[0]@);
        parse_i32(w[0].as_slice())
    } else {
        parse_i32(empty.as_slice())
    };
    let class_id = match class {
        Some(c) => c,
        None => {
            return None;
        },
    };
    let bare = if w.len() > 1 {
        assert(ws[1] == w@[1]@);
        remove_char(w[1].as_slice(), '&')
    } else {
        remove_char(empty.as_slice(), '&')
    };
    let file_id = match parse_i64(bare.as_slice()) {
        Some(id) => id,
        None => 0,
    };
    let extra = if w.len() > 2 {
        assert(ws[2] == w@[2]@);
        let word = slice_of(w[2].as_slice(), 0, w[2].len());
        assert(word@ =~= w@[2]@);
        Some(word)
    } else {
        None
    };
    Some(AssetState { class_id, file_id, extra, names: 0 })
}

/// The lines that stand in place of the type tag `line` under the state `m`:
/// the class id, the file id in quotes, the extra word, the tag without its
/// colons as the type, and the key under which the fields that follow belong.
pub open spec fn document_head(m: AssetModel, line: Seq<char>) -> Seq<char> {
    "_class_id: "@ + decimal(m.class_id) + "\n_file_id: \""@ + decimal(m.file_id) + "\"\n_extra: "@
        + (match m.extra {
        Some(word) => word + "\n"@,
        None => Seq::empty(),
    }) + "\ntype: "@ + without(line, ':') + "\ncontent:\n"@
}

/// Appends to `out` what stands in place of the type tag `line`.
pub fn push_document_head(out: &mut Vec<char>, st: &AssetState, line: &[char])
    ensures
        final(out)@ == old(out)@ + document_head(st@, line@),
{
    append_str(out, "_class_id: ");
    push_decimal(out, st.class_id as i64);
    append_str(out, "\n_file_id: \"");
    push_decimal(out, st.file_id);
    append_str(out, "\"\n_extra: ");
    match &st.extra {
        Some(word) => {
            append(out, word.as_slice());
            append_str(out, "\n");
        },
        None => {},
    }
    append_str(out, "\ntype: ");
    let tag = remove_char(line, ':');
    append(out, tag.as_slice());
    append_str(out, "\ncontent:\n");
    proof {
        let extra = match st@.extra {
            Some(word) => word + "\n"@,
            None => Seq::empty(),
        };
        assert(final(out)@ =~= old(out)@ + ("_class_id: "@ + decimal(st@.class_id)
            + "\n_file_id: \""@ + decimal(st@.file_id) + "\"\n_extra: "@ + extra + "\ntype: "@
            + without(line@, ':') + "\ncontent:\n"@));
    }
}

/// What replaces the key of a name field after `seen` earlier ones in the
/// same document: the key with `seen` written behind the name.
pub open spec fn numbered_name(seen: nat) -> Seq<char> {
    "m_Name"@ + digits_of(seen) + ":"@
}

/// The text that the name field `line` becomes after `seen` earlier ones in
/// the same document: itself for the first, and with its key numbered, as
/// the pattern engine rewrites it, for the others.
pub open spec fn name_line(seen: nat, line: Seq<char>) -> Seq<char> {
    if seen == 0 {
        line
    } else {
        replaced_first(name_pattern(), line, numbered_name(seen))
    }
}

/// The state after `line`, and the text that `line` becomes; nothing where
/// `line` is a header without a class id.
pub open spec fn asset_step(m: AssetModel, line: Seq<char>) -> Option<(AssetModel, Seq<char>)> {
    match asset_line_kind(line) {
        AssetLine::Header => match header_of(line) {
            Some(next) => Some((next, "---\n"@)),
            None => None,
        },
        AssetLine::Dropped => Some((m, Seq::empty())),
        AssetLine::Tag => Some((m, document_head(m, line))),
        AssetLine::Name => Some(
            (AssetModel { names: m.names + 1, ..m }, name_line(m.names, line) + "\n"@),
        ),
        AssetLine::Field => Some((m, quoted_ids(line) + "\n"@)),
    }
}

/// The first name field of a document stays as it is. The second is handed
/// to the pattern engine with `m_Name1:` to stand for its key, and the one
/// after `n` others with the key that has `n` behind the name. Each of them
/// is counted, and changes nothing else of the state.
pub proof fn lemma_name_fields_are_numbered(m: AssetModel, line: Seq<char>)
    requires
        asset_line_kind(line) == AssetLine::Name,
    ensures
        asset_step(m, line) == Some(
            (AssetModel { names: m.names + 1, ..m }, name_line(m.names, line) + "\n"@),
        ),
        m.names == 0 ==> name_line(m.names, line) == line,
        m.names == 1 ==> name_line(m.names, line) == replaced_first(
            "m_Name:"@,
            line,
            "m_Name1:"@,
        ),
        m.names > 0 ==> name_line(m.names, line) == replaced_first(
            "m_Name:"@,
            line,
            "m_Name"@ + digits_of(m.names) + ":"@,
        ),
{
    if m.names == 1 {
        reveal_strlit("m_Name");
        reveal_strlit(":");
        reveal_strlit("m_Name1:");
        assert(digits_of(1) =~= seq!['1']);
        assert("m_Name"@ + digits_of(1) + ":"@ =~= "m_Name1:"@);
    }
}

/// A header that has a class id starts the count of name fields anew, and
/// becomes a document separator; one that has none stops the rewrite.
pub proof fn lemma_header_resets_names(m: AssetModel, line: Seq<char>)
    requires
        asset_line_kind(line) == AssetLine::Header,
    ensures
        match asset_step(m, line) {
            Some((next, piece)) => next.names == 0 && piece == "---\n"@ && header_of(line) == Some(
                next,
            ),
            None => header_of(line) is None,
        },
{
}

/// Rewrites one line: updates `st` and appends to `out` the text that `line`
/// becomes. Returns false, and leaves both as they were, where `line` is a
/// header without a class id.
pub(crate) fn asset_line(
    st: &mut AssetState,
    out: &mut Vec<char>,
    line: &[char],
    ids: &regex::Regex,
    names: &regex::Regex,
) -> (ok: bool)
    requires
        old(st).names < usize::MAX,
        source_of(*ids) == file_id_pattern(),
        source_of(*names) == name_pattern(),
    ensures
        match asset_step(old(st)@, line@) {
            Some((m, piece)) => ok && final(st)@ == m && final(out)@ == old(out)@ + piece,
            None => !ok && *final(st) == *old(st) && *final(out) == *old(out),
        },
{
    match classify_asset_line(line) {
        AssetLine::Header => {
            match read_header(line) {
                Some(next) => {
                    *st = next;
                    append_str(out, "---\n");
                    true
                },
                None => false,
            }
        },
        AssetLine::Dropped => {
            assert(out@ + Seq::<char>::empty() =~= out@);
            true
        },
        AssetLine::Tag => {
            push_document_head(out, st, line);
            true
        },
        AssetLine::Name => {
            if st.names == 0 {
                append(out, line);
            } else {
                let mut key: Vec<char> = Vec::new();
                append_str(&mut key, "m_Name");
                push_digits(&mut key, st.names as u64);
                append_str(&mut key, ":");
                assert(key@ =~= numbered_name(st.names as nat));
                let renamed = rewrite(names, line, key.as_slice());
                append(out, renamed.as_slice());
            }
            append_str(out, "\n");
            st.names = st.names + 1;
            assert(final(out)@ =~= old(out)@ + (name_line(old(st).names as nat, line@) + "\n"@));
            true
        },
        AssetLine::Field => {
            let quote = to_chars("fileID: \"$1\"");
            let quoted = rewrite(ids, line, quote.as_slice());
            append(out, quoted.as_slice());
            append_str(out, "\n");
            assert(final(out)@ =~= old(out)@ + (quoted_ids(line@) + "\n"@));
            true
        },
    }
}

/// The state after the lines `lines`, and the text that they become; nothing
/// where one of them is a header without a class id.
pub open spec fn asset_run(lines: Seq<Seq<char>>) -> Option<(AssetModel, Seq<char>)>
    decreases lines.len(),
{
    if lines.len() == 0 {
        Some((asset_start(), Seq::empty()))
    } else {
        match asset_run(lines.drop_last()) {
            None => None,
            Some((m, out)) => match asset_step(m, lines.last()) {
                None => None,
                Some((next, piece)) => Some((next, out + piece)),
            },
        }
    }
}

/// The text that the asset body `yaml` becomes; nothing where one of its
/// headers has no class id.
pub open spec fn asset_output(yaml: Seq<char>) -> Option<Seq<char>> {
    match asset_run(lines_of(yaml)) {
        Some((_, out)) => Some(out),
        None => None,
    }
}

/// Lines that fail after their first `n` fail as a whole.
pub proof fn lemma_asset_run_fails(lines: Seq<Seq<char>>, n: int)
    requires
        0 <= n <= lines.len(),
        asset_run(lines.take(n)) is None,
    ensures
        asset_run(lines) is None,
    decreases lines.len() - n,
{
    if n == lines.len() {
        assert(lines.take(n) =~= lines);
    } else {
        assert(lines.take(n + 1).drop_last() =~= lines.take(n));
        lemma_asset_run_fails(lines, n + 1);
    }
}

/// Whether the pattern engine accepts the two patterns of the asset rewrite.
pub open spec fn asset_patterns_compile() -> bool {
    compiles(file_id_pattern()) && compiles(name_pattern())
}

/// What the rewrite of the asset body `yaml` gives: its text, or the reason
/// for which there is none.
pub open spec fn asset_result(yaml: Seq<char>) -> Result<Seq<char>, PackageError> {
    if !asset_patterns_compile() {
        Err(PackageError::BadPattern)
    } else {
        match asset_output(yaml) {
            Some(text) => Ok(text),
            None => Err(PackageError::MalformedDialect),
        }
    }
}

/// Rewrites the asset body `yaml` into documents that a YAML reader accepts.
///
/// Each header line becomes a document separator and gives the class id,
/// file id and extra word of the document; directives and empty lines are
/// left out; the type tag becomes the keys `_class_id`, `_file_id`, `_extra`,
/// `type` and `content`; in every other line the first reference to a file
/// id is quoted, and a repeated name field gets a numbered key.
///
/// Fails with `MalformedDialect` where a header has no class id, and with
/// `BadPattern` where the pattern engine refuses a pattern of this rewrite.
pub fn asset_yaml_cleanup(yaml: &str) -> (r: Result<String, PackageError>)
    ensures
        text_result(r) == asset_result(yaml@),
{
    let ids = match compile("fileID: ([\\-0-9]+)") {
        Ok(re) => re,
        Err(_) => {
            return Err(PackageError::BadPattern);
        },
    };
    let names = match compile("m_Name:") {
        Ok(re) => re,
        Err(_) => {
            return Err(PackageError::BadPattern);
        },
    };
    let text = to_chars(yaml);
    let lines = split_lines(text.as_slice());
    let ghost all = texts(lines@);
    let mut st = AssetState::new();
    let mut out: Vec<char> = Vec::new();
    let mut i: usize = 0;
    assert(all.take(0) =~= Seq::<Seq<char>>::empty());
    while i < lines.len()
        invariant
            i <= lines.len(),
            all == texts(lines@),
            all == lines_of(yaml@),
            asset_patterns_compile(),
            asset_run(all.take(i as int)) == Some((st@, out@)),
            st.names <= i,
            source_of(ids) == file_id_pattern(),
            source_of(names) == name_pattern(),
        decreases lines.len() - i,
    {
        proof {
            assert(all.take(i as int + 1).drop_last() =~= all.take(i as int));
            assert(all.take(i as int + 1).last() == lines@[i as int]@);
        }
        let ghost before = asset_run(all.take(i as int));
        let ok = asset_line(&mut st, &mut out, lines[i].as_slice(), &ids, &names);
        if !ok {
            proof {
                assert(before == Some((st@, out@)));
                assert(asset_step(st@, lines@[i as int]@) is None);
                assert(asset_run(all.take(i as int + 1)) is None);
                lemma_asset_run_fails(all, i as int + 1);
            }
            return Err(PackageError::MalformedDialect);
        }
        i += 1;
    }
    assert(all.take(lines.len() as int) =~= all);
    Ok(to_text(out.as_slice()))
}

} // verus!
