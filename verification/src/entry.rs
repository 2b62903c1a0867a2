//! One file of a package: where it lies, how long it is, what it holds, and
//! the identifier under which it is filed.

use vstd::prelude::*;
use vstd::string::StringExecFns;
use vstd::utf8::{decode_utf8, valid_utf8};
use crate::error::PackageError;
use crate::text::{find, find_from, slice_of, starts_with, to_chars, to_text};

verus! {

/// `std::str::from_utf8`: the text that `bytes` encode, where they are valid
/// UTF-8, and nothing where they are not.
#[verifier::external_body]
pub(crate) fn decode(bytes: &[u8]) -> (r: Option<&str>)
    ensures
        r is Some == valid_utf8(bytes@),
        r matches Some(s) ==> s@ == decode_utf8(bytes@),
{
    std::str::from_utf8(bytes).ok()
}

/// A file as its medium gives it.
pub struct EntryFile {
    /// The path: below the root and with the root before it in a folder, as
    /// the archive names it in an archive.
    pub path: String,
    /// The length in bytes that the medium states.
    pub size: usize,
    /// The bytes of the file.
    pub content: Vec<u8>,
}

/// One file of a package, by the kind of the package.
pub enum PackageEntry {
    /// A file in a directory tree, with the root of the tree.
    Folder(String, EntryFile),
    /// A file in a tar archive.
    Tar(EntryFile),
    /// A file in a gzip-compressed tar archive.
    TarGz(EntryFile),
}

/// `path` as seen from `root`: without `root` and the slash after it where it
/// begins with them, unchanged otherwise.
pub open spec fn relative_to(root: Seq<char>, path: Seq<char>) -> Seq<char> {
    if (root + seq!['/']).is_prefix_of(path) {
        path.skip(root.len() as int + 1)
    } else {
        path
    }
}

/// What stands in `path` before its first slash (all of it where it has none).
pub open spec fn first_segment(path: Seq<char>) -> Seq<char> {
    path.take(find(path, '/'))
}

/// The least number of characters in the identifier of an asset.
pub open spec fn guid_min_len() -> nat {
    32
}

impl PackageEntry {
    /// The file as its medium gives it.
    pub open spec fn file(&self) -> EntryFile {
        match *self {
            PackageEntry::Folder(_, file) => file,
            PackageEntry::Tar(file) => file,
            PackageEntry::TarGz(file) => file,
        }
    }

    /// The path of the file as seen from the root of its package.
    pub open spec fn relative_path(&self) -> Seq<char> {
        match *self {
            PackageEntry::Folder(root, file) => relative_to(root@, file.path@),
            PackageEntry::Tar(file) => file.path@,
            PackageEntry::TarGz(file) => file.path@,
        }
    }

    /// The identifier under which the file is filed: the first segment of its
    /// path.
    pub open spec fn bucket(&self) -> Seq<char> {
        first_segment(self.relative_path())
    }

    /// Whether the file belongs to an asset: whether its identifier has at
    /// least 32 characters.
    pub open spec fn in_bucket(&self) -> bool {
        self.bucket().len() >= guid_min_len()
    }

    fn file_ref(&self) -> (file: &EntryFile)
        ensures
            *file == self.file(),
    {
        match self {
            PackageEntry::Folder(_, file) => file,
            PackageEntry::Tar(file) => file,
            PackageEntry::TarGz(file) => file,
        }
    }

    fn path_chars(&self) -> (path: Vec<char>)
        ensures
            path@ == self.relative_path(),
    {
        match self {
            PackageEntry::Folder(root, file) => {
                let full = to_chars(file.path.as_str());
                let mut prefix = to_chars(root.as_str());
                prefix.push('/');
                assert(prefix@ =~= root@ + seq!['/']);
                if starts_with(full.as_slice(), prefix.as_slice()) {
                    let rest = slice_of(full.as_slice(), prefix.len(), full.len());
                    assert(rest@ =~= full@.skip(root@.len() as int + 1));
                    rest
                } else {
                    full
                }
            },
            PackageEntry::Tar(file) => to_chars(file.path.as_str()),
            PackageEntry::TarGz(file) => to_chars(file.path.as_str()),
        }
    }

    /// The length in bytes that the medium states.
    pub fn size(&self) -> (size: Option<usize>)
        ensures
            size == Some(self.file().size),
    {
        Some(self.file_ref().size)
    }

    /// The path of the file as seen from the root of its package.
    pub fn path(&self) -> (path: Option<String>)
        ensures
            path matches Some(p) && p@ == self.relative_path(),
    {
        Some(self.path_text())
    }

    /// The path of the file as seen from the root of its package, as text.
    pub fn path_text(&self) -> (path: String)
        ensures
            path@ == self.relative_path(),
    {
        let chars = self.path_chars();
        to_text(chars.as_slice())
    }

    /// The entry with `content` as the bytes of the file, for a file whose
    /// bytes were not read when the entry was made.
    pub fn with_content(self, content: Vec<u8>) -> (entry: PackageEntry)
        ensures
            entry.file().content == content,
            entry.file().path == self.file().path,
            entry.file().size == self.file().size,
            entry.relative_path() == self.relative_path(),
            entry is Folder == self is Folder,
            entry is Tar == self is Tar,
            entry is TarGz == self is TarGz,
    {
        match self {
            PackageEntry::Folder(root, file) => PackageEntry::Folder(
                root,
                EntryFile { content, ..file },
            ),
            PackageEntry::Tar(file) => PackageEntry::Tar(EntryFile { content, ..file }),
            PackageEntry::TarGz(file) => PackageEntry::TarGz(EntryFile { content, ..file }),
        }
    }

    /// A copy of the bytes of the file.
    pub fn content(&self) -> (bytes: Vec<u8>)
        ensures
            bytes@ == self.file().content@,
    {
        let mut bytes: Vec<u8> = Vec::new();
        bytes.extend_from_slice(self.file_ref().content.as_slice());
        assert(bytes@ =~= self.file().content@);
        bytes
    }

    /// The identifier under which the file is filed.
    pub fn guid(&self) -> (guid: String)
        ensures
            guid@ == self.bucket(),
    {
        let chars = self.path_chars();
        assert(chars@.skip(0) =~= chars@);
        let end = find_from(chars.as_slice(), 0, '/');
        let first = slice_of(chars.as_slice(), 0, end);
        to_text(first.as_slice())
    }

    /// Whether the file belongs to an asset.
    pub fn is_asset_file(&self) -> (yes: bool)
        ensures
            yes == self.in_bucket(),
    {
        let chars = self.path_chars();
        assert(chars@.skip(0) =~= chars@);
        let end = find_from(chars.as_slice(), 0, '/');
        end >= 32
    }

    /// Appends the bytes of the file to `buf` and returns their number.
    pub fn read_to_end(&self, buf: &mut Vec<u8>) -> (r: Result<usize, PackageError>)
        ensures
            r == Ok::<usize, PackageError>(self.file().content.len()),
            final(buf)@ == old(buf)@ + self.file().content@,
    {
        let file = self.file_ref();
        buf.extend_from_slice(file.content.as_slice());
        Ok(file.content.len())
    }

    /// Appends the text of the file to `buf` and returns the number of its
    /// bytes. Fails with `Io`, and leaves `buf` as it was, where the bytes of
    /// the file are not valid UTF-8.
    pub fn read_to_string(&self, buf: &mut String) -> (r: Result<usize, PackageError>)
        ensures
            valid_utf8(self.file().content@) ==> r == Ok::<usize, PackageError>(
                self.file().content.len(),
            ) && final(buf)@ == old(buf)@ + decode_utf8(self.file().content@),
            !valid_utf8(self.file().content@) ==> r == Err::<usize, PackageError>(
                PackageError::Io,
            ) && *final(buf) == *old(buf),
    {
        let file = self.file_ref();
        match decode(file.content.as_slice()) {
            Some(text) => {
                buf.append(text);
                Ok(file.content.len())
            },
            None => Err(PackageError::Io),
        }
    }
}

/// A file looks the same in every kind of package: where a folder holds it
/// at its root, a slash and `rel`, and an archive names it `rel`, its path,
/// its length, its content, its identifier and whether it belongs to an
/// asset are the same in the folder, in the tar archive and in the
/// compressed one.
pub proof fn lemma_same_file_in_every_kind(
    root: String,
    full: String,
    rel: String,
    size: usize,
    content: Vec<u8>,
)
    requires
        full@ == root@ + seq!['/'] + rel@,
    ensures
        ({
            let folder = PackageEntry::Folder(root, EntryFile { path: full, size, content });
            let tar = PackageEntry::Tar(EntryFile { path: rel, size, content });
            let gz = PackageEntry::TarGz(EntryFile { path: rel, size, content });
            &&& folder.relative_path() == rel@
            &&& tar.relative_path() == rel@
            &&& gz.relative_path() == rel@
            &&& folder.file().size == size && tar.file().size == size && gz.file().size == size
            &&& folder.file().content == content && tar.file().content == content
                && gz.file().content == content
            &&& folder.bucket() == tar.bucket() && tar.bucket() == gz.bucket()
            &&& folder.in_bucket() == tar.in_bucket() && tar.in_bucket() == gz.in_bucket()
        }),
{
    let prefix = root@ + seq!['/'];
    assert(full@.subrange(0, prefix.len() as int) =~= prefix);
    assert(full@.skip(root@.len() as int + 1) =~= rel@);
}

/// The identifier of a file at `guid`, a slash and anything, is `guid`,
/// where `guid` holds no slash.
pub proof fn lemma_guid_is_first_segment(guid: Seq<char>, name: Seq<char>)
    requires
        forall|i: int| 0 <= i < guid.len() ==> guid[i] != '/',
    ensures
        first_segment(guid + seq!['/'] + name) == guid,
{
    let path = guid + seq!['/'] + name;
    crate::text::lemma_find_is(path, '/', guid.len() as int);
    assert(path.take(guid.len() as int) =~= guid);
}

} // verus!
