//! A package: a directory, a tar archive or a gzip-compressed tar archive,
//! and the files in it.

use vstd::prelude::*;
use crate::entry::{EntryFile, PackageEntry};
use crate::error::PackageError;
use crate::sniff::{sniff, sniffed_mime};
use crate::text::{append_str, same_text, to_chars, to_text};

verus! {

/// The three kinds of container, each with its path.
pub enum PackageType {
    /// A directory tree; the path is canonical.
    Folder(String),
    /// A tar archive.
    Tar(String),
    /// A tar archive compressed with gzip.
    TarGz(String),
}

/// A container and its kind, as mathematical values.
pub enum PackageModel {
    /// A directory tree at this path.
    Folder(Seq<char>),
    /// A tar archive at this path.
    Tar(Seq<char>),
    /// A gzip-compressed tar archive at this path.
    TarGz(Seq<char>),
}

/// A handle to one container. Its kind is fixed when it is made.
pub struct Package {
    kind: PackageType,
}

/// An open package: its kind, and whether its files were asked for. The
/// files of an open package can be asked for once.
pub struct PackageHandle {
    kind: PackageType,
    taken: bool,
}

/// The files of an open package, as the medium gives them one after the
/// other: for a folder, with the root under which they lie.
pub enum PackageEntries {
    /// The files below a root.
    Folder(String),
    /// The files of a tar archive.
    Tar,
    /// The files of a gzip-compressed tar archive.
    TarGz,
}

/// What was found at a path.
pub enum PathProbe {
    /// A directory; holds its canonical path.
    Directory(String),
    /// A regular file; holds its first bytes.
    File(Vec<u8>),
    /// Nothing that can be reached.
    Missing,
}

impl View for Package {
    type V = PackageModel;

    closed spec fn view(&self) -> PackageModel {
        match self.kind {
            PackageType::Folder(path) => PackageModel::Folder(path@),
            PackageType::Tar(path) => PackageModel::Tar(path@),
            PackageType::TarGz(path) => PackageModel::TarGz(path@),
        }
    }
}

/// The container that a regular file at `path` is, told from its MIME type:
/// a tar archive, a gzip-compressed one, or none.
pub open spec fn archive_of(path: Seq<char>, mime: Option<Seq<char>>) -> Result<
    PackageModel,
    PackageError,
> {
    if mime == Some("application/x-tar"@) {
        Ok(PackageModel::Tar(path))
    } else if mime == Some("application/gzip"@) {
        Ok(PackageModel::TarGz(path))
    } else {
        Err(PackageError::NotAContainer)
    }
}

/// The container at `path`, given what was found there: a directory is a
/// folder under its canonical path, a regular file is what its first bytes
/// tell, and anything else is not found.
pub open spec fn container_of(path: Seq<char>, found: PathProbe) -> Result<
    PackageModel,
    PackageError,
> {
    match found {
        PathProbe::Directory(canonical) => Ok(PackageModel::Folder(canonical@)),
        PathProbe::File(head) => archive_of(path, sniffed_mime(head@)),
        PathProbe::Missing => Err(PackageError::NotFound),
    }
}

/// Whether `r` is the package or the error that `model` asks for.
pub open spec fn is_package(r: Result<Package, PackageError>, model: Result<
    PackageModel,
    PackageError,
>) -> bool {
    match model {
        Ok(m) => r matches Ok(p) && p@ == m,
        Err(e) => r == Err::<Package, PackageError>(e),
    }
}

impl Package {
    /// The package at `path`, where `found` says what is there.
    pub fn new(path: &str, found: PathProbe) -> (r: Result<Package, PackageError>)
        ensures
            is_package(r, container_of(path@, found)),
    {
        match found {
            PathProbe::Directory(canonical) => Ok(Package { kind: PackageType::Folder(canonical) }),
            PathProbe::File(head) => {
                let mime = sniff(head.as_slice());
                match mime {
                    Some(m) => Package::from_mime(path, Some(m.as_str())),
                    None => Package::from_mime(path, None),
                }
            },
            PathProbe::Missing => Err(PackageError::NotFound),
        }
    }

    /// The package that the regular file at `path` is, where `mime` is the
    /// MIME type told from its first bytes.
    pub fn from_mime(path: &str, mime: Option<&str>) -> (r: Result<Package, PackageError>)
        ensures
            is_package(
                r,
                archive_of(
                    path@,
                    match mime {
                        Some(m) => Some(m@),
                        None => None,
                    },
                ),
            ),
    {
        match mime {
            Some(m) => {
                let given = to_chars(m);
                let tar = to_chars("application/x-tar");
                let gzip = to_chars("application/gzip");
                if same_text(given.as_slice(), tar.as_slice()) {
                    Ok(Package { kind: PackageType::Tar(path.to_owned()) })
                } else if same_text(given.as_slice(), gzip.as_slice()) {
                    Ok(Package { kind: PackageType::TarGz(path.to_owned()) })
                } else {
                    Err(PackageError::NotAContainer)
                }
            },
            None => Err(PackageError::NotAContainer),
        }
    }

    /// Opens the package. The handle knows the kind of the package, and its
    /// files were not asked for yet.
    pub fn open(self) -> (r: Result<PackageHandle, PackageError>)
        ensures
            r matches Ok(handle) && handle.package() == self@ && !handle.taken(),
    {
        Ok(PackageHandle { kind: self.kind, taken: false })
    }

    /// The kind of the container, with its path.
    pub fn kind(&self) -> (kind: &PackageType)
        ensures
            self@ == match *kind {
                PackageType::Folder(path) => PackageModel::Folder(path@),
                PackageType::Tar(path) => PackageModel::Tar(path@),
                PackageType::TarGz(path) => PackageModel::TarGz(path@),
            },
    {
        &self.kind
    }

    /// The kind and the path in words: `Folder: `, `Tar: ` or `TarGz: `, then
    /// the path.
    pub fn describe(&self) -> (text: String)
        ensures
            text@ == match self@ {
                PackageModel::Folder(path) => "Folder: "@ + path,
                PackageModel::Tar(path) => "Tar: "@ + path,
                PackageModel::TarGz(path) => "TarGz: "@ + path,
            },
    {
        let mut out: Vec<char> = Vec::new();
        match &self.kind {
            PackageType::Folder(path) => {
                append_str(&mut out, "Folder: ");
                append_str(&mut out, path.as_str());
            },
            PackageType::Tar(path) => {
                append_str(&mut out, "Tar: ");
                append_str(&mut out, path.as_str());
            },
            PackageType::TarGz(path) => {
                append_str(&mut out, "TarGz: ");
                append_str(&mut out, path.as_str());
            },
        }
        assert(Seq::<char>::empty() + "Folder: "@ =~= "Folder: "@);
        assert(Seq::<char>::empty() + "Tar: "@ =~= "Tar: "@);
        assert(Seq::<char>::empty() + "TarGz: "@ =~= "TarGz: "@);
        to_text(out.as_slice())
    }
}

impl PackageHandle {
    /// The package that was opened.
    pub closed spec fn package(&self) -> PackageModel {
        match self.kind {
            PackageType::Folder(path) => PackageModel::Folder(path@),
            PackageType::Tar(path) => PackageModel::Tar(path@),
            PackageType::TarGz(path) => PackageModel::TarGz(path@),
        }
    }

    /// Whether the files of the package were asked for.
    pub closed spec fn taken(&self) -> bool {
        self.taken
    }

    /// The kind of the package, with its path.
    pub fn kind(&self) -> (kind: &PackageType)
        ensures
            self.package() == match *kind {
                PackageType::Folder(path) => PackageModel::Folder(path@),
                PackageType::Tar(path) => PackageModel::Tar(path@),
                PackageType::TarGz(path) => PackageModel::TarGz(path@),
            },
    {
        &self.kind
    }

    /// The files of the package. They are handed out once; a second call
    /// fails with `Io`. The package stays the same.
    pub fn entries(&mut self) -> (r: Result<PackageEntries, PackageError>)
        ensures
            final(self).package() == old(self).package(),
            final(self).taken(),
            old(self).taken() ==> r == Err::<PackageEntries, PackageError>(PackageError::Io),
            !old(self).taken() ==> (r matches Ok(files) && files.of(old(self).package())),
    {
        if self.taken {
            return Err(PackageError::Io);
        }
        self.taken = true;
        match &self.kind {
            PackageType::Folder(root) => Ok(PackageEntries::Folder(root.clone())),
            PackageType::Tar(_) => Ok(PackageEntries::Tar),
            PackageType::TarGz(_) => Ok(PackageEntries::TarGz),
        }
    }
}

impl PackageEntries {
    /// Whether these are the files of `package`: of its kind and, for a
    /// folder, below its path.
    pub open spec fn of(&self, package: PackageModel) -> bool {
        match *self {
            PackageEntries::Folder(root) => package == PackageModel::Folder(root@),
            PackageEntries::Tar => package is Tar,
            PackageEntries::TarGz => package is TarGz,
        }
    }

    /// The entry that `file` is among these files.
    pub open spec fn entry_of(&self, file: EntryFile) -> PackageEntry {
        match *self {
            PackageEntries::Folder(root) => PackageEntry::Folder(root, file),
            PackageEntries::Tar => PackageEntry::Tar(file),
            PackageEntries::TarGz => PackageEntry::TarGz(file),
        }
    }

    /// What comes next, where `item` is what the medium gave: nothing at the
    /// end of the medium, its failure where it failed, and the file as an
    /// entry of the kind of the package otherwise.
    pub open spec fn yields(&self, item: Option<Result<EntryFile, PackageError>>) -> Option<
        Result<PackageEntry, PackageError>,
    > {
        match item {
            Some(Ok(file)) => Some(Ok(self.entry_of(file))),
            Some(Err(e)) => Some(Err(e)),
            None => None,
        }
    }

    /// The next entry, where `item` is what the medium gave next.
    pub fn next(&mut self, item: Option<Result<EntryFile, PackageError>>) -> (r: Option<
        Result<PackageEntry, PackageError>,
    >)
        ensures
            *final(self) == *old(self),
            r == old(self).yields(item),
    {
        match item {
            Some(Ok(file)) => {
                let entry = match self {
                    PackageEntries::Folder(root) => PackageEntry::Folder(root.clone(), file),
                    PackageEntries::Tar => PackageEntry::Tar(file),
                    PackageEntries::TarGz => PackageEntry::TarGz(file),
                };
                Some(Ok(entry))
            },
            Some(Err(e)) => Some(Err(e)),
            None => None,
        }
    }
}

/// What a traversal shows of each of `entries`: its path below the root and
/// the length that its medium states.
pub open spec fn paths_and_sizes(entries: Seq<PackageEntry>) -> Seq<(Seq<char>, usize)> {
    Seq::new(entries.len(), |i: int| (entries[i].relative_path(), entries[i].file().size))
}

/// The entries that the files `files` are among `kinds`, in their order.
pub open spec fn entries_of(kinds: PackageEntries, files: Seq<EntryFile>) -> Seq<PackageEntry> {
    Seq::new(files.len(), |i: int| kinds.entry_of(files[i]))
}

/// Whether the folder at `root` holds `in_folder` where an archive holds
/// `in_archive`: the same length and content, at `root`, a slash and the
/// path of `in_archive`.
pub open spec fn same_file(root: Seq<char>, in_folder: EntryFile, in_archive: EntryFile) -> bool {
    &&& in_folder.path@ == root + seq!['/'] + in_archive.path@
    &&& in_folder.size == in_archive.size
    &&& in_folder.content == in_archive.content
}

/// A folder, a tar archive and a gzip-compressed tar archive that hold the
/// same files show the same paths and sizes when they are traversed.
pub proof fn lemma_traversal_is_the_same_in_every_kind(
    root: String,
    in_folder: Seq<EntryFile>,
    in_archive: Seq<EntryFile>,
)
    requires
        in_folder.len() == in_archive.len(),
        forall|i: int|
            0 <= i < in_folder.len() ==> same_file(root@, #[trigger] in_folder[i], in_archive[i]),
    ensures
        paths_and_sizes(entries_of(PackageEntries::Folder(root), in_folder)) == paths_and_sizes(
            entries_of(PackageEntries::Tar, in_archive),
        ),
        paths_and_sizes(entries_of(PackageEntries::Tar, in_archive)) == paths_and_sizes(
            entries_of(PackageEntries::TarGz, in_archive),
        ),
{
    let folder = paths_and_sizes(entries_of(PackageEntries::Folder(root), in_folder));
    let tar = paths_and_sizes(entries_of(PackageEntries::Tar, in_archive));
    let gz = paths_and_sizes(entries_of(PackageEntries::TarGz, in_archive));
    assert forall|i: int| 0 <= i < in_folder.len() implies folder[i] == tar[i] by {
        let a = in_folder[i];
        let b = in_archive[i];
        assert(same_file(root@, a, b));
        let prefix = root@ + seq!['/'];
        assert(a.path@.subrange(0, prefix.len() as int) =~= prefix);
        assert(a.path@.skip(root@.len() as int + 1) =~= b.path@);
    }
    assert(folder =~= tar);
    assert(tar =~= gz);
}

} // verus!
