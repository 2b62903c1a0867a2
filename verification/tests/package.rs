use unitypackage_util::entry::{EntryFile, PackageEntry};
use unitypackage_util::error::PackageError;
use unitypackage_util::package::{Package, PackageEntries, PackageType, PathProbe};
use unitypackage_util::signature::{fbx_matcher, starts_with_bytes, yaml_matcher};

const GUID: &str = "AB12AB12AB12AB12AB12AB12AB12CD34";

fn file(path: &str, content: &[u8]) -> EntryFile {
    EntryFile {
        path: path.to_string(),
        size: content.len(),
        content: content.to_vec(),
    }
}

fn tar_head() -> Vec<u8> {
    let mut head = vec![0u8; 512];
    head[257..262].copy_from_slice(b"ustar");
    head
}

#[test]
fn directory_is_a_folder_under_its_canonical_path() {
    let package = Package::new("./pkg/../pkg", PathProbe::Directory("/data/pkg".to_string())).unwrap();
    assert!(matches!(package.kind(), PackageType::Folder(path) if path == "/data/pkg"));
    assert_eq!(package.describe(), "Folder: /data/pkg");
}

#[test]
fn file_is_told_by_its_first_bytes() {
    let tar = Package::new("a.tar", PathProbe::File(tar_head())).unwrap();
    assert!(matches!(tar.kind(), PackageType::Tar(path) if path == "a.tar"));
    assert_eq!(tar.describe(), "Tar: a.tar");

    let gz = Package::new("a.unitypackage", PathProbe::File(vec![0x1f, 0x8b, 0x08, 0, 0])).unwrap();
    assert!(matches!(gz.kind(), PackageType::TarGz(path) if path == "a.unitypackage"));
    assert_eq!(gz.describe(), "TarGz: a.unitypackage");
}

#[test]
fn other_file_is_not_a_container() {
    let png = vec![0x89, 0x50, 0x4e, 0x47, 0x0d, 0x0a, 0x1a, 0x0a, 0, 0, 0, 0];
    assert!(matches!(
        Package::new("a.png", PathProbe::File(png)),
        Err(PackageError::NotAContainer)
    ));
    assert!(matches!(
        Package::new("a.txt", PathProbe::File(b"plain words".to_vec())),
        Err(PackageError::NotAContainer)
    ));
    assert!(matches!(
        Package::new("empty", PathProbe::File(Vec::new())),
        Err(PackageError::NotAContainer)
    ));
}

#[test]
fn missing_path_is_not_found() {
    assert!(matches!(
        Package::new("nowhere", PathProbe::Missing),
        Err(PackageError::NotFound)
    ));
}

#[test]
fn mime_type_decides_the_kind_of_archive() {
    assert!(matches!(
        Package::from_mime("p", Some("application/x-tar")).unwrap().kind(),
        PackageType::Tar(_)
    ));
    assert!(matches!(
        Package::from_mime("p", Some("application/gzip")).unwrap().kind(),
        PackageType::TarGz(_)
    ));
    assert!(matches!(
        Package::from_mime("p", Some("application/zip")),
        Err(PackageError::NotAContainer)
    ));
    assert!(matches!(
        Package::from_mime("p", Some("application/x-tar ")),
        Err(PackageError::NotAContainer)
    ));
    assert!(matches!(Package::from_mime("p", None), Err(PackageError::NotAContainer)));
}

#[test]
fn errors_have_their_sentences() {
    assert_eq!(PackageError::NotAContainer.message(), "File is not a tar or tar.gz");
    assert_eq!(PackageError::NotFound.message(), "Path is not a file or directory");
    assert_eq!(PackageError::Io.message(), "Content could not be read");
    assert_eq!(PackageError::MalformedDialect.message(), "Line does not match the dialect");
    assert_eq!(PackageError::BadPattern.message(), "Pattern was refused");
}

#[test]
fn guid_is_the_first_segment_of_the_path() {
    let path = format!("{}/asset.meta", GUID);
    let entry = PackageEntry::Tar(file(&path, b""));
    assert_eq!(entry.guid(), GUID);
    assert!(entry.is_asset_file());
    assert_eq!(entry.path(), Some(path));

    let nested = PackageEntry::TarGz(file("a/b/c", b""));
    assert_eq!(nested.guid(), "a");
    assert!(!nested.is_asset_file());

    let flat = PackageEntry::Tar(file("pathname", b""));
    assert_eq!(flat.guid(), "pathname");

    let rooted = PackageEntry::Tar(file("/x", b""));
    assert_eq!(rooted.guid(), "");
    assert!(!rooted.is_asset_file());
}

#[test]
fn guid_needs_thirty_two_characters() {
    let short = PackageEntry::Tar(file("AB12AB12AB12AB12AB12AB12AB12CD3/asset", b""));
    assert!(!short.is_asset_file());
    let exact = PackageEntry::Tar(file("AB12AB12AB12AB12AB12AB12AB12CD34/asset", b""));
    assert!(exact.is_asset_file());
    let long = PackageEntry::Tar(file("AB12AB12AB12AB12AB12AB12AB12CD34EF/asset", b""));
    assert!(long.is_asset_file());
    let icon = PackageEntry::Tar(file(".icon.png", b""));
    assert!(!icon.is_asset_file());
}

#[test]
fn folder_path_is_seen_from_the_root() {
    let full = format!("/data/pkg/{}/pathname", GUID);
    let entry = PackageEntry::Folder("/data/pkg".to_string(), file(&full, b"x"));
    assert_eq!(entry.path(), Some(format!("{}/pathname", GUID)));
    assert_eq!(entry.guid(), GUID);
    assert!(entry.is_asset_file());

    let root = PackageEntry::Folder("/data/pkg".to_string(), file("/data/pkg", b""));
    assert_eq!(root.path(), Some("/data/pkg".to_string()));
    assert_eq!(root.guid(), "");

    let twice = PackageEntry::Folder("/p".to_string(), file("/p/a/p/b", b""));
    assert_eq!(twice.path(), Some("a/p/b".to_string()));

    let elsewhere = PackageEntry::Folder("/p".to_string(), file("/q/a", b""));
    assert_eq!(elsewhere.path(), Some("/q/a".to_string()));
}

#[test]
fn same_file_looks_the_same_in_every_kind_of_package() {
    let rel = format!("{}/asset", GUID);
    let content = b"%YAML 1.1\n";
    let folder = PackageEntry::Folder("/r".to_string(), file(&format!("/r/{}", rel), content));
    let tar = PackageEntry::Tar(file(&rel, content));
    let gz = PackageEntry::TarGz(file(&rel, content));
    for entry in [&folder, &tar, &gz] {
        assert_eq!(entry.path(), Some(rel.clone()));
        assert_eq!(entry.size(), Some(10));
        assert_eq!(entry.guid(), GUID);
        let mut bytes = Vec::new();
        assert_eq!(entry.read_to_end(&mut bytes), Ok(10));
        assert_eq!(bytes, content);
    }
}

#[test]
fn size_is_what_the_medium_states() {
    let entry = PackageEntry::Tar(EntryFile {
        path: "a".to_string(),
        size: 77,
        content: Vec::new(),
    });
    assert_eq!(entry.size(), Some(77));
}

#[test]
fn content_is_appended_to_the_buffer() {
    let entry = PackageEntry::Tar(file("a", "héllo\n".as_bytes()));
    let mut bytes = vec![1u8, 2];
    assert_eq!(entry.read_to_end(&mut bytes), Ok(7));
    assert_eq!(bytes, [&[1u8, 2][..], "héllo\n".as_bytes()].concat());
    let mut text = String::from(">");
    assert_eq!(entry.read_to_string(&mut text), Ok(7));
    assert_eq!(text, ">héllo\n");
    assert_eq!(entry.read_to_string(&mut text), Ok(7));
    assert_eq!(text, ">héllo\nhéllo\n");
}

#[test]
fn content_that_is_no_text_cannot_be_read_as_text() {
    let entry = PackageEntry::Tar(file("a", &[0x66, 0xff, 0x66]));
    let mut text = String::from("kept");
    assert_eq!(entry.read_to_string(&mut text), Err(PackageError::Io));
    assert_eq!(text, "kept");
    let cut = PackageEntry::Tar(file("a", &[0xe6, 0x97]));
    assert_eq!(cut.read_to_string(&mut text), Err(PackageError::Io));
}

#[test]
fn signatures_stand_at_the_start() {
    assert!(yaml_matcher(b"%YAML 1.1"));
    assert!(yaml_matcher(b"%YAML"));
    assert!(!yaml_matcher(b"%YAM"));
    assert!(!yaml_matcher(b" %YAML"));
    assert!(!yaml_matcher(b""));
    assert!(fbx_matcher(b"Kaydara FBX Binary  \x00\x1a\x00"));
    assert!(fbx_matcher(b"Kaydara FBX Binary"));
    assert!(!fbx_matcher(b"Kaydara FBX Binar"));
    assert!(!fbx_matcher(b"kaydara FBX Binary"));
    assert!(starts_with_bytes(b"abc", b""));
    assert!(starts_with_bytes(b"abc", b"ab"));
    assert!(!starts_with_bytes(b"abc", b"abcd"));
    assert!(!starts_with_bytes(b"abc", b"ac"));
}

#[test]
fn files_of_an_open_package_are_handed_out_once() {
    let package = Package::new("a.tar", PathProbe::File(tar_head())).unwrap();
    let mut handle = package.open().unwrap();
    assert!(matches!(handle.kind(), PackageType::Tar(path) if path == "a.tar"));
    assert!(matches!(handle.entries(), Ok(PackageEntries::Tar)));
    assert!(matches!(handle.entries(), Err(PackageError::Io)));
    assert!(matches!(handle.entries(), Err(PackageError::Io)));
    assert!(matches!(handle.kind(), PackageType::Tar(path) if path == "a.tar"));

    let folder = Package::new("p", PathProbe::Directory("/abs/p".to_string())).unwrap();
    let mut handle = folder.open().unwrap();
    assert!(matches!(handle.entries(), Ok(PackageEntries::Folder(root)) if root == "/abs/p"));
    assert!(matches!(handle.entries(), Err(PackageError::Io)));

    let gz = Package::new("p.gz", PathProbe::File(vec![0x1f, 0x8b, 0x08])).unwrap();
    assert!(matches!(gz.open().unwrap().entries(), Ok(PackageEntries::TarGz)));
}

#[test]
fn files_become_entries_of_the_kind_of_their_package() {
    let mut folder = PackageEntries::Folder("/abs/p".to_string());
    let first = folder.next(Some(Ok(file("/abs/p/g/asset", b"x")))).unwrap().unwrap();
    assert!(matches!(&first, PackageEntry::Folder(root, f) if root == "/abs/p" && f.path == "/abs/p/g/asset"));
    assert_eq!(first.path(), Some("g/asset".to_string()));
    let second = folder.next(Some(Ok(file("/abs/p/h", b"")))).unwrap().unwrap();
    assert_eq!(second.path(), Some("h".to_string()));

    let mut tar = PackageEntries::Tar;
    assert!(matches!(
        tar.next(Some(Ok(file("g/asset", b"x")))),
        Some(Ok(PackageEntry::Tar(f))) if f.path == "g/asset" && f.content == b"x"
    ));
    assert!(matches!(tar.next(Some(Err(PackageError::Io))), Some(Err(PackageError::Io))));
    assert!(matches!(
        tar.next(Some(Ok(file("later", b"")))),
        Some(Ok(PackageEntry::Tar(f))) if f.path == "later"
    ));
    assert!(tar.next(None).is_none());

    let mut gz = PackageEntries::TarGz;
    assert!(matches!(
        gz.next(Some(Ok(file("g/asset", b"x")))),
        Some(Ok(PackageEntry::TarGz(f))) if f.size == 1
    ));
    assert!(gz.next(None).is_none());
}

#[test]
fn content_can_be_given_to_an_entry_later() {
    let head = PackageEntry::Folder(
        "/r".to_string(),
        EntryFile {
            path: "/r/g/asset".to_string(),
            size: 3,
            content: Vec::new(),
        },
    );
    assert_eq!(head.content(), Vec::<u8>::new());
    let full = head.with_content(b"abc".to_vec());
    assert!(matches!(&full, PackageEntry::Folder(root, _) if root == "/r"));
    assert_eq!(full.path_text(), "g/asset");
    assert_eq!(full.size(), Some(3));
    assert_eq!(full.content(), b"abc");
    let tar = PackageEntry::Tar(file("g/asset", b"old")).with_content(b"new".to_vec());
    assert!(matches!(&tar, PackageEntry::Tar(f) if f.content == b"new" && f.size == 3));
    let gz = PackageEntry::TarGz(file("g/asset", b"")).with_content(b"z".to_vec());
    assert!(matches!(&gz, PackageEntry::TarGz(f) if f.content == b"z" && f.path == "g/asset"));
}
