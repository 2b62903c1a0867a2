use unitypackage_util::entry::{EntryFile, PackageEntry};
use unitypackage_util::error::PackageError;
use unitypackage_util::extract::{
    extract, extract_target, frame_documents, is_target, output, pathname_target, read_name,
    ExtractOptions, Extracted,
};
use unitypackage_util::hash::{signed, xx_hash};

const A: &str = "AAAAAAAAAAAAAAAAAAAAAAAAAAAAAAAA";

fn options(meta: bool, json: bool, fbx2gltf: bool, base64: bool) -> ExtractOptions {
    ExtractOptions {
        meta,
        json,
        fbx2gltf,
        base64,
    }
}

#[test]
fn targets_are_named_after_the_asset() {
    assert_eq!(pathname_target(A), format!("{}/pathname", A));
    assert_eq!(extract_target(A, false), format!("{}/asset", A));
    assert_eq!(extract_target(A, true), format!("{}/asset.meta", A));
    assert_eq!(pathname_target(""), "/pathname");
}

#[test]
fn target_is_found_by_its_whole_path() {
    let entry = PackageEntry::Folder(
        "/r".to_string(),
        EntryFile {
            path: format!("/r/{}/asset", A),
            size: 0,
            content: Vec::new(),
        },
    );
    assert!(is_target(&entry, &extract_target(A, false)));
    assert!(!is_target(&entry, &extract_target(A, true)));
    assert!(!is_target(&entry, "asset"));
    let short = PackageEntry::Tar(EntryFile {
        path: "g/pathname".to_string(),
        size: 0,
        content: Vec::new(),
    });
    assert!(is_target(&short, &pathname_target("g")));
}

#[test]
fn name_is_the_first_line_of_the_pathname_file() {
    assert_eq!(read_name(b"Assets/Foo.prefab\n00"), Ok("Assets/Foo.prefab".to_string()));
    assert_eq!(read_name(b"Assets/Foo.prefab"), Ok("Assets/Foo.prefab".to_string()));
    assert_eq!(read_name(b""), Ok(String::new()));
    assert_eq!(read_name(&[0x80]), Err(PackageError::Io));
}

#[test]
fn output_is_raw_or_base64() {
    assert!(matches!(
        output(b"hello world~".to_vec(), false),
        Ok(Extracted::Raw(bytes)) if bytes == b"hello world~"
    ));
    assert!(matches!(
        output(b"hello world~".to_vec(), true),
        Ok(Extracted::Text(text)) if text == "aGVsbG8gd29ybGR+"
    ));
    assert!(matches!(output(b"a".to_vec(), true), Ok(Extracted::Text(text)) if text == "YQ=="));
    assert!(matches!(
        output(vec![0x00, 0xff, 0x10], true),
        Ok(Extracted::Text(text)) if text == "AP8Q"
    ));
    assert!(matches!(output(Vec::new(), true), Ok(Extracted::Text(text)) if text.is_empty()));
}

#[test]
fn extraction_follows_the_options_in_their_order() {
    let asset = b"%YAML 1.1\n--- !u!1 &2\nA:\n";
    assert!(matches!(
        extract(asset.to_vec(), &options(false, true, true, true)),
        Ok(Extracted::Yaml(text)) if text == "---\n_class_id: 1\n_file_id: \"2\"\n_extra: \ntype: A\ncontent:\n"
    ));
    assert!(matches!(
        extract(b"guid: g\n".to_vec(), &options(true, true, false, false)),
        Ok(Extracted::Yaml(text)) if text == "fileFormatVersion: 2\nguid: g\n"
    ));
    assert!(matches!(
        extract(asset.to_vec(), &options(false, false, true, true)),
        Ok(Extracted::Convert(bytes)) if bytes == asset
    ));
    assert!(matches!(
        extract(b"a".to_vec(), &options(true, false, false, true)),
        Ok(Extracted::Text(text)) if text == "YQ=="
    ));
    assert!(matches!(
        extract(vec![0xff], &options(false, false, false, false)),
        Ok(Extracted::Raw(bytes)) if bytes == [0xff]
    ));
}

#[test]
fn extraction_for_json_fails_as_the_rewrite_fails() {
    assert!(matches!(
        extract(vec![0xff], &options(false, true, false, false)),
        Err(PackageError::Io)
    ));
    assert!(matches!(
        extract(b"--- !u!x &1\n".to_vec(), &options(false, true, false, false)),
        Err(PackageError::MalformedDialect)
    ));
    assert!(matches!(
        extract(b"fileFormatVersion: x\n".to_vec(), &options(true, true, false, false)),
        Err(PackageError::MalformedDialect)
    ));
    assert!(matches!(
        extract(b"--- !u!x &1\n".to_vec(), &options(true, true, false, false)),
        Ok(Extracted::Yaml(_))
    ));
}

#[test]
fn documents_are_framed_with_brackets_and_commas() {
    assert_eq!(frame_documents(&Vec::new()), "[]]\n");
    assert_eq!(frame_documents(&vec!["{}".to_string()]), "[{}]]\n");
    assert_eq!(
        frame_documents(&vec!["{\"a\":1}".to_string(), "null".to_string(), "[]".to_string()]),
        "[{\"a\":1},null,[]]]\n"
    );
}

#[test]
fn hash_is_the_xxhash_of_the_text_with_sign() {
    assert_eq!(xx_hash(""), -1205034819632174695);
    assert_eq!(xx_hash("abc"), 4952883123889572249);
    assert_eq!(xx_hash("hello"), 2794345569481354659);
    assert_eq!(xx_hash("Assets/Foo.prefab"), 5880540664743517668);
}

#[test]
fn sixty_four_bits_are_read_with_sign() {
    assert_eq!(signed(0), 0);
    assert_eq!(signed(1), 1);
    assert_eq!(signed(0x7fff_ffff_ffff_ffff), i64::MAX);
    assert_eq!(signed(0x8000_0000_0000_0000), i64::MIN);
    assert_eq!(signed(0x8000_0000_0000_0001), i64::MIN + 1);
    assert_eq!(signed(u64::MAX), -1);
    assert_eq!(signed(0xef46_db37_51d8_e999), -1205034819632174695);
}
