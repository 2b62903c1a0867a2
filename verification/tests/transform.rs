use serde::Deserialize;
use unitypackage_util::asset::{classify_asset_line, read_header, AssetLine};
use unitypackage_util::asset_meta_yaml_cleanup;
use unitypackage_util::asset_yaml_cleanup;
use unitypackage_util::error::PackageError;
use unitypackage_util::meta::{classify_meta_line, read_field_value, MetaLine};

fn chars(s: &str) -> Vec<char> {
    s.chars().collect()
}

fn text(v: &[char]) -> String {
    v.iter().collect()
}

fn documents(yaml: &str) -> Vec<serde_yaml::Value> {
    serde_yaml::Deserializer::from_str(yaml)
        .map(|doc| serde_yaml::Value::deserialize(doc).unwrap())
        .collect()
}

#[test]
fn asset_document_gets_its_keys() {
    let input = "%YAML 1.1\n%TAG !u! tag:unity3d.com,2011:\n--- !u!1 &100 extraTok\nGameObject:\n  m_Name: Foo\n";
    let out = asset_yaml_cleanup(input).unwrap();
    assert_eq!(
        out,
        "---\n_class_id: 1\n_file_id: \"100\"\n_extra: extraTok\n\ntype: GameObject\ncontent:\n  m_Name: Foo\n"
    );
    let docs = documents(&out);
    assert_eq!(docs.len(), 1);
    assert_eq!(docs[0]["_class_id"].as_i64(), Some(1));
    assert_eq!(docs[0]["_file_id"].as_str(), Some("100"));
    assert_eq!(docs[0]["_extra"].as_str(), Some("extraTok"));
    assert_eq!(docs[0]["type"].as_str(), Some("GameObject"));
    assert_eq!(docs[0]["content"]["m_Name"].as_str(), Some("Foo"));
}

#[test]
fn asset_header_without_extra_word() {
    let out = asset_yaml_cleanup("--- !u!4 &-77\nTransform:\n  a: 1").unwrap();
    assert_eq!(
        out,
        "---\n_class_id: 4\n_file_id: \"-77\"\n_extra: \ntype: Transform\ncontent:\n  a: 1\n"
    );
}

#[test]
fn asset_without_lines_is_empty() {
    assert_eq!(asset_yaml_cleanup(""), Ok(String::new()));
    assert_eq!(asset_yaml_cleanup("\n\n%YAML 1.1\n"), Ok(String::new()));
}

#[test]
fn asset_tag_before_any_header_has_zero_ids() {
    let out = asset_yaml_cleanup("Prefab:\n").unwrap();
    assert_eq!(out, "_class_id: 0\n_file_id: \"0\"\n_extra: \ntype: Prefab\ncontent:\n");
}

#[test]
fn asset_tag_loses_every_colon() {
    let out = asset_yaml_cleanup("--- !u!1 &1\na:b:\n").unwrap();
    assert_eq!(out, "---\n_class_id: 1\n_file_id: \"1\"\n_extra: \ntype: ab\ncontent:\n");
}

#[test]
fn asset_quoted_line_is_a_field() {
    let out = asset_yaml_cleanup("'quoted': 1\n").unwrap();
    assert_eq!(out, "'quoted': 1\n");
}

#[test]
fn repeated_name_fields_are_numbered() {
    let input = "--- !u!114 &1\nMonoBehaviour:\n  m_Name: A\n  m_Name: B\n  m_Name: C\n--- !u!114 &2\nMonoBehaviour:\n  m_Name: D\n  m_Name: E\n";
    let out = asset_yaml_cleanup(input).unwrap();
    assert_eq!(
        out,
        "---\n_class_id: 114\n_file_id: \"1\"\n_extra: \ntype: MonoBehaviour\ncontent:\n  m_Name: A\n  m_Name1: B\n  m_Name2: C\n---\n_class_id: 114\n_file_id: \"2\"\n_extra: \ntype: MonoBehaviour\ncontent:\n  m_Name: D\n  m_Name1: E\n"
    );
}

#[test]
fn name_fields_beyond_the_tenth_get_two_digits() {
    let mut input = String::from("--- !u!1 &1\nA:\n");
    for _ in 0..12 {
        input.push_str("  m_Name: x\n");
    }
    let out = asset_yaml_cleanup(&input).unwrap();
    assert!(out.contains("  m_Name: x\n  m_Name1: x\n"));
    assert!(out.contains("  m_Name9: x\n  m_Name10: x\n  m_Name11: x\n"));
    assert!(!out.contains("m_Name12"));
}

#[test]
fn name_field_deeper_than_two_spaces_is_not_counted() {
    let out = asset_yaml_cleanup("--- !u!1 &1\nA:\n  m_Name: a\n    m_Name: b\n  m_Name: c\n").unwrap();
    assert!(out.ends_with("  m_Name: a\n    m_Name: b\n  m_Name1: c\n"));
}

#[test]
fn name_field_keeps_its_file_id() {
    let out = asset_yaml_cleanup("  m_Name: {fileID: 5}\n").unwrap();
    assert_eq!(out, "  m_Name: {fileID: 5}\n");
}

#[test]
fn file_ids_are_quoted() {
    let input = "--- !u!1 &1\nA:\n  x: {fileID: -5}\n  y: {fileID: 9223372036854775807, guid: abc}\n  z: {fileID: 0}\n";
    let out = asset_yaml_cleanup(input).unwrap();
    assert_eq!(
        out,
        "---\n_class_id: 1\n_file_id: \"1\"\n_extra: \ntype: A\ncontent:\n  x: {fileID: \"-5\"}\n  y: {fileID: \"9223372036854775807\", guid: abc}\n  z: {fileID: \"0\"}\n"
    );
    let docs = documents(&out);
    assert_eq!(docs[0]["content"]["x"]["fileID"].as_str(), Some("-5"));
    assert_eq!(
        docs[0]["content"]["y"]["fileID"].as_str(),
        Some("9223372036854775807")
    );
}

#[test]
fn only_the_first_file_id_of_a_line_is_quoted() {
    let out = asset_yaml_cleanup("  a: {fileID: 1}, b: {fileID: 2}\n").unwrap();
    assert_eq!(out, "  a: {fileID: \"1\"}, b: {fileID: 2}\n");
}

#[test]
fn file_id_takes_the_whole_run_of_digits_and_minus_signs() {
    let out = asset_yaml_cleanup("  a: fileID: 12-3-x\n  b: fileID: x\n  c: fileID:7\n").unwrap();
    assert_eq!(out, "  a: fileID: \"12-3-\"x\n  b: fileID: x\n  c: fileID:7\n");
}

#[test]
fn header_without_class_id_is_malformed() {
    assert_eq!(asset_yaml_cleanup("--- !u!abc &1\n"), Err(PackageError::MalformedDialect));
    assert_eq!(asset_yaml_cleanup("--- !u!\n"), Err(PackageError::MalformedDialect));
    assert_eq!(
        asset_yaml_cleanup("--- !u!2147483648 &1\n"),
        Err(PackageError::MalformedDialect)
    );
    assert_eq!(
        asset_yaml_cleanup("--- !u!1 &1\nA:\n--- !u!- &2\nB:\n"),
        Err(PackageError::MalformedDialect)
    );
}

#[test]
fn class_id_spans_thirty_two_bits() {
    let top = asset_yaml_cleanup("--- !u!2147483647 &1\nA:\n").unwrap();
    assert!(top.contains("_class_id: 2147483647\n"));
    let bottom = asset_yaml_cleanup("--- !u!-2147483648 &1\nA:\n").unwrap();
    assert!(bottom.contains("_class_id: -2147483648\n"));
    let plus = asset_yaml_cleanup("--- !u!+007 &1\nA:\n").unwrap();
    assert!(plus.contains("_class_id: 7\n"));
}

#[test]
fn unreadable_file_id_is_zero() {
    let out = asset_yaml_cleanup("--- !u!1 &abc\nA:\n").unwrap();
    assert_eq!(out, "---\n_class_id: 1\n_file_id: \"0\"\n_extra: \ntype: A\ncontent:\n");
    let missing = asset_yaml_cleanup("--- !u!1\nA:\n").unwrap();
    assert!(missing.contains("_file_id: \"0\"\n"));
    let too_long = asset_yaml_cleanup("--- !u!1 &9223372036854775808\nA:\n").unwrap();
    assert!(too_long.contains("_file_id: \"0\"\n"));
}

#[test]
fn file_id_is_read_without_its_ampersands() {
    let out = asset_yaml_cleanup("--- !u!1 &-9223372036854775808 x y\nA:\n").unwrap();
    assert_eq!(
        out,
        "---\n_class_id: 1\n_file_id: \"-9223372036854775808\"\n_extra: x\n\ntype: A\ncontent:\n"
    );
    let bare = asset_yaml_cleanup("--- !u!1 12&3\nA:\n").unwrap();
    assert!(bare.contains("_file_id: \"123\"\n"));
}

#[test]
fn header_words_may_stand_after_any_white_space() {
    let st = read_header(&chars("--- !u!  12\t&34 \u{a0} stripped  more")).unwrap();
    assert_eq!(st.class_id, 12);
    assert_eq!(st.file_id, 34);
    assert_eq!(st.extra, Some(chars("stripped")));
    assert_eq!(st.names, 0);
    assert!(read_header(&chars("--- !u!x")).is_none());
}

#[test]
fn asset_lines_are_told_apart() {
    assert_eq!(classify_asset_line(&chars("--- !u!1 &2")), AssetLine::Header);
    assert_eq!(classify_asset_line(&chars("%YAML 1.1")), AssetLine::Dropped);
    assert_eq!(classify_asset_line(&chars("")), AssetLine::Dropped);
    assert_eq!(classify_asset_line(&chars("GameObject:")), AssetLine::Tag);
    assert_eq!(classify_asset_line(&chars("--- x")), AssetLine::Tag);
    assert_eq!(classify_asset_line(&chars("  m_Name: a")), AssetLine::Name);
    assert_eq!(classify_asset_line(&chars(" m_Name: a")), AssetLine::Field);
    assert_eq!(classify_asset_line(&chars("'a': 1")), AssetLine::Field);
    assert_eq!(classify_asset_line(&chars("  x: 1")), AssetLine::Field);
}

#[test]
fn carriage_returns_before_line_feeds_are_dropped() {
    let out = asset_yaml_cleanup("--- !u!1 &2\r\nA:\r\n  b: 1\r\n").unwrap();
    assert_eq!(out, "---\n_class_id: 1\n_file_id: \"2\"\n_extra: \ntype: A\ncontent:\n  b: 1\n");
    let last = asset_yaml_cleanup("  b: 1\r").unwrap();
    assert_eq!(last, "  b: 1\r\n");
}

#[test]
fn meta_header_fields_move_to_the_end() {
    let input = "fileFormatVersion: 2\nguid: 0123456789abcdef0123456789abcdef\nlabels:\n- tagA\n- tagB\nDefaultImporter:\n  x: 1\n  ref: {fileID: 42}\n";
    let out = asset_meta_yaml_cleanup(input).unwrap();
    assert_eq!(
        out,
        "type: DefaultImporter\ncontent:\n  x: 1\n  ref: {fileID: \"42\"}\nfileFormatVersion: 2\nguid: 0123456789abcdef0123456789abcdef\nlabels:\n- tagA\n- tagB\n"
    );
    let docs = documents(&out);
    assert_eq!(docs.len(), 1);
    let labels = docs[0]["labels"].as_sequence().unwrap();
    assert_eq!(labels.len(), 2);
    assert_eq!(labels[0].as_str(), Some("tagA"));
    assert_eq!(labels[1].as_str(), Some("tagB"));
    assert_eq!(docs[0]["type"].as_str(), Some("DefaultImporter"));
    assert_eq!(docs[0]["content"]["ref"]["fileID"].as_str(), Some("42"));
}

#[test]
fn meta_label_list_ends_at_the_first_other_line() {
    let input = "labels:\n- tagA\n  - tagB \nguid: g\n- tagC\n";
    let out = asset_meta_yaml_cleanup(input).unwrap();
    assert_eq!(
        out,
        "  - tagB \ntype: - tagC\ncontent:\nfileFormatVersion: 2\nguid: g\nlabels:\n- tagA\n"
    );
}

#[test]
fn meta_label_list_may_open_twice() {
    let out = asset_meta_yaml_cleanup("labels:\n- a\nlabels:\n-  b  \n").unwrap();
    assert_eq!(out, "fileFormatVersion: 2\nguid: \nlabels:\n- a\n-  b\n");
}

#[test]
fn meta_folder_flag_only_when_yes() {
    let yes = asset_meta_yaml_cleanup("fileFormatVersion: 3\nguid: g\nfolderAsset: yes\n").unwrap();
    assert_eq!(yes, "fileFormatVersion: 3\nguid: g\nfolderAsset: true\n\n");
    let no = asset_meta_yaml_cleanup("guid: g\nfolderAsset: no\ntimeCreated: 5\nlicenseType: Free\n").unwrap();
    assert_eq!(no, "fileFormatVersion: 2\nguid: g\n");
    let later = asset_meta_yaml_cleanup("folderAsset: yes\nfolderAsset: maybe\n").unwrap();
    assert_eq!(later, "fileFormatVersion: 2\nguid: \n");
    let with_labels = asset_meta_yaml_cleanup("labels:\n- l\nfolderAsset: yes\n").unwrap();
    assert_eq!(
        with_labels,
        "fileFormatVersion: 2\nguid: \nfolderAsset: true\n\nlabels:\n- l\n"
    );
}

#[test]
fn meta_version_must_be_a_number() {
    assert_eq!(
        asset_meta_yaml_cleanup("fileFormatVersion: two\n"),
        Err(PackageError::MalformedDialect)
    );
    assert_eq!(
        asset_meta_yaml_cleanup("fileFormatVersion: -1\n"),
        Err(PackageError::MalformedDialect)
    );
    assert_eq!(
        asset_meta_yaml_cleanup("fileFormatVersion:\n"),
        Err(PackageError::MalformedDialect)
    );
    assert_eq!(
        asset_meta_yaml_cleanup("fileFormatVersion: 18446744073709551616\n"),
        Err(PackageError::MalformedDialect)
    );
    assert_eq!(
        asset_meta_yaml_cleanup("fileFormatVersion: +18446744073709551615 : x\n"),
        Ok(String::from("fileFormatVersion: 18446744073709551615\nguid: \n"))
    );
}

#[test]
fn meta_field_value_ends_at_the_second_colon() {
    assert_eq!(text(&read_field_value(&chars("guid:  ab:cd"))), "ab");
    assert_eq!(text(&read_field_value(&chars("guid:"))), "");
    assert_eq!(text(&read_field_value(&chars("no colon"))), "");
    assert_eq!(text(&read_field_value(&chars("a:\t b c \u{2003}"))), "b c");
}

#[test]
fn meta_line_at_the_margin_is_a_type_tag() {
    let out = asset_meta_yaml_cleanup("TextureImporter:\n\n  a: {fileID: -1}\n").unwrap();
    assert_eq!(
        out,
        "type: TextureImporter\ncontent:\ntype: \ncontent:\n  a: {fileID: \"-1\"}\nfileFormatVersion: 2\nguid: \n"
    );
}

#[test]
fn meta_lines_are_told_apart() {
    assert_eq!(classify_meta_line(true, &chars("- a")), MetaLine::Label);
    assert_eq!(classify_meta_line(false, &chars("- a")), MetaLine::Tag);
    assert_eq!(classify_meta_line(true, &chars("fileFormatVersion: 2")), MetaLine::Version);
    assert_eq!(classify_meta_line(false, &chars("guid: x")), MetaLine::Guid);
    assert_eq!(classify_meta_line(false, &chars("timeCreated: 1")), MetaLine::TimeCreated);
    assert_eq!(classify_meta_line(false, &chars("licenseType: Pro")), MetaLine::LicenseType);
    assert_eq!(classify_meta_line(false, &chars("folderAsset: yes")), MetaLine::FolderAsset);
    assert_eq!(classify_meta_line(true, &chars("labels:")), MetaLine::Labels);
    assert_eq!(classify_meta_line(false, &chars("NativeFormatImporter:")), MetaLine::Tag);
    assert_eq!(classify_meta_line(false, &chars("")), MetaLine::Tag);
    assert_eq!(classify_meta_line(true, &chars("  guid: x")), MetaLine::Field);
}
