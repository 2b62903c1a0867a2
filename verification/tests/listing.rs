use unitypackage_util::entry::{EntryFile, PackageEntry};
use unitypackage_util::error::PackageError;
use unitypackage_util::listing::{
    comes_first, keeps, list_item, passes_filter, pathnames, sort_by_pathname, ListItem,
};

const A: &str = "AAAAAAAAAAAAAAAAAAAAAAAAAAAAAAAA";

fn tar(path: &str, content: &[u8]) -> PackageEntry {
    PackageEntry::Tar(EntryFile {
        path: path.to_string(),
        size: content.len(),
        content: content.to_vec(),
    })
}

fn item(guid: &str, pathname: &str) -> ListItem {
    ListItem {
        guid: guid.to_string(),
        pathname: pathname.to_string(),
    }
}

fn cs(s: &str) -> Vec<char> {
    s.chars().collect()
}

fn pairs(items: &[ListItem]) -> Vec<(String, String)> {
    items
        .iter()
        .map(|i| (i.guid.clone(), i.pathname.clone()))
        .collect()
}

#[test]
fn pathname_file_of_an_asset_is_listed() {
    let found = list_item(&tar(&format!("{}/pathname", A), b"Assets/Foo.prefab\n00"))
        .unwrap()
        .unwrap();
    assert_eq!(found.guid, A);
    assert_eq!(found.pathname, "Assets/Foo.prefab");
}

#[test]
fn other_files_are_not_listed() {
    assert!(list_item(&tar(&format!("{}/asset", A), b"x")).unwrap().is_none());
    assert!(list_item(&tar(&format!("{}/asset.meta", A), b"x")).unwrap().is_none());
    assert!(list_item(&tar("short/pathname", b"x")).unwrap().is_none());
    assert!(list_item(&tar(&format!("{}/pathname.bak", A), b"x")).unwrap().is_none());
    assert!(list_item(&tar("short/pathname", &[0xff])).unwrap().is_none());
}

#[test]
fn pathname_file_that_is_no_text_fails() {
    assert!(matches!(
        list_item(&tar(&format!("{}/pathname", A), &[0x41, 0xff])),
        Err(PackageError::Io)
    ));
}

#[test]
fn filter_lets_pass_what_lies_directly_in_the_directory() {
    assert!(passes_filter(Some("Assets"), None));
    assert!(passes_filter(None, None));
    assert!(passes_filter(Some("Assets"), Some("Assets")));
    assert!(!passes_filter(Some("Assets/Sub"), Some("Assets")));
    assert!(!passes_filter(Some("assets"), Some("Assets")));
    assert!(!passes_filter(None, Some("Assets")));
    assert!(passes_filter(Some(""), Some("")));
}

#[test]
fn items_are_kept_by_the_parent_of_their_path() {
    let foo = item(A, "Assets/Models/Foo.prefab");
    assert!(keeps(&foo, None));
    assert!(keeps(&foo, Some("Assets/Models")));
    assert!(!keeps(&foo, Some("Assets")));
    assert!(!keeps(&foo, Some("Assets/Models/Foo.prefab")));
    let top = item(A, "Foo.prefab");
    assert!(keeps(&top, Some("")));
    let nothing = item(A, "");
    assert!(keeps(&nothing, None));
    assert!(!keeps(&nothing, Some("")));
}

#[test]
fn filter_that_passes_an_item_begins_its_path() {
    let paths = ["Assets/a", "Assets/Sub/b", "Assets//c", "Assets/./d", "/e", "f", "", "Assets/"];
    let filters = ["", "/", "Assets", "Assets/", "Assets/Sub", "Assets/.", "Sub", "f"];
    for path in paths {
        for dir in filters {
            if keeps(&item(A, path), Some(dir)) {
                assert!(!path.is_empty());
                assert!(path.starts_with(dir));
            }
        }
    }
    assert!(keeps(&item(A, "Assets//c"), Some("Assets")));
    assert!(keeps(&item(A, "Assets/./d"), Some("Assets")));
    assert!(!keeps(&item(A, "Assets/Sub/b"), Some("Sub")));
}

#[test]
fn order_is_that_of_a_dictionary_by_code_points() {
    let samples = [
        "", "a", "A", "ab", "abc", "b", "Assets/a", "Assets/B", "Assets", "é", "z", "日本", "a\u{10000}",
        "a\u{ffff}", "Z",
    ];
    for a in samples {
        for b in samples {
            assert_eq!(comes_first(&cs(a), &cs(b)), a <= b);
        }
    }
}

#[test]
fn sorting_orders_by_path_and_keeps_ties_in_place() {
    let items = vec![
        item("3", "Assets/c"),
        item("1", "Assets/a"),
        item("x", "Assets/b"),
        item("y", "Assets/b"),
        item("2", "Assets/B"),
        item("z", "Assets/b"),
        item("0", ""),
    ];
    let sorted = sort_by_pathname(items);
    assert_eq!(
        pairs(&sorted),
        vec![
            ("0".to_string(), "".to_string()),
            ("2".to_string(), "Assets/B".to_string()),
            ("1".to_string(), "Assets/a".to_string()),
            ("x".to_string(), "Assets/b".to_string()),
            ("y".to_string(), "Assets/b".to_string()),
            ("z".to_string(), "Assets/b".to_string()),
            ("3".to_string(), "Assets/c".to_string()),
        ]
    );
    assert_eq!(
        pathnames(&sorted),
        vec!["", "Assets/B", "Assets/a", "Assets/b", "Assets/b", "Assets/b", "Assets/c"]
    );
}

#[test]
fn sorting_agrees_with_the_standard_library() {
    let names = ["q", "b/a", "b", "a/z", "a", "é", "a/z", "B", "", "a/b/c", "日", "a b"];
    let items: Vec<ListItem> = names
        .iter()
        .enumerate()
        .map(|(i, n)| item(&i.to_string(), n))
        .collect();
    let mut expected = pairs(&items);
    expected.sort_by(|a, b| a.1.cmp(&b.1));
    assert_eq!(pairs(&sort_by_pathname(items)), expected);
    assert!(sort_by_pathname(Vec::new()).is_empty());
}
