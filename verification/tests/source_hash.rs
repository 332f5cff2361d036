use apex::index::location_order::location_order;
use apex::index::python::collected_test_ids;
use apex::index::source_hash::{is_source_extension, skipped_entry, source_extensions, source_files_hash};
use apex::types::Language;

#[test]
fn source_extensions_table() {
    assert_eq!(source_extensions(Language::JavaScript), vec!["js".to_string(), "ts".to_string()]);
    assert_eq!(source_extensions(Language::C), vec!["c".to_string(), "h".to_string()]);
    assert!(is_source_extension("py", Language::Python));
    assert!(!is_source_extension("pyc", Language::Python));
}

#[test]
fn skipped_entries() {
    for n in [".git", "target", "node_modules", "__pycache__", ".venv", "venv"] {
        assert!(skipped_entry(n), "{n}");
    }
    assert!(!skipped_entry("src"));
    assert!(!skipped_entry("venvs"));
}

#[test]
fn source_files_hash_known_values() {
    let empty: Vec<(String, Vec<u8>)> = vec![];
    assert_eq!(source_files_hash(&empty), "e3b0c44298fc1c149afbf4c8996fb92427ae41e4649b934ca495991b7852b855");
    // "abc" split as path "ab" and contents "c".
    let files = vec![("ab".to_string(), b"c".to_vec())];
    assert_eq!(source_files_hash(&files), "ba7816bf8f01cfea414140de5dae2223b00361a396177a9cb410ff61f20015ad");
}

#[test]
fn collected_test_ids_filter() {
    let out = "tests/test_a.py::test_one\n  tests/test_a.py::test_two  \n\n= 2 tests collected =\n- warn::x\nno colons\n";
    assert_eq!(
        collected_test_ids(out),
        vec!["tests/test_a.py::test_one".to_string(), "tests/test_a.py::test_two".to_string()]
    );
}

#[test]
fn location_order_by_path_components_then_line() {
    let keys = vec![
        ("a/b.py".to_string(), 5u32),
        ("a-b.py".to_string(), 1),
        ("a/b.py".to_string(), 2),
        ("a//b.py".to_string(), 2),
        ("./z.py".to_string(), 9),
    ];
    // "./z.py" starts with the current-directory component, which sorts
    // before names; "a" < "a-b.py" as components; equal locations keep order.
    assert_eq!(location_order(&keys), vec![4, 2, 3, 0, 1]);
}
