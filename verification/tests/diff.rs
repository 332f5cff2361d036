use apex::diff::{filter_findings_by_changed_lines, parse_diff_output, parse_hunk_header, ChangedLineMap};
use std::collections::HashSet;

const SAMPLE_DIFF: &str = r#"diff --git a/src/lib.rs b/src/lib.rs
index abc..def 100644
--- a/src/lib.rs
+++ b/src/lib.rs
@@ -10,3 +10,5 @@ fn old() {}
+fn new_a() {}
+fn new_b() {}
 fn unchanged() {}
+fn new_c() {}
+fn new_d() {}
@@ -50 +52,1 @@ fn other() {}
+fn added_single() {}
diff --git a/src/main.rs b/src/main.rs
index 111..222 100644
--- a/src/main.rs
+++ b/src/main.rs
@@ -1,0 +2,3 @@ fn main() {
+    let x = 1;
+    let y = 2;
+    let z = x + y;
"#;

#[test]
fn parse_diff_extracts_changed_lines() {
    let changed = parse_diff_output(SAMPLE_DIFF);

    let lib_lines = changed.get("src/lib.rs").unwrap();
    assert!(lib_lines.contains(&10));
    assert!(lib_lines.contains(&11));
    assert!(lib_lines.contains(&14));
    assert!(lib_lines.contains(&52));

    let main_lines = changed.get("src/main.rs").unwrap();
    assert!(main_lines.contains(&2));
    assert!(main_lines.contains(&3));
    assert!(main_lines.contains(&4));
    assert!(!main_lines.contains(&1));
}

#[test]
fn parse_diff_empty_input() {
    let changed = parse_diff_output("");
    assert!(changed.is_empty());
}

#[test]
fn parse_hunk_header_standard() {
    let lines = parse_hunk_header("@@ -10,3 +20,4 @@ fn foo() {}").unwrap();
    assert_eq!(lines, (20u32..24).collect());
}

#[test]
fn parse_hunk_header_single_line_no_comma() {
    let lines = parse_hunk_header("@@ -10 +20 @@ fn bar() {}").unwrap();
    assert_eq!(lines.len(), 1);
    assert!(lines.contains(&20));
}

#[test]
fn parse_hunk_header_pure_deletion() {
    let lines = parse_hunk_header("@@ -5,3 +5,0 @@").unwrap();
    assert!(lines.is_empty());
}

#[test]
fn filter_findings_returns_matching_indices() {
    let changed = {
        let mut m = ChangedLineMap::new();
        let mut s = HashSet::new();
        s.insert(10u32);
        s.insert(20u32);
        m.insert("src/lib.rs".to_string(), s);
        m
    };

    let findings = vec![
        ("src/lib.rs".to_string(), Some(10u32)),
        ("src/lib.rs".to_string(), Some(15u32)),
        ("src/lib.rs".to_string(), Some(20u32)),
        ("src/other.rs".to_string(), Some(10u32)),
        ("src/lib.rs".to_string(), None),
    ];

    let indices = filter_findings_by_changed_lines(&findings, &changed);
    assert_eq!(indices, vec![0, 2]);
}

#[test]
fn parse_diff_deleted_file_and_orphan_hunks_ignored() {
    let diff = "@@ -1 +1,2 @@\n+++ /dev/null\n@@ -1,2 +1,2 @@\n+++ b/a.rs\n@@ -1 +7 @@\n@@ -3 +7,2 @@\n";
    let changed = parse_diff_output(diff);
    assert_eq!(changed.len(), 1);
    let a = changed.get("a.rs").unwrap();
    let expected: HashSet<u32> = [7u32, 8].into_iter().collect();
    assert_eq!(*a, expected);
}

#[test]
fn parse_hunk_header_rejects_other_lines() {
    assert!(parse_hunk_header("diff --git a b").is_none());
    assert!(parse_hunk_header("@@ -1 +x @@").is_none());
}

#[test]
fn filter_matches_by_path_components() {
    let mut m = ChangedLineMap::new();
    let mut s = HashSet::new();
    s.insert(3u32);
    m.insert("lib.rs".to_string(), s);
    let findings = vec![
        ("/repo/src/lib.rs".to_string(), Some(3u32)),
        ("/repo/src/mylib.rs".to_string(), Some(3u32)),
        ("./lib.rs".to_string(), Some(3u32)),
    ];
    assert_eq!(filter_findings_by_changed_lines(&findings, &m), vec![0, 2]);
}
