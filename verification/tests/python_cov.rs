use apex::hash::fnv1a_hash;
use apex::index::python::{
    parse_apex_format, parse_coverage_all_branches_str, parse_coverage_executed_str, strip_root_exec,
};

fn chars(s: &str) -> Vec<char> {
    s.chars().collect()
}

#[test]
fn fnv1a_matches_instrument_crate() {
    assert_eq!(fnv1a_hash(""), 0xcbf2_9ce4_8422_2325);
    let h = fnv1a_hash("src/app.py");
    assert_ne!(h, 0);
}

#[test]
fn parse_apex_format_works() {
    let files = vec![("src/app.py".to_string(), vec![(10i64, 12i64), (20, -1)])];
    let branches = parse_apex_format(&files, "/tmp");
    assert_eq!(branches.len(), 2);
    assert_eq!(branches[0].direction, 0);
    assert_eq!(branches[1].direction, 1);
}

#[test]
fn parse_coverage_executed_apex_format() {
    let json = r#"{
        "files": {
            "mod.py": {
                "executed_branches": [[5, 8], [10, -1]],
                "missing_branches": [],
                "all_branches": [[5, 8], [10, -1]]
            }
        }
    }"#;
    let branches = parse_coverage_executed_str(json, "/tmp").unwrap();
    assert_eq!(branches.len(), 2);
}

#[test]
fn coverage_branches_use_relative_path_ids() {
    let json = r#"{"files": {"/repo/src/a.py": {"executed_branches": [[-7, 9]]}}}"#;
    let branches = parse_coverage_executed_str(json, "/repo").unwrap();
    assert_eq!(branches.len(), 1);
    assert_eq!(branches[0].file_id, fnv1a_hash("src/a.py"));
    assert_eq!(branches[0].line, 7);
    assert_eq!(branches[0].col, 0);
    assert_eq!(branches[0].direction, 0);
}

#[test]
fn coverage_all_branches_include_missing_arcs() {
    let json = r#"{"files": {"m.py": {
        "executed_branches": [[1, 2]],
        "missing_branches": [[3, -1], [4]],
        "extra": 1
    }}}"#;
    let (branches, paths) = parse_coverage_all_branches_str(json, "/x").unwrap();
    assert_eq!(branches.len(), 2);
    assert_eq!(branches[1].line, 3);
    assert_eq!(branches[1].direction, 1);
    assert_eq!(paths, vec![(fnv1a_hash("m.py"), "m.py".to_string())]);
    let executed = parse_coverage_executed_str(json, "/x").unwrap();
    assert_eq!(executed.len(), 1);
}

#[test]
fn coverage_report_without_files_is_empty() {
    assert_eq!(parse_coverage_executed_str("{}", "/x").unwrap().len(), 0);
}

#[test]
fn coverage_report_errors() {
    assert!(parse_coverage_executed_str("not json", "/x").is_err());
    assert!(parse_coverage_executed_str(r#"{"files": 3}"#, "/x").is_err());
    assert!(parse_coverage_executed_str(r#"{"files": {"a.py": []}}"#, "/x").is_err());
}

#[test]
fn non_integer_arc_ends_read_as_zero() {
    let json = r#"{"files": {"a.py": {"executed_branches": [["x", 1.5]]}}}"#;
    let b = parse_coverage_executed_str(json, "").unwrap();
    assert_eq!(b[0].line, 0);
    assert_eq!(b[0].direction, 0);
    assert_eq!(b[0].file_id, fnv1a_hash("a.py"));
}

#[test]
fn strip_root_cases() {
    let s = |p: &str, r: &str| -> String { strip_root_exec(&chars(p), &chars(r)).into_iter().collect() };
    assert_eq!(s("/tmp/a/b.py", "/tmp"), "a/b.py");
    assert_eq!(s("/tmp/a/b.py", "/tmp/"), "a/b.py");
    assert_eq!(s("/tmp", "/tmp"), "");
    assert_eq!(s("/tmpx/a.py", "/tmp"), "/tmpx/a.py");
    assert_eq!(s("src/app.py", "/tmp"), "src/app.py");
    assert_eq!(s("/a.py", "/"), "a.py");
    assert_eq!(s("a.py", ""), "a.py");
}
