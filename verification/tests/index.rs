use apex::index::impact::{analyze, ChangeRisk};
use apex::index::types::{branch_key, BranchIndex, TestTrace};
use apex::strmap::StrMap;
use apex::types::{BranchId, ExecutionStatus, Language};
use std::collections::HashMap;

fn make_branch(file_id: u64, line: u32, direction: u8) -> BranchId {
    BranchId::new(file_id, line, 0, direction)
}

fn empty_index(source_hash: &str) -> BranchIndex {
    BranchIndex {
        traces: vec![],
        profiles: StrMap::new(),
        file_paths: HashMap::new(),
        total_branches: 0,
        covered_branches: 0,
        created_at: String::new(),
        language: Language::Python,
        target_root: String::new(),
        source_hash: source_hash.to_string(),
    }
}

fn make_index(traces: Vec<TestTrace>, file_paths: HashMap<u64, String>) -> BranchIndex {
    let profiles = BranchIndex::build_profiles(&traces);
    let covered_branches = profiles.len();
    BranchIndex {
        traces,
        profiles,
        file_paths,
        total_branches: covered_branches + 5,
        covered_branches,
        created_at: String::new(),
        language: Language::Python,
        target_root: "/project".to_string(),
        source_hash: String::new(),
    }
}

fn trace(name: &str, branches: Vec<BranchId>) -> TestTrace {
    TestTrace { test_name: name.into(), branches, duration_ms: 10, status: ExecutionStatus::Pass }
}

#[test]
fn branch_key_deterministic() {
    let b = make_branch(42, 10, 0);
    assert_eq!(branch_key(&b), branch_key(&b));
}

#[test]
fn branch_key_differs_by_direction() {
    let a = make_branch(42, 10, 0);
    let b = make_branch(42, 10, 1);
    assert_ne!(branch_key(&a), branch_key(&b));
}

#[test]
fn branch_key_format() {
    assert_eq!(branch_key(&make_branch(42, 10, 1)), "42:10:0:1:255");
    let mut b = make_branch(7, 3, 0);
    b.condition_index = Some(2);
    assert_eq!(branch_key(&b), "7:3:0:0:2");
}

#[test]
fn build_profiles_empty() {
    let profiles = BranchIndex::build_profiles(&[]);
    assert!(profiles.is_empty());
}

#[test]
fn build_profiles_counts_correctly() {
    let traces = vec![
        TestTrace {
            test_name: "test_a".into(),
            branches: vec![make_branch(1, 10, 0), make_branch(1, 20, 0)],
            duration_ms: 100,
            status: ExecutionStatus::Pass,
        },
        TestTrace {
            test_name: "test_b".into(),
            branches: vec![make_branch(1, 10, 0), make_branch(2, 5, 1)],
            duration_ms: 50,
            status: ExecutionStatus::Pass,
        },
    ];

    let profiles = BranchIndex::build_profiles(&traces);

    let key_10 = branch_key(&make_branch(1, 10, 0));
    let profile = profiles.get(key_10.as_str()).unwrap();
    assert_eq!(profile.hit_count, 2);
    assert_eq!(profile.test_count, 2);
    assert_eq!(profile.test_names, vec!["test_a", "test_b"]);

    let key_20 = branch_key(&make_branch(1, 20, 0));
    assert_eq!(profiles.get(key_20.as_str()).unwrap().test_count, 1);
}

#[test]
fn is_stale_detects_change() {
    let index = empty_index("old_hash");
    assert!(index.is_stale("new_hash"));
    assert!(!index.is_stale("old_hash"));
}

#[test]
fn uncovered_branch_ids_finds_missing() {
    let traces = vec![trace("test_a", vec![make_branch(1, 10, 0)])];
    let mut index = make_index(traces, HashMap::new());
    index.total_branches = 3;
    index.covered_branches = 1;

    let all = vec![make_branch(1, 10, 0), make_branch(1, 20, 0), make_branch(2, 5, 1)];

    let uncovered = index.uncovered_branch_ids(&all);
    assert_eq!(uncovered.len(), 2);
    assert_eq!(uncovered, vec![make_branch(1, 20, 0), make_branch(2, 5, 1)]);
}

#[test]
fn dead_branches_lists_unhit_profiles() {
    let traces = vec![trace("t", vec![make_branch(1, 1, 0)])];
    let index = make_index(traces, HashMap::new());
    assert!(index.dead_branches().is_empty());
}

#[test]
fn analyze_finds_affected_tests() {
    let file_id = 42;
    let traces = vec![
        trace("test_auth", vec![make_branch(file_id, 10, 0), make_branch(file_id, 20, 1)]),
        trace("test_login", vec![make_branch(file_id, 10, 0), make_branch(99, 5, 0)]),
        trace("test_unrelated", vec![make_branch(99, 5, 0)]),
    ];
    let file_paths = HashMap::from([
        (file_id, "src/auth.py".to_string()),
        (99, "src/utils.py".to_string()),
    ]);

    let index = make_index(traces, file_paths);
    let report = analyze(&index, &["src/auth.py".to_string()]);

    assert_eq!(report.selected_tests, 2);
    assert!(report.affected_tests.contains(&"test_auth".to_string()));
    assert!(report.affected_tests.contains(&"test_login".to_string()));
    assert!(!report.affected_tests.contains(&"test_unrelated".to_string()));
    assert_eq!(report.total_tests, 3);
    assert!(report.untested_files.is_empty());
}

#[test]
fn analyze_untested_file() {
    let traces = vec![trace("test_a", vec![make_branch(1, 10, 0)])];
    let file_paths = HashMap::from([(1, "src/covered.py".to_string())]);

    let index = make_index(traces, file_paths);
    let report = analyze(&index, &["src/new_file.py".to_string()]);

    assert_eq!(report.selected_tests, 0);
    assert_eq!(report.untested_files.len(), 1);
    assert_eq!(report.file_impacts[0].risk, ChangeRisk::UntestedChange);
}

#[test]
fn analyze_low_coverage() {
    let file_id = 10;
    let traces = vec![trace("test_only", vec![make_branch(file_id, 5, 0)])];
    let file_paths = HashMap::from([(file_id, "src/risky.py".to_string())]);

    let index = make_index(traces, file_paths);
    let report = analyze(&index, &["src/risky.py".to_string()]);

    assert_eq!(report.file_impacts[0].risk, ChangeRisk::LowCoverage);
    assert_eq!(report.selected_tests, 1);
}

#[test]
fn analyze_well_tested() {
    let file_id = 10;
    let traces = vec![
        trace("test_a", vec![make_branch(file_id, 5, 0)]),
        trace("test_b", vec![make_branch(file_id, 5, 0)]),
        trace("test_c", vec![make_branch(file_id, 10, 1)]),
    ];
    let file_paths = HashMap::from([(file_id, "src/solid.py".to_string())]);

    let index = make_index(traces, file_paths);
    let report = analyze(&index, &["src/solid.py".to_string()]);

    assert_eq!(report.file_impacts[0].risk, ChangeRisk::WellTested);
    assert_eq!(report.selected_tests, 3);
    assert_eq!(report.file_impacts[0].branch_count, 2);
}

#[test]
fn analyze_empty_changed_files() {
    let traces = vec![trace("test_a", vec![make_branch(1, 10, 0)])];
    let index = make_index(traces, HashMap::from([(1, "src/a.py".to_string())]));
    let report = analyze(&index, &[]);

    assert_eq!(report.selected_tests, 0);
    assert!(report.affected_tests.is_empty());
    assert!(report.file_impacts.is_empty());
}

#[test]
fn analyze_empty_index() {
    let index = make_index(vec![], HashMap::new());
    let report = analyze(&index, &["src/new.py".to_string()]);

    assert_eq!(report.total_tests, 0);
    assert_eq!(report.selected_tests, 0);
    assert_eq!(report.untested_files.len(), 1);
}

#[test]
fn analyze_multiple_changed_files() {
    let traces = vec![
        trace("test_a", vec![make_branch(1, 10, 0)]),
        trace("test_b", vec![make_branch(2, 20, 0)]),
    ];
    let file_paths = HashMap::from([(1, "src/a.py".to_string()), (2, "src/b.py".to_string())]);

    let index = make_index(traces, file_paths);
    let report = analyze(&index, &["src/a.py".to_string(), "src/b.py".to_string()]);

    assert_eq!(report.selected_tests, 2);
    assert_eq!(report.file_impacts.len(), 2);
}

#[test]
fn affected_tests_deduplicated() {
    let traces = vec![trace("test_shared", vec![make_branch(1, 10, 0), make_branch(2, 20, 0)])];
    let file_paths = HashMap::from([(1, "src/a.py".to_string()), (2, "src/b.py".to_string())]);

    let index = make_index(traces, file_paths);
    let report = analyze(&index, &["src/a.py".to_string(), "src/b.py".to_string()]);

    assert_eq!(report.selected_tests, 1);
    assert_eq!(report.affected_tests, vec!["test_shared"]);
}

#[test]
fn analyze_sorts_affected_tests_and_counts_distinct_traces() {
    let traces = vec![
        trace("zeta", vec![make_branch(1, 1, 0)]),
        trace("alpha", vec![make_branch(1, 2, 0)]),
        trace("alpha", vec![make_branch(3, 2, 0)]),
    ];
    let file_paths = HashMap::from([(1, "a.py".to_string())]);
    let index = make_index(traces, file_paths);
    let report = analyze(&index, &["a.py".to_string()]);
    assert_eq!(report.affected_tests, vec!["alpha", "zeta"]);
    assert_eq!(report.total_tests, 2);
}

#[test]
fn build_profiles_counts_each_test_once() {
    let traces = vec![
        TestTrace {
            test_name: "test_a".into(),
            branches: vec![make_branch(1, 10, 0), make_branch(1, 10, 0)],
            duration_ms: 1,
            status: ExecutionStatus::Pass,
        },
        TestTrace {
            test_name: "test_b".into(),
            branches: vec![make_branch(1, 10, 0)],
            duration_ms: 1,
            status: ExecutionStatus::Pass,
        },
    ];
    let profiles = BranchIndex::build_profiles(&traces);
    let p = profiles.get(branch_key(&make_branch(1, 10, 0)).as_str()).unwrap();
    assert_eq!(p.hit_count, 3);
    assert_eq!(p.test_count, 2);
    assert_eq!(p.test_names, vec!["test_a", "test_b"]);
}
