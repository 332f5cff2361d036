use apex::index::analysis::{detect_flaky_tests, extract_func_name, extract_functions};
use apex::index::types::TestTrace;
use apex::types::{BranchId, ExecutionStatus, Language};
use std::collections::HashMap;

fn br(file_id: u64, line: u32, dir: u8) -> BranchId {
    BranchId::new(file_id, line, 0, dir)
}

fn tr(name: &str, branches: Vec<BranchId>) -> TestTrace {
    TestTrace { test_name: name.into(), branches, duration_ms: 50, status: ExecutionStatus::Pass }
}

#[test]
fn flaky_detect_no_divergence() {
    let run1 = vec![tr("test_a", vec![br(1, 10, 0)])];
    let run2 = vec![tr("test_a", vec![br(1, 10, 0)])];
    let flaky = detect_flaky_tests(&[run1, run2], &HashMap::new());
    assert!(flaky.is_empty());
}

#[test]
fn flaky_detect_finds_divergence() {
    let run1 = vec![tr("test_flaky", vec![br(1, 10, 0), br(1, 20, 0)])];
    let run2 = vec![tr("test_flaky", vec![br(1, 10, 0), br(1, 20, 1)])];
    let flaky = detect_flaky_tests(&[run1, run2], &HashMap::new());
    assert_eq!(flaky.len(), 1);
    assert_eq!(flaky[0].test_name, "test_flaky");
    assert!(flaky[0].divergent_branches.len() >= 1);
}

#[test]
fn flaky_detect_empty_runs() {
    let flaky = detect_flaky_tests(&[], &HashMap::new());
    assert!(flaky.is_empty());
}

#[test]
fn flaky_detect_reports_ratio_path_and_order() {
    let run1 = vec![tr("a", vec![br(1, 10, 0)]), tr("b", vec![br(2, 1, 0), br(2, 2, 0)])];
    let run2 = vec![tr("a", vec![br(1, 10, 0), br(1, 11, 1)]), tr("b", vec![])];
    let run3 = vec![tr("a", vec![br(1, 10, 0)])];
    let paths = HashMap::from([(1u64, "src/a.py".to_string())]);
    let flaky = detect_flaky_tests(&[run1, run2, run3], &paths);
    assert_eq!(flaky.len(), 2);
    assert_eq!(flaky[0].test_name, "b");
    assert_eq!(flaky[0].divergent_branches.len(), 2);
    assert_eq!(flaky[0].total_runs, 2);
    assert_eq!(flaky[0].divergent_branches[0].file_path, None);
    assert_eq!(flaky[1].test_name, "a");
    assert_eq!(flaky[1].divergent_runs, 3);
    let d = &flaky[1].divergent_branches[0];
    assert_eq!(d.hit_ratio, "1/3");
    assert_eq!(d.branch, br(1, 11, 1));
    assert_eq!(d.file_path.as_deref(), Some("src/a.py"));
}

#[test]
fn extract_func_name_python() {
    let name = extract_func_name("def process_order(order):", Language::Python);
    assert_eq!(name, "process_order");
}

#[test]
fn extract_func_name_rust() {
    let name = extract_func_name("pub async fn handle_request(req: Request) -> Response {", Language::Rust);
    assert_eq!(name, "handle_request");
}

#[test]
fn extract_func_name_python_no_args() {
    let name = extract_func_name("def setup():", Language::Python);
    assert_eq!(name, "setup");
}

#[test]
fn extract_func_name_other_languages_and_fallbacks() {
    assert_eq!(extract_func_name("public static void main(String[] args) {", Language::Java), "main(String");
    assert_eq!(extract_func_name("function go() {", Language::JavaScript), "go");
    assert_eq!(extract_func_name("x = 1", Language::Python), "unknown");
    assert_eq!(extract_func_name("let x = 1;", Language::Rust), "unknown");
    assert_eq!(extract_func_name("fn generic<T>(t: T)", Language::Rust), "generic");
    assert_eq!(extract_func_name("( ) {", Language::Java), "unknown");
}

#[test]
fn extract_functions_splits_at_declarations() {
    let lines = vec!["def a():", "    x = 1", "# def not_me():", "def b(y):", "    return y"];
    let fns = extract_functions(&lines, Language::Python);
    assert_eq!(fns, vec![("a".to_string(), 1, 3), ("b".to_string(), 4, 5)]);
    assert!(extract_functions(&["x = 1"], Language::Python).is_empty());
}

fn surface_index(traces: Vec<TestTrace>, paths: Vec<(u64, &str)>, total: usize, covered: usize) -> apex::index::types::BranchIndex {
    apex::index::types::BranchIndex {
        profiles: apex::index::types::BranchIndex::build_profiles(&traces),
        traces,
        file_paths: paths.into_iter().map(|(k, v)| (k, v.to_string())).collect(),
        total_branches: total,
        covered_branches: covered,
        created_at: String::new(),
        language: Language::Python,
        target_root: String::new(),
        source_hash: String::new(),
    }
}

#[test]
fn attack_surface_empty_pattern() {
    let index = surface_index(vec![tr("test_internal", vec![br(1, 10, 0)])], vec![(1, "src/lib.py")], 5, 1);
    let report = apex::index::surface::analyze_attack_surface(&index, "test_api");
    assert_eq!(report.entry_tests, 0);
    assert_eq!(report.reachable_branches, 0);
}

#[test]
fn attack_surface_matches_pattern() {
    let traces = vec![
        tr("test_api_login", vec![br(1, 10, 0), br(2, 5, 0)]),
        tr("test_internal_helper", vec![br(3, 20, 0)]),
    ];
    let index = surface_index(
        traces,
        vec![(1, "src/api.py"), (2, "src/auth.py"), (3, "src/internal.py")],
        10,
        3,
    );
    let report = apex::index::surface::analyze_attack_surface(&index, "test_api");
    assert_eq!(report.entry_tests, 1);
    assert_eq!(report.reachable_branches, 2);
    assert_eq!(report.reachable_files, 2);
}

#[test]
fn attack_surface_details_sorted_and_labelled() {
    let traces = vec![
        tr("test_api_a", vec![br(7, 1, 0), br(2, 5, 0), br(2, 6, 0), br(2, 5, 0)]),
        tr("test_api_b", vec![br(2, 7, 1)]),
        tr("other", vec![br(9, 1, 0)]),
    ];
    let index = surface_index(traces, vec![(2, "src/auth.py")], 10, 5);
    let report = apex::index::surface::analyze_attack_surface(&index, "test_api");
    assert_eq!(report.entry_pattern, "test_api");
    assert_eq!(report.entry_tests, 2);
    assert_eq!(report.reachable_branches, 4);
    assert_eq!(report.total_branches, 10);
    let d = &report.reachable_file_details;
    assert_eq!(d.len(), 2);
    assert_eq!(d[0].file_path, "src/auth.py");
    assert_eq!(d[0].reachable_branches, 3);
    assert_eq!(d[0].total_branches_in_file, 3);
    assert_eq!(d[1].file_path, "<0000000000000007>");
    assert_eq!(d[1].reachable_branches, 1);
    assert_eq!(d[1].total_branches_in_file, 1);
}

#[test]
fn complexity_counts_per_function() {
    let traces = vec![tr("t1", vec![br(1, 2, 0), br(1, 3, 0)]), tr("t2", vec![br(1, 6, 0)])];
    let mut index = surface_index(traces, vec![(1, "a.py")], 5, 3);
    index.profiles = apex::index::types::BranchIndex::build_profiles(&index.traces);
    let lines = vec!["def a():", "    if x:", "        y", "def b():", "    pass", "    if z: w", "def c():"];
    let counts = apex::index::complexity::function_branch_counts(&index, 1, &lines);
    assert_eq!(counts.len(), 2);
    assert_eq!(counts[0].function_name, "a");
    assert_eq!(counts[0].line, 1);
    assert_eq!(counts[0].static_complexity, 2);
    assert_eq!(counts[0].exercised_complexity, 2);
    assert_eq!(counts[1].function_name, "b");
    assert_eq!(counts[1].static_complexity, 1);
    assert!(apex::index::complexity::function_branch_counts(&index, 9, &lines).is_empty());
}

#[test]
fn function_paths_group_tests_by_path() {
    let traces = vec![
        tr("t1", vec![br(1, 2, 0), br(1, 3, 1)]),
        tr("t2", vec![br(1, 3, 1), br(1, 2, 0)]),
        tr("t3", vec![br(1, 2, 1)]),
        tr("t4", vec![br(2, 2, 0)]),
        tr("t5", vec![br(1, 6, 0)]),
    ];
    let lines = vec!["def a():", "    if x:", "        y", "def b():", "    pass", "    z"];
    let docs = apex::index::docs::function_paths(&traces, 1, &lines, Language::Python);
    assert_eq!(docs.len(), 2);
    assert_eq!(docs[0].function_name, "a");
    assert_eq!(docs[0].total_tests, 3);
    let p = &docs[0].paths;
    assert_eq!(p.len(), 2);
    assert_eq!(p[0].representative_test, "t1");
    assert_eq!(p[0].test_count, 2);
    assert_eq!(p[0].branch_count, 2);
    assert_eq!(p[1].representative_test, "t3");
    assert_eq!(p[1].test_count, 1);
    assert_eq!(docs[1].function_name, "b");
    assert_eq!(docs[1].line, 4);
    assert_eq!(docs[1].total_tests, 1);
}

#[test]
fn function_paths_tie_broken_by_fewer_branches() {
    let traces = vec![tr("long", vec![br(1, 1, 0), br(1, 1, 1)]), tr("short", vec![br(1, 1, 0)])];
    let docs = apex::index::docs::function_paths(&traces, 1, &["def f():"], Language::Python);
    assert_eq!(docs[0].paths[0].representative_test, "short");
    assert_eq!(docs[0].paths[1].representative_test, "long");
}
