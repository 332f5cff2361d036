use apex::index::prioritize::{borda_aggregate, CoverageRanker, SpeedRanker};
use apex::index::types::TestTrace;
use apex::types::{BranchId, ExecutionStatus};

fn make_trace(name: &str, duration: u64, branch_count: usize) -> TestTrace {
    TestTrace {
        test_name: name.to_string(),
        branches: (0..branch_count as u32).map(|l| BranchId::new(1, l, 0, 0)).collect(),
        duration_ms: duration,
        status: ExecutionStatus::Pass,
    }
}

fn names(r: &[(String, u64)]) -> Vec<String> {
    r.iter().map(|(n, _)| n.clone()).collect()
}

#[test]
fn borda_aggregate_single_ranking() {
    let rankings = vec![vec!["test_a".to_string(), "test_b".to_string(), "test_c".to_string()]];
    let result = borda_aggregate(&rankings);
    assert_eq!(result[0].0, "test_a");
    assert_eq!(result[1].0, "test_b");
    assert_eq!(result[2].0, "test_c");
}

#[test]
fn borda_aggregate_two_rankings_winner() {
    let r1 = vec!["b".to_string(), "a".to_string(), "c".to_string()];
    let r2 = vec!["b".to_string(), "c".to_string(), "a".to_string()];
    let result = borda_aggregate(&[r1, r2]);
    assert_eq!(result[0].0, "b");
    assert_eq!(result[0].1, 6);
}

#[test]
fn borda_aggregate_empty() {
    let result = borda_aggregate(&[]);
    assert!(result.is_empty());
}

#[test]
fn coverage_ranker_sorts_by_branch_count() {
    let traces = vec![make_trace("few", 10, 2), make_trace("many", 10, 10), make_trace("mid", 10, 5)];
    let ranked = CoverageRanker.rank(&traces);
    assert_eq!(ranked[0].0, "many");
    assert_eq!(ranked[1].0, "mid");
    assert_eq!(ranked[2].0, "few");
    assert_eq!(ranked[0].1, 10);
}

#[test]
fn speed_ranker_sorts_by_duration() {
    let traces = vec![make_trace("slow", 1000, 5), make_trace("fast", 10, 5), make_trace("mid", 100, 5)];
    let ranked = SpeedRanker.rank(&traces);
    assert_eq!(ranked[0].0, "fast");
    assert_eq!(ranked[1].0, "mid");
    assert_eq!(ranked[2].0, "slow");
}

#[test]
fn test_prioritizer_combines_rankers() {
    let traces = vec![make_trace("fast_low", 10, 2), make_trace("slow_high", 1000, 10), make_trace("mid_mid", 100, 5)];
    let rankings = vec![names(&CoverageRanker.rank(&traces)), names(&SpeedRanker.rank(&traces))];
    let result = borda_aggregate(&rankings);
    assert_eq!(result.len(), 3);
    let ns: Vec<&str> = result.iter().map(|(n, _)| n.as_str()).collect();
    assert!(ns.contains(&"fast_low"));
    assert!(ns.contains(&"slow_high"));
    assert!(ns.contains(&"mid_mid"));
}

#[test]
fn rankers_keep_ties_in_order_and_borda_counts_repeats() {
    let traces = vec![make_trace("a", 0, 1), make_trace("b", 5, 1), make_trace("c", 0, 1)];
    assert_eq!(names(&CoverageRanker.rank(&traces)), vec!["a", "b", "c"]);
    assert_eq!(names(&SpeedRanker.rank(&traces)), vec!["a", "c", "b"]);
    assert_eq!(CoverageRanker.name(), "coverage");
    assert_eq!(SpeedRanker.name(), "speed");
    let r = borda_aggregate(&[vec!["x".to_string(), "y".to_string(), "x".to_string()], vec!["y".to_string()]]);
    assert_eq!(r, vec![("x".to_string(), 4), ("y".to_string(), 3)]);
}

#[test]
fn borda_within_bounds_small_rankings() {
    let r = vec![vec!["a".to_string(), "b".to_string()], vec!["b".to_string()]];
    assert!(apex::index::prioritize::borda_within_bounds(&r));
    assert!(apex::index::prioritize::borda_within_bounds(&[]));
}
