use apex::agent::feedback::feedback_counts;
use apex::types::BranchId;

#[test]
fn feedback_counts_empty() {
    let c = feedback_counts(&[]);
    assert_eq!(c.total_new_branches, 0);
    assert_eq!(c.total_errors, 0);
    assert!(c.strategies.is_empty());
}

#[test]
fn feedback_counts_deduplicates_branches_and_names() {
    let b1 = BranchId::new(1, 10, 0, 0);
    let b2 = BranchId::new(1, 20, 0, 1);
    let rounds = vec![
        ("fuzz".to_string(), vec![b1, b2], 1u32),
        ("solver".to_string(), vec![b1], 2),
        ("fuzz".to_string(), vec![b2, b2], 3),
    ];
    let c = feedback_counts(&rounds);
    assert_eq!(c.total_new_branches, 2);
    assert_eq!(c.total_errors, 6);
    assert_eq!(c.strategies, vec!["fuzz".to_string(), "solver".to_string()]);
}
