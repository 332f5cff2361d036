use apex::detect::cegar::CegarSpec;
use apex::detect::spec_miner::{SpecMiner, SyscallSpec};

#[test]
fn spec_refinement_creation() {
    let spec = CegarSpec::new("validate_input");
    assert_eq!(spec.function_name, "validate_input");
    assert_eq!(spec.iteration, 0);
}

#[test]
fn refine_adds_counterexample() {
    let mut spec = CegarSpec::new("f");
    spec.allowed.insert("normal_call".to_string());
    let counterexample = "dangerous_call".to_string();
    let is_genuine = true;
    spec.refine(&counterexample, is_genuine);
    assert_eq!(spec.iteration, 1);
    assert!(spec.violations.contains(&counterexample));
    assert!(!spec.allowed.contains(&counterexample));
}

#[test]
fn refine_spurious_counterexample_adds_to_allowed() {
    let mut spec = CegarSpec::new("f");
    let counterexample = "actually_safe_call".to_string();
    let is_genuine = false;
    spec.refine(&counterexample, is_genuine);
    assert_eq!(spec.iteration, 1);
    assert!(spec.allowed.contains(&counterexample));
    assert!(!spec.violations.contains(&counterexample));
}

#[test]
fn is_converged_after_no_new_violations() {
    let mut spec = CegarSpec::new("f");
    spec.allowed.insert("a".to_string());
    assert!(spec.is_converged(3));
}

#[test]
fn not_converged_with_recent_refinements() {
    let mut spec = CegarSpec::new("f");
    spec.refine(&"bad".to_string(), true);
    assert!(!spec.is_converged(3));
}

#[test]
fn converges_after_patience_spurious_steps() {
    let mut spec = CegarSpec::new("f");
    spec.refine("bad", true);
    spec.refine("ok1", false);
    spec.refine("ok2", false);
    assert!(!spec.is_converged(3));
    spec.refine("ok3", false);
    assert!(spec.is_converged(3));
}

#[test]
fn genuine_removes_from_allowed() {
    let mut spec = CegarSpec::new("f");
    spec.refine("x", false);
    assert!(spec.allowed.contains("x"));
    spec.refine("x", true);
    assert!(!spec.allowed.contains("x"));
    assert!(spec.violations.contains("x"));
}

#[test]
fn syscall_spec_creation() {
    let spec = SyscallSpec::new("my_function");
    assert_eq!(spec.function_name, "my_function");
    assert!(spec.allowed_calls.is_empty());
}

#[test]
fn learn_from_traces_builds_spec() {
    let traces = vec![
        vec!["open".to_string(), "read".to_string(), "close".to_string()],
        vec!["open".to_string(), "write".to_string(), "close".to_string()],
    ];
    let spec = SyscallSpec::learn("handler", &traces);
    assert!(spec.allowed_calls.contains("open"));
    assert!(spec.allowed_calls.contains("close"));
    assert!(spec.allowed_calls.contains("read"));
    assert!(spec.allowed_calls.contains("write"));
    assert_eq!(spec.allowed_calls.len(), 4);
}

#[test]
fn check_violation_detects_unknown_call() {
    let mut spec = SyscallSpec::new("handler");
    spec.allowed_calls.insert("open".to_string());
    spec.allowed_calls.insert("read".to_string());
    spec.allowed_calls.insert("close".to_string());
    let trace = vec!["open".to_string(), "exec".to_string(), "close".to_string()];
    let violations = spec.check(&trace);
    assert_eq!(violations.len(), 1);
    assert_eq!(violations[0], "exec");
}

#[test]
fn check_no_violations() {
    let mut spec = SyscallSpec::new("handler");
    spec.allowed_calls.insert("open".to_string());
    spec.allowed_calls.insert("close".to_string());
    let trace = vec!["open".to_string(), "close".to_string()];
    let violations = spec.check(&trace);
    assert!(violations.is_empty());
}

#[test]
fn learn_empty_traces() {
    let spec = SyscallSpec::learn("empty", &[]);
    assert!(spec.allowed_calls.is_empty());
}

#[test]
fn learned_trace_has_no_violations() {
    let traces = vec![vec!["a".to_string(), "b".to_string()], vec!["c".to_string()]];
    let spec = SyscallSpec::learn("f", &traces);
    assert!(spec.check(&traces[0]).is_empty());
    assert!(spec.check(&traces[1]).is_empty());
}

#[test]
fn spec_miner_multiple_functions() {
    let mut miner = SpecMiner::new();
    miner.add_trace("func_a", vec!["open".into(), "read".into()]);
    miner.add_trace("func_a", vec!["open".into(), "write".into()]);
    miner.add_trace("func_b", vec!["connect".into(), "send".into()]);
    let specs = miner.build_specs();
    assert_eq!(specs.len(), 2);
    let spec_a = specs.iter().find(|s| s.function_name == "func_a").unwrap();
    assert!(spec_a.allowed_calls.contains("open"));
    assert!(spec_a.allowed_calls.contains("read"));
    assert!(spec_a.allowed_calls.contains("write"));
}
