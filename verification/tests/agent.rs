use apex::agent::cache::{SatResult, SolverCache};
use apex::agent::ensemble::EnsembleSync;
use apex::agent::exchange::SeedExchange;
use apex::agent::history::{ExplorationLog, LogEntry};
use apex::agent::ledger::{extract_location, BugLedger};
use apex::agent::monitor::{CoverageMonitor, MonitorAction};
use apex::agent::rotation::RotationPolicy;
use apex::types::{BugClass, BugReport, ExecutionResult, ExecutionStatus, InputSeed, SeedId, SeedOrigin};

// ── cache ──

#[test]
fn cache_basic_insert_and_lookup() {
    let mut cache = SolverCache::new();
    cache.insert("(> x 5)".into(), SatResult::Sat);
    assert_eq!(cache.check("(> x 5)"), Some(SatResult::Sat));
}

#[test]
fn cache_cache_miss_returns_none() {
    let cache = SolverCache::new();
    assert_eq!(cache.check("(> x 5)"), None);
}

#[test]
fn cache_negation_inference() {
    let mut cache = SolverCache::new();
    cache.insert("(not (> x 5))".into(), SatResult::Unsat);
    assert_eq!(cache.check("(> x 5)"), Some(SatResult::Sat));
}

#[test]
fn cache_reverse_negation_inference() {
    let mut cache = SolverCache::new();
    cache.insert("(> x 5)".into(), SatResult::Unsat);
    assert_eq!(cache.check("(not (> x 5))"), Some(SatResult::Sat));
}

#[test]
fn cache_no_false_inference() {
    let mut cache = SolverCache::new();
    cache.insert("(not (> x 5))".into(), SatResult::Sat);
    assert_eq!(cache.check("(> x 5)"), None);
}

#[test]
fn cache_len_and_clear() {
    let mut cache = SolverCache::new();
    assert!(cache.is_empty());
    cache.insert("a".into(), SatResult::Sat);
    cache.insert("b".into(), SatResult::Unsat);
    assert_eq!(cache.len(), 2);
    cache.clear();
    assert!(cache.is_empty());
}

#[test]
fn cache_overwrite_existing() {
    let mut cache = SolverCache::new();
    cache.insert("(> x 5)".into(), SatResult::Unknown);
    cache.insert("(> x 5)".into(), SatResult::Sat);
    assert_eq!(cache.check("(> x 5)"), Some(SatResult::Sat));
    assert_eq!(cache.len(), 1);
}

#[test]
fn cache_unsat_no_negation_inference_for_positive() {
    let mut cache = SolverCache::new();
    cache.insert("(> x 5)".into(), SatResult::Unsat);
    assert_eq!(cache.check("(> x 5)"), Some(SatResult::Unsat));
}

#[test]
fn cache_default_is_empty() {
    let cache = SolverCache::default();
    assert!(cache.is_empty());
}

#[test]
fn negation_inference_inner_not_unsat_returns_none() {
    let cache = SolverCache::new();
    assert_eq!(cache.check("(not (> x 5))"), None);
}

#[test]
fn negation_inference_inner_sat_returns_none() {
    let mut cache = SolverCache::new();
    cache.insert("(> x 5)".into(), SatResult::Sat);
    assert_eq!(cache.check("(not (> x 5))"), None);
}

#[test]
fn negation_inference_inner_unknown_returns_none() {
    let mut cache = SolverCache::new();
    cache.insert("(> x 5)".into(), SatResult::Unknown);
    assert_eq!(cache.check("(not (> x 5))"), None);
}

#[test]
fn cache_law_check_after_insert_concrete() {
    let mut cache = SolverCache::new();
    cache.insert("(= y 1)".into(), SatResult::Unknown);
    assert_eq!(cache.check("(= y 1)"), Some(SatResult::Unknown));
}

#[test]
fn cache_short_not_prefix_is_not_negation() {
    let mut cache = SolverCache::new();
    cache.insert("".into(), SatResult::Unsat);
    // "(not )" strips to the empty constraint, which is UNSAT.
    assert_eq!(cache.check("(not )"), Some(SatResult::Sat));
    // "(not " has no closing parenthesis.
    assert_eq!(cache.check("(not "), None);
}

// ── ensemble ──

fn make_seed() -> InputSeed {
    InputSeed::new(vec![0xAA, 0xBB], SeedOrigin::Fuzzer)
}

#[test]
fn ensemble_new_is_empty() {
    let sync = EnsembleSync::new(10);
    assert_eq!(sync.pending_count(), 0);
}

#[test]
fn deposit_increments_count() {
    let mut sync = EnsembleSync::new(10);
    sync.deposit(make_seed());
    assert_eq!(sync.pending_count(), 1);
    sync.deposit(make_seed());
    assert_eq!(sync.pending_count(), 2);
}

#[test]
fn should_sync_at_interval() {
    let sync = EnsembleSync::new(5);
    assert!(!sync.should_sync(0));
    assert!(!sync.should_sync(4));
    assert!(sync.should_sync(5));
    assert!(sync.should_sync(10));
}

#[test]
fn sync_drains_buffer() {
    let mut sync = EnsembleSync::new(5);
    sync.deposit(make_seed());
    sync.deposit(make_seed());
    let seeds = sync.sync(5);
    assert_eq!(seeds.len(), 2);
    assert_eq!(sync.pending_count(), 0);
}

#[test]
fn sync_resets_timer() {
    let mut sync = EnsembleSync::new(5);
    sync.sync(5);
    assert!(!sync.should_sync(6));
    assert!(!sync.should_sync(9));
    assert!(sync.should_sync(10));
}

#[test]
fn zero_interval_never_syncs() {
    let sync = EnsembleSync::new(0);
    assert!(!sync.should_sync(0));
    assert!(!sync.should_sync(100));
    assert!(!sync.should_sync(u64::MAX));
}

#[test]
fn default_interval_is_20() {
    let sync = EnsembleSync::default();
    assert!(!sync.should_sync(19));
    assert!(sync.should_sync(20));
}

#[test]
fn ensemble_no_overflow_near_max() {
    let mut sync = EnsembleSync::new(u64::MAX);
    sync.sync(10);
    assert!(!sync.should_sync(u64::MAX));
}

// ── exchange ──

fn make_data_seed(data: &[u8]) -> InputSeed {
    InputSeed::new(data.to_vec(), SeedOrigin::Fuzzer)
}

#[test]
fn exchange_new_is_empty() {
    let ex = SeedExchange::new();
    assert_eq!(ex.pending_for_concolic(), 0);
    assert_eq!(ex.pending_for_fuzz(), 0);
}

#[test]
fn deposit_and_take_fuzz_to_concolic() {
    let mut ex = SeedExchange::new();
    ex.deposit_for_concolic(make_data_seed(b"hello"));
    assert_eq!(ex.pending_for_concolic(), 1);
    let seeds = ex.take_for_concolic();
    assert_eq!(seeds.len(), 1);
    assert_eq!(seeds[0].data.as_slice(), b"hello");
    assert_eq!(ex.pending_for_concolic(), 0);
}

#[test]
fn deposit_and_take_concolic_to_fuzz() {
    let mut ex = SeedExchange::new();
    ex.deposit_for_fuzz(make_data_seed(b"world"));
    assert_eq!(ex.pending_for_fuzz(), 1);
    let seeds = ex.take_for_fuzz();
    assert_eq!(seeds.len(), 1);
    assert_eq!(seeds[0].data.as_slice(), b"world");
    assert_eq!(ex.pending_for_fuzz(), 0);
}

#[test]
fn multiple_deposits_accumulate() {
    let mut ex = SeedExchange::new();
    ex.deposit_for_concolic(make_data_seed(b"a"));
    ex.deposit_for_concolic(make_data_seed(b"b"));
    ex.deposit_for_concolic(make_data_seed(b"c"));
    assert_eq!(ex.pending_for_concolic(), 3);
    let seeds = ex.take_for_concolic();
    assert_eq!(seeds.len(), 3);
}

#[test]
fn pending_counts() {
    let mut ex = SeedExchange::new();
    ex.deposit_for_concolic(make_data_seed(b"x"));
    ex.deposit_for_fuzz(make_data_seed(b"y"));
    ex.deposit_for_fuzz(make_data_seed(b"z"));
    assert_eq!(ex.pending_for_concolic(), 1);
    assert_eq!(ex.pending_for_fuzz(), 2);
}

// ── history ──

fn entry(iteration: u64, strategy: &str, branches_found: u64, action: &str) -> LogEntry {
    LogEntry {
        iteration,
        strategy: strategy.into(),
        branches_found,
        action_taken: action.into(),
    }
}

#[test]
fn log_records_entries() {
    let mut log = ExplorationLog::new();
    log.record(entry(1, "fuzz", 3, "normal"));
    assert_eq!(log.len(), 1);
}

#[test]
fn log_entries_ordered() {
    let mut log = ExplorationLog::new();
    log.record(entry(1, "fuzz", 1, "normal"));
    log.record(entry(2, "solver", 5, "rotate"));
    let entries = log.entries();
    assert_eq!(entries[0].iteration, 1);
    assert_eq!(entries[1].iteration, 2);
}

#[test]
fn total_branches_found() {
    let mut log = ExplorationLog::new();
    log.record(entry(1, "fuzz", 3, "normal"));
    log.record(entry(2, "solver", 7, "normal"));
    assert_eq!(log.total_branches_found(), 10);
}

#[test]
fn strategy_summary() {
    let mut log = ExplorationLog::new();
    for i in 0..5 {
        log.record(entry(i, if i < 3 { "fuzz" } else { "solver" }, 1, "normal"));
    }
    let summary = log.strategy_summary();
    assert_eq!(summary.get("fuzz"), Some(&3));
    assert_eq!(summary.get("solver"), Some(&2));
}

#[test]
fn empty_log() {
    let log = ExplorationLog::new();
    assert_eq!(log.len(), 0);
    assert_eq!(log.total_branches_found(), 0);
    assert!(log.strategy_summary().is_empty());
}

// ── rotation ──

#[test]
fn fresh_policy_starts_with_fuzz() {
    let policy = RotationPolicy::new(vec!["fuzz".into(), "solver".into(), "llm".into()]);
    assert_eq!(policy.current(), "fuzz");
}

#[test]
fn rotate_advances_to_next() {
    let mut policy = RotationPolicy::new(vec!["fuzz".into(), "solver".into()]);
    policy.rotate();
    assert_eq!(policy.current(), "solver");
}

#[test]
fn rotate_wraps_around() {
    let mut policy = RotationPolicy::new(vec!["a".into(), "b".into()]);
    policy.rotate();
    policy.rotate();
    assert_eq!(policy.current(), "a");
}

#[test]
fn should_rotate_after_stall() {
    let policy = RotationPolicy::new(vec!["fuzz".into(), "solver".into()]);
    assert!(!policy.should_rotate(0));
    assert!(!policy.should_rotate(4));
    assert!(policy.should_rotate(10));
}

#[test]
fn custom_stall_threshold() {
    let mut policy = RotationPolicy::new(vec!["a".into(), "b".into()]);
    policy.set_stall_threshold(3);
    assert!(!policy.should_rotate(2));
    assert!(policy.should_rotate(3));
}

#[test]
fn single_strategy_wraps() {
    let mut policy = RotationPolicy::new(vec!["only".into()]);
    policy.rotate();
    assert_eq!(policy.current(), "only");
}

#[test]
fn rotation_full_cycle_returns_to_start() {
    let mut policy = RotationPolicy::new(vec!["a".into(), "b".into(), "c".into()]);
    for _ in 0..3 {
        policy.rotate();
    }
    assert_eq!(policy.current(), "a");
}

// ── monitor ──

#[test]
fn stalled_coverage_escalates() {
    let mut m = CoverageMonitor::new(5);
    m.record(0, 10);
    for i in 1..=10 {
        m.record(i, 10);
    }
    assert_ne!(m.action(), MonitorAction::Normal);
}

#[test]
fn window_evicts_old_entries() {
    let mut m = CoverageMonitor::new(3);
    for i in 0..5 {
        m.record(i as u64, i * 10);
    }
    assert_eq!(m.window_len(), 3);
}

#[test]
fn action_escalation_levels() {
    let mut m = CoverageMonitor::new(3);
    m.record(0, 10);
    for i in 1..=3 {
        m.record(i, 10);
    }
    assert_eq!(m.stall_count(), 3);
    assert_eq!(m.action(), MonitorAction::SwitchStrategy);
    for i in 4..=6 {
        m.record(i, 10);
    }
    assert_eq!(m.stall_count(), 6);
    assert_eq!(m.action(), MonitorAction::AgentCycle);
    for i in 7..=12 {
        m.record(i as u64, 10);
    }
    assert_eq!(m.stall_count(), 12);
    assert_eq!(m.action(), MonitorAction::Stop);
}

#[test]
fn recovery_resets_escalation() {
    let mut m = CoverageMonitor::new(3);
    m.record(0, 10);
    for i in 1..=5 {
        m.record(i, 10);
    }
    assert_ne!(m.action(), MonitorAction::Normal);
    m.record(6, 20);
    assert_eq!(m.action(), MonitorAction::Normal);
}

#[test]
fn monitor_keeps_newest_samples() {
    let mut m = CoverageMonitor::new(2);
    m.record(0, 1);
    m.record(1, 2);
    m.record(2, 3);
    assert_eq!(m.window(), &[(1, 2), (2, 3)]);
}

// ── ledger ──

fn make_result(status: ExecutionStatus, stderr: &str) -> ExecutionResult {
    ExecutionResult {
        seed_id: SeedId::new(),
        status,
        new_branches: vec![],
        duration_ms: 100,
        stdout: String::new(),
        stderr: stderr.into(),
    }
}

#[test]
fn record_crash() {
    let mut ledger = BugLedger::new();
    let result = make_result(ExecutionStatus::Crash, "segfault at src/main.rs:42");
    assert!(ledger.record_from_result(&result, 0));
    assert_eq!(ledger.count(), 1);
}

#[test]
fn skip_pass() {
    let mut ledger = BugLedger::new();
    let result = make_result(ExecutionStatus::Pass, "");
    assert!(!ledger.record_from_result(&result, 0));
    assert_eq!(ledger.count(), 0);
}

#[test]
fn dedup_same_location() {
    let mut ledger = BugLedger::new();
    let r1 = make_result(ExecutionStatus::Crash, "segfault at src/main.rs:42");
    let r2 = make_result(ExecutionStatus::Crash, "segfault at src/main.rs:42");
    assert!(ledger.record_from_result(&r1, 0));
    assert!(!ledger.record_from_result(&r2, 1));
    assert_eq!(ledger.count(), 1);
}

#[test]
fn different_locations_recorded() {
    let mut ledger = BugLedger::new();
    let r1 = make_result(ExecutionStatus::Crash, "src/a.rs:10");
    let r2 = make_result(ExecutionStatus::Crash, "src/b.rs:20");
    assert!(ledger.record_from_result(&r1, 0));
    assert!(ledger.record_from_result(&r2, 1));
    assert_eq!(ledger.count(), 2);
}

#[test]
fn different_classes_not_deduped() {
    let mut ledger = BugLedger::new();
    let r1 = make_result(ExecutionStatus::Crash, "src/main.rs:42");
    let r2 = make_result(ExecutionStatus::Timeout, "src/main.rs:42");
    assert!(ledger.record_from_result(&r1, 0));
    assert!(ledger.record_from_result(&r2, 1));
    assert_eq!(ledger.count(), 2);
}

#[test]
fn summary_aggregation() {
    let mut ledger = BugLedger::new();
    ledger.record_from_result(&make_result(ExecutionStatus::Crash, "src/a.rs:1"), 0);
    ledger.record_from_result(&make_result(ExecutionStatus::Crash, "src/b.rs:2"), 1);
    ledger.record_from_result(&make_result(ExecutionStatus::Timeout, "src/c.rs:3"), 2);
    let summary = ledger.summary();
    assert_eq!(summary.total, 3);
    assert_eq!(summary.by_class.get("crash"), Some(&2));
    assert_eq!(summary.by_class.get("timeout"), Some(&1));
}

#[test]
fn record_fail_as_assertion_failure() {
    let mut ledger = BugLedger::new();
    let result = make_result(ExecutionStatus::Fail, "assert failed");
    assert!(ledger.record_from_result(&result, 5));
    let reports = ledger.reports();
    assert_eq!(reports[0].class, BugClass::AssertionFailure);
    assert_eq!(reports[0].discovered_at_iteration, 5);
}

#[test]
fn record_oom() {
    let mut ledger = BugLedger::new();
    let result = make_result(ExecutionStatus::OomKill, "killed");
    assert!(ledger.record_from_result(&result, 0));
    assert_eq!(ledger.reports()[0].class, BugClass::OomKill);
}

#[test]
fn extract_location_python() {
    let loc = extract_location("Traceback:\n  File \"foo.py\", line 42, in test\n    x()");
    assert_eq!(loc.as_deref(), Some("foo.py:42"));
}

#[test]
fn extract_location_rust() {
    let loc = extract_location("thread panicked at src/main.rs:42:5");
    assert_eq!(loc.as_deref(), Some("src/main.rs:42"));
}

#[test]
fn extract_location_js() {
    let loc = extract_location("    at Object.<anonymous> (test.js:10:3)");
    assert_eq!(loc.as_deref(), Some("test.js:10"));
    let loc2 = extract_location("test.js:10:3");
    assert_eq!(loc2.as_deref(), Some("test.js:10"));
}

#[test]
fn extract_location_none() {
    assert_eq!(extract_location("no location info here"), None);
    assert_eq!(extract_location(""), None);
}

#[test]
fn extract_location_crlf_lines() {
    let loc = extract_location("first line\r\nat lib/x.py:7\r\n");
    assert_eq!(loc.as_deref(), Some("lib/x.py:7"));
}

#[test]
fn default_impl() {
    let ledger = BugLedger::default();
    assert_eq!(ledger.count(), 0);
}

#[test]
fn manual_record() {
    let mut ledger = BugLedger::new();
    let report = BugReport::new(BugClass::Crash, SeedId::new(), "boom".into());
    assert!(ledger.record(report.clone()));
    assert!(!ledger.record(report));
}

#[test]
fn record_keeps_location_and_branches() {
    let mut ledger = BugLedger::new();
    let mut result = make_result(ExecutionStatus::Crash, "at src/x.rs:3:1");
    result.new_branches = vec![apex::types::BranchId::new(1, 2, 3, 0)];
    assert!(ledger.record_from_result(&result, 9));
    let r = &ledger.reports()[0];
    assert_eq!(r.location.as_deref(), Some("src/x.rs:3"));
    assert_eq!(r.triggering_branches.len(), 1);
    assert_eq!(r.message, "at src/x.rs:3:1");
}
