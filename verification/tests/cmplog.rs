use apex::fuzz::cmplog::{parse_cmp_hints_from_output, CmpEntry, CmpLog, CmpLogMutator};

#[test]
fn cmp_entry_new() {
    let e = CmpEntry::new(vec![1, 2, 3, 4], vec![5, 6, 7, 8]);
    assert_eq!(e.arg1, vec![1, 2, 3, 4]);
    assert_eq!(e.arg2, vec![5, 6, 7, 8]);
}

#[test]
fn cmp_log_add_and_entries() {
    let mut log = CmpLog::new();
    log.add(CmpEntry::new(vec![0xAA], vec![0xBB]));
    log.add(CmpEntry::new(vec![0xCC], vec![0xDD]));
    assert_eq!(log.entries().len(), 2);
}

#[test]
fn cmp_log_dedup() {
    let mut log = CmpLog::new();
    log.add(CmpEntry::new(vec![1], vec![2]));
    log.add(CmpEntry::new(vec![1], vec![2]));
    log.add(CmpEntry::new(vec![3], vec![4]));
    assert_eq!(log.entries().len(), 2);
}

#[test]
fn cmplog_mutator_replaces_arg1_with_arg2() {
    let mut log = CmpLog::new();
    log.add(CmpEntry::new(b"AAAA".to_vec(), b"BBBB".to_vec()));
    let m = CmpLogMutator::new(log);
    let input = b"xxAAAAyy";
    let mut rng = rand::thread_rng();
    let mut found = false;
    for _ in 0..50 {
        let out = m.mutate(input, &mut rng);
        if out == b"xxBBBByy" {
            found = true;
            break;
        }
    }
    assert!(found, "CmpLogMutator should replace AAAA with BBBB");
}

#[test]
fn cmplog_mutator_replaces_arg2_with_arg1() {
    let mut log = CmpLog::new();
    log.add(CmpEntry::new(b"XX".to_vec(), b"YY".to_vec()));
    let m = CmpLogMutator::new(log);
    let input = b"__YY__";
    let mut rng = rand::thread_rng();
    let mut found = false;
    for _ in 0..50 {
        let out = m.mutate(input, &mut rng);
        if out == b"__XX__" {
            found = true;
            break;
        }
    }
    assert!(found, "CmpLogMutator should also try reverse replacement");
}

#[test]
fn cmplog_mutator_no_match_returns_original() {
    let mut log = CmpLog::new();
    log.add(CmpEntry::new(b"ZZZZ".to_vec(), b"WWWW".to_vec()));
    let m = CmpLogMutator::new(log);
    let input = b"no match here";
    let mut rng = rand::thread_rng();
    let out = m.mutate(input, &mut rng);
    assert_eq!(out, input);
}

#[test]
fn cmplog_mutator_empty_log_returns_original() {
    let m = CmpLogMutator::new(CmpLog::new());
    let input = b"test";
    let mut rng = rand::thread_rng();
    let out = m.mutate(input, &mut rng);
    assert_eq!(out, input);
}

#[test]
fn cmplog_mutator_name() {
    let m = CmpLogMutator::new(CmpLog::new());
    assert_eq!(m.name(), "cmplog");
}

#[test]
fn cmplog_mutate_with_fixed_draws() {
    let mut log = CmpLog::new();
    log.add(CmpEntry::new(b"ab".to_vec(), b"XYZ".to_vec()));
    log.add(CmpEntry::new(b"q".to_vec(), b"".to_vec()));
    let m = CmpLogMutator::new(log);
    // pair 0, forward, second occurrence
    assert_eq!(m.mutate_with(b"ab-ab", 0, 0, 1), b"ab-XYZ".to_vec());
    // pair 0 (2 % 2), forward, first occurrence (3 % 2)
    assert_eq!(m.mutate_with(b"ab-ab", 2, 4, 2), b"XYZ-ab".to_vec());
    // pair 0 reversed: "XYZ" does not occur
    assert_eq!(m.mutate_with(b"ab-ab", 0, 1, 0), b"ab-ab".to_vec());
    // pair 1 reversed: empty operand, unchanged
    assert_eq!(m.mutate_with(b"q", 1, 1, 0), b"q".to_vec());
    // pair 1 forward: deletes "q"
    assert_eq!(m.mutate_with(b"aqb", 1, 0, 7), b"ab".to_vec());
}

#[test]
fn parse_hints_assertion_expected_got() {
    let stderr = "AssertionError: expected 42 but got 0";
    let hints = parse_cmp_hints_from_output(stderr);
    assert!(!hints.is_empty());
    assert!(hints.iter().any(|e| e.arg1 == b"42" && e.arg2 == b"0"));
}

#[test]
fn parse_hints_not_equal() {
    let stderr = "assert_eq failed: left=`hello`, right=`world`";
    let hints = parse_cmp_hints_from_output(stderr);
    assert!(hints.iter().any(|e| {
        std::str::from_utf8(&e.arg1).ok() == Some("hello") && std::str::from_utf8(&e.arg2).ok() == Some("world")
    }));
}

#[test]
fn parse_hints_empty_string() {
    let hints = parse_cmp_hints_from_output("");
    assert!(hints.is_empty());
}

#[test]
fn parse_hints_no_comparisons() {
    let hints = parse_cmp_hints_from_output("some random output with no comparisons");
    assert!(hints.is_empty());
}

#[test]
fn parse_hints_order_and_both_patterns() {
    let out = "left=`é`, right=`b` and expected 1, got 2; expected x but got y";
    let hints = parse_cmp_hints_from_output(out);
    let pairs: Vec<(Vec<u8>, Vec<u8>)> = hints.iter().map(|e| (e.arg1.clone(), e.arg2.clone())).collect();
    assert_eq!(
        pairs,
        vec![
            (b"1".to_vec(), b"2;".to_vec()),
            (b"x".to_vec(), b"y".to_vec()),
            ("é".as_bytes().to_vec(), b"b".to_vec()),
        ]
    );
}

#[test]
fn parse_hints_assertion_error_not_equal() {
    let hints = parse_cmp_hints_from_output("AssertionError: 42 != 0");
    assert_eq!(hints.len(), 1);
    assert_eq!(hints[0].arg1, b"42".to_vec());
    assert_eq!(hints[0].arg2, b"0".to_vec());
}

#[test]
fn parse_hints_patterns_in_order() {
    let out = "AssertionError: a != b\nexpected 1 but got 2\nleft=`x`, right=`y`";
    let hints = parse_cmp_hints_from_output(out);
    let pairs: Vec<(Vec<u8>, Vec<u8>)> = hints.iter().map(|e| (e.arg1.clone(), e.arg2.clone())).collect();
    assert_eq!(
        pairs,
        vec![
            (b"1".to_vec(), b"2".to_vec()),
            (b"x".to_vec(), b"y".to_vec()),
            (b"a".to_vec(), b"b".to_vec()),
        ]
    );
}
