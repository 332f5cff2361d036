use apex::fuzz::distill::{distill_corpus, CorpusEntry};
use apex::types::BranchId;

#[test]
fn distill_removes_redundant_seeds() {
    let entries = vec![
        CorpusEntry {
            data: b"A".to_vec(),
            branches: vec![BranchId::new(1, 1, 0, 0), BranchId::new(1, 2, 0, 0)],
        },
        CorpusEntry {
            data: b"B".to_vec(),
            branches: vec![BranchId::new(1, 2, 0, 0), BranchId::new(1, 3, 0, 0)],
        },
        CorpusEntry {
            data: b"C".to_vec(),
            branches: vec![
                BranchId::new(1, 1, 0, 0),
                BranchId::new(1, 2, 0, 0),
                BranchId::new(1, 3, 0, 0),
            ],
        },
    ];
    let distilled = distill_corpus(&entries);
    assert!(distilled.len() <= 2);
    let all_branches: std::collections::HashSet<_> =
        distilled.iter().flat_map(|e| &e.branches).collect();
    assert!(all_branches.contains(&BranchId::new(1, 1, 0, 0)));
    assert!(all_branches.contains(&BranchId::new(1, 2, 0, 0)));
    assert!(all_branches.contains(&BranchId::new(1, 3, 0, 0)));
}

#[test]
fn distill_empty_corpus() {
    let distilled = distill_corpus(&[]);
    assert!(distilled.is_empty());
}

#[test]
fn distill_single_seed() {
    let entries = vec![CorpusEntry {
        data: b"only".to_vec(),
        branches: vec![BranchId::new(1, 1, 0, 0)],
    }];
    let distilled = distill_corpus(&entries);
    assert_eq!(distilled.len(), 1);
}

#[test]
fn distill_disjoint_seeds_all_kept() {
    let entries = vec![
        CorpusEntry {
            data: b"A".to_vec(),
            branches: vec![BranchId::new(1, 1, 0, 0)],
        },
        CorpusEntry {
            data: b"B".to_vec(),
            branches: vec![BranchId::new(1, 2, 0, 0)],
        },
    ];
    let distilled = distill_corpus(&entries);
    assert_eq!(distilled.len(), 2);
}

#[test]
fn distill_picks_largest_first_and_stops_when_covered() {
    let entries = vec![
        CorpusEntry { data: b"A".to_vec(), branches: vec![BranchId::new(1, 1, 0, 0)] },
        CorpusEntry {
            data: b"C".to_vec(),
            branches: vec![BranchId::new(1, 1, 0, 0), BranchId::new(1, 2, 0, 0)],
        },
        CorpusEntry { data: b"E".to_vec(), branches: vec![] },
    ];
    let distilled = distill_corpus(&entries);
    assert_eq!(distilled.len(), 1);
    assert_eq!(distilled[0].data, b"C".to_vec());
}

#[test]
fn distill_tie_takes_later_entry() {
    let entries = vec![
        CorpusEntry { data: b"first".to_vec(), branches: vec![BranchId::new(2, 1, 0, 0)] },
        CorpusEntry { data: b"second".to_vec(), branches: vec![BranchId::new(2, 1, 0, 0)] },
    ];
    let distilled = distill_corpus(&entries);
    assert_eq!(distilled.len(), 1);
    assert_eq!(distilled[0].data, b"second".to_vec());
}
