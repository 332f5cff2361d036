use apex::fuzz::grammar::{Grammar, ParseNode, Symbol};
use apex::fuzz::grammar_mutator::{copy_node, count_nodes, flatten_tree, replace_subtree};
use rand::rngs::StdRng;
use rand::SeedableRng;

fn simple_grammar() -> Grammar {
    let mut g = Grammar::new("expr");
    g.add_production(
        "expr",
        vec![
            vec![Symbol::Terminal("1".into())],
            vec![
                Symbol::NonTerminal("expr".into()),
                Symbol::Terminal("+".into()),
                Symbol::NonTerminal("expr".into()),
            ],
        ],
    );
    g
}

#[test]
fn grammar_creation() {
    let g = simple_grammar();
    assert_eq!(g.start, "expr");
    assert!(g.productions.contains_key("expr"));
    assert_eq!(g.productions.get("expr").unwrap().alternatives.len(), 2);
}

#[test]
fn symbol_equality() {
    assert_eq!(Symbol::Terminal("a".into()), Symbol::Terminal("a".into()));
    assert_ne!(Symbol::Terminal("a".into()), Symbol::NonTerminal("a".into()));
    assert_eq!(Symbol::NonTerminal("x".into()), Symbol::NonTerminal("x".into()));
}

#[test]
fn add_production_merges_alternatives() {
    let mut g = Grammar::new("expr");
    g.add_production("expr", vec![vec![Symbol::Terminal("1".into())]]);
    g.add_production("expr", vec![vec![Symbol::Terminal("2".into())]]);
    assert_eq!(g.productions.get("expr").unwrap().alternatives.len(), 2);
}

#[test]
fn parse_node_equality() {
    assert_eq!(ParseNode::Leaf("a".into()), ParseNode::Leaf("a".into()));
    assert_ne!(ParseNode::Leaf("a".into()), ParseNode::Leaf("b".into()));
    let interior = ParseNode::Interior("x".into(), vec![ParseNode::Leaf("y".into())]);
    let interior2 = ParseNode::Interior("x".into(), vec![ParseNode::Leaf("y".into())]);
    assert_eq!(interior, interior2);
}

#[test]
fn add_production_keeps_other_rules() {
    let mut g = Grammar::new("s");
    g.add_production("s", vec![vec![Symbol::NonTerminal("t".into())]]);
    g.add_production("t", vec![vec![Symbol::Terminal("x".into())]]);
    g.add_production("s", vec![vec![Symbol::Terminal("y".into())]]);
    let s = g.productions.get("s").unwrap();
    assert_eq!(s.lhs, "s");
    assert_eq!(
        s.alternatives,
        vec![vec![Symbol::NonTerminal("t".into())], vec![Symbol::Terminal("y".into())]]
    );
    assert_eq!(g.productions.get("t").unwrap().alternatives.len(), 1);
    assert_eq!(g.productions.len(), 2);
}

#[test]
fn subtree_replace_changes_output() {
    let tree = ParseNode::Interior(
        "expr".into(),
        vec![
            ParseNode::Leaf("1".into()),
            ParseNode::Leaf("+".into()),
            ParseNode::Leaf("2".into()),
        ],
    );
    let replacement = ParseNode::Leaf("3".into());
    let mutated = replace_subtree(&tree, 0, &replacement);
    let flat = flatten_tree(&mutated);
    assert!(flat.contains("3"));
}

#[test]
fn flatten_tree_concatenates_leaves() {
    let tree = ParseNode::Interior(
        "expr".into(),
        vec![ParseNode::Leaf("a".into()), ParseNode::Leaf("b".into())],
    );
    assert_eq!(flatten_tree(&tree), "ab");
}

#[test]
fn count_nodes_counts_all() {
    let tree = ParseNode::Interior(
        "root".into(),
        vec![
            ParseNode::Leaf("x".into()),
            ParseNode::Interior("inner".into(), vec![ParseNode::Leaf("y".into())]),
        ],
    );
    assert_eq!(count_nodes(&tree), 4);
}

#[test]
fn grammar_compiles() {
    let _g = simple_grammar();
}

#[test]
fn replace_subtree_exact_result() {
    let tree = ParseNode::Interior(
        "e".into(),
        vec![ParseNode::Leaf("1".into()), ParseNode::Leaf("+".into()), ParseNode::Leaf("2".into())],
    );
    let sub = ParseNode::Interior("n".into(), vec![ParseNode::Leaf("4".into()), ParseNode::Leaf("2".into())]);
    let mutated = replace_subtree(&tree, 2, &sub);
    assert_eq!(flatten_tree(&mutated), "1+42");
    assert_eq!(count_nodes(&mutated), 6);
    let same = replace_subtree(&tree, 9, &sub);
    assert_eq!(same, tree);
    let leaf = ParseNode::Leaf("z".into());
    assert_eq!(replace_subtree(&leaf, 0, &sub), leaf);
    assert_eq!(copy_node(&mutated), mutated);
}

#[test]
fn deterministic_generation() {
    let g = simple_grammar();
    let mut rng1 = StdRng::seed_from_u64(42);
    let mut rng2 = StdRng::seed_from_u64(42);
    let a = g.generate(&mut rng1, 5).unwrap();
    let b = g.generate(&mut rng2, 5).unwrap();
    assert_eq!(a, b);
}

#[test]
fn max_depth_zero() {
    let g = simple_grammar();
    let mut rng = StdRng::seed_from_u64(99);
    let result = g.generate(&mut rng, 0).unwrap();
    assert_eq!(result, "1");
}

#[test]
fn multiple_differ() {
    let g = simple_grammar();
    let mut results = std::collections::HashSet::new();
    for seed in 0..50 {
        let mut rng = StdRng::seed_from_u64(seed);
        if let Some(s) = g.generate(&mut rng, 5) {
            results.insert(s);
        }
    }
    assert!(results.len() > 1, "expected variation, got {:?}", results);
}

#[test]
fn empty_grammar() {
    let g = Grammar::new("missing");
    let mut rng = StdRng::seed_from_u64(0);
    assert!(g.generate(&mut rng, 5).is_none());
}

#[test]
fn generate_unknown_nonterminal_emits_name() {
    let mut g = Grammar::new("start");
    g.add_production("start", vec![vec![Symbol::NonTerminal("unknown".into())]]);
    let mut rng = StdRng::seed_from_u64(0);
    let result = g.generate(&mut rng, 5).unwrap();
    assert_eq!(result, "unknown");
}

#[test]
fn depth_zero_skips_nonterminals_in_alt() {
    let mut g = Grammar::new("start");
    g.add_production(
        "start",
        vec![vec![Symbol::Terminal("hello".into()), Symbol::NonTerminal("other".into())]],
    );
    g.add_production("other", vec![vec![Symbol::Terminal("world".into())]]);
    let mut rng = StdRng::seed_from_u64(0);
    let result = g.generate(&mut rng, 0).unwrap();
    assert_eq!(result, "hello");
}

#[test]
fn generated_text_uses_only_grammar_terminals() {
    let g = simple_grammar();
    for seed in 0..20 {
        let mut rng = StdRng::seed_from_u64(seed);
        let s = g.generate(&mut rng, 3).unwrap();
        assert!(s.chars().all(|c| c == '1' || c == '+'), "{s}");
        assert!(s.starts_with('1') && s.ends_with('1'), "{s}");
    }
}
