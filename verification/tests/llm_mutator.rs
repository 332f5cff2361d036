use apex::fuzz::llm_mutator::{format_mutation_prompt, MutationCache};

#[test]
fn cached_mutator_returns_precomputed() {
    let mut cache = MutationCache::new(10);
    cache.insert(b"hello".to_vec(), vec![b"world".to_vec(), b"hi".to_vec()]);
    let variants = cache.get(b"hello");
    assert_eq!(variants.unwrap().len(), 2);
}

#[test]
fn llm_mutator_cache_miss_returns_none() {
    let cache = MutationCache::new(10);
    assert!(cache.get(b"unknown").is_none());
}

#[test]
fn cache_evicts_oldest_at_capacity() {
    let mut cache = MutationCache::new(2);
    cache.insert(b"a".to_vec(), vec![b"a1".to_vec()]);
    cache.insert(b"b".to_vec(), vec![b"b1".to_vec()]);
    cache.insert(b"c".to_vec(), vec![b"c1".to_vec()]);
    assert!(cache.get(b"a").is_none());
    assert!(cache.get(b"c").is_some());
}

#[test]
fn format_mutation_prompt_includes_input() {
    let prompt = format_mutation_prompt(b"SELECT * FROM users", "sql");
    assert!(prompt.contains("SELECT"));
    assert!(prompt.contains("sql"));
}

#[test]
fn format_mutation_prompt_binary_input() {
    let prompt = format_mutation_prompt(&[0xFF, 0x00, 0xAB], "binary");
    assert!(prompt.contains("hex"));
}

#[test]
fn format_mutation_prompt_exact_text() {
    let prompt = format_mutation_prompt(&[0xFF, 0x00, 0xAB], "bin");
    assert_eq!(
        prompt,
        "You are a fuzzer mutation engine for bin inputs.\nGenerate 5 semantically valid variants of this input that explore different code paths. Each variant should be syntactically valid bin.\n\nInput:\n```\nhex: ff 00 ab\n```\n\nRespond with each variant in a separate code block."
    );
    let text = format_mutation_prompt(b"a b\n", "t");
    assert!(text.contains("```\na b\n\n```"));
}

#[test]
fn cache_update_keeps_position_and_capacity_zero_keeps_one() {
    let mut cache = MutationCache::new(2);
    cache.insert(b"a".to_vec(), vec![b"a1".to_vec()]);
    cache.insert(b"b".to_vec(), vec![b"b1".to_vec()]);
    cache.insert(b"a".to_vec(), vec![b"a2".to_vec(), b"a3".to_vec()]);
    cache.insert(b"c".to_vec(), vec![]);
    assert!(cache.get(b"a").is_none());
    assert_eq!(cache.get(b"b").unwrap().len(), 1);
    assert!(cache.get(b"c").unwrap().is_empty());
    let mut zero = MutationCache::new(0);
    zero.insert(b"x".to_vec(), vec![]);
    zero.insert(b"y".to_vec(), vec![b"y1".to_vec()]);
    assert!(zero.get(b"x").is_none());
    assert_eq!(zero.get(b"y").unwrap()[0], b"y1".to_vec());
}
