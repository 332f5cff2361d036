use apex::hash::fnv1a_hash;

#[test]
fn deterministic() {
    assert_eq!(fnv1a_hash("src/index.js"), fnv1a_hash("src/index.js"));
}

#[test]
fn empty_returns_offset_basis() {
    assert_eq!(fnv1a_hash(""), 0xcbf2_9ce4_8422_2325);
}

#[test]
fn different_strings_differ() {
    assert_ne!(fnv1a_hash("a.js"), fnv1a_hash("b.js"));
}

#[test]
fn fnv1a_known_value() {
    // FNV-1a of "a" is a published test vector.
    assert_eq!(fnv1a_hash("a"), 0xaf63dc4c8601ec8c);
}

#[test]
fn fnv1a_hash_deterministic() {
    let h1 = fnv1a_hash("com/example/Foo.java");
    let h2 = fnv1a_hash("com/example/Foo.java");
    assert_eq!(h1, h2);
    assert_ne!(h1, fnv1a_hash("com/example/Bar.java"));
}
