use apex::hash::fnv1a_hash;
use apex::index::java::{
    jacoco_coverage, JacocoClass, JacocoCounter, JacocoMethod, JacocoPackage, JacocoReport,
};

fn counter(t: &str, missed: u32, covered: u32) -> JacocoCounter {
    JacocoCounter { counter_type: t.to_string(), missed, covered }
}

fn method(name: &str, line: u32, counters: Vec<JacocoCounter>) -> JacocoMethod {
    JacocoMethod { name: name.to_string(), line, counters }
}

fn class(name: &str, source: &str, methods: Vec<JacocoMethod>) -> JacocoClass {
    JacocoClass { name: name.to_string(), source_file: source.to_string(), methods }
}

fn package(name: &str, classes: Vec<JacocoClass>) -> JacocoPackage {
    JacocoPackage { name: name.to_string(), classes }
}

/// The report of the original's sample XML, written as values.
fn sample_report() -> JacocoReport {
    JacocoReport {
        packages: vec![package(
            "com/example",
            vec![
                class(
                    "com/example/Calculator",
                    "Calculator.java",
                    vec![
                        method(
                            "add",
                            10,
                            vec![
                                counter("INSTRUCTION", 0, 5),
                                counter("BRANCH", 1, 3),
                                counter("LINE", 0, 3),
                            ],
                        ),
                        method(
                            "divide",
                            20,
                            vec![
                                counter("INSTRUCTION", 2, 3),
                                counter("BRANCH", 2, 2),
                                counter("LINE", 1, 2),
                            ],
                        ),
                    ],
                ),
                class(
                    "com/example/Utils",
                    "Utils.java",
                    vec![method("validate", 5, vec![counter("BRANCH", 0, 2)])],
                ),
            ],
        )],
    }
}

#[test]
fn parse_jacoco_basic() {
    let result = jacoco_coverage(&sample_report());
    assert_eq!(result.total_branches, 10);
    assert_eq!(result.covered_branches, 7);
}

#[test]
fn parse_jacoco_file_paths() {
    let result = jacoco_coverage(&sample_report());
    assert_eq!(result.file_paths.len(), 2);
    let calc_id = fnv1a_hash("com/example/Calculator.java");
    assert_eq!(result.file_paths.get(&calc_id), Some(&"com/example/Calculator.java".to_string()));
    let utils_id = fnv1a_hash("com/example/Utils.java");
    assert_eq!(result.file_paths.get(&utils_id), Some(&"com/example/Utils.java".to_string()));
}

#[test]
fn parse_jacoco_branch_ids() {
    let result = jacoco_coverage(&sample_report());
    let calc_id = fnv1a_hash("com/example/Calculator.java");
    let add_branches: Vec<_> =
        result.branches.iter().filter(|b| b.file_id == calc_id && b.line == 10).collect();
    assert_eq!(add_branches.len(), 4);
    let covered_count = add_branches.iter().filter(|b| b.discriminator == 0).count();
    assert_eq!(covered_count, 3);
    let uncovered_count = add_branches.iter().filter(|b| b.discriminator == 1).count();
    assert_eq!(uncovered_count, 1);
}

#[test]
fn parse_jacoco_empty_report() {
    let result = jacoco_coverage(&JacocoReport { packages: vec![] });
    assert_eq!(result.total_branches, 0);
    assert_eq!(result.covered_branches, 0);
    assert!(result.branches.is_empty());
    assert!(result.file_paths.is_empty());
}

#[test]
fn parse_jacoco_no_branch_counters() {
    let report = JacocoReport {
        packages: vec![package(
            "com/example",
            vec![class(
                "com/example/Simple",
                "Simple.java",
                vec![method(
                    "run",
                    1,
                    vec![counter("INSTRUCTION", 0, 3), counter("LINE", 0, 1)],
                )],
            )],
        )],
    };
    let result = jacoco_coverage(&report);
    assert_eq!(result.total_branches, 0);
    assert!(result.branches.is_empty());
}

#[test]
fn parse_jacoco_missing_source_file() {
    let report = JacocoReport {
        packages: vec![package(
            "com/example",
            vec![class(
                "com/example/NoSource",
                "",
                vec![method("run", 1, vec![counter("BRANCH", 1, 1)])],
            )],
        )],
    };
    let result = jacoco_coverage(&report);
    assert_eq!(result.total_branches, 2);
    let file_id = fnv1a_hash("com/example/NoSource.java");
    assert!(result.file_paths.contains_key(&file_id));
}

#[test]
fn parse_jacoco_all_covered() {
    let report = JacocoReport {
        packages: vec![package(
            "pkg",
            vec![class("pkg/Foo", "Foo.java", vec![method("bar", 5, vec![counter("BRANCH", 0, 4)])])],
        )],
    };
    let result = jacoco_coverage(&report);
    assert_eq!(result.total_branches, 4);
    assert_eq!(result.covered_branches, 4);
    assert!(result.branches.iter().all(|b| b.discriminator == 0));
}

#[test]
fn parse_jacoco_all_missed() {
    let report = JacocoReport {
        packages: vec![package(
            "pkg",
            vec![class("pkg/Foo", "Foo.java", vec![method("bar", 5, vec![counter("BRANCH", 3, 0)])])],
        )],
    };
    let result = jacoco_coverage(&report);
    assert_eq!(result.total_branches, 3);
    assert_eq!(result.covered_branches, 0);
    assert!(result.branches.iter().all(|b| b.discriminator == 1));
}

#[test]
fn parse_jacoco_multiple_packages() {
    let report = JacocoReport {
        packages: vec![
            package(
                "com/alpha",
                vec![class("com/alpha/A", "A.java", vec![method("run", 1, vec![counter("BRANCH", 1, 1)])])],
            ),
            package(
                "com/beta",
                vec![class("com/beta/B", "B.java", vec![method("exec", 10, vec![counter("BRANCH", 0, 2)])])],
            ),
        ],
    };
    let result = jacoco_coverage(&report);
    assert_eq!(result.total_branches, 4);
    assert_eq!(result.covered_branches, 3);
    assert_eq!(result.file_paths.len(), 2);
}

#[test]
fn jacoco_directions_and_dotted_names() {
    let report = JacocoReport {
        packages: vec![package(
            "com.example",
            vec![
                class("com.example.Dot", "", vec![method("m", 7, vec![counter("BRANCH", 2, 1)])]),
                class("x", "X.java", vec![]),
            ],
        )],
    };
    let result = jacoco_coverage(&report);
    let dirs: Vec<(u8, u8)> = result.branches.iter().map(|b| (b.direction, b.discriminator)).collect();
    assert_eq!(dirs, vec![(0, 0), (1, 1), (2, 1)]);
    assert!(result.file_paths.contains_key(&fnv1a_hash("com/example/Dot.java")));
    assert!(result.file_paths.contains_key(&fnv1a_hash("com/example/X.java")));
    assert_eq!(result.branches[0].line, 7);
}
