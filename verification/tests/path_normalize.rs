use apex::detect::finding::{FindingCategory, Severity};
use apex::detect::path_normalize::{
    collect_suspect_function_ranges, find_brace_fn_end, find_python_fn_end, has_normalization,
    sig_has_path_param, PathNormalizationDetector,
};
use apex::types::Language;

#[test]
fn sig_has_path_param_false_for_unrelated_sig() {
    assert!(!sig_has_path_param("def compute(value: int) -> int:"));
    assert!(!sig_has_path_param("fn add(a: i32, b: i32) -> i32 {"));
    assert!(!sig_has_path_param("function greet(name) {"));
}

#[test]
fn sig_has_path_param_true_for_path_url_uri() {
    assert!(sig_has_path_param("def load(path: str):"));
    assert!(sig_has_path_param("fn fetch(url: &str) {"));
    assert!(sig_has_path_param("fn redirect(uri: &str) {"));
    assert!(sig_has_path_param("def load(PATH: str):"));
}

#[test]
fn unsupported_language_returns_no_ranges() {
    let src = "public void loadFile(String path) {}";
    let ranges = collect_suspect_function_ranges(src, Language::Java);
    assert!(ranges.is_empty(), "expected empty ranges for Java");
}

#[test]
fn find_python_fn_end_blank_lines_and_dedent() {
    let src = "\
def load(path):

    data = open(path).read()

def other():
    pass
";
    let lines: Vec<&str> = src.lines().collect();
    let end = find_python_fn_end(&lines, 0);
    assert_eq!(end, 2, "expected fn end at line 2, got {end}");
}

#[test]
fn find_python_fn_end_single_line_fallback() {
    let src = "def serve(path): pass";
    let lines: Vec<&str> = src.lines().collect();
    let end = find_python_fn_end(&lines, 0);
    assert_eq!(end, 0);
}

#[test]
fn find_python_fn_end_fallback_next_line() {
    let src = "\
x = 1
def serve(path): pass
";
    let lines: Vec<&str> = src.lines().collect();
    let end = find_python_fn_end(&lines, 1);
    assert_eq!(end, 1);
}

#[test]
fn find_brace_fn_end_returns_closing_brace_line() {
    let src = "\
fn read(path: &Path) {
    fs::read(path)
}
";
    let lines: Vec<&str> = src.lines().collect();
    let end = find_brace_fn_end(&lines, 0);
    assert_eq!(end, 2, "expected closing brace at line 2, got {end}");
}

#[test]
fn find_brace_fn_end_no_closing_brace() {
    let src = "\
fn open(path: &Path) {
    let f = File::open(path);
    f.read_to_string()
";
    let lines: Vec<&str> = src.lines().collect();
    let expected = lines.len().saturating_sub(1);
    let end = find_brace_fn_end(&lines, 0);
    assert_eq!(end, expected, "expected fallback to last line");
}

#[test]
fn has_normalization_unsupported_language_returns_false() {
    let lines = &["path.normalize(input)", "os.path.normpath(p)", ".canonicalize()"];
    assert!(!has_normalization(lines, Language::Java));
}

#[test]
fn has_normalization_validation_pattern_returns_true() {
    let lines = &[r#"    if user_path.contains("..") { return Err(...); }"#];
    assert!(has_normalization(lines, Language::Rust));

    let lines2 = &["    if '..' in path: raise ValueError"];
    assert!(has_normalization(lines2, Language::Python));
}

#[test]
fn uses_cargo_subprocess_returns_false() {
    assert!(!PathNormalizationDetector.uses_cargo_subprocess());
}

#[test]
fn python_indent_counts_bytes_and_ranges_resume_after_function() {
    let src = "def a(path):\n    x = 1\ndef b(url):\n    return os.path.normpath(url)\ny = 2\n";
    let ranges = collect_suspect_function_ranges(src, Language::Python);
    assert_eq!(ranges, vec![(0, 1), (2, 3)]);
    let lines: Vec<&str> = vec!["def f(path):", "\u{3000}x", "z"];
    assert_eq!(find_python_fn_end(&lines, 0), 1);
}

#[test]
fn analyze_source_reports_unguarded_functions() {
    let src = "def fetch(url):\n    resp = requests.get(url)\n    return resp\n";
    let findings = PathNormalizationDetector.analyze_source("src/app.py", src, Language::Python);
    assert_eq!(findings.len(), 1);
    assert_eq!(findings[0].category, FindingCategory::PathTraversal);
    assert_eq!(findings[0].severity, Severity::Medium);
    assert_eq!(findings[0].cwe_ids, vec![22]);
    assert_eq!(findings[0].line, Some(1));
    assert_eq!(findings[0].title, "Missing path/URL normalization at line 1");
    assert_eq!(
        findings[0].description,
        "Function at src/app.py:1 accepts a path/URL parameter but does not normalize or validate it, risking path traversal."
    );
    assert_eq!(PathNormalizationDetector.name(), "path-normalize");
}

#[test]
fn analyze_source_accepts_normalized_and_skips_other_languages() {
    let safe = "def serve(path):\n    safe = safe_join(BASE_DIR, path)\n    return open(safe).read()\n";
    assert!(PathNormalizationDetector.analyze_source("v.py", safe, Language::Python).is_empty());
    let js = "function serveFile(path) {\n    const data = fs.readFileSync(path);\n    return data;\n}\n";
    assert_eq!(PathNormalizationDetector.analyze_source("s.js", js, Language::JavaScript).len(), 1);
    let rs = "\nfn serve(path: &str) {\n    if path.contains(\"..\") {\n        return;\n    }\n    fs::read(path).unwrap();\n}\n";
    assert!(PathNormalizationDetector.analyze_source("h.rs", rs, Language::Rust).is_empty());
    let java = "public void loadPath(String path) { readFile(path); }";
    assert!(PathNormalizationDetector.analyze_source("M.java", java, Language::Java).is_empty());
}
