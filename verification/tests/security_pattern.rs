use apex::detect::finding::{FindingCategory, Severity};
use apex::detect::security_pattern::SecurityPatternDetector;
use apex::types::Language;

/// Scans `source` with no line excluded and each line's trimmed text as its
/// stripped text (none of these sources has a sink inside a string literal).
fn scan(path: &str, source: &str, lang: Language) -> Vec<apex::detect::finding::Finding> {
    let n = source.lines().count();
    let excluded = vec![false; n];
    let stripped: Vec<String> = source.lines().map(|l| l.trim().to_string()).collect();
    SecurityPatternDetector.analyze_source(path, source, &excluded, &stripped, lang)
}

#[test]
fn rust_command_injection_with_format() {
    let src = "fn run(user: &str) {\n    let cmd = format!(\"echo {}\", user);\n    Command::new(cmd);\n}\n";
    let findings = scan("src/main.rs", src, Language::Rust);
    assert_eq!(findings.len(), 1);
    assert!(findings[0].severity == Severity::High || findings[0].severity == Severity::Critical);
    assert_eq!(findings[0].category, FindingCategory::Injection);
}

#[test]
fn python_eval_with_request_is_critical() {
    let src = "def handle(request):\n    data = request.get('expr')\n    result = eval(data)\n    return result\n";
    let findings = scan("src/app.py", src, Language::Python);
    assert_eq!(findings.len(), 1);
    assert_eq!(findings[0].severity, Severity::Critical);
}

#[test]
fn python_eval_without_user_input_downgraded() {
    let src = "def compute():\n    x = '2 + 2'\n    return eval(x)\n";
    let findings = scan("src/calc.py", src, Language::Python);
    assert_eq!(findings.len(), 1);
    assert_eq!(findings[0].severity, Severity::High);
}

#[test]
fn python_yaml_safe_loader_downgraded() {
    let src = "import yaml\ndef load(path):\n    with open(path) as f:\n        return yaml.load(f, Loader=SafeLoader)\n";
    let findings = scan("src/loader.py", src, Language::Python);
    assert_eq!(findings.len(), 1);
    assert_eq!(findings[0].severity, Severity::Medium);
}

#[test]
fn python_sql_fstring_is_critical() {
    let src = "def query(name):\n    cursor.execute(f\"SELECT * FROM users WHERE name='{name}'\")\n";
    let findings = scan("src/db.py", src, Language::Python);
    assert_eq!(findings.len(), 1);
    assert_eq!(findings[0].severity, Severity::Critical);
}

#[test]
fn python_pickle_from_socket_is_critical() {
    let src = "import pickle\nimport socket\ndef recv(sock):\n    data = sock.recv(4096)\n    return pickle.load(data)\n";
    let findings = scan("src/net.py", src, Language::Python);
    assert_eq!(findings.len(), 1);
    assert_eq!(findings[0].severity, Severity::Critical);
}

#[test]
fn python_verify_false_is_high() {
    let src = "import requests\ndef fetch(url):\n    return requests.get(url, verify=False)\n";
    let findings = scan("src/http.py", src, Language::Python);
    assert_eq!(findings.len(), 1);
    assert_eq!(findings[0].severity, Severity::High);
}

#[test]
fn no_findings_for_unsupported_language() {
    let findings = scan("src/main.js", "eval('alert(1)');\n", Language::JavaScript);
    assert!(findings.is_empty());
}

#[test]
fn security_pattern_finding_text_and_exclusions() {
    let src = "#[test]\nx = eval(y)\nz = eval(w)\n";
    let stripped: Vec<String> = src.lines().map(|l| l.trim().to_string()).collect();
    let findings = SecurityPatternDetector.analyze_source(
        "src/a.py",
        src,
        &[false, true, false],
        &stripped,
        Language::Python,
    );
    assert_eq!(findings.len(), 1);
    assert_eq!(findings[0].line, Some(3));
    assert_eq!(findings[0].detector, "security-pattern");
    assert_eq!(findings[0].title, "eval() with potential user input — code injection at line 3");
    assert_eq!(findings[0].description, "Pattern `eval(` found in src/a.py:3");
    assert_eq!(findings[0].suggestion, "Validate and sanitize input before use");
    assert_eq!(SecurityPatternDetector.name(), "security-pattern");
}

#[test]
fn security_pattern_sanitized_twice_downgraded() {
    let src = "cmd = input()\nsubprocess.call(shlex.quote(cmd))\n";
    let findings = scan("src/run.py", src, Language::Python);
    assert_eq!(findings.len(), 1);
    assert_eq!(findings[0].severity, Severity::Medium);
    let src = "subprocess.call(shlex.quote(c))\n";
    let findings = scan("src/run.py", src, Language::Python);
    assert_eq!(findings[0].severity, Severity::Low);
}
