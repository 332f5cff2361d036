use apex::detect::finding::FindingCategory;
use apex::detect::sql_injection::scan_sql_injection;
use apex::detect::ssrf::scan_ssrf;

#[test]
fn detect_requests_get_with_user_input() {
    let source = "url = request.args['url']\nrequests.get(request.args['url'])\n";
    let findings = scan_ssrf(source, "api.py");
    assert!(!findings.is_empty());
    assert!(findings[0].cwe_ids.contains(&918));
}

#[test]
fn detect_urllib_with_variable() {
    let source = "target = request.form['url']\nurllib.request.urlopen(request.form['u'])\n";
    let findings = scan_ssrf(source, "fetch.py");
    assert!(!findings.is_empty());
}

#[test]
fn skip_hardcoded_urls() {
    let source = "requests.get(\"https://api.example.com/data\")\n";
    let findings = scan_ssrf(source, "client.py");
    assert!(findings.is_empty());
}

#[test]
fn detect_fstring_url_construction() {
    let source = "resp = requests.get(f\"http://internal/{path}\")\n";
    let findings = scan_ssrf(source, "proxy.py");
    assert!(!findings.is_empty());
}

#[test]
fn skip_with_urlparse_validation() {
    let source = "from urllib.parse import urlparse\nparsed = urlparse(url)\nrequests.get(request.args['url'])\n";
    let findings = scan_ssrf(source, "safe.py");
    assert!(findings.is_empty());
}

#[test]
fn detect_fetch_with_variable() {
    let source = "const resp = fetch(req.body.url)\n";
    let findings = scan_ssrf(source, "handler.js");
    assert!(!findings.is_empty());
}

#[test]
fn no_false_positive_on_internal_url_constants() {
    let source = "API_URL = \"https://internal.corp/api\"\nrequests.get(API_URL)\n";
    let findings = scan_ssrf(source, "config.py");
    assert!(findings.is_empty());
}

#[test]
fn detect_in_multiple_files() {
    let f1 = scan_ssrf("requests.post(request.args['u'])\n", "a.py");
    let f2 = scan_ssrf("http.get(params['target'])\n", "b.js");
    assert!(!f1.is_empty());
    assert!(!f2.is_empty());
}

#[test]
fn ssrf_finding_text_and_comment_lines() {
    let source = "# requests.get(request.x)\nx = 1\n  requests.get(url + \"http\")\n";
    let findings = scan_ssrf(source, "a.py");
    assert_eq!(findings.len(), 1);
    assert_eq!(findings[0].line, Some(3));
    assert_eq!(findings[0].detector, "ssrf");
    assert_eq!(findings[0].file, "a.py");
    assert_eq!(
        findings[0].description,
        "HTTP request at line 3 uses user-controlled URL. An attacker could access internal services."
    );
}

#[test]
fn detect_string_format_injection() {
    let source = r#"
def get_user(request):
    name = request.args.get('name')
    query = "SELECT * FROM users WHERE name = '%s'" % name
    cursor.execute(query)
"#;
    let findings = scan_sql_injection(source, "app.py");
    assert!(!findings.is_empty());
    assert!(findings[0].title.contains("SQL"));
}

#[test]
fn detect_fstring_injection() {
    let source = r#"
def get_user(name):
    query = f"SELECT * FROM users WHERE name = '{name}'"
    db.execute(query)
"#;
    let findings = scan_sql_injection(source, "app.py");
    assert!(!findings.is_empty());
}

#[test]
fn safe_parameterized_query_not_flagged() {
    let source = r#"
def get_user(name):
    cursor.execute("SELECT * FROM users WHERE name = %s", (name,))
"#;
    let findings = scan_sql_injection(source, "app.py");
    assert!(findings.is_empty());
}

#[test]
fn safe_no_user_input() {
    let source = r#"
def get_count():
    cursor.execute("SELECT COUNT(*) FROM users")
"#;
    let findings = scan_sql_injection(source, "app.py");
    assert!(findings.is_empty());
}

#[test]
fn detect_concatenation_injection() {
    let source = r#"
def search(query_str):
    sql = "SELECT * FROM items WHERE name = '" + query_str + "'"
    conn.execute(sql)
"#;
    let findings = scan_sql_injection(source, "search.py");
    assert!(!findings.is_empty());
}

#[test]
fn finding_has_correct_category() {
    let source = "query = f\"SELECT * FROM t WHERE x = '{user_input}'\"\ndb.execute(query)";
    let findings = scan_sql_injection(source, "x.py");
    if !findings.is_empty() {
        assert_eq!(findings[0].category, FindingCategory::Injection);
    }
}

#[test]
fn sql_finding_line_and_text() {
    let source = "x = 1\nq = f\"select * from t where a = {b}\"\n";
    let findings = scan_sql_injection(source, "db.py");
    assert_eq!(findings.len(), 1);
    assert_eq!(findings[0].line, Some(2));
    assert_eq!(findings[0].cwe_ids, vec![89]);
    assert_eq!(
        findings[0].description,
        "SQL query constructed with string formatting at line 2. Use parameterized queries instead."
    );
}
