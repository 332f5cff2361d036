use apex::cpg::taint_rules::TaintRuleSet;
use apex::cpg::taint_store::TaintSpecStore;

#[test]
fn default_python_rules_have_sources() {
    let rules = TaintRuleSet::python_defaults();
    assert!(!rules.sources.is_empty());
    assert!(rules.sources.iter().any(|s| s.contains("request")));
}

#[test]
fn default_python_rules_have_sinks() {
    let rules = TaintRuleSet::python_defaults();
    assert!(!rules.sinks.is_empty());
    assert!(rules.sinks.iter().any(|s| s.contains("execute")));
}

#[test]
fn default_python_rules_have_sanitizers() {
    let rules = TaintRuleSet::python_defaults();
    assert!(!rules.sanitizers.is_empty());
}

#[test]
fn javascript_rules_have_sources() {
    let rules = TaintRuleSet::javascript_defaults();
    assert!(!rules.sources.is_empty());
    assert!(rules.sources.iter().any(|s| s.contains("req")));
}

#[test]
fn javascript_rules_have_sinks() {
    let rules = TaintRuleSet::javascript_defaults();
    assert!(!rules.sinks.is_empty());
}

#[test]
fn custom_rules_merge() {
    let mut rules = TaintRuleSet::python_defaults();
    let custom = TaintRuleSet {
        sources: vec!["custom_source".into()],
        sinks: vec!["custom_sink".into()],
        sanitizers: vec![],
    };
    rules.merge(&custom);
    assert!(rules.sources.contains(&"custom_source".to_string()));
    assert!(rules.sinks.contains(&"custom_sink".to_string()));
}

#[test]
fn merge_adds_no_duplicates() {
    let mut rules = TaintRuleSet::python_defaults();
    let before = rules.sources.len();
    let again = TaintRuleSet::python_defaults();
    rules.merge(&again);
    assert_eq!(rules.sources.len(), before);
}

#[test]
fn is_source_checks_membership() {
    let rules = TaintRuleSet {
        sources: vec!["request.args".into()],
        sinks: vec![],
        sanitizers: vec![],
    };
    assert!(rules.is_source("request.args"));
    assert!(!rules.is_source("safe_func"));
}

#[test]
fn is_source_matches_substring() {
    let rules = TaintRuleSet::python_defaults();
    assert!(rules.is_source("flask.request.args.get"));
}

#[test]
fn is_sink_checks_membership() {
    let rules = TaintRuleSet {
        sources: vec![],
        sinks: vec!["execute".into()],
        sanitizers: vec![],
    };
    assert!(rules.is_sink("execute"));
    assert!(!rules.is_sink("safe_func"));
}

#[test]
fn is_sanitizer_checks_membership() {
    let rules = TaintRuleSet {
        sources: vec![],
        sinks: vec![],
        sanitizers: vec!["escape".into()],
    };
    assert!(rules.is_sanitizer("escape"));
    assert!(!rules.is_sanitizer("noop"));
}

#[test]
fn empty_rules() {
    let rules = TaintRuleSet::empty();
    assert!(rules.sources.is_empty());
    assert!(rules.sinks.is_empty());
    assert!(rules.sanitizers.is_empty());
}

#[test]
fn empty_store() {
    let store = TaintSpecStore::new();
    assert!(store.is_empty());
    assert_eq!(store.len(), 0);
    assert!(!store.is_source("anything"));
    assert!(!store.is_sink("anything"));
    assert!(!store.is_sanitizer("anything"));
}

#[test]
fn add_and_check_source() {
    let mut store = TaintSpecStore::new();
    store.add_source("os.environ.get".into());
    assert!(store.is_source("os.environ.get"));
    assert!(!store.is_sink("os.environ.get"));
}

#[test]
fn add_and_check_sink() {
    let mut store = TaintSpecStore::new();
    store.add_sink("subprocess.call".into());
    assert!(store.is_sink("subprocess.call"));
}

#[test]
fn add_and_check_sanitizer() {
    let mut store = TaintSpecStore::new();
    store.add_sanitizer("shlex.quote".into());
    assert!(store.is_sanitizer("shlex.quote"));
}

#[test]
fn python_defaults_has_sources() {
    let store = TaintSpecStore::python_defaults();
    assert!(!store.is_empty());
    assert!(store.sources().len() >= 3, "expected at least 3 default Python sources");
}

#[test]
fn python_defaults_has_sinks() {
    let store = TaintSpecStore::python_defaults();
    assert!(store.sinks().len() >= 3, "expected at least 3 default Python sinks");
}

#[test]
fn python_defaults_has_sanitizers() {
    let store = TaintSpecStore::python_defaults();
    assert!(store.sanitizers().len() >= 1, "expected at least 1 default Python sanitizer");
}

#[test]
fn extend_beyond_defaults() {
    let mut store = TaintSpecStore::python_defaults();
    let before = store.len();
    store.add_source("custom.input".into());
    store.add_sink("custom.output".into());
    assert_eq!(store.len(), before + 2);
    assert!(store.is_source("custom.input"));
    assert!(store.is_sink("custom.output"));
}

#[test]
fn duplicate_insert_idempotent() {
    let mut store = TaintSpecStore::new();
    store.add_source("foo".into());
    store.add_source("foo".into());
    assert_eq!(store.sources().len(), 1);
}

#[test]
fn store_match_is_exact() {
    let store = TaintSpecStore::javascript_defaults();
    assert!(!store.is_source("req.query.id"));
}

#[test]
fn js_defaults_has_sources() {
    let store = TaintSpecStore::javascript_defaults();
    assert!(!store.is_empty());
    assert!(store.sources().len() >= 3, "expected at least 3 JS sources, got {}", store.sources().len());
}

#[test]
fn js_defaults_req_query_is_source() {
    assert!(TaintSpecStore::javascript_defaults().is_source("req.query"));
}

#[test]
fn js_defaults_req_params_is_source() {
    assert!(TaintSpecStore::javascript_defaults().is_source("req.params"));
}

#[test]
fn js_defaults_req_body_is_source() {
    assert!(TaintSpecStore::javascript_defaults().is_source("req.body"));
}

#[test]
fn js_defaults_process_argv_is_source() {
    assert!(TaintSpecStore::javascript_defaults().is_source("process.argv"));
}

#[test]
fn js_defaults_eval_is_sink() {
    assert!(TaintSpecStore::javascript_defaults().is_sink("eval"));
}

#[test]
fn js_defaults_db_query_is_sink() {
    assert!(TaintSpecStore::javascript_defaults().is_sink("db.query"));
}

#[test]
fn js_defaults_res_send_is_sink() {
    assert!(TaintSpecStore::javascript_defaults().is_sink("res.send"));
}

#[test]
fn js_defaults_escape_is_sanitizer() {
    assert!(TaintSpecStore::javascript_defaults().is_sanitizer("escape"));
}

#[test]
fn js_defaults_encode_uri_is_sanitizer() {
    assert!(TaintSpecStore::javascript_defaults().is_sanitizer("encodeURI"));
}

#[test]
fn js_defaults_has_sinks() {
    let store = TaintSpecStore::javascript_defaults();
    assert!(store.sinks().len() >= 3, "expected at least 3 JS sinks");
}

#[test]
fn go_defaults_has_sources() {
    let store = TaintSpecStore::go_defaults();
    assert!(!store.is_empty());
    assert!(store.sources().len() >= 3, "expected at least 3 Go sources, got {}", store.sources().len());
}

#[test]
fn go_defaults_url_query_is_source() {
    assert!(TaintSpecStore::go_defaults().is_source("r.URL.Query"));
}

#[test]
fn go_defaults_form_value_is_source() {
    assert!(TaintSpecStore::go_defaults().is_source("r.FormValue"));
}

#[test]
fn go_defaults_os_getenv_is_source() {
    assert!(TaintSpecStore::go_defaults().is_source("os.Getenv"));
}

#[test]
fn go_defaults_exec_command_is_sink() {
    assert!(TaintSpecStore::go_defaults().is_sink("exec.Command"));
}

#[test]
fn go_defaults_db_query_is_sink() {
    assert!(TaintSpecStore::go_defaults().is_sink("db.Query"));
}

#[test]
fn go_defaults_db_exec_is_sink() {
    assert!(TaintSpecStore::go_defaults().is_sink("db.Exec"));
}

#[test]
fn go_defaults_http_get_is_sink() {
    assert!(TaintSpecStore::go_defaults().is_sink("http.Get"));
}

#[test]
fn go_defaults_html_escape_is_sanitizer() {
    assert!(TaintSpecStore::go_defaults().is_sanitizer("html.EscapeString"));
}

#[test]
fn go_defaults_url_query_escape_is_sanitizer() {
    assert!(TaintSpecStore::go_defaults().is_sanitizer("url.QueryEscape"));
}

#[test]
fn go_defaults_has_sinks() {
    let store = TaintSpecStore::go_defaults();
    assert!(store.sinks().len() >= 3, "expected at least 3 Go sinks");
}

#[test]
fn taint_rules_merge_twice_equals_once() {
    let mut a = apex::cpg::taint_rules::TaintRuleSet::python_defaults();
    let b = apex::cpg::taint_rules::TaintRuleSet::javascript_defaults();
    a.merge(&b);
    let once = (a.sources.clone(), a.sinks.clone(), a.sanitizers.clone());
    a.merge(&b);
    assert_eq!((a.sources.clone(), a.sinks.clone(), a.sanitizers.clone()), once);
    let mut seen = std::collections::HashSet::new();
    assert!(a.sinks.iter().all(|s| seen.insert(s.clone())));
}
