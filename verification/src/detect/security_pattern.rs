//! Dangerous sinks (command execution, `eval`, unsafe deserialization, weak
//! hashes, ...) whose severity depends on the user input and sanitization
//! seen around them.
use vstd::prelude::*;
use crate::detect::finding::{new_finding_id, severity_rank, Finding, FindingCategory, Severity};
use crate::text::{
    chars_of, contains, contains_exec, decimal, eq_str, lines, lines_of, occurs_at, push_decimal,
    push_str, str_views, string_of, to_lowercase, trim, trim_chars, unicode_lowercase,
};
use crate::types::Language;

verus! {

/// Scans for dangerous sinks in Python and Rust sources.
pub struct SecurityPatternDetector;

/// A sink and what raises or lowers the severity of finding it.
pub struct SecurityPattern {
    pub sink: &'static str,
    pub description: &'static str,
    pub category: FindingCategory,
    pub base_severity: Severity,
    pub user_input_indicators: Vec<&'static str>,
    pub sanitization_indicators: Vec<&'static str>,
}

/// A pattern as values.
pub struct PatternView {
    pub sink: Seq<char>,
    pub description: Seq<char>,
    pub category: FindingCategory,
    pub base_severity: Severity,
    pub user_input: Seq<Seq<char>>,
    pub sanitization: Seq<Seq<char>>,
}

/// The values of a pattern.
pub open spec fn pattern_view(p: SecurityPattern) -> PatternView {
    PatternView {
        sink: p.sink@,
        description: p.description@,
        category: p.category,
        base_severity: p.base_severity,
        user_input: str_views(p.user_input_indicators@),
        sanitization: str_views(p.sanitization_indicators@),
    }
}

/// Lines before and after a sink searched for indicators.
pub const CONTEXT_WINDOW: usize = 3;

// ───────────────────────── model ─────────────────────────

/// A pattern of the table.
pub open spec fn pv(
    sink: &'static str,
    description: &'static str,
    category: FindingCategory,
    base_severity: Severity,
    user_input: Seq<Seq<char>>,
    sanitization: Seq<Seq<char>>,
) -> PatternView {
    PatternView {
        sink: sink@,
        description: description@,
        category,
        base_severity,
        user_input,
        sanitization,
    }
}

/// The Rust sinks, in the order they are tried.
pub open spec fn rust_pattern_table() -> Seq<PatternView> {
    seq![
        pv(
            "Command::new(",
            "Command injection — user input flows into shell command",
            FindingCategory::Injection,
            Severity::High,
            str_views(seq!["format!", "user", "input", "request", "query", "arg(", "&str"]),
            str_views(seq!["escape", "sanitize", "quote", "shell_escape"]),
        ),
        pv(
            "std::process::Command",
            "Process command construction — potential command injection",
            FindingCategory::Injection,
            Severity::Medium,
            str_views(seq!["format!", "user", "input", "request"]),
            str_views(seq!["escape", "sanitize"]),
        ),
    ]
}

/// The Python sinks, in the order they are tried.
pub open spec fn python_pattern_table() -> Seq<PatternView> {
    seq![
        pv(
            "eval(",
            "eval() with potential user input — code injection",
            FindingCategory::Injection,
            Severity::Critical,
            str_views(seq!["request", "input", "param", "query", "form", "argv", "stdin"]),
            str_views(seq!["ast.literal_eval", "safe_eval"]),
        ),
        pv(
            "exec(",
            "exec() with potential user input — code injection",
            FindingCategory::Injection,
            Severity::Critical,
            str_views(seq!["request", "input", "param", "query", "form"]),
            str_views(seq![]),
        ),
        pv(
            "pickle.load",
            "Pickle deserialization — arbitrary code execution",
            FindingCategory::Injection,
            Severity::Critical,
            str_views(seq!["request", "upload", "file", "open(", "recv", "socket"]),
            str_views(seq![]),
        ),
        pv(
            "yaml.load(",
            "Unsafe YAML loading — arbitrary code execution",
            FindingCategory::Injection,
            Severity::High,
            str_views(seq!["request", "file", "open(", "read"]),
            str_views(seq!["SafeLoader", "safe_load", "CSafeLoader"]),
        ),
        pv(
            "subprocess.call(",
            "Subprocess call — potential command injection",
            FindingCategory::Injection,
            Severity::High,
            str_views(seq!["shell=True", "format(", "f\"", "request", "input", "%s"]),
            str_views(seq!["shlex.quote", "shlex.split", "shell=False"]),
        ),
        pv(
            "os.system(",
            "os.system() — command injection risk",
            FindingCategory::Injection,
            Severity::High,
            str_views(seq!["format(", "f\"", "request", "input", "+", "%"]),
            str_views(seq!["shlex.quote"]),
        ),
        pv(
            ".execute(f",
            "SQL query with f-string — SQL injection",
            FindingCategory::Injection,
            Severity::Critical,
            str_views(seq![]),
            str_views(seq![]),
        ),
        pv(
            ".execute(",
            "SQL execute — potential SQL injection",
            FindingCategory::Injection,
            Severity::High,
            str_views(seq!["%s", "format(", "+", "%", "f\""]),
            str_views(seq!["?", "%s,", "parameterize", "placeholder"]),
        ),
        pv(
            "mark_safe(",
            "mark_safe() — potential XSS if user input",
            FindingCategory::Injection,
            Severity::High,
            str_views(seq!["request", "user", "input", "form", "query"]),
            str_views(seq!["escape", "bleach", "sanitize", "strip_tags"]),
        ),
        pv(
            "hashlib.md5(",
            "MD5 hash — weak cryptographic hash",
            FindingCategory::SecuritySmell,
            Severity::Medium,
            str_views(seq!["password", "token", "secret", "key", "auth"]),
            str_views(seq![]),
        ),
        pv(
            "hashlib.sha1(",
            "SHA1 hash — weak cryptographic hash",
            FindingCategory::SecuritySmell,
            Severity::Medium,
            str_views(seq!["password", "token", "secret", "key", "auth"]),
            str_views(seq![]),
        ),
        pv(
            "verify=False",
            "TLS verification disabled — man-in-the-middle risk",
            FindingCategory::SecuritySmell,
            Severity::High,
            str_views(seq![]),
            str_views(seq![]),
        ),
    ]
}

/// The sinks scanned for in a language (none but for Python and Rust).
pub open spec fn pattern_table(lang: Language) -> Seq<PatternView> {
    match lang {
        Language::Python => python_pattern_table(),
        Language::Rust => rust_pattern_table(),
        _ => Seq::empty(),
    }
}

/// One step less serious (Low and Info stay).
pub open spec fn downgraded(s: Severity) -> Severity {
    match s {
        Severity::Critical => Severity::High,
        Severity::High => Severity::Medium,
        Severity::Medium => Severity::Low,
        Severity::Low => Severity::Low,
        Severity::Info => Severity::Info,
    }
}

/// The severity of a finding: the base, one step lower where user-input
/// indicators are defined but none is near, and one step lower again where
/// a sanitization indicator is near.
pub open spec fn adjusted(base: Severity, user_input: bool, sanitized: bool, defined: bool) -> Severity {
    let s = if !defined || user_input {
        base
    } else {
        downgraded(base)
    };
    if sanitized {
        downgraded(s)
    } else {
        s
    }
}

/// Some indicator occurs (ignoring case) in the lines within
/// [`CONTEXT_WINDOW`] of line `i`.
pub open spec fn window_has(ls: Seq<Seq<char>>, i: int, inds: Seq<Seq<char>>) -> bool {
    let start = if i >= 3 {
        i - 3
    } else {
        0
    };
    let end = if i + 4 <= ls.len() {
        i + 4
    } else {
        ls.len() as int
    };
    exists|j: int, k: int|
        #![trigger ls[j], inds[k]]
        start <= j < end && 0 <= k < inds.len() && contains(
            unicode_lowercase(ls[j]),
            unicode_lowercase(inds[k]),
        )
}

/// Index of the first pattern whose sink occurs in `s`.
pub open spec fn first_sink(s: Seq<char>, ps: Seq<PatternView>, k: int) -> Option<int>
    decreases ps.len() - k,
{
    if k < 0 || k >= ps.len() {
        None
    } else if contains(s, ps[k].sink) {
        Some(k)
    } else {
        first_sink(s, ps, k + 1)
    }
}

/// A found sink is a pattern of the table whose sink occurs.
pub proof fn lemma_first_sink(s: Seq<char>, ps: Seq<PatternView>, k: int)
    requires
        0 <= k,
    ensures
        match first_sink(s, ps, k) {
            Some(j) => k <= j < ps.len() && contains(s, ps[j].sink),
            None => true,
        },
    decreases ps.len() - k,
{
    if k < ps.len() && !contains(s, ps[k].sink) {
        lemma_first_sink(s, ps, k + 1);
    }
}

/// Line `i` is scanned: not excluded (a comment or inside a test block) and
/// not a test attribute.
pub open spec fn scanned_line(ls: Seq<Seq<char>>, excluded: Seq<bool>, i: int) -> bool {
    &&& !excluded[i]
    &&& trim(ls[i]) != "#[test]"@
    &&& trim(ls[i]) != "#[tokio::test]"@
}

/// What line `i` reports: the pattern found and the adjusted severity.
pub open spec fn line_report(
    ls: Seq<Seq<char>>,
    excluded: Seq<bool>,
    stripped: Seq<Seq<char>>,
    i: int,
    lang: Language,
) -> Option<(PatternView, Severity)> {
    if !scanned_line(ls, excluded, i) {
        None
    } else {
        match first_sink(stripped[i], pattern_table(lang), 0) {
            Some(k) => {
                let p = pattern_table(lang)[k];
                Some(
                    (
                        p,
                        adjusted(
                            p.base_severity,
                            window_has(ls, i, p.user_input),
                            window_has(ls, i, p.sanitization),
                            p.user_input.len() > 0,
                        ),
                    ),
                )
            },
            None => None,
        }
    }
}

/// The reports of the first `n` lines, each with its index.
pub open spec fn reports(
    ls: Seq<Seq<char>>,
    excluded: Seq<bool>,
    stripped: Seq<Seq<char>>,
    n: int,
    lang: Language,
) -> Seq<(int, PatternView, Severity)>
    decreases n,
{
    if n <= 0 {
        Seq::empty()
    } else {
        let prev = reports(ls, excluded, stripped, n - 1, lang);
        match line_report(ls, excluded, stripped, n - 1, lang) {
            Some((p, s)) => prev.push((n - 1, p, s)),
            None => prev,
        }
    }
}

/// `f` is the finding of pattern `p` at 0-based line `i` of `path`.
pub open spec fn is_pattern_finding(f: Finding, path: Seq<char>, i: int, p: PatternView, s: Severity) -> bool {
    let n = (i + 1) as u32;
    &&& f.detector@ == "security-pattern"@
    &&& f.severity == s
    &&& f.category == p.category
    &&& f.file@ == path
    &&& f.line == Some(n)
    &&& f.title@ == p.description + " at line "@ + decimal(n as nat)
    &&& f.description@ == "Pattern `"@ + p.sink + "` found in "@ + path + ":"@ + decimal(n as nat)
    &&& f.evidence@.len() == 0
    &&& !f.covered
    &&& f.suggestion@ == "Validate and sanitize input before use"@
    &&& f.explanation is None
    &&& f.fix is None
    &&& f.cwe_ids@.len() == 0
}

// ───────────────────────── code ─────────────────────────

/// A list of one indicator.
fn single(s: &'static str) -> (v: Vec<&'static str>)
    ensures
        v@ == seq![s],
{
    let mut v: Vec<&'static str> = Vec::new();
    v.push(s);
    v
}

/// A pattern.
fn pat(
    sink: &'static str,
    description: &'static str,
    category: FindingCategory,
    base_severity: Severity,
    user_input_indicators: Vec<&'static str>,
    sanitization_indicators: Vec<&'static str>,
) -> (p: SecurityPattern)
    ensures
        pattern_view(p) == pv(
            sink,
            description,
            category,
            base_severity,
            str_views(user_input_indicators@),
            str_views(sanitization_indicators@),
        ),
{
    SecurityPattern {
        sink,
        description,
        category,
        base_severity,
        user_input_indicators,
        sanitization_indicators,
    }
}

/// The sinks scanned for in `lang` (see [`pattern_table`]).
fn patterns_for_language(lang: Language) -> (ps: Vec<SecurityPattern>)
    ensures
        ps@.map_values(|p: SecurityPattern| pattern_view(p)) == pattern_table(lang),
{
    let ps = match lang {
        Language::Python => vec![
            pat(
                "eval(",
                "eval() with potential user input — code injection",
                FindingCategory::Injection,
                Severity::Critical,
                vec!["request", "input", "param", "query", "form", "argv", "stdin"],
                vec!["ast.literal_eval", "safe_eval"],
            ),
            pat(
                "exec(",
                "exec() with potential user input — code injection",
                FindingCategory::Injection,
                Severity::Critical,
                vec!["request", "input", "param", "query", "form"],
                vec![],
            ),
            pat(
                "pickle.load",
                "Pickle deserialization — arbitrary code execution",
                FindingCategory::Injection,
                Severity::Critical,
                vec!["request", "upload", "file", "open(", "recv", "socket"],
                vec![],
            ),
            pat(
                "yaml.load(",
                "Unsafe YAML loading — arbitrary code execution",
                FindingCategory::Injection,
                Severity::High,
                vec!["request", "file", "open(", "read"],
                vec!["SafeLoader", "safe_load", "CSafeLoader"],
            ),
            pat(
                "subprocess.call(",
                "Subprocess call — potential command injection",
                FindingCategory::Injection,
                Severity::High,
                vec!["shell=True", "format(", "f\"", "request", "input", "%s"],
                vec!["shlex.quote", "shlex.split", "shell=False"],
            ),
            pat(
                "os.system(",
                "os.system() — command injection risk",
                FindingCategory::Injection,
                Severity::High,
                vec!["format(", "f\"", "request", "input", "+", "%"],
                single("shlex.quote"),
            ),
            pat(
                ".execute(f",
                "SQL query with f-string — SQL injection",
                FindingCategory::Injection,
                Severity::Critical,
                vec![],
                vec![],
            ),
            pat(
                ".execute(",
                "SQL execute — potential SQL injection",
                FindingCategory::Injection,
                Severity::High,
                vec!["%s", "format(", "+", "%", "f\""],
                vec!["?", "%s,", "parameterize", "placeholder"],
            ),
            pat(
                "mark_safe(",
                "mark_safe() — potential XSS if user input",
                FindingCategory::Injection,
                Severity::High,
                vec!["request", "user", "input", "form", "query"],
                vec!["escape", "bleach", "sanitize", "strip_tags"],
            ),
            pat(
                "hashlib.md5(",
                "MD5 hash — weak cryptographic hash",
                FindingCategory::SecuritySmell,
                Severity::Medium,
                vec!["password", "token", "secret", "key", "auth"],
                vec![],
            ),
            pat(
                "hashlib.sha1(",
                "SHA1 hash — weak cryptographic hash",
                FindingCategory::SecuritySmell,
                Severity::Medium,
                vec!["password", "token", "secret", "key", "auth"],
                vec![],
            ),
            pat(
                "verify=False",
                "TLS verification disabled — man-in-the-middle risk",
                FindingCategory::SecuritySmell,
                Severity::High,
                vec![],
                vec![],
            ),
        ],
        Language::Rust => vec![
            pat(
                "Command::new(",
                "Command injection — user input flows into shell command",
                FindingCategory::Injection,
                Severity::High,
                vec!["format!", "user", "input", "request", "query", "arg(", "&str"],
                vec!["escape", "sanitize", "quote", "shell_escape"],
            ),
            pat(
                "std::process::Command",
                "Process command construction — potential command injection",
                FindingCategory::Injection,
                Severity::Medium,
                vec!["format!", "user", "input", "request"],
                vec!["escape", "sanitize"],
            ),
        ],
        _ => Vec::new(),
    };
    proof {
        let f = |p: SecurityPattern| pattern_view(p);
        if lang == Language::Rust {
            assert(ps@.len() == 2);
            assert(f(ps@[0]) == rust_pattern_table()[0]);
            assert(f(ps@[1]) == rust_pattern_table()[1]);
        } else if lang == Language::Python {
            let t = python_pattern_table();
            assert(ps@.len() == 12);
            assert(f(ps@[0]) == t[0]);
            assert(f(ps@[1]) == t[1]);
            assert(f(ps@[2]) == t[2]);
            assert(f(ps@[3]) == t[3]);
            assert(f(ps@[4]) == t[4]);
            assert(f(ps@[5]) == t[5]);
            assert(f(ps@[6]) == t[6]);
            assert(f(ps@[7]) == t[7]);
            assert(f(ps@[8]) == t[8]);
            assert(f(ps@[9]) == t[9]);
            assert(f(ps@[10]) == t[10]);
            assert(f(ps@[11]) == t[11]);
        }
    }
    assert(ps@.map_values(|p: SecurityPattern| pattern_view(p)) =~= pattern_table(lang));
    ps
}

/// One step less serious (see [`downgraded`]).
fn downgrade(s: Severity) -> (r: Severity)
    ensures
        r == downgraded(s),
{
    match s {
        Severity::Critical => Severity::High,
        Severity::High => Severity::Medium,
        Severity::Medium => Severity::Low,
        Severity::Low => Severity::Low,
        Severity::Info => Severity::Info,
    }
}

/// The adjusted severity (see [`adjusted`]).
fn adjust_severity(base: Severity, user_input: bool, sanitized: bool, defined: bool) -> (r: Severity)
    ensures
        r == adjusted(base, user_input, sanitized, defined),
{
    let sev = if !defined || user_input {
        base
    } else {
        downgrade(base)
    };
    if sanitized {
        downgrade(sev)
    } else {
        sev
    }
}

/// Whether an indicator occurs near line `i` (see [`window_has`]).
fn has_indicator(ls: &Vec<Vec<char>>, i: usize, inds: &Vec<&'static str>) -> (b: bool)
    requires
        i < ls@.len(),
    ensures
        b == window_has(ls@.map_values(|l: Vec<char>| l@), i as int, str_views(inds@)),
{
    let ghost lv = ls@.map_values(|l: Vec<char>| l@);
    let ghost iv = str_views(inds@);
    if inds.len() == 0 {
        return false;
    }
    let len = ls.len();
    let start: usize = if i >= CONTEXT_WINDOW { i - CONTEXT_WINDOW } else { 0 };
    let end: usize = if len - i > CONTEXT_WINDOW { i + CONTEXT_WINDOW + 1 } else { len };
    assert(lv.len() == len);
    let mut lowered: Vec<Vec<char>> = Vec::new();
    let mut k: usize = 0;
    while k < inds.len()
        invariant
            k <= inds@.len(),
            iv == str_views(inds@),
            lowered@.len() == k,
            forall|q: int| 0 <= q < k ==> (#[trigger] lowered@[q])@ == unicode_lowercase(iv[q]),
        decreases inds@.len() - k,
    {
        let l = to_lowercase(inds[k]);
        lowered.push(chars_of(l.as_str()));
        k = k + 1;
    }
    let mut j: usize = start;
    while j < end
        invariant
            start <= j <= end,
            end <= len,
            len == ls@.len(),
            lv == ls@.map_values(|l: Vec<char>| l@),
            iv == str_views(inds@),
            lowered@.len() == iv.len(),
            forall|q: int| 0 <= q < iv.len() ==> (#[trigger] lowered@[q])@ == unicode_lowercase(iv[q]),
            start == (if i >= 3 { i - 3 } else { 0 }),
            end == (if i + 4 <= lv.len() { i + 4 } else { lv.len() as int }),
            forall|a: int, q: int|
                #![trigger lv[a], iv[q]]
                start <= a < j && 0 <= q < iv.len() ==> !contains(
                    unicode_lowercase(lv[a]),
                    unicode_lowercase(iv[q]),
                ),
        decreases end - j,
    {
        let line = string_of(&ls[j]);
        let low = chars_of(to_lowercase(line.as_str()).as_str());
        assert(low@ == unicode_lowercase(lv[j as int]));
        let mut q: usize = 0;
        while q < lowered.len()
            invariant
                q <= lowered@.len(),
                lv == ls@.map_values(|l: Vec<char>| l@),
                iv == str_views(inds@),
                start <= j < end,
                end <= lv.len(),
                start == (if i >= 3 { i - 3 } else { 0 }),
                end == (if i + 4 <= lv.len() { i + 4 } else { lv.len() as int }),
                lowered@.len() == iv.len(),
                low@ == unicode_lowercase(lv[j as int]),
                forall|x: int| 0 <= x < iv.len() ==> (#[trigger] lowered@[x])@ == unicode_lowercase(iv[x]),
                forall|x: int| 0 <= x < q ==> !contains(unicode_lowercase(lv[j as int]), unicode_lowercase(#[trigger] iv[x])),
            decreases lowered@.len() - q,
        {
            if contains_exec(&low, &lowered[q]) {
                assert(contains(unicode_lowercase(lv[j as int]), unicode_lowercase(iv[q as int])));
                assert(start <= j < end && 0 <= q < iv.len());
                return true;
            }
            q = q + 1;
        }
        j = j + 1;
    }
    false
}

/// The pattern whose sink first occurs in `s` (see [`first_sink`]).
fn find_sink(s: &[char], ps: &Vec<SecurityPattern>) -> (r: Option<usize>)
    ensures
        match r {
            Some(k) => first_sink(s@, ps@.map_values(|p: SecurityPattern| pattern_view(p)), 0) == Some(k as int),
            None => first_sink(s@, ps@.map_values(|p: SecurityPattern| pattern_view(p)), 0) is None,
        },
{
    let ghost pvs = ps@.map_values(|p: SecurityPattern| pattern_view(p));
    let mut k: usize = 0;
    while k < ps.len()
        invariant
            k <= ps@.len(),
            pvs == ps@.map_values(|p: SecurityPattern| pattern_view(p)),
            first_sink(s@, pvs, 0) == first_sink(s@, pvs, k as int),
        decreases ps@.len() - k,
    {
        let sink = chars_of(ps[k].sink);
        if contains_exec(s, &sink) {
            return Some(k);
        }
        k = k + 1;
    }
    None
}

/// The finding of pattern `p` at 0-based line `i` of `path`.
fn pattern_finding(path: &str, i: usize, p: &SecurityPattern, severity: Severity) -> (f: Finding)
    requires
        i < usize::MAX,
    ensures
        is_pattern_finding(f, path@, i as int, pattern_view(*p), severity),
{
    let n = (i + 1) as u32;
    let mut title: Vec<char> = Vec::new();
    push_str(&mut title, p.description);
    push_str(&mut title, " at line ");
    push_decimal(&mut title, n as u64);
    let mut desc: Vec<char> = Vec::new();
    push_str(&mut desc, "Pattern `");
    push_str(&mut desc, p.sink);
    push_str(&mut desc, "` found in ");
    push_str(&mut desc, path);
    push_str(&mut desc, ":");
    push_decimal(&mut desc, n as u64);
    Finding {
        id: new_finding_id(),
        detector: String::from_str("security-pattern"),
        severity,
        category: p.category,
        file: String::from_str(path),
        line: Some(n),
        title: string_of(&title),
        description: string_of(&desc),
        evidence: Vec::new(),
        covered: false,
        suggestion: String::from_str("Validate and sanitize input before use"),
        explanation: None,
        fix: None,
        cwe_ids: Vec::new(),
    }
}

impl SecurityPatternDetector {
    /// The detector's name.
    pub fn name(&self) -> (s: &'static str)
        ensures
            s@ == "security-pattern"@,
    {
        "security-pattern"
    }

    /// Scans one source file of language `lang` (Python and Rust; nothing
    /// for others). `excluded[i]` marks the lines to pass over (comments,
    /// lines inside test blocks) and `stripped[i]` is line `i` trimmed and
    /// with its string literals removed. Each scanned line where a sink of
    /// the language occurs in the stripped text gives one finding, for the
    /// first such sink, with the severity adjusted by the indicators within
    /// three lines; in line order.
    pub fn analyze_source(
        &self,
        path: &str,
        source: &str,
        excluded: &[bool],
        stripped: &[String],
        lang: Language,
    ) -> (fs: Vec<Finding>)
        requires
            excluded@.len() == lines(source@).len(),
            stripped@.len() == lines(source@).len(),
        ensures
            ({
                let rs = reports(
                    lines(source@),
                    excluded@,
                    stripped@.map_values(|s: String| s@),
                    lines(source@).len() as int,
                    lang,
                );
                &&& fs@.len() == rs.len()
                &&& forall|k: int|
                    0 <= k < fs@.len() ==> is_pattern_finding(
                        #[trigger] fs@[k],
                        path@,
                        rs[k].0,
                        rs[k].1,
                        rs[k].2,
                    )
            }),
    {
        let cs = chars_of(source);
        let ls = lines_of(&cs);
        let ghost lv = ls@.map_values(|l: Vec<char>| l@);
        let ghost sv = stripped@.map_values(|s: String| s@);
        let patterns = patterns_for_language(lang);
        let mut out: Vec<Finding> = Vec::new();
        let nl = ls.len();
        let mut i: usize = 0;
        while i < nl
            invariant
                i <= ls@.len(),
                nl == ls@.len(),
                lv == ls@.map_values(|l: Vec<char>| l@),
                lv == lines(source@),
                sv == stripped@.map_values(|s: String| s@),
                excluded@.len() == lv.len(),
                stripped@.len() == lv.len(),
                patterns@.map_values(|p: SecurityPattern| pattern_view(p)) == pattern_table(lang),
                out@.len() == reports(lv, excluded@, sv, i as int, lang).len(),
                forall|k: int|
                    0 <= k < out@.len() ==> is_pattern_finding(
                        #[trigger] out@[k],
                        path@,
                        reports(lv, excluded@, sv, i as int, lang)[k].0,
                        reports(lv, excluded@, sv, i as int, lang)[k].1,
                        reports(lv, excluded@, sv, i as int, lang)[k].2,
                    ),
            decreases ls@.len() - i,
        {
            let ghost rb = reports(lv, excluded@, sv, i as int, lang);
            assert(stripped@[i as int]@ == sv[i as int]);
            let t = trim_chars(&ls[i]);
            proof {
                reveal_strlit("#[test]");
                reveal_strlit("#[tokio::test]");
            }
            let scan = !excluded[i] && !eq_str(&t, "#[test]") && !eq_str(&t, "#[tokio::test]");
            assert(scan == scanned_line(lv, excluded@, i as int));
            if scan {
                let st = chars_of(stripped[i].as_str());
                match find_sink(&st, &patterns) {
                    Some(k) => {
                        proof {
                            lemma_first_sink(st@, pattern_table(lang), 0);
                        }
                        let p = &patterns[k];
                        assert(pattern_view(*p) == pattern_table(lang)[k as int]);
                        let user = has_indicator(&ls, i, &p.user_input_indicators);
                        let sanitized = has_indicator(&ls, i, &p.sanitization_indicators);
                        let defined = p.user_input_indicators.len() > 0;
                        let sev = adjust_severity(p.base_severity, user, sanitized, defined);
                        let f = pattern_finding(path, i, p, sev);
                        out.push(f);
                    },
                    None => {},
                }
            }
            i = i + 1;
        }
        out
    }
}

// ───────────────────────── laws ─────────────────────────

/// The Python sinks reported as injection: code evaluation, unsafe
/// deserialization, shell commands, SQL `execute` and unescaped markup.
pub open spec fn python_injection_sinks() -> Seq<Seq<char>> {
    seq![
        "eval("@,
        "exec("@,
        "pickle.load"@,
        "yaml.load("@,
        "subprocess.call("@,
        "os.system("@,
        ".execute("@,
        "mark_safe("@,
    ]
}

/// Where a sink of the table occurs at or after `k`, a first one is found,
/// no later than it.
proof fn lemma_first_sink_found(s: Seq<char>, ps: Seq<PatternView>, k: int, m: int)
    requires
        0 <= k <= m < ps.len(),
        contains(s, ps[m].sink),
    ensures
        first_sink(s, ps, k) matches Some(j) && k <= j <= m && contains(s, ps[j].sink),
    decreases m - k,
{
    if !contains(s, ps[k].sink) {
        lemma_first_sink_found(s, ps, k + 1, m);
    }
}

/// The first nine Python sinks are injection sinks; the `m`-th sink of
/// [`python_injection_sinks`] stands in the table at `m`, or one later past
/// `os.system(`.
proof fn lemma_python_rows(m: int)
    requires
        0 <= m < 8,
    ensures
        python_pattern_table().len() == 12,
        forall|j: int| 0 <= j <= 8 ==> (#[trigger] python_pattern_table()[j]).category == FindingCategory::Injection,
        python_pattern_table()[if m <= 5 { m } else { m + 1 }].sink == python_injection_sinks()[m],
        python_pattern_table()[5].sink == "os.system("@,
        python_pattern_table()[5].description == "os.system() — command injection risk"@,
        python_pattern_table()[5].base_severity == Severity::High,
        python_pattern_table()[0].sink == "eval("@,
        python_pattern_table()[1].sink == "exec("@,
        python_pattern_table()[2].sink == "pickle.load"@,
        python_pattern_table()[3].sink == "yaml.load("@,
        python_pattern_table()[4].sink == "subprocess.call("@,
{
    let t = python_pattern_table();
    assert(t.len() == 12);
    assert forall|j: int| 0 <= j <= 8 implies (#[trigger] t[j]).category == FindingCategory::Injection by {
        if j == 0 {} else if j == 1 {} else if j == 2 {} else if j == 3 {} else if j == 4 {}
        else if j == 5 {} else if j == 6 {} else if j == 7 {} else {}
    }
}

/// The report of line `i` stands among the reports of every longer prefix.
proof fn lemma_report_listed(
    ls: Seq<Seq<char>>,
    excluded: Seq<bool>,
    stripped: Seq<Seq<char>>,
    n: int,
    i: int,
    lang: Language,
)
    requires
        0 <= i < n,
        line_report(ls, excluded, stripped, i, lang) is Some,
    ensures
        exists|k: int|
            0 <= k < reports(ls, excluded, stripped, n, lang).len()
                && #[trigger] reports(ls, excluded, stripped, n, lang)[k] == (
                i,
                line_report(ls, excluded, stripped, i, lang).unwrap().0,
                line_report(ls, excluded, stripped, i, lang).unwrap().1,
            ),
    decreases n,
{
    let r = reports(ls, excluded, stripped, n, lang);
    let prev = reports(ls, excluded, stripped, n - 1, lang);
    if i == n - 1 {
        let (p, s) = line_report(ls, excluded, stripped, i, lang).unwrap();
        assert(r == prev.push((i, p, s)));
        assert(r[prev.len() as int] == (i, p, s));
    } else {
        lemma_report_listed(ls, excluded, stripped, n - 1, i, lang);
        let k = choose|k: int|
            0 <= k < prev.len() && #[trigger] prev[k] == (
                i,
                line_report(ls, excluded, stripped, i, lang).unwrap().0,
                line_report(ls, excluded, stripped, i, lang).unwrap().1,
            );
        assert(r[k] == prev[k]);
    }
}

/// A scanned Python line in which code evaluation (`eval(`, `exec(`),
/// unsafe deserialization (`pickle.load`, `yaml.load(`), a shell command
/// (`subprocess.call(`, `os.system(`), an SQL `.execute(` or `mark_safe(`
/// occurs gives an injection finding for that line, naming a sink that
/// occurs in it.
pub proof fn law_python_injection_reported(
    ls: Seq<Seq<char>>,
    excluded: Seq<bool>,
    stripped: Seq<Seq<char>>,
    i: int,
    m: int,
)
    requires
        excluded.len() == ls.len(),
        stripped.len() == ls.len(),
        0 <= i < ls.len(),
        scanned_line(ls, excluded, i),
        0 <= m < python_injection_sinks().len(),
        contains(stripped[i], python_injection_sinks()[m]),
    ensures
        exists|k: int|
            0 <= k < reports(ls, excluded, stripped, ls.len() as int, Language::Python).len()
                && (#[trigger] reports(ls, excluded, stripped, ls.len() as int, Language::Python)[k]).0
                == i && reports(ls, excluded, stripped, ls.len() as int, Language::Python)[k].1.category
                == FindingCategory::Injection && contains(
                stripped[i],
                reports(ls, excluded, stripped, ls.len() as int, Language::Python)[k].1.sink,
            ),
{
    lemma_python_rows(m);
    let t = python_pattern_table();
    let row = if m <= 5 { m } else { m + 1 };
    lemma_first_sink_found(stripped[i], t, 0, row);
    let j = first_sink(stripped[i], t, 0).unwrap();
    assert(t[j].category == FindingCategory::Injection);
    lemma_report_listed(ls, excluded, stripped, ls.len() as int, i, Language::Python);
}

/// A scanned Python line that calls `os.system(`, and none of the sinks
/// tried before it, is reported as the `os.system()` command-injection
/// risk, High before the indicators adjust it.
pub proof fn law_os_system_reported(
    ls: Seq<Seq<char>>,
    excluded: Seq<bool>,
    stripped: Seq<Seq<char>>,
    i: int,
)
    requires
        excluded.len() == ls.len(),
        stripped.len() == ls.len(),
        0 <= i < ls.len(),
        scanned_line(ls, excluded, i),
        contains(stripped[i], "os.system("@),
        !contains(stripped[i], "eval("@),
        !contains(stripped[i], "exec("@),
        !contains(stripped[i], "pickle.load"@),
        !contains(stripped[i], "yaml.load("@),
        !contains(stripped[i], "subprocess.call("@),
    ensures
        exists|k: int|
            0 <= k < reports(ls, excluded, stripped, ls.len() as int, Language::Python).len()
                && (#[trigger] reports(ls, excluded, stripped, ls.len() as int, Language::Python)[k]).0
                == i && reports(ls, excluded, stripped, ls.len() as int, Language::Python)[k].1.sink
                == "os.system("@ && reports(
                ls,
                excluded,
                stripped,
                ls.len() as int,
                Language::Python,
            )[k].1.description == "os.system() — command injection risk"@ && reports(
                ls,
                excluded,
                stripped,
                ls.len() as int,
                Language::Python,
            )[k].1.category == FindingCategory::Injection && reports(
                ls,
                excluded,
                stripped,
                ls.len() as int,
                Language::Python,
            )[k].1.base_severity == Severity::High,
{
    lemma_python_rows(5);
    let t = python_pattern_table();
    let s = stripped[i];
    assert(first_sink(s, t, 0) == first_sink(s, t, 1));
    assert(first_sink(s, t, 1) == first_sink(s, t, 2));
    assert(first_sink(s, t, 2) == first_sink(s, t, 3));
    assert(first_sink(s, t, 3) == first_sink(s, t, 4));
    assert(first_sink(s, t, 4) == first_sink(s, t, 5));
    assert(first_sink(s, t, 5) == Some(5int));
    lemma_report_listed(ls, excluded, stripped, ls.len() as int, i, Language::Python);
}


/// The Python sinks reported as security smells: weak hashes and disabled
/// TLS verification.
pub open spec fn python_smell_sinks() -> Seq<Seq<char>> {
    seq!["hashlib.md5("@, "hashlib.sha1("@, "verify=False"@]
}

/// The Rust sinks, both of them command construction.
pub open spec fn rust_command_sinks() -> Seq<Seq<char>> {
    seq!["Command::new("@, "std::process::Command"@]
}

/// Rows past the injection sinks of the Python table.
proof fn lemma_python_later_rows()
    ensures
        python_pattern_table()[6].sink == ".execute(f"@,
        python_pattern_table()[7].sink == ".execute("@,
        python_pattern_table()[8].sink == "mark_safe("@,
        forall|m: int| 0 <= m < 3 ==> python_pattern_table()[m + 9].sink == #[trigger] python_smell_sinks()[m],
        forall|j: int| 9 <= j < 12 ==> (#[trigger] python_pattern_table()[j]).category == FindingCategory::SecuritySmell,
{
    let t = python_pattern_table();
    assert forall|m: int| 0 <= m < 3 implies t[m + 9].sink == #[trigger] python_smell_sinks()[m] by {
        if m == 0 {} else if m == 1 {} else {}
    }
    assert forall|j: int| 9 <= j < 12 implies (#[trigger] t[j]).category == FindingCategory::SecuritySmell by {
        if j == 9 {} else if j == 10 {} else {}
    }
}

/// A line without `.execute(` has no `.execute(f` either.
proof fn lemma_execute_prefix(s: Seq<char>)
    requires
        contains(s, ".execute(f"@),
    ensures
        contains(s, ".execute("@),
{
    reveal_strlit(".execute(f");
    reveal_strlit(".execute(");
    let i = choose|i: int| occurs_at(s, ".execute(f"@, i);
    assert(s.subrange(i, i + 9) == s.subrange(i, i + 10).subrange(0, 9));
    assert(s.subrange(i, i + 10).subrange(0, 9) == ".execute("@);
    assert(occurs_at(s, ".execute("@, i));
}

/// A scanned Python line with a weak hash (`hashlib.md5(`,
/// `hashlib.sha1(`) or `verify=False`, and no injection sink, gives a
/// security-smell finding for that line, naming a sink that occurs in it.
pub proof fn law_python_smell_reported(
    ls: Seq<Seq<char>>,
    excluded: Seq<bool>,
    stripped: Seq<Seq<char>>,
    i: int,
    m: int,
)
    requires
        excluded.len() == ls.len(),
        stripped.len() == ls.len(),
        0 <= i < ls.len(),
        scanned_line(ls, excluded, i),
        0 <= m < python_smell_sinks().len(),
        contains(stripped[i], python_smell_sinks()[m]),
        forall|q: int|
            0 <= q < python_injection_sinks().len() ==> !contains(
                stripped[i],
                #[trigger] python_injection_sinks()[q],
            ),
    ensures
        exists|k: int|
            0 <= k < reports(ls, excluded, stripped, ls.len() as int, Language::Python).len()
                && (#[trigger] reports(ls, excluded, stripped, ls.len() as int, Language::Python)[k]).0
                == i && reports(ls, excluded, stripped, ls.len() as int, Language::Python)[k].1.category
                == FindingCategory::SecuritySmell && contains(
                stripped[i],
                reports(ls, excluded, stripped, ls.len() as int, Language::Python)[k].1.sink,
            ),
{
    lemma_python_rows(0);
    lemma_python_later_rows();
    let t = python_pattern_table();
    let s = stripped[i];
    let inj = python_injection_sinks();
    assert(!contains(s, inj[0]) && !contains(s, inj[1]) && !contains(s, inj[2]) && !contains(s, inj[3]));
    assert(!contains(s, inj[4]) && !contains(s, inj[5]) && !contains(s, inj[6]) && !contains(s, inj[7]));
    if contains(s, ".execute(f"@) {
        lemma_execute_prefix(s);
    }
    assert(first_sink(s, t, 0) == first_sink(s, t, 1));
    assert(first_sink(s, t, 1) == first_sink(s, t, 2));
    assert(first_sink(s, t, 2) == first_sink(s, t, 3));
    assert(first_sink(s, t, 3) == first_sink(s, t, 4));
    assert(first_sink(s, t, 4) == first_sink(s, t, 5));
    assert(first_sink(s, t, 5) == first_sink(s, t, 6));
    assert(first_sink(s, t, 6) == first_sink(s, t, 7));
    assert(first_sink(s, t, 7) == first_sink(s, t, 8));
    assert(first_sink(s, t, 8) == first_sink(s, t, 9));
    assert(t[m + 9].sink == python_smell_sinks()[m]);
    lemma_first_sink_found(s, t, 9, m + 9);
    let j = first_sink(s, t, 9).unwrap();
    assert(t[j].category == FindingCategory::SecuritySmell);
    lemma_report_listed(ls, excluded, stripped, ls.len() as int, i, Language::Python);
}

/// A scanned Rust line that builds a process command (`Command::new(`,
/// `std::process::Command`) gives an injection finding for that line,
/// naming a sink that occurs in it.
pub proof fn law_rust_command_reported(
    ls: Seq<Seq<char>>,
    excluded: Seq<bool>,
    stripped: Seq<Seq<char>>,
    i: int,
    m: int,
)
    requires
        excluded.len() == ls.len(),
        stripped.len() == ls.len(),
        0 <= i < ls.len(),
        scanned_line(ls, excluded, i),
        0 <= m < rust_command_sinks().len(),
        contains(stripped[i], rust_command_sinks()[m]),
    ensures
        exists|k: int|
            0 <= k < reports(ls, excluded, stripped, ls.len() as int, Language::Rust).len()
                && (#[trigger] reports(ls, excluded, stripped, ls.len() as int, Language::Rust)[k]).0
                == i && reports(ls, excluded, stripped, ls.len() as int, Language::Rust)[k].1.category
                == FindingCategory::Injection && contains(
                stripped[i],
                reports(ls, excluded, stripped, ls.len() as int, Language::Rust)[k].1.sink,
            ),
{
    let t = rust_pattern_table();
    assert(t.len() == 2);
    assert(t[m].sink == rust_command_sinks()[m]) by {
        if m == 0 {} else {}
    }
    lemma_first_sink_found(stripped[i], t, 0, m);
    let j = first_sink(stripped[i], t, 0).unwrap();
    assert(t[j].category == FindingCategory::Injection) by {
        if j == 0 {} else {}
    }
    lemma_report_listed(ls, excluded, stripped, ls.len() as int, i, Language::Rust);
}

/// Each reason to doubt a sink lowers its severity one step, to Low at
/// most: one where user-input indicators are defined but none is near, one
/// more where sanitization is near. With user input near and no
/// sanitization the base severity stands; Info stays Info.
pub proof fn law_severity_steps(base: Severity, user_input: bool, sanitized: bool, defined: bool)
    ensures
        ({
            let steps = (if defined && !user_input { 1int } else { 0int }) + (if sanitized { 1int } else { 0int });
            let r = severity_rank(base) + steps;
            base != Severity::Info ==> severity_rank(adjusted(base, user_input, sanitized, defined)) == (
            if r <= 3 {
                r
            } else {
                3
            })
        }),
        base == Severity::Info ==> adjusted(base, user_input, sanitized, defined) == Severity::Info,
{
}

} // verus!
