//! SQL injection (CWE-89): SQL queries built by string formatting or
//! concatenation.
use vstd::prelude::*;
use crate::detect::finding::{new_finding_id, Finding, FindingCategory, Severity};
use crate::text::{
    chars_of, contains, contains_any, contains_any_str, contains_str, decimal, lines, lines_of,
    push_decimal, push_str, str_views, string_of, trim, trim_chars,
};

verus! {

/// Calls that execute SQL.
pub const SQL_EXEC_PATTERNS: [&'static str; 7] = [
    "execute(",
    "executemany(",
    "raw(",
    "cursor.execute(",
    "db.execute(",
    "conn.execute(",
    "session.execute(",
];

/// An f-string holding an SQL statement with an interpolation.
pub const FSTRING_SQL: &'static str = "f[\"'](?i)(SELECT|INSERT|UPDATE|DELETE|DROP)\\s.*\\{[^}]+\\}.*[\"']";

/// A `%`-formatted SQL statement.
pub const PERCENT_SQL: &'static str = "[\"'](?i)(SELECT|INSERT|UPDATE|DELETE|DROP)\\s.*%[sd].*[\"']\\s*%";

/// An SQL statement concatenated with `+`.
pub const CONCAT_SQL: &'static str = "[\"'](?i)(SELECT|INSERT|UPDATE|DELETE|DROP)\\s.*[\"']\\s*\\+";

/// Whether a regex matches somewhere in a text (`false` where the pattern
/// is no valid regex).
pub uninterp spec fn regex_finds(pattern: Seq<char>, text: Seq<char>) -> bool;

/// Calls `regex::Regex::new` on `pattern` and `Regex::is_match` on `text`;
/// an invalid pattern gives `false`. The result is a function of the two
/// texts alone, named by [`regex_finds`].
#[verifier::external_body]
fn regex_is_match(pattern: &str, text: &str) -> (b: bool)
    ensures
        b == regex_finds(pattern@, text@),
{
    match regex::Regex::new(pattern) {
        Ok(re) => re.is_match(text),
        Err(_) => false,
    }
}

/// A trimmed line that executes SQL with parameters (`%s` or `?` followed by
/// a tuple or a list): safe.
pub open spec fn parameterized(t: Seq<char>) -> bool {
    &&& contains_any(t, str_views(SQL_EXEC_PATTERNS@))
    &&& (contains(t, "%s\", ("@) || contains(t, "%s\", ["@) || contains(t, "?, ("@) || contains(
        t,
        "?, ["@,
    ))
}

/// A trimmed line builds an SQL query by formatting or concatenation.
pub open spec fn sql_line(t: Seq<char>) -> bool {
    &&& !parameterized(t)
    &&& (regex_finds(FSTRING_SQL@, t) || regex_finds(PERCENT_SQL@, t) || regex_finds(
        CONCAT_SQL@,
        t,
    ))
}

/// The 0-based numbers of the flagged lines among the first `n`.
pub open spec fn sql_lines(ls: Seq<Seq<char>>, n: int) -> Seq<int>
    decreases n,
{
    if n <= 0 || n > ls.len() {
        Seq::empty()
    } else if sql_line(trim(ls[n - 1])) {
        sql_lines(ls, n - 1).push(n - 1)
    } else {
        sql_lines(ls, n - 1)
    }
}

/// `f` is the SQL-injection finding at 0-based line `i` of `path`.
pub open spec fn is_sql_finding(f: Finding, path: Seq<char>, i: int) -> bool {
    let n = (i + 1) as u32;
    &&& f.detector@ == "sql_injection"@
    &&& f.severity == Severity::High
    &&& f.category == FindingCategory::Injection
    &&& f.file@ == path
    &&& f.line == Some(n)
    &&& f.title@ == "Potential SQL injection via string interpolation"@
    &&& f.description@ == "SQL query constructed with string formatting at line "@ + decimal(
        n as nat,
    ) + ". Use parameterized queries instead."@
    &&& f.evidence@.len() == 0
    &&& !f.covered
    &&& f.suggestion@
        == "Use parameterized queries (e.g., cursor.execute(\"SELECT ... WHERE x = %s\", (val,)))"@
    &&& f.explanation is None
    &&& f.fix is None
    &&& f.cwe_ids@ == seq![89u32]
}

/// The finding at 0-based line `i`.
fn sql_finding(path: &str, i: usize) -> (f: Finding)
    requires
        i < usize::MAX,
    ensures
        is_sql_finding(f, path@, i as int),
{
    let n = (i + 1) as u32;
    let mut d: Vec<char> = Vec::new();
    push_str(&mut d, "SQL query constructed with string formatting at line ");
    push_decimal(&mut d, n as u64);
    push_str(&mut d, ". Use parameterized queries instead.");
    let mut cwe: Vec<u32> = Vec::new();
    cwe.push(89);
    assert(cwe@ =~= seq![89u32]);
    Finding {
        id: new_finding_id(),
        detector: String::from_str("sql_injection"),
        severity: Severity::High,
        category: FindingCategory::Injection,
        file: String::from_str(path),
        line: Some(n),
        title: String::from_str("Potential SQL injection via string interpolation"),
        description: string_of(&d),
        evidence: Vec::new(),
        covered: false,
        suggestion: String::from_str(
            "Use parameterized queries (e.g., cursor.execute(\"SELECT ... WHERE x = %s\", (val,)))",
        ),
        explanation: None,
        fix: None,
        cwe_ids: cwe,
    }
}

/// Scans a source file for SQL injection: one finding per line (trimmed)
/// that builds an SQL statement by f-string interpolation, `%` formatting or
/// `+` concatenation, unless the line executes a parameterized query.
pub fn scan_sql_injection(source: &str, file_path: &str) -> (fs: Vec<Finding>)
    ensures
        ({
            let ks = sql_lines(lines(source@), lines(source@).len() as int);
            &&& fs@.len() == ks.len()
            &&& forall|j: int| 0 <= j < fs@.len() ==> is_sql_finding(#[trigger] fs@[j], file_path@, ks[j])
        }),
{
    let cs = chars_of(source);
    let ls = lines_of(&cs);
    let ghost lv = ls@.map_values(|l: Vec<char>| l@);
    let nl = ls.len();
    let mut out: Vec<Finding> = Vec::new();
    let mut i: usize = 0;
    while i < nl
        invariant
            i <= nl,
            nl == ls@.len(),
            lv == ls@.map_values(|l: Vec<char>| l@),
            lv == lines(source@),
            out@.len() == sql_lines(lv, i as int).len(),
            forall|j: int|
                0 <= j < out@.len() ==> is_sql_finding(#[trigger] out@[j], file_path@, sql_lines(lv, i as int)[j]),
        decreases nl - i,
    {
        let t = trim_chars(&ls[i]);
        let safe = contains_any_str(&t, &SQL_EXEC_PATTERNS) && (contains_str(&t, "%s\", (")
            || contains_str(&t, "%s\", [") || contains_str(&t, "?, (") || contains_str(&t, "?, ["));
        let flagged = if safe {
            false
        } else {
            let ts = string_of(&t);
            regex_is_match(FSTRING_SQL, ts.as_str()) || regex_is_match(PERCENT_SQL, ts.as_str())
                || regex_is_match(CONCAT_SQL, ts.as_str())
        };
        assert(flagged == sql_line(trim(lv[i as int])));
        if flagged {
            out.push(sql_finding(file_path, i));
        }
        i = i + 1;
    }
    out
}

} // verus!
