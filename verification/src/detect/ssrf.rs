//! Server-side request forgery (CWE-918): HTTP requests whose URL comes from
//! user input.
use vstd::prelude::*;
use crate::detect::finding::{new_finding_id, Finding, FindingCategory, Severity};
use crate::text::{
    chars_of, contains, contains_any, contains_any_str, contains_str, decimal, lines, lines_of,
    push_decimal, push_str, starts_with, starts_with_str, str_views, string_of, trim, trim_chars,
};

verus! {

/// HTTP request functions that could carry a forged URL.
pub const HTTP_FUNCS: [&'static str; 9] = [
    "requests.get(",
    "requests.post(",
    "requests.put(",
    "requests.delete(",
    "urllib.request.urlopen(",
    "http.get(",
    "fetch(",
    "HttpClient",
    "urlopen(",
];

/// Signs that a URL comes from user input.
pub const USER_INPUT_INDICATORS: [&'static str; 11] = [
    "request.",
    "params[",
    "args[",
    "input(",
    "sys.argv",
    "os.environ",
    "req.",
    "query[",
    "body[",
    "GET[",
    "POST[",
];

/// Signs that URLs are validated somewhere in the file.
pub const SANITIZATION_INDICATORS: [&'static str; 6] = [
    "urlparse",
    "validators.url",
    "allowlist",
    "whitelist",
    "ALLOWED_HOSTS",
    "validate_url",
];

/// A trimmed line makes a request with a URL from user input or built on
/// the fly (an f-string, or `+` with `http`); comments do not count.
pub open spec fn ssrf_line(t: Seq<char>) -> bool {
    &&& !starts_with(t, "#"@)
    &&& !starts_with(t, "//"@)
    &&& contains_any(t, str_views(HTTP_FUNCS@))
    &&& (contains_any(t, str_views(USER_INPUT_INDICATORS@)) || contains(t, "f\""@) || contains(
        t,
        "f'"@,
    ) || (contains(t, "+"@) && contains(t, "http"@)))
}

/// The 0-based numbers of the flagged lines among the first `n`.
pub open spec fn ssrf_lines(ls: Seq<Seq<char>>, n: int) -> Seq<int>
    decreases n,
{
    if n <= 0 || n > ls.len() {
        Seq::empty()
    } else if ssrf_line(trim(ls[n - 1])) {
        ssrf_lines(ls, n - 1).push(n - 1)
    } else {
        ssrf_lines(ls, n - 1)
    }
}

/// `f` is the SSRF finding at 0-based line `i` of `path`.
pub open spec fn is_ssrf_finding(f: Finding, path: Seq<char>, i: int) -> bool {
    let n = (i + 1) as u32;
    &&& f.detector@ == "ssrf"@
    &&& f.severity == Severity::High
    &&& f.category == FindingCategory::SecuritySmell
    &&& f.file@ == path
    &&& f.line == Some(n)
    &&& f.title@ == "Potential server-side request forgery (SSRF)"@
    &&& f.description@ == "HTTP request at line "@ + decimal(n as nat)
        + " uses user-controlled URL. An attacker could access internal services."@
    &&& f.evidence@.len() == 0
    &&& !f.covered
    &&& f.suggestion@
        == "Validate URLs against an allowlist. Use urlparse to check scheme and host before making requests."@
    &&& f.explanation is None
    &&& f.fix is None
    &&& f.cwe_ids@ == seq![918u32]
}

/// The finding at 0-based line `i`.
fn ssrf_finding(path: &str, i: usize) -> (f: Finding)
    requires
        i < usize::MAX,
    ensures
        is_ssrf_finding(f, path@, i as int),
{
    let n = (i + 1) as u32;
    let mut d: Vec<char> = Vec::new();
    push_str(&mut d, "HTTP request at line ");
    push_decimal(&mut d, n as u64);
    push_str(&mut d, " uses user-controlled URL. An attacker could access internal services.");
    let mut cwe: Vec<u32> = Vec::new();
    cwe.push(918);
    assert(cwe@ =~= seq![918u32]);
    Finding {
        id: new_finding_id(),
        detector: String::from_str("ssrf"),
        severity: Severity::High,
        category: FindingCategory::SecuritySmell,
        file: String::from_str(path),
        line: Some(n),
        title: String::from_str("Potential server-side request forgery (SSRF)"),
        description: string_of(&d),
        evidence: Vec::new(),
        covered: false,
        suggestion: String::from_str(
            "Validate URLs against an allowlist. Use urlparse to check scheme and host before making requests.",
        ),
        explanation: None,
        fix: None,
        cwe_ids: cwe,
    }
}

/// Scans a source file for SSRF: nothing where the file mentions any URL
/// validation; else one finding per line (comments excepted) that calls an
/// HTTP request function with a URL from user input or built on the fly.
pub fn scan_ssrf(source: &str, file_path: &str) -> (fs: Vec<Finding>)
    ensures
        contains_any(source@, str_views(SANITIZATION_INDICATORS@)) ==> fs@.len() == 0,
        !contains_any(source@, str_views(SANITIZATION_INDICATORS@)) ==> {
            let ks = ssrf_lines(lines(source@), lines(source@).len() as int);
            &&& fs@.len() == ks.len()
            &&& forall|j: int| 0 <= j < fs@.len() ==> is_ssrf_finding(#[trigger] fs@[j], file_path@, ks[j])
        },
{
    let cs = chars_of(source);
    let mut out: Vec<Finding> = Vec::new();
    if contains_any_str(&cs, &SANITIZATION_INDICATORS) {
        return out;
    }
    let ls = lines_of(&cs);
    let ghost lv = ls@.map_values(|l: Vec<char>| l@);
    let nl = ls.len();
    let mut i: usize = 0;
    while i < nl
        invariant
            i <= nl,
            nl == ls@.len(),
            lv == ls@.map_values(|l: Vec<char>| l@),
            lv == lines(source@),
            out@.len() == ssrf_lines(lv, i as int).len(),
            forall|j: int|
                0 <= j < out@.len() ==> is_ssrf_finding(#[trigger] out@[j], file_path@, ssrf_lines(lv, i as int)[j]),
        decreases nl - i,
    {
        let t = trim_chars(&ls[i]);
        proof {
            reveal_strlit("#");
            reveal_strlit("//");
        }
        let flagged = !starts_with_str(&t, "#") && !starts_with_str(&t, "//") && contains_any_str(
            &t,
            &HTTP_FUNCS,
        ) && (contains_any_str(&t, &USER_INPUT_INDICATORS) || contains_str(&t, "f\"")
            || contains_str(&t, "f'") || (contains_str(&t, "+") && contains_str(&t, "http")));
        assert(flagged == ssrf_line(trim(lv[i as int])));
        if flagged {
            out.push(ssrf_finding(file_path, i));
        }
        i = i + 1;
    }
    out
}

} // verus!
