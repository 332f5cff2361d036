//! Missing path normalization: functions that take a path or URL and never
//! normalize or validate it (path traversal, CWE-22).
use vstd::prelude::*;
use vstd::utf8::encode_utf8;
use crate::detect::finding::{new_finding_id, Finding, FindingCategory, Severity};
use crate::text::{
    chars_of, contains, contains_any, contains_any_str, contains_str, lines, lines_of, push_all,
    push_decimal, push_str, str_views, string_of, to_lowercase, trim, trim_chars, trim_start,
    unicode_lowercase, decimal, is_whitespace, is_ws, lowercase_chars,
};
use crate::types::Language;

verus! {

/// The detector of missing path normalization.
pub struct PathNormalizationDetector;

// ───────────────────────── patterns ─────────────────────────

/// Words that make a function signature look like it takes a path or URL.
pub open spec fn path_words() -> Seq<Seq<char>> {
    seq!["url"@, "path"@, "uri"@]
}

/// Keywords that open a function, per language (none for other languages).
pub open spec fn fn_keywords(lang: Language) -> Seq<Seq<char>> {
    match lang {
        Language::Python => seq!["def "@],
        Language::JavaScript => seq!["function "@, "=> {"@, "=> ("@, "const "@, "let "@, "var "@],
        Language::Rust => seq!["fn "@],
        _ => Seq::empty(),
    }
}

/// Normalization calls, per language (none for other languages).
pub open spec fn norm_calls(lang: Language) -> Seq<Seq<char>> {
    match lang {
        Language::Python => seq![
            "os.path.normpath"@,
            "os.path.realpath"@,
            "os.path.abspath"@,
            ".resolve()"@,
            "safe_join"@,
            "send_from_directory"@,
        ],
        Language::JavaScript => seq!["path.normalize"@, "path.resolve"@, "new URL("@, "url.parse"@, "new URL"@],
        Language::Rust => seq![".canonicalize()"@, ".normalize()"@, ".clean()"@, "fs::canonicalize"@, "path_clean"@],
        _ => Seq::empty(),
    }
}

/// Validation checks that protect a path without normalizing it.
pub open spec fn validation_patterns() -> Seq<Seq<char>> {
    seq!["\"..\".."@, "\"..\""@, "'..'"@, "dotdot"@, "\"//\""@, "'//"@, "traversal"@]
}

/// Whether the language is one the detector scans.
pub open spec fn scanned_language(lang: Language) -> bool {
    lang == Language::Python || lang == Language::JavaScript || lang == Language::Rust
}

fn path_words_exec() -> (r: [&'static str; 3])
    ensures
        str_views(r@) == path_words(),
{
    let r = ["url", "path", "uri"];
    assert(str_views(r@) =~= path_words());
    r
}

fn fn_keywords_exec(lang: Language) -> (r: &'static [&'static str])
    ensures
        str_views(r@) == fn_keywords(lang),
{
    match lang {
        Language::Python => {
            let r: &'static [&'static str] = &["def "];
            assert(str_views(r@) =~= fn_keywords(lang));
            r
        },
        Language::JavaScript => {
            let r: &'static [&'static str] = &["function ", "=> {", "=> (", "const ", "let ", "var "];
            assert(str_views(r@) =~= fn_keywords(lang));
            r
        },
        Language::Rust => {
            let r: &'static [&'static str] = &["fn "];
            assert(str_views(r@) =~= fn_keywords(lang));
            r
        },
        _ => {
            let r: &'static [&'static str] = &[];
            assert(str_views(r@) =~= fn_keywords(lang));
            r
        },
    }
}

fn norm_calls_exec(lang: Language) -> (r: &'static [&'static str])
    ensures
        str_views(r@) == norm_calls(lang),
{
    match lang {
        Language::Python => {
            let r: &'static [&'static str] = &[
                "os.path.normpath",
                "os.path.realpath",
                "os.path.abspath",
                ".resolve()",
                "safe_join",
                "send_from_directory",
            ];
            assert(str_views(r@) =~= norm_calls(lang));
            r
        },
        Language::JavaScript => {
            let r: &'static [&'static str] = &["path.normalize", "path.resolve", "new URL(", "url.parse", "new URL"];
            assert(str_views(r@) =~= norm_calls(lang));
            r
        },
        Language::Rust => {
            let r: &'static [&'static str] = &[".canonicalize()", ".normalize()", ".clean()", "fs::canonicalize", "path_clean"];
            assert(str_views(r@) =~= norm_calls(lang));
            r
        },
        _ => {
            let r: &'static [&'static str] = &[];
            assert(str_views(r@) =~= norm_calls(lang));
            r
        },
    }
}

fn validation_patterns_exec() -> (r: [&'static str; 7])
    ensures
        str_views(r@) == validation_patterns(),
{
    let r = ["\"..\"..", "\"..\"", "'..'", "dotdot", "\"//\"", "'//", "traversal"];
    assert(str_views(r@) =~= validation_patterns());
    r
}

// ───────────────────────── model ─────────────────────────

/// Whether a signature line mentions a path, URL or URI (ignoring case).
pub open spec fn sig_mentions_path(line: Seq<char>) -> bool {
    contains_any(unicode_lowercase(line), path_words())
}

/// Width in bytes of the leading whitespace of a line.
pub open spec fn indent(line: Seq<char>) -> int {
    encode_utf8(line).len() - encode_utf8(trim_start(line)).len()
}

/// The last non-blank line of a Python function body, scanning from `i`:
/// blank lines are skipped, a line indented no deeper than the `def` ends
/// the body.
pub open spec fn python_body_last(ls: Seq<Seq<char>>, start: int, i: int, last: int) -> int
    decreases ls.len() - i,
{
    if i < 0 || i >= ls.len() {
        last
    } else if trim(ls[i]).len() == 0 {
        python_body_last(ls, start, i + 1, last)
    } else if indent(ls[i]) <= indent(ls[start]) {
        last
    } else {
        python_body_last(ls, start, i + 1, i)
    }
}

/// The last line of the Python function whose `def` is on line `start`; a
/// function with no body line found extends to the next line (or stays on
/// the last line of the file).
pub open spec fn python_fn_end(ls: Seq<Seq<char>>, start: int) -> int {
    let last = python_body_last(ls, start, start + 1, start);
    if last == start {
        if start + 1 < ls.len() - 1 {
            start + 1
        } else if ls.len() > 0 {
            ls.len() - 1
        } else {
            0
        }
    } else {
        last
    }
}

/// Brace tracking through one line from position `k`: whether a closing
/// brace ends the function on this line, and the depth and started flag
/// after the line. `None` when the `i32` depth would overflow.
pub open spec fn line_braces(l: Seq<char>, k: int, depth: int, started: bool) -> Option<(bool, int, bool)>
    decreases l.len() - k,
{
    if k < 0 || k >= l.len() {
        Some((false, depth, started))
    } else if l[k] == '{' {
        if depth + 1 > i32::MAX {
            None
        } else {
            line_braces(l, k + 1, depth + 1, true)
        }
    } else if l[k] == '}' {
        if depth - 1 < i32::MIN {
            None
        } else if started && depth - 1 <= 0 {
            Some((true, depth - 1, started))
        } else {
            line_braces(l, k + 1, depth - 1, started)
        }
    } else {
        line_braces(l, k + 1, depth, started)
    }
}

/// The line on which the braces opened from line `i` on close; the last
/// line (or 0) when they never do. `None` when the `i32` depth would
/// overflow.
pub open spec fn brace_end_from(ls: Seq<Seq<char>>, i: int, depth: int, started: bool) -> Option<int>
    decreases ls.len() - i,
{
    if i < 0 || i >= ls.len() {
        Some(if ls.len() > 0 { ls.len() - 1 } else { 0 })
    } else {
        match line_braces(ls[i], 0, depth, started) {
            None => None,
            Some((closed, d, s)) => if closed {
                Some(i)
            } else {
                brace_end_from(ls, i + 1, d, s)
            },
        }
    }
}

/// The last line of the function that starts on line `start`, by language.
pub open spec fn fn_end(ls: Seq<Seq<char>>, lang: Language, start: int) -> Option<int> {
    if lang == Language::Python {
        Some(python_fn_end(ls, start))
    } else {
        brace_end_from(ls, start, 0, false)
    }
}

/// The line ranges of the functions, from line `i` on, whose signature
/// mentions a path or URL. `None` when a brace depth would overflow.
pub open spec fn ranges_from(ls: Seq<Seq<char>>, lang: Language, i: int) -> Option<Seq<(int, int)>>
    decreases ls.len() - i,
{
    if i < 0 || i >= ls.len() {
        Some(Seq::empty())
    } else {
        let line = trim(ls[i]);
        if contains_any(line, fn_keywords(lang)) && sig_mentions_path(line) {
            match fn_end(ls, lang, i) {
                None => None,
                Some(e) => if i <= e < ls.len() {
                    match ranges_from(ls, lang, e + 1) {
                        Some(rest) => Some(seq![(i, e)] + rest),
                        None => None,
                    }
                } else {
                    None
                },
            }
        } else {
            ranges_from(ls, lang, i + 1)
        }
    }
}

/// Whether a body line normalizes (per language, ignoring case) or
/// validates a path.
pub open spec fn line_normalizes(line: Seq<char>, lang: Language) -> bool {
    contains_any(unicode_lowercase(line), norm_calls(lang)) || contains_any(line, validation_patterns())
}

/// Whether some line of a body normalizes or validates a path.
pub open spec fn body_normalizes(body: Seq<Seq<char>>, lang: Language) -> bool {
    exists|i: int| 0 <= i < body.len() && line_normalizes(#[trigger] body[i], lang)
}

/// The views of a list of character vectors.
pub open spec fn char_views(v: Seq<Vec<char>>) -> Seq<Seq<char>> {
    v.map_values(|l: Vec<char>| l@)
}

/// Every line's UTF-8 encoding is at most `usize::MAX` bytes long (as the
/// length of any `str` is).
pub open spec fn lines_fit(ls: Seq<Seq<char>>) -> bool {
    forall|i: int| 0 <= i < ls.len() ==> encode_utf8(#[trigger] ls[i]).len() <= usize::MAX
}

// ───────────────────────── lemmas ─────────────────────────

/// Dropping leading characters never lengthens the encoding.
proof fn lemma_trim_start_bytes(s: Seq<char>)
    ensures
        encode_utf8(trim_start(s)).len() <= encode_utf8(s).len(),
    decreases s.len(),
{
    if s.len() > 0 && is_ws(s[0]) {
        lemma_trim_start_bytes(s.drop_first());
    }
}

/// The scan for the end of a Python body ends at `last` or after it.
proof fn lemma_python_body_last(ls: Seq<Seq<char>>, start: int, i: int, last: int)
    requires
        start <= last < i,
    ensures
        python_body_last(ls, start, i, last) >= last,
        python_body_last(ls, start, i, last) < ls.len() || python_body_last(ls, start, i, last) == last,
    decreases ls.len() - i,
{
    if 0 <= i < ls.len() {
        if trim(ls[i]).len() == 0 {
            lemma_python_body_last(ls, start, i + 1, last);
        } else if !(indent(ls[i]) <= indent(ls[start])) {
            lemma_python_body_last(ls, start, i + 1, i);
        }
    }
}

/// The brace scan ends at `i` or later, and inside the lines (or at 0).
proof fn lemma_brace_end_from(ls: Seq<Seq<char>>, i: int, depth: int, started: bool)
    requires
        0 <= i,
    ensures
        match brace_end_from(ls, i, depth, started) {
            Some(e) => (i <= e < ls.len()) || (i >= ls.len() && (e == ls.len() - 1 || e == 0)),
            None => true,
        },
    decreases ls.len() - i,
{
    if i < ls.len() {
        match line_braces(ls[i], 0, depth, started) {
            None => {},
            Some((closed, d, s)) => if !closed {
                lemma_brace_end_from(ls, i + 1, d, s);
            },
        }
    }
}

/// The ranges found from line `i` on lie inside the lines, from `i` on.
proof fn lemma_ranges_from_bounds(ls: Seq<Seq<char>>, lang: Language, i: int)
    requires
        0 <= i,
    ensures
        ranges_from(ls, lang, i) matches Some(r) ==> forall|j: int|
            0 <= j < r.len() ==> i <= (#[trigger] r[j]).0 <= r[j].1 < ls.len(),
    decreases ls.len() - i,
{
    if i < ls.len() {
        let line = trim(ls[i]);
        if contains_any(line, fn_keywords(lang)) && sig_mentions_path(line) {
            match fn_end(ls, lang, i) {
                None => {},
                Some(e) => if i <= e < ls.len() {
                    lemma_ranges_from_bounds(ls, lang, e + 1);
                    match ranges_from(ls, lang, e + 1) {
                        Some(rest) => {
                            let r = seq![(i, e)] + rest;
                            assert forall|j: int| 0 <= j < r.len() implies i <= (#[trigger] r[j]).0 <= r[j].1 < ls.len() by {
                                if j > 0 {
                                    assert(r[j] == rest[j - 1]);
                                }
                            }
                        },
                        None => {},
                    }
                },
            }
        } else {
            lemma_ranges_from_bounds(ls, lang, i + 1);
        }
    }
}

// ───────────────────────── code ─────────────────────────

/// Whether the signature on `sig_line` mentions a path, URL or URI (ignoring
/// case).
pub fn sig_has_path_param(sig_line: &str) -> (b: bool)
    ensures
        b == sig_mentions_path(sig_line@),
{
    let lower = chars_of(to_lowercase(sig_line).as_str());
    let words = path_words_exec();
    contains_any_str(&lower, &words)
}

/// The lines, as character vectors.
fn char_lines(lines: &[&str]) -> (r: Vec<Vec<char>>)
    ensures
        char_views(r@) == str_views(lines@),
{
    let mut r: Vec<Vec<char>> = Vec::new();
    let mut i: usize = 0;
    while i < lines.len()
        invariant
            i <= lines@.len(),
            char_views(r@) == str_views(lines@.take(i as int)),
        decreases lines@.len() - i,
    {
        let ghost before = r@;
        r.push(chars_of(lines[i]));
        assert(lines@.take(i + 1) =~= lines@.take(i as int).push(lines@[i as int]));
        assert(char_views(r@) =~= char_views(before).push(lines@[i as int]@));
        i = i + 1;
    }
    assert(lines@.take(lines@.len() as int) =~= lines@);
    r
}

/// Byte width of the leading whitespace of a line.
fn indent_of(line: &[char]) -> (n: usize)
    requires
        encode_utf8(line@).len() <= usize::MAX,
    ensures
        n == indent(line@),
{
    let mut a: usize = 0;
    assert(line@.subrange(0, line@.len() as int) =~= line@);
    while a < line.len() && is_whitespace(line[a])
        invariant
            a <= line@.len(),
            trim_start(line@) == trim_start(line@.subrange(a as int, line@.len() as int)),
        decreases line@.len() - a,
    {
        assert(line@.subrange(a as int, line@.len() as int).drop_first() =~= line@.subrange(
            a + 1,
            line@.len() as int,
        ));
        a = a + 1;
    }
    let whole = string_of(line);
    let rest = string_of(&crate::text::slice_chars(line, a, line.len()));
    assert(trim_start(line@.subrange(a as int, line@.len() as int)) == line@.subrange(
        a as int,
        line@.len() as int,
    ));
    proof {
        lemma_trim_start_bytes(line@);
    }
    assert(rest@ == trim_start(line@));
    let total = whole.as_str().len();
    let tail = rest.as_str().len();
    total - tail
}

/// The last line of a Python function (see [`python_fn_end`]).
fn python_fn_end_exec(lines: &[Vec<char>], start: usize) -> (end: usize)
    requires
        start < lines@.len(),
        lines_fit(char_views(lines@)),
    ensures
        end == python_fn_end(char_views(lines@), start as int),
{
    let ghost ls = char_views(lines@);
    assert(ls[start as int] == lines@[start as int]@);
    let def_indent = indent_of(&lines[start]);
    let mut last = start;
    let mut i = start + 1;
    let mut done = false;
    proof {
        lemma_python_body_last(ls, start as int, start + 1, start as int);
    }
    while i < lines.len() && !done
        invariant
            start < lines@.len(),
            ls == char_views(lines@),
            def_indent == indent(ls[start as int]),
            lines_fit(ls),
            start + 1 <= i <= lines@.len(),
            start <= last < i,
            done ==> python_body_last(ls, start as int, start + 1, start as int) == last,
            !done ==> python_body_last(ls, start as int, start + 1, start as int) == python_body_last(
                ls,
                start as int,
                i as int,
                last as int,
            ),
        decreases lines@.len() - i + if done { 0int } else { 1int },
    {
        let line = &lines[i];
        assert(ls[i as int] == line@);
        assert(encode_utf8(ls[i as int]).len() <= usize::MAX);
        let t = trim_chars(line);
        if t.len() == 0 {
            i = i + 1;
        } else if indent_of(line) <= def_indent {
            done = true;
        } else {
            last = i;
            i = i + 1;
        }
    }
    if last == start {
        let n = lines.len();
        if start + 1 < n - 1 {
            start + 1
        } else {
            n - 1
        }
    } else {
        last
    }
}

/// The last line of the Python function whose `def` is on line `start`:
/// the last non-blank line indented deeper than the `def` before the first
/// non-blank line that is not; the next line (or the last line of the file)
/// when there is none.
pub fn find_python_fn_end(lines: &[&str], start: usize) -> (end: usize)
    requires
        start < lines@.len(),
        lines_fit(str_views(lines@)),
    ensures
        end == python_fn_end(str_views(lines@), start as int),
{
    let ls = char_lines(lines);
    python_fn_end_exec(&ls, start)
}

/// Brace tracking through one line (see [`line_braces`]).
fn line_braces_exec(l: &[char], depth0: i32, started0: bool) -> (r: (bool, i32, bool))
    requires
        line_braces(l@, 0, depth0 as int, started0) is Some,
    ensures
        line_braces(l@, 0, depth0 as int, started0) == Some((r.0, r.1 as int, r.2)),
{
    let mut depth = depth0;
    let mut started = started0;
    let mut k: usize = 0;
    while k < l.len()
        invariant
            k <= l@.len(),
            line_braces(l@, 0, depth0 as int, started0) == line_braces(
                l@,
                k as int,
                depth as int,
                started,
            ),
            line_braces(l@, k as int, depth as int, started) is Some,
        decreases l@.len() - k,
    {
        let c = l[k];
        if c == '{' {
            depth = depth + 1;
            started = true;
        } else if c == '}' {
            depth = depth - 1;
            if started && depth <= 0 {
                return (true, depth, started);
            }
        }
        k = k + 1;
    }
    (false, depth, started)
}

/// The line where the braces opened from line `start` close (see
/// [`brace_end_from`]).
fn brace_fn_end_exec(lines: &[Vec<char>], start: usize) -> (end: usize)
    requires
        brace_end_from(char_views(lines@), start as int, 0, false) is Some,
    ensures
        brace_end_from(char_views(lines@), start as int, 0, false) == Some(end as int),
{
    let ghost ls = char_views(lines@);
    let mut depth: i32 = 0;
    let mut started = false;
    let mut i = start;
    while i < lines.len()
        invariant
            ls == char_views(lines@),
            start <= i,
            brace_end_from(ls, start as int, 0, false) == brace_end_from(ls, i as int, depth as int, started),
            brace_end_from(ls, i as int, depth as int, started) is Some,
        decreases lines@.len() - i,
    {
        assert(ls[i as int] == lines@[i as int]@);
        let (closed, d, s) = line_braces_exec(&lines[i], depth, started);
        if closed {
            return i;
        }
        depth = d;
        started = s;
        i = i + 1;
    }
    if lines.len() > 0 {
        lines.len() - 1
    } else {
        0
    }
}

/// The line where the braces opened from line `start` close: the line of
/// the first `}` that brings the depth back to zero or below once a `{` was
/// seen; the last line of the file (or 0) when that never happens.
pub fn find_brace_fn_end(lines: &[&str], start: usize) -> (end: usize)
    requires
        brace_end_from(str_views(lines@), start as int, 0, false) is Some,
    ensures
        brace_end_from(str_views(lines@), start as int, 0, false) == Some(end as int),
{
    let ls = char_lines(lines);
    brace_fn_end_exec(&ls, start)
}

/// Whether a line normalizes or validates a path (see [`line_normalizes`]).
fn line_normalizes_exec(line: &[char], lang: Language) -> (b: bool)
    ensures
        b == line_normalizes(line@, lang),
{
    let lower = lowercase_chars(line);
    if contains_any_str(&lower, norm_calls_exec(lang)) {
        return true;
    }
    contains_any_str(line, &validation_patterns_exec())
}

/// Whether some line of a function body normalizes the path (a
/// language-specific normalization call, ignoring case) or validates it
/// (a check for `..`, `//` or traversal).
pub fn has_normalization(body_lines: &[&str], lang: Language) -> (b: bool)
    ensures
        b == body_normalizes(str_views(body_lines@), lang),
{
    let ls = char_lines(body_lines);
    assert(char_views(ls@).subrange(0, ls@.len() as int) =~= char_views(ls@));
    body_normalizes_exec(&ls, 0, ls.len(), lang)
}

/// Whether some line of `lines[lo..hi]` normalizes or validates a path.
fn body_normalizes_exec(lines: &[Vec<char>], lo: usize, hi: usize, lang: Language) -> (b: bool)
    requires
        lo <= hi <= lines@.len(),
    ensures
        b == body_normalizes(char_views(lines@).subrange(lo as int, hi as int), lang),
{
    let ghost body = char_views(lines@).subrange(lo as int, hi as int);
    let mut i = lo;
    while i < hi
        invariant
            lo <= i <= hi <= lines@.len(),
            body == char_views(lines@).subrange(lo as int, hi as int),
            forall|j: int| 0 <= j < i - lo ==> !line_normalizes(#[trigger] body[j], lang),
        decreases hi - i,
    {
        assert(body[i - lo] == lines@[i as int]@);
        if line_normalizes_exec(&lines[i], lang) {
            return true;
        }
        i = i + 1;
    }
    false
}

/// The line ranges (first and last line, 0-based) of the functions whose
/// signature mentions a path or URL: a trimmed line holding a function
/// keyword of the language and such a word opens a function, which ends as
/// [`find_python_fn_end`] (Python) or [`find_brace_fn_end`] (JavaScript and
/// Rust) finds; scanning resumes after it. Other languages have none.
pub fn collect_suspect_function_ranges(source: &str, lang: Language) -> (r: Vec<(usize, usize)>)
    requires
        lines_fit(lines(source@)),
        ranges_from(lines(source@), lang, 0) is Some,
    ensures
        r@.map_values(|p: (usize, usize)| (p.0 as int, p.1 as int)) == ranges_from(
            lines(source@),
            lang,
            0,
        )->Some_0,
{
    let cs = chars_of(source);
    let ls = lines_of(&cs);
    let ghost lv = char_views(ls@);
    assert(lv =~= ls@.map_values(|l: Vec<char>| l@));
    let kws = fn_keywords_exec(lang);
    let words = path_words_exec();
    let mut ranges: Vec<(usize, usize)> = Vec::new();
    let mut i: usize = 0;
    assert(ranges@.map_values(|p: (usize, usize)| (p.0 as int, p.1 as int)) + ranges_from(lv, lang, 0)->Some_0
        =~= ranges_from(lv, lang, 0)->Some_0);
    while i < ls.len()
        invariant
            i <= ls@.len(),
            lv == char_views(ls@),
            lv == lines(source@),
            lines_fit(lv),
            str_views(kws@) == fn_keywords(lang),
            str_views(words@) == path_words(),
            ranges_from(lv, lang, i as int) is Some,
            ranges@.map_values(|p: (usize, usize)| (p.0 as int, p.1 as int)) + ranges_from(lv, lang, i as int)->Some_0
                == ranges_from(lv, lang, 0)->Some_0,
        decreases ls@.len() - i,
    {
        assert(lv[i as int] == ls@[i as int]@);
        let line = trim_chars(&ls[i]);
        let is_fn = contains_any_str(&line, kws);
        let lower = lowercase_chars(&line);
        let mentions = contains_any_str(&lower, &words);
        if is_fn && mentions {
            let end = match lang {
                Language::Python => python_fn_end_exec(&ls, i),
                _ => brace_fn_end_exec(&ls, i),
            };
            proof {
                if lang == Language::Python {
                    lemma_python_body_last(lv, i as int, i + 1, i as int);
                } else {
                    lemma_brace_end_from(lv, i as int, 0, false);
                }
            }
            let ghost before = ranges@.map_values(|p: (usize, usize)| (p.0 as int, p.1 as int));
            ranges.push((i, end));
            assert(ranges@.map_values(|p: (usize, usize)| (p.0 as int, p.1 as int)) =~= before.push(
                (i as int, end as int),
            ));
            assert(before.push((i as int, end as int)) + ranges_from(lv, lang, end + 1)->Some_0 =~= before
                + (seq![(i as int, end as int)] + ranges_from(lv, lang, end + 1)->Some_0));
            i = end + 1;
        } else {
            i = i + 1;
        }
    }
    assert(ranges_from(lv, lang, i as int)->Some_0 =~= Seq::<(int, int)>::empty());
    assert(ranges@.map_values(|p: (usize, usize)| (p.0 as int, p.1 as int)) + Seq::<(int, int)>::empty()
        =~= ranges@.map_values(|p: (usize, usize)| (p.0 as int, p.1 as int)));
    ranges
}

/// The body of a range: its lines up to the last line of the file.
pub open spec fn range_body(ls: Seq<Seq<char>>, r: (int, int)) -> Seq<Seq<char>> {
    let hi = if r.1 < ls.len() - 1 { r.1 } else { ls.len() - 1 };
    ls.subrange(r.0, hi + 1)
}

/// The ranges whose body neither normalizes nor validates the path.
pub open spec fn unguarded(ls: Seq<Seq<char>>, rs: Seq<(int, int)>, lang: Language) -> Seq<(int, int)>
    decreases rs.len(),
{
    if rs.len() == 0 {
        Seq::empty()
    } else {
        let prev = unguarded(ls, rs.drop_last(), lang);
        if body_normalizes(range_body(ls, rs.last()), lang) {
            prev
        } else {
            prev.push(rs.last())
        }
    }
}

/// Whether `f` is the finding for an unguarded function starting on line
/// `n` (1-based) of `file`.
pub open spec fn is_path_finding(f: Finding, file: Seq<char>, n: u32) -> bool {
    &&& f.detector@ == "path-normalize"@
    &&& f.severity == Severity::Medium
    &&& f.category == FindingCategory::PathTraversal
    &&& f.file@ == file
    &&& f.line == Some(n)
    &&& f.title@ == "Missing path/URL normalization at line "@ + decimal(n as nat)
    &&& f.description@ == "Function at "@ + file + ":"@ + decimal(n as nat)
        + " accepts a path/URL parameter but does not normalize or validate it, risking path traversal."@
    &&& f.evidence@.len() == 0
    &&& !f.covered
    &&& f.suggestion@
        == "Normalize the path with os.path.normpath / path.normalize / .canonicalize() before use, or validate that it does not contain `..` / `//` sequences."@
    &&& f.explanation is None
    &&& f.fix is None
    &&& f.cwe_ids@ == seq![22u32]
}

/// The finding for an unguarded function starting on line `n` of `file`.
fn path_finding(file: &str, n: u32) -> (f: Finding)
    ensures
        is_path_finding(f, file@, n),
{
    let mut title: Vec<char> = Vec::new();
    push_str(&mut title, "Missing path/URL normalization at line ");
    push_decimal(&mut title, n as u64);
    let mut description: Vec<char> = Vec::new();
    push_str(&mut description, "Function at ");
    push_str(&mut description, file);
    push_str(&mut description, ":");
    push_decimal(&mut description, n as u64);
    push_str(
        &mut description,
        " accepts a path/URL parameter but does not normalize or validate it, risking path traversal.",
    );
    let mut cwe_ids: Vec<u32> = Vec::new();
    cwe_ids.push(22);
    assert(cwe_ids@ =~= seq![22u32]);
    Finding {
        id: new_finding_id(),
        detector: String::from_str("path-normalize"),
        severity: Severity::Medium,
        category: FindingCategory::PathTraversal,
        file: String::from_str(file),
        line: Some(n),
        title: string_of(&title),
        description: string_of(&description),
        evidence: Vec::new(),
        covered: false,
        suggestion: String::from_str(
            "Normalize the path with os.path.normpath / path.normalize / .canonicalize() before use, or validate that it does not contain `..` / `//` sequences.",
        ),
        explanation: None,
        fix: None,
        cwe_ids,
    }
}

impl PathNormalizationDetector {
    /// Scans one source file of language `lang` (Python, JavaScript or Rust;
    /// other languages give nothing): one finding per function taking a path
    /// or URL whose body neither normalizes nor validates it, in order, at
    /// the function's first line (1-based).
    pub fn analyze_source(&self, path: &str, source: &str, lang: Language) -> (fs: Vec<Finding>)
        requires
            lines_fit(lines(source@)),
            ranges_from(lines(source@), lang, 0) is Some,
        ensures
            !scanned_language(lang) ==> fs@.len() == 0,
            scanned_language(lang) ==> {
                let bad = unguarded(lines(source@), ranges_from(lines(source@), lang, 0)->Some_0, lang);
                &&& fs@.len() == bad.len()
                &&& forall|k: int|
                    0 <= k < bad.len() ==> is_path_finding(#[trigger] fs@[k], path@, (bad[k].0 + 1) as u32)
            },
    {
        let mut out: Vec<Finding> = Vec::new();
        match lang {
            Language::Python | Language::JavaScript | Language::Rust => {},
            _ => return out,
        }
        let cs = chars_of(source);
        let ls = lines_of(&cs);
        let ghost lv = char_views(ls@);
        assert(lv =~= ls@.map_values(|l: Vec<char>| l@));
        let ranges = collect_suspect_function_ranges(source, lang);
        let ghost rv = ranges@.map_values(|p: (usize, usize)| (p.0 as int, p.1 as int));
        proof {
            lemma_ranges_from_bounds(lv, lang, 0);
        }
        let mut k: usize = 0;
        assert(rv.take(0) =~= Seq::<(int, int)>::empty());
        while k < ranges.len()
            invariant
                k <= ranges@.len(),
                lv == char_views(ls@),
                lv == lines(source@),
                rv == ranges@.map_values(|p: (usize, usize)| (p.0 as int, p.1 as int)),
                rv == ranges_from(lv, lang, 0)->Some_0,
                forall|j: int| 0 <= j < rv.len() ==> 0 <= (#[trigger] rv[j]).0 <= rv[j].1 < lv.len(),
                out@.len() == unguarded(lv, rv.take(k as int), lang).len(),
                forall|j: int|
                    0 <= j < out@.len() ==> is_path_finding(
                        #[trigger] out@[j],
                        path@,
                        (unguarded(lv, rv.take(k as int), lang)[j].0 + 1) as u32,
                    ),
            decreases ranges@.len() - k,
        {
            let (s, e) = ranges[k];
            assert(rv[k as int] == (s as int, e as int));
            assert(rv.take(k + 1).drop_last() =~= rv.take(k as int));
            assert(rv.take(k + 1).last() == rv[k as int]);
            let n = ls.len();
            let hi = if e < n - 1 { e } else { n - 1 };
            assert(lv.subrange(s as int, hi + 1) == range_body(lv, rv[k as int]));
            assert(char_views(ls@).subrange(s as int, hi + 1) == lv.subrange(s as int, hi + 1));
            let ghost before = out@;
            if !body_normalizes_exec(&ls, s, hi + 1, lang) {
                let f = path_finding(path, (s + 1) as u32);
                out.push(f);
                assert forall|j: int| 0 <= j < out@.len() implies is_path_finding(
                    #[trigger] out@[j],
                    path@,
                    (unguarded(lv, rv.take(k + 1), lang)[j].0 + 1) as u32,
                ) by {
                    if j < before.len() {
                        assert(out@[j] == before[j]);
                    }
                }
            }
            k = k + 1;
        }
        assert(rv.take(ranges@.len() as int) =~= rv);
        out
    }

    /// The detector's name.
    pub fn name(&self) -> (s: &str)
        ensures
            s@ == "path-normalize"@,
    {
        "path-normalize"
    }

    /// The detector runs no cargo subprocess.
    pub fn uses_cargo_subprocess(&self) -> (b: bool)
        ensures
            !b,
    {
        false
    }
}

// ───────────────────────── laws ─────────────────────────

/// A function body normalizes its path where one of its lines, lower-cased,
/// calls `os.path.normpath`, `os.path.realpath` or `os.path.abspath`, calls
/// `.resolve()`, or uses `safe_join` or `send_from_directory` (Python).
pub proof fn law_python_normalization(body: Seq<Seq<char>>, i: int)
    requires
        0 <= i < body.len(),
        ({
            let l = unicode_lowercase(body[i]);
            ||| contains(l, "os.path.normpath"@)
            ||| contains(l, "os.path.realpath"@)
            ||| contains(l, "os.path.abspath"@)
            ||| contains(l, ".resolve()"@)
            ||| contains(l, "safe_join"@)
            ||| contains(l, "send_from_directory"@)
        }),
    ensures
        body_normalizes(body, Language::Python),
{
    let l = unicode_lowercase(body[i]);
    let ns = norm_calls(Language::Python);
    if contains(l, "os.path.normpath"@) {
        assert(contains(l, ns[0]));
    } else if contains(l, "os.path.realpath"@) {
        assert(contains(l, ns[1]));
    } else if contains(l, "os.path.abspath"@) {
        assert(contains(l, ns[2]));
    } else if contains(l, ".resolve()"@) {
        assert(contains(l, ns[3]));
    } else if contains(l, "safe_join"@) {
        assert(contains(l, ns[4]));
    } else {
        assert(contains(l, ns[5]));
    }
    assert(line_normalizes(body[i], Language::Python));
}

/// A function body normalizes its URL or path where one of its lines,
/// lower-cased, calls `path.normalize`, `path.resolve` or `url.parse`, or
/// builds a `new URL` (JavaScript).
pub proof fn law_javascript_normalization(body: Seq<Seq<char>>, i: int)
    requires
        0 <= i < body.len(),
        ({
            let l = unicode_lowercase(body[i]);
            ||| contains(l, "path.normalize"@)
            ||| contains(l, "path.resolve"@)
            ||| contains(l, "url.parse"@)
            ||| contains(l, "new URL"@)
        }),
    ensures
        body_normalizes(body, Language::JavaScript),
{
    let l = unicode_lowercase(body[i]);
    let ns = norm_calls(Language::JavaScript);
    if contains(l, "path.normalize"@) {
        assert(contains(l, ns[0]));
    } else if contains(l, "path.resolve"@) {
        assert(contains(l, ns[1]));
    } else if contains(l, "url.parse"@) {
        assert(contains(l, ns[3]));
    } else {
        assert(contains(l, ns[4]));
    }
    assert(line_normalizes(body[i], Language::JavaScript));
}

/// A function body normalizes its path where one of its lines, lower-cased,
/// calls `.canonicalize()`, `.normalize()`, `.clean()`, `fs::canonicalize`
/// or `path_clean` (Rust).
pub proof fn law_rust_normalization(body: Seq<Seq<char>>, i: int)
    requires
        0 <= i < body.len(),
        ({
            let l = unicode_lowercase(body[i]);
            ||| contains(l, ".canonicalize()"@)
            ||| contains(l, ".normalize()"@)
            ||| contains(l, ".clean()"@)
            ||| contains(l, "fs::canonicalize"@)
            ||| contains(l, "path_clean"@)
        }),
    ensures
        body_normalizes(body, Language::Rust),
{
    let l = unicode_lowercase(body[i]);
    let ns = norm_calls(Language::Rust);
    if contains(l, ".canonicalize()"@) {
        assert(contains(l, ns[0]));
    } else if contains(l, ".normalize()"@) {
        assert(contains(l, ns[1]));
    } else if contains(l, ".clean()"@) {
        assert(contains(l, ns[2]));
    } else if contains(l, "fs::canonicalize"@) {
        assert(contains(l, ns[3]));
    } else {
        assert(contains(l, ns[4]));
    }
    assert(line_normalizes(body[i], Language::Rust));
}

/// In any language, a body that checks its path for `..`, `//` or traversal
/// (a line holding `".."`, `'..'`, `dotdot`, `"//"`, `'//` or `traversal`)
/// counts as validated.
pub proof fn law_traversal_check_validates(body: Seq<Seq<char>>, i: int, lang: Language)
    requires
        0 <= i < body.len(),
        ({
            let l = body[i];
            ||| contains(l, "\"..\""@)
            ||| contains(l, "'..'"@)
            ||| contains(l, "dotdot"@)
            ||| contains(l, "\"//\""@)
            ||| contains(l, "'//"@)
            ||| contains(l, "traversal"@)
        }),
    ensures
        body_normalizes(body, lang),
{
    let l = body[i];
    let vs = validation_patterns();
    if contains(l, "\"..\""@) {
        assert(contains(l, vs[1]));
    } else if contains(l, "'..'"@) {
        assert(contains(l, vs[2]));
    } else if contains(l, "dotdot"@) {
        assert(contains(l, vs[3]));
    } else if contains(l, "\"//\""@) {
        assert(contains(l, vs[4]));
    } else if contains(l, "'//"@) {
        assert(contains(l, vs[5]));
    } else {
        assert(contains(l, vs[6]));
    }
    assert(line_normalizes(body[i], lang));
}

/// A signature takes a path exactly when, lower-cased, it mentions `url`,
/// `path` or `uri`.
pub proof fn law_signature_mentions_path(line: Seq<char>)
    ensures
        sig_mentions_path(line) <==> ({
            let l = unicode_lowercase(line);
            ||| contains(l, "url"@)
            ||| contains(l, "path"@)
            ||| contains(l, "uri"@)
        }),
{
    let l = unicode_lowercase(line);
    let ws = path_words();
    if sig_mentions_path(line) {
        let k = choose|k: int| 0 <= k < ws.len() && contains(l, #[trigger] ws[k]);
        if k == 0 {} else if k == 1 {} else {}
    }
    if contains(l, "url"@) {
        assert(contains(l, ws[0]));
    } else if contains(l, "path"@) {
        assert(contains(l, ws[1]));
    } else if contains(l, "uri"@) {
        assert(contains(l, ws[2]));
    }
}

} // verus!
