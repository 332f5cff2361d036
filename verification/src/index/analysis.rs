//! Analyses over the branch index: function boundaries in source text, and
//! tests whose branch footprint changes from run to run (flaky tests).
use vstd::prelude::*;
use crate::text::{
    before_char, chars_of, contains_any, contains_any_str, find, find_exec, is_whitespace, is_ws,
    lemma_find, slice_chars, split_whitespace_of, split_ws, starts_with, starts_with_str, str_views,
    string_of, trim, trim_chars, before_char_exec,
};
use crate::types::{BranchId, Language};
use crate::index::types::{branch_key, spec_branch_key, TestTrace};
use crate::text::{decimal, eq_str, push_all, push_decimal, push_str};
use std::collections::HashMap;

verus! {

// ───────────────────────── character classes ─────────────────────────

/// `char::is_alphabetic` (Unicode `Alphabetic`) on `c`.
pub uninterp spec fn unicode_alphabetic(c: char) -> bool;

/// `char::is_alphanumeric` (Unicode `Alphabetic` or `Numeric`) on `c`.
pub uninterp spec fn unicode_alphanumeric(c: char) -> bool;

/// Whether `c` is alphabetic: calls `char::is_alphabetic`, whose result is a
/// function of `c` alone, named by `unicode_alphabetic`.
#[verifier::external_body]
fn is_alphabetic(c: char) -> (b: bool)
    ensures
        b == unicode_alphabetic(c),
{
    c.is_alphabetic()
}

/// Whether `c` is alphanumeric: calls `char::is_alphanumeric`, whose result
/// is a function of `c` alone, named by `unicode_alphanumeric`.
#[verifier::external_body]
pub(crate) fn is_alphanumeric(c: char) -> (b: bool)
    ensures
        b == unicode_alphanumeric(c),
{
    c.is_alphanumeric()
}

// ───────────────────────── function names ─────────────────────────

/// Ends a Rust function name: `(`, `<` or whitespace.
pub open spec fn ends_rust_name(c: char) -> bool {
    c == '(' || c == '<' || is_ws(c)
}

/// The part of `s` before the first character that ends a Rust name.
pub open spec fn rust_name_prefix(s: Seq<char>) -> Seq<char>
    decreases s.len(),
{
    if s.len() == 0 || ends_rust_name(s[0]) {
        Seq::empty()
    } else {
        seq![s[0]] + rust_name_prefix(s.drop_first())
    }
}

/// Words that never name a function.
pub open spec fn non_name_words() -> Seq<Seq<char>> {
    seq!["pub"@, "async"@, "fn"@, "def"@, "function"@, "void"@, "public"@, "private"@, "protected"@, "static"@]
}

/// `t` without its trailing characters that are neither alphanumeric nor `_`.
pub open spec fn trim_name_end(t: Seq<char>) -> Seq<char>
    decreases t.len(),
{
    if t.len() > 0 && !unicode_alphanumeric(t.last()) && t.last() != '_' {
        trim_name_end(t.drop_last())
    } else {
        t
    }
}

/// A token that can name a function: it starts with a letter and is no
/// keyword.
pub open spec fn is_name_token(t: Seq<char>) -> bool {
    t.len() > 0 && unicode_alphabetic(t[0]) && !non_name_words().contains(t)
}

/// The first token of `ts` that can name a function.
pub open spec fn first_name_token(ts: Seq<Seq<char>>) -> Option<Seq<char>>
    decreases ts.len(),
{
    if ts.len() == 0 {
        None
    } else if is_name_token(ts[0]) {
        Some(ts[0])
    } else {
        first_name_token(ts.drop_first())
    }
}

/// The name of the function declared on `line`: for Python the text between
/// `def ` and `(`; for Rust the identifier after the first `fn `; for other
/// languages the first token that starts with a letter and is no keyword,
/// without trailing punctuation; `unknown` when there is none.
pub open spec fn func_name(line: Seq<char>, lang: Language) -> Seq<char> {
    let t = trim(line);
    match lang {
        Language::Python => trim(
            if starts_with(t, "def "@) {
                before_char(t.subrange("def "@.len() as int, t.len() as int), '(')
            } else {
                "unknown"@
            },
        ),
        Language::Rust => rust_name_prefix(
            match find(t, "fn "@) {
                Some(i) => t.subrange(i + "fn "@.len(), t.len() as int),
                None => "unknown"@,
            },
        ),
        _ => match first_name_token(split_ws(line)) {
            Some(tok) => trim_name_end(tok),
            None => "unknown"@,
        },
    }
}

/// The name of the function declared on `line` (see [`func_name`]).
pub fn extract_func_name(line: &str, language: Language) -> (name: String)
    ensures
        name@ == func_name(line@, language),
{
    let cs = chars_of(line);
    let t = trim_chars(&cs);
    match language {
        Language::Python => {
            let r = if starts_with_str(&t, "def ") {
                let k = chars_of("def ");
                let rest = slice_chars(&t, k.len(), t.len());
                before_char_exec(&rest, '(')
            } else {
                chars_of("unknown")
            };
            string_of(&trim_chars(&r))
        },
        Language::Rust => {
            let pat = chars_of("fn ");
            let tl = t.len();
            let after = match find_exec(&t, &pat) {
                Some(i) => {
                    proof {
                        lemma_find(t@, pat@);
                    }
                    slice_chars(&t, i + pat.len(), tl)
                },
                None => chars_of("unknown"),
            };
            let mut e: usize = 0;
            assert(after@.subrange(0, after@.len() as int) =~= after@);
            assert(after@.subrange(0, 0) + after@ =~= after@);
            while e < after.len() && !(after[e] == '(' || after[e] == '<' || is_whitespace(after[e]))
                invariant
                    e <= after@.len(),
                    rust_name_prefix(after@) == after@.subrange(0, e as int) + rust_name_prefix(
                        after@.subrange(e as int, after@.len() as int),
                    ),
                decreases after@.len() - e,
            {
                assert(after@.subrange(e as int, after@.len() as int).drop_first() =~= after@.subrange(
                    e + 1,
                    after@.len() as int,
                ));
                assert(after@.subrange(0, e + 1) =~= after@.subrange(0, e as int) + seq![after@[e as int]]);
                e = e + 1;
            }
            proof {
                assert(after@.subrange(0, after@.len() as int) =~= after@);
                assert(rust_name_prefix(after@.subrange(e as int, after@.len() as int)) =~= Seq::<char>::empty());
                assert(after@.subrange(0, e as int) + Seq::<char>::empty() =~= after@.subrange(0, e as int));
            }
            string_of(&slice_chars(&after, 0, e))
        },
        _ => {
            let toks = split_whitespace_of(&cs);
            let ghost tv = toks@.map_values(|x: Vec<char>| x@);
            let words = ["pub", "async", "fn", "def", "function", "void", "public", "private", "protected", "static"];
            assert(str_views(words@) =~= non_name_words());
            let mut i: usize = 0;
            assert(tv.subrange(0, tv.len() as int) =~= tv);
            while i < toks.len()
                invariant
                    i <= toks@.len(),
                    tv == toks@.map_values(|x: Vec<char>| x@),
                    tv == split_ws(line@),
                    cs@ == line@,
                    str_views(words@) == non_name_words(),
                    language != Language::Python && language != Language::Rust,
                    first_name_token(tv) == first_name_token(tv.subrange(i as int, tv.len() as int)),
                decreases toks@.len() - i,
            {
                let tok = &toks[i];
                let ghost rest = tv.subrange(i as int, tv.len() as int);
                assert(rest[0] == tok@);
                assert(rest.drop_first() =~= tv.subrange(i + 1, tv.len() as int));
                if tok.len() > 0 && is_alphabetic(tok[0]) && !is_word(tok, &words) {
                    let mut e = tok.len();
                    assert(tok@.subrange(0, tok@.len() as int) =~= tok@);
                    assert(is_name_token(tok@));
                    assert(first_name_token(rest) == Some(tok@));
                    while e > 0 && !is_alphanumeric(tok[e - 1]) && tok[e - 1] != '_'
                        invariant
                            e <= tok@.len(),
                            first_name_token(tv) == Some(tok@),
                            tv == split_ws(line@),
                            language != Language::Python && language != Language::Rust,
                            trim_name_end(tok@) == trim_name_end(tok@.subrange(0, e as int)),
                        decreases e,
                    {
                        assert(tok@.subrange(0, e as int).drop_last() =~= tok@.subrange(0, e - 1));
                        e = e - 1;
                    }
                    assert(trim_name_end(tok@.subrange(0, e as int)) == tok@.subrange(0, e as int));
                    return string_of(&slice_chars(tok, 0, e));
                }
                i = i + 1;
            }
            assert(tv.subrange(i as int, tv.len() as int) =~= Seq::<Seq<char>>::empty());
            String::from_str("unknown")
        },
    }
}

// ───────────────────────── function boundaries ─────────────────────────

/// The text that opens a function declaration, per language.
pub open spec fn func_patterns(lang: Language) -> Seq<Seq<char>> {
    match lang {
        Language::Python => seq!["def "@],
        Language::Rust => seq!["fn "@],
        Language::JavaScript => seq!["function "@, "=> {"@],
        Language::Java => seq!["void "@, "public "@, "private "@, "protected "@],
        Language::Ruby => seq!["def "@],
        _ => seq!["fn "@],
    }
}

/// The line opens a function: its trimmed text holds a declaration pattern
/// and is no comment.
pub open spec fn is_func_start(line: Seq<char>, lang: Language) -> bool {
    let t = trim(line);
    contains_any(t, func_patterns(lang)) && !starts_with(t, "#"@) && !starts_with(t, "//"@) && !starts_with(
        t,
        "///"@,
    )
}

/// Functions found from line `i` on, with the function open so far (name and
/// 1-based first line): each function runs to the line before the next
/// declaration, the last one to the end of the file.
pub open spec fn functions_from(
    ls: Seq<Seq<char>>,
    lang: Language,
    i: int,
    cur: Option<(Seq<char>, u32)>,
) -> Seq<(Seq<char>, u32, u32)>
    decreases ls.len() - i,
{
    if i < 0 || i >= ls.len() {
        match cur {
            Some((n, s)) => seq![(n, s, ls.len() as u32)],
            None => Seq::empty(),
        }
    } else if is_func_start(ls[i], lang) {
        let num = (i + 1) as u32;
        let closed = match cur {
            Some((n, s)) => seq![(n, s, (num - 1) as u32)],
            None => Seq::empty(),
        };
        closed + functions_from(ls, lang, i + 1, Some((func_name(trim(ls[i]), lang), num)))
    } else {
        functions_from(ls, lang, i + 1, cur)
    }
}

/// The open function, as values.
pub open spec fn open_view(c: Option<(String, u32)>) -> Option<(Seq<char>, u32)> {
    match c {
        Some((n, s)) => Some((n@, s)),
        None => None,
    }
}

/// No declaration that closes an earlier function falls on a line whose
/// 1-based number wraps to 0 as a `u32`.
pub open spec fn line_numbers_fit(ls: Seq<Seq<char>>, lang: Language) -> bool {
    forall|i: int, j: int|
        0 <= j < i < ls.len() && #[trigger] is_func_start(ls[j], lang) && #[trigger] is_func_start(ls[i], lang) ==> (
        (i + 1) as u32) != 0
}

/// The functions declared in `lines`: name, first and last line (1-based);
/// a function runs to the line before the next declaration, the last one
/// to the end of the file.
pub fn extract_functions(lines: &[&str], language: Language) -> (r: Vec<(String, u32, u32)>)
    requires
        line_numbers_fit(str_views(lines@), language),
    ensures
        r@.map_values(|f: (String, u32, u32)| (f.0@, f.1, f.2)) == functions_from(
            str_views(lines@),
            language,
            0,
            None,
        ),
{
    let ghost ls = str_views(lines@);
    let pats: &[&str] = match language {
        Language::Python => &["def "],
        Language::Rust => &["fn "],
        Language::JavaScript => &["function ", "=> {"],
        Language::Java => &["void ", "public ", "private ", "protected "],
        Language::Ruby => &["def "],
        _ => &["fn "],
    };
    assert(str_views(pats@) =~= func_patterns(language));
    let mut functions: Vec<(String, u32, u32)> = Vec::new();
    let mut current: Option<(String, u32)> = None;
    let mut seen = false;
    let mut i: usize = 0;
    assert(functions@.map_values(|f: (String, u32, u32)| (f.0@, f.1, f.2)) + functions_from(ls, language, 0, None)
        =~= functions_from(ls, language, 0, None));
    while i < lines.len()
        invariant
            i <= lines@.len(),
            ls == str_views(lines@),
            str_views(pats@) == func_patterns(language),
            line_numbers_fit(ls, language),
            seen == (exists|j: int| 0 <= j < i && is_func_start(ls[j], language)),
            current is Some ==> seen,
            functions@.map_values(|f: (String, u32, u32)| (f.0@, f.1, f.2)) + functions_from(
                ls,
                language,
                i as int,
                open_view(current),
            ) == functions_from(ls, language, 0, None),
        decreases lines@.len() - i,
    {
        let line = lines[i];
        assert(ls[i as int] == line@);
        let t = trim_chars(&chars_of(line));
        let is_start = contains_any_str(&t, pats) && !starts_with_str(&t, "#") && !starts_with_str(&t, "//")
            && !starts_with_str(&t, "///");
        let line_num = (i + 1) as u32;
        if is_start {
            let ghost before = functions@.map_values(|f: (String, u32, u32)| (f.0@, f.1, f.2));
            let ghost cur_view = open_view(current);
            match current {
                Some((name, start)) => {
                    assert(line_num != 0);
                    functions.push((name, start, line_num - 1));
                },
                None => {},
            }
            let tl = string_of(&t);
            let name = extract_func_name(tl.as_str(), language);
            assert(tl@ == trim(line@));
            current = Some((name, line_num));
            proof {
                let closed = match cur_view {
                    Some((n, s)) => seq![(n, s, (line_num - 1) as u32)],
                    None => Seq::<(Seq<char>, u32, u32)>::empty(),
                };
                assert(functions@.map_values(|f: (String, u32, u32)| (f.0@, f.1, f.2)) =~= before + closed);
                assert(before + closed + functions_from(ls, language, i + 1, Some((func_name(trim(ls[i as int]), language), line_num)))
                    =~= before + (closed + functions_from(ls, language, i + 1, Some((func_name(trim(ls[i as int]), language), line_num)))));
            }
            seen = true;
        }
        i = i + 1;
    }
    match current {
        Some((name, start)) => {
            let ghost before = functions@.map_values(|f: (String, u32, u32)| (f.0@, f.1, f.2));
            functions.push((name, start, lines.len() as u32));
            assert(functions@.map_values(|f: (String, u32, u32)| (f.0@, f.1, f.2)) =~= before.push((name@, start, lines@.len() as u32)));
        },
        None => {
            assert(functions@.map_values(|f: (String, u32, u32)| (f.0@, f.1, f.2)) + Seq::<(Seq<char>, u32, u32)>::empty()
                =~= functions@.map_values(|f: (String, u32, u32)| (f.0@, f.1, f.2)));
        },
    }
    functions
}

// ───────────────────────── flaky tests ─────────────────────────

/// A flaky test: the same test reaching different branches across runs.
#[derive(Debug, Clone)]
pub struct FlakyTest {
    pub test_name: String,
    /// Branches that some runs reach and others do not.
    pub divergent_branches: Vec<DivergentBranch>,
    /// Number of runs of the test (all of them show the divergence).
    pub divergent_runs: usize,
    pub total_runs: usize,
}

/// A branch that only some runs of a test reach.
#[derive(Debug, Clone)]
pub struct DivergentBranch {
    pub branch: BranchId,
    pub file_path: Option<String>,
    /// `hits/runs`: how many of the runs reach the branch.
    pub hit_ratio: String,
}

/// The traces of all runs, run after run.
pub open spec fn all_traces(runs: Seq<Vec<TestTrace>>) -> Seq<TestTrace>
    decreases runs.len(),
{
    if runs.len() == 0 {
        Seq::empty()
    } else {
        all_traces(runs.drop_last()) + runs.last()@
    }
}

/// The branch lists of the traces of test `name`, in order.
pub open spec fn runs_of(ts: Seq<TestTrace>, name: Seq<char>) -> Seq<Seq<BranchId>>
    decreases ts.len(),
{
    if ts.len() == 0 {
        Seq::empty()
    } else {
        let prev = runs_of(ts.drop_last(), name);
        if ts.last().test_name@ == name {
            prev.push(ts.last().branches@)
        } else {
            prev
        }
    }
}

/// The branch a divergence is reported at: file, line and direction of
/// `b`, column 0 and no condition index.
pub open spec fn reported_branch(b: BranchId) -> BranchId {
    BranchId { file_id: b.file_id, line: b.line, col: 0, direction: b.direction, discriminator: 0, condition_index: None }
}

/// `b` is a branch of one of the lists.
pub open spec fn in_runs(ls: Seq<Seq<BranchId>>, b: BranchId) -> bool {
    exists|q: int, j: int| 0 <= q < ls.len() && 0 <= j < ls[q].len() && #[trigger] ls[q][j] == b
}

/// Some branch of the list has key `k`.
pub open spec fn has_key(l: Seq<BranchId>, k: Seq<char>) -> bool {
    exists|j: int| 0 <= j < l.len() && spec_branch_key(#[trigger] l[j]) == k
}

/// How many of the lists reach key `k`.
pub open spec fn hit_count(ls: Seq<Seq<BranchId>>, k: Seq<char>) -> nat
    decreases ls.len(),
{
    if ls.len() == 0 {
        0
    } else {
        hit_count(ls.drop_last(), k) + if has_key(ls.last(), k) { 1nat } else { 0nat }
    }
}

/// Key `k` is reached by some of the runs but not all.
pub open spec fn divergent_key(ls: Seq<Seq<BranchId>>, k: Seq<char>) -> bool {
    0 < hit_count(ls, k) < ls.len()
}

/// The test `name` ran at least twice and some key diverges.
pub open spec fn is_flaky(ts: Seq<TestTrace>, name: Seq<char>) -> bool {
    runs_of(ts, name).len() >= 2 && exists|k: Seq<char>| divergent_key(runs_of(ts, name), k)
}

/// `e` reports the divergent key `k` of the runs `ls`, with the file table
/// `paths`.
pub open spec fn reports_key(
    e: DivergentBranch,
    k: Seq<char>,
    ls: Seq<Seq<BranchId>>,
    paths: Map<u64, String>,
) -> bool {
    &&& exists|q: int, j: int|
        0 <= q < ls.len() && 0 <= j < ls[q].len() && spec_branch_key(#[trigger] ls[q][j]) == k
            && e.branch == reported_branch(ls[q][j])
    &&& match e.file_path {
        Some(p) => paths.contains_key(e.branch.file_id) && p@ == paths[e.branch.file_id]@,
        None => !paths.contains_key(e.branch.file_id),
    }
    &&& e.hit_ratio@ == decimal(hit_count(ls, k)) + "/"@ + decimal(ls.len())
}

/// `f` reports the flaky test `name` of the traces `ts`: its run counts, and
/// one entry per divergent key (each key once).
#[verifier::opaque]
pub open spec fn reports_flaky(f: FlakyTest, ts: Seq<TestTrace>, paths: Map<u64, String>) -> bool {
    let ls = runs_of(ts, f.test_name@);
    &&& is_flaky(ts, f.test_name@)
    &&& f.total_runs == ls.len()
    &&& f.divergent_runs == ls.len()
    &&& reports_divergence(f.divergent_branches@, ls, paths)
}

/// A key is reached by some list exactly when its hit count is positive,
/// and no more lists than there are reach it.
pub proof fn lemma_hit_count(ls: Seq<Seq<BranchId>>, k: Seq<char>)
    ensures
        hit_count(ls, k) <= ls.len(),
        (hit_count(ls, k) > 0) <==> (exists|q: int| 0 <= q < ls.len() && has_key(#[trigger] ls[q], k)),
    decreases ls.len(),
{
    if ls.len() > 0 {
        lemma_hit_count(ls.drop_last(), k);
        if exists|q: int| 0 <= q < ls.len() - 1 && has_key(#[trigger] ls.drop_last()[q], k) {
            let q = choose|q: int| 0 <= q < ls.len() - 1 && has_key(#[trigger] ls.drop_last()[q], k);
            assert(ls[q] == ls.drop_last()[q]);
        }
        if exists|q: int| 0 <= q < ls.len() && has_key(#[trigger] ls[q], k) {
            let q = choose|q: int| 0 <= q < ls.len() && has_key(#[trigger] ls[q], k);
            if q < ls.len() - 1 {
                assert(ls.drop_last()[q] == ls[q]);
            }
        }
    }
}

/// All traces of the runs, in order.
fn flatten_runs(runs: &[Vec<TestTrace>]) -> (r: Vec<&TestTrace>)
    ensures
        r@.map_values(|t: &TestTrace| *t) == all_traces(runs@),
{
    let mut r: Vec<&TestTrace> = Vec::new();
    let mut i: usize = 0;
    assert(runs@.take(0) =~= Seq::<Vec<TestTrace>>::empty());
    while i < runs.len()
        invariant
            i <= runs@.len(),
            r@.map_values(|t: &TestTrace| *t) == all_traces(runs@.take(i as int)),
        decreases runs@.len() - i,
    {
        let ghost before = r@.map_values(|t: &TestTrace| *t);
        let run = &runs[i];
        let mut j: usize = 0;
        assert(before + run@.take(0) =~= before);
        while j < run.len()
            invariant
                j <= run@.len(),
                r@.map_values(|t: &TestTrace| *t) == before + run@.take(j as int),
            decreases run@.len() - j,
        {
            let ghost rb = r@;
            r.push(&run[j]);
            assert(r@ == rb.push(&run@[j as int]));
            assert(r@.map_values(|t: &TestTrace| *t) =~= rb.map_values(|t: &TestTrace| *t).push(run@[j as int]));
            assert(run@.take(j + 1) =~= run@.take(j as int).push(run@[j as int]));
            assert(r@.map_values(|t: &TestTrace| *t) =~= before + run@.take(j + 1));
            j = j + 1;
        }
        assert(runs@.take(i + 1).drop_last() =~= runs@.take(i as int));
        assert(run@.take(j as int) =~= run@);
        i = i + 1;
    }
    assert(runs@.take(runs@.len() as int) =~= runs@);
    r
}

/// Whether some branch of `l` has key `k`.
fn list_has_key(l: &Vec<BranchId>, k: &str) -> (b: bool)
    ensures
        b == has_key(l@, k@),
{
    let mut j: usize = 0;
    while j < l.len()
        invariant
            j <= l@.len(),
            forall|t: int| 0 <= t < j ==> spec_branch_key(#[trigger] l@[t]) != k@,
        decreases l@.len() - j,
    {
        let key = branch_key(&l[j]);
        if eq_str(&chars_of(key.as_str()), k) {
            return true;
        }
        j = j + 1;
    }
    false
}

/// Some string of `names` is `n`.
pub open spec fn name_listed(names: Seq<String>, n: Seq<char>) -> bool {
    exists|a: int| 0 <= a < names.len() && names[a]@ == n
}

/// Some key of `keys` is `k`.
pub open spec fn key_listed(keys: Seq<(String, BranchId)>, k: Seq<char>) -> bool {
    exists|a: int| 0 <= a < keys.len() && keys[a].0@ == k
}

/// The test names of the traces, each once, in order of first appearance.
fn distinct_names(flat: &Vec<&TestTrace>) -> (names: Vec<String>)
    ensures
        forall|a: int, b: int| 0 <= a < b < names@.len() ==> names@[a]@ != names@[b]@,
        forall|q: int|
            0 <= q < flat@.len() ==> name_listed(names@, #[trigger] flat@[q].test_name@),
{
    let mut names: Vec<String> = Vec::new();
    let mut t: usize = 0;
    while t < flat.len()
        invariant
            t <= flat@.len(),
            forall|a: int, b: int| 0 <= a < b < names@.len() ==> names@[a]@ != names@[b]@,
            forall|q: int|
                0 <= q < t ==> name_listed(names@, #[trigger] flat@[q].test_name@),
        decreases flat@.len() - t,
    {
        let name = &flat[t].test_name;
        let nc = chars_of(name.as_str());
        let mut a: usize = 0;
        let mut found = false;
        while a < names.len()
            invariant
                a <= names@.len(),
                nc@ == name@,
                found ==> exists|b: int| 0 <= b < names@.len() && names@[b]@ == name@,
                !found ==> forall|b: int| 0 <= b < a ==> names@[b]@ != name@,
            decreases names@.len() - a,
        {
            if eq_str(&nc, names[a].as_str()) {
                found = true;
            }
            a = a + 1;
        }
        if !found {
            let ghost before = names@;
            let nn = String::from_str(name.as_str());
            names.push(nn);
            assert(names@ == before.push(nn));
            assert forall|a: int, b: int| 0 <= a < b < names@.len() implies names@[a]@ != names@[b]@ by {
                assert(names@[a] == before[a]);
                if b < before.len() {
                    assert(names@[b] == before[b]);
                }
            }
            assert forall|q: int| 0 <= q < t + 1 implies name_listed(names@, #[trigger] flat@[q].test_name@) by {
                if q < t {
                    let a = choose|a: int| 0 <= a < before.len() && before[a]@ == flat@[q].test_name@;
                    assert(names@[a] == before[a]);
                } else {
                    assert(names@[before.len() as int]@ == flat@[q].test_name@);
                }
            }
        }
        t = t + 1;
    }
    names
}

/// The branch lists of the traces of test `name`, in order.
fn runs_named<'a>(flat: &Vec<&'a TestTrace>, name: &str) -> (lists: Vec<&'a Vec<BranchId>>)
    ensures
        lists@.map_values(|l: &Vec<BranchId>| l@) == runs_of(flat@.map_values(|x: &TestTrace| *x), name@),
{
    let ghost ts = flat@.map_values(|x: &TestTrace| *x);
    let nc = chars_of(name);
    let mut lists: Vec<&'a Vec<BranchId>> = Vec::new();
    let mut q: usize = 0;
    assert(ts.take(0) =~= Seq::<TestTrace>::empty());
    while q < flat.len()
        invariant
            q <= flat@.len(),
            ts == flat@.map_values(|x: &TestTrace| *x),
            nc@ == name@,
            lists@.map_values(|l: &Vec<BranchId>| l@) == runs_of(ts.take(q as int), name@),
        decreases flat@.len() - q,
    {
        assert(ts.take(q + 1).drop_last() =~= ts.take(q as int));
        assert(ts.take(q + 1).last() == *flat@[q as int]);
        let ghost before = lists@.map_values(|l: &Vec<BranchId>| l@);
        if eq_str(&nc, flat[q].test_name.as_str()) {
            lists.push(&flat[q].branches);
            assert(lists@.map_values(|l: &Vec<BranchId>| l@) =~= before.push(flat@[q as int].branches@));
        }
        q = q + 1;
    }
    assert(ts.take(flat@.len() as int) =~= ts);
    lists
}

/// Every key the lists reach, once each, with a branch that has it.
fn reached_keys(lists: &Vec<&Vec<BranchId>>) -> (keys: Vec<(String, BranchId)>)
    ensures
        ({
            let ls = lists@.map_values(|l: &Vec<BranchId>| l@);
            &&& forall|a: int, b: int| 0 <= a < b < keys@.len() ==> keys@[a].0@ != keys@[b].0@
            &&& forall|a: int| 0 <= a < keys@.len() ==> spec_branch_key(#[trigger] keys@[a].1) == keys@[a].0@
            &&& forall|a: int| 0 <= a < keys@.len() ==> in_runs(ls, #[trigger] keys@[a].1)
            &&& forall|q: int, j: int|
                0 <= q < ls.len() && 0 <= j < ls[q].len() ==> key_listed(keys@, spec_branch_key(#[trigger] ls[q][j]))
        }),
{
    let ghost ls = lists@.map_values(|l: &Vec<BranchId>| l@);
    let mut keys: Vec<(String, BranchId)> = Vec::new();
    let mut li: usize = 0;
    while li < lists.len()
        invariant
            li <= lists@.len(),
            ls == lists@.map_values(|l: &Vec<BranchId>| l@),
            forall|a: int, b: int| 0 <= a < b < keys@.len() ==> keys@[a].0@ != keys@[b].0@,
            forall|a: int| 0 <= a < keys@.len() ==> spec_branch_key(#[trigger] keys@[a].1) == keys@[a].0@,
            forall|a: int| 0 <= a < keys@.len() ==> in_runs(ls, #[trigger] keys@[a].1),
            forall|q: int, j: int|
                0 <= q < li && 0 <= j < ls[q].len() ==> key_listed(keys@, spec_branch_key(#[trigger] ls[q][j])),
        decreases lists@.len() - li,
    {
        let l = lists[li];
        assert(ls[li as int] == l@);
        let mut bj: usize = 0;
        while bj < l.len()
            invariant
                li < lists@.len(),
                bj <= l@.len(),
                ls == lists@.map_values(|x: &Vec<BranchId>| x@),
                ls[li as int] == l@,
                forall|a: int, b: int| 0 <= a < b < keys@.len() ==> keys@[a].0@ != keys@[b].0@,
                forall|a: int| 0 <= a < keys@.len() ==> spec_branch_key(#[trigger] keys@[a].1) == keys@[a].0@,
                forall|a: int| 0 <= a < keys@.len() ==> in_runs(ls, #[trigger] keys@[a].1),
                forall|q: int, j: int|
                    0 <= q < li && 0 <= j < ls[q].len() ==> key_listed(keys@, spec_branch_key(#[trigger] ls[q][j])),
                forall|j: int|
                    0 <= j < bj ==> key_listed(keys@, spec_branch_key(#[trigger] l@[j])),
            decreases l@.len() - bj,
        {
            let b = l[bj];
            let key = branch_key(&b);
            let kc = chars_of(key.as_str());
            let mut a: usize = 0;
            let mut found = false;
            while a < keys.len()
                invariant
                    a <= keys@.len(),
                    kc@ == key@,
                    found ==> exists|c: int| 0 <= c < keys@.len() && keys@[c].0@ == key@,
                    !found ==> forall|c: int| 0 <= c < a ==> keys@[c].0@ != key@,
                decreases keys@.len() - a,
            {
                if eq_str(&kc, keys[a].0.as_str()) {
                    found = true;
                }
                a = a + 1;
            }
            let ghost before = keys@;
            if !found {
                keys.push((key, b));
                assert(in_runs(ls, b)) by {
                    assert(ls[li as int][bj as int] == b);
                }
                assert forall|x: int| 0 <= x < keys@.len() implies in_runs(ls, #[trigger] keys@[x].1) by {
                    if x < before.len() {
                        assert(keys@[x] == before[x]);
                    }
                }
                assert forall|q: int, j: int| 0 <= q < li && 0 <= j < ls[q].len() implies key_listed(keys@, spec_branch_key(#[trigger] ls[q][j])) by {
                    let a = choose|a: int| 0 <= a < before.len() && before[a].0@ == spec_branch_key(ls[q][j]);
                    assert(keys@[a] == before[a]);
                }
                assert forall|j: int| 0 <= j < bj + 1 implies key_listed(keys@, spec_branch_key(#[trigger] l@[j])) by {
                    if j < bj {
                        let a = choose|a: int| 0 <= a < before.len() && before[a].0@ == spec_branch_key(l@[j]);
                        assert(keys@[a] == before[a]);
                    } else {
                        assert(keys@[before.len() as int].0@ == spec_branch_key(l@[j]));
                    }
                }
            }
            bj = bj + 1;
        }
        proof {
            assert forall|q: int, j: int| 0 <= q < li + 1 && 0 <= j < ls[q].len() implies key_listed(keys@, spec_branch_key(#[trigger] ls[q][j])) by {
                if q == li {
                    assert(ls[q][j] == l@[j]);
                }
            }
        }
        li = li + 1;
    }
    keys
}

/// How many of the lists reach key `k`.
fn count_hits(lists: &Vec<&Vec<BranchId>>, k: &str) -> (hits: usize)
    ensures
        hits == hit_count(lists@.map_values(|l: &Vec<BranchId>| l@), k@),
{
    let ghost ls = lists@.map_values(|l: &Vec<BranchId>| l@);
    let mut hits: usize = 0;
    let mut qq: usize = 0;
    assert(ls.take(0) =~= Seq::<Seq<BranchId>>::empty());
    while qq < lists.len()
        invariant
            qq <= lists@.len(),
            ls == lists@.map_values(|l: &Vec<BranchId>| l@),
            hits == hit_count(ls.take(qq as int), k@),
            hits <= qq,
        decreases lists@.len() - qq,
    {
        assert(ls.take(qq + 1).drop_last() =~= ls.take(qq as int));
        assert(ls.take(qq + 1).last() == ls[qq as int]);
        assert(ls[qq as int] == lists@[qq as int]@);
        if list_has_key(lists[qq], k) {
            hits = hits + 1;
        }
        qq = qq + 1;
    }
    assert(ls.take(lists@.len() as int) =~= ls);
    hits
}

/// `div` reports, once each and in some order, the divergent keys of `ls`.
pub open spec fn reports_divergence(div: Seq<DivergentBranch>, ls: Seq<Seq<BranchId>>, paths: Map<u64, String>) -> bool {
    exists|ks: Seq<Seq<char>>|
        #![trigger ks.len()]
        ks.len() == div.len() && ks.no_duplicates() && (forall|k: Seq<char>| ks.contains(k) <==> divergent_key(ls, k))
            && (forall|j: int| 0 <= j < ks.len() ==> reports_key(#[trigger] div[j], ks[j], ls, paths))
}

/// One entry per key that some but not all of the runs reach.
fn divergent_entries(lists: &Vec<&Vec<BranchId>>, file_paths: &HashMap<u64, String>) -> (div: Vec<DivergentBranch>)
    ensures
        reports_divergence(div@, lists@.map_values(|l: &Vec<BranchId>| l@), file_paths@),
{
    let ghost ls = lists@.map_values(|l: &Vec<BranchId>| l@);
    let keys = reached_keys(lists);
    let total = lists.len();
    let mut div: Vec<DivergentBranch> = Vec::new();
    let ghost mut ks: Seq<Seq<char>> = Seq::empty();
    let mut ki: usize = 0;
    while ki < keys.len()
        invariant
            ki <= keys@.len(),
            ls == lists@.map_values(|l: &Vec<BranchId>| l@),
            total == ls.len(),
            forall|a: int, b: int| 0 <= a < b < keys@.len() ==> keys@[a].0@ != keys@[b].0@,
            forall|a: int| 0 <= a < keys@.len() ==> spec_branch_key(#[trigger] keys@[a].1) == keys@[a].0@,
            forall|a: int| 0 <= a < keys@.len() ==> in_runs(ls, #[trigger] keys@[a].1),
            ks.len() == div@.len(),
            ks.no_duplicates(),
            forall|k: Seq<char>| ks.contains(k) <==> (exists|a: int| 0 <= a < ki && #[trigger] keys@[a].0@ == k && divergent_key(ls, k)),
            forall|j: int| 0 <= j < ks.len() ==> reports_key(#[trigger] div@[j], ks[j], ls, file_paths@),
        decreases keys@.len() - ki,
    {
        let k = &keys[ki].0;
        let b = keys[ki].1;
        let hits = count_hits(lists, k.as_str());
        proof {
            lemma_hit_count(ls, k@);
            let (q, j) = choose|q: int, j: int| 0 <= q < ls.len() && 0 <= j < ls[q].len() && #[trigger] ls[q][j] == b;
            assert(has_key(ls[q], k@));
        }
        let ghost kso = ks;
        if hits < total {
            let mut ratio: Vec<char> = Vec::new();
            push_decimal(&mut ratio, hits as u64);
            let ghost mid = ratio@;
            push_str(&mut ratio, "/");
            push_decimal(&mut ratio, total as u64);
            assert(ratio@ =~= decimal(hit_count(ls, k@)) + "/"@ + decimal(ls.len()));
            let file_path = match file_paths.get(&b.file_id) {
                Some(p) => Some(String::from_str(p.as_str())),
                None => None,
            };
            let e = DivergentBranch {
                branch: BranchId { file_id: b.file_id, line: b.line, col: 0, direction: b.direction, discriminator: 0, condition_index: None },
                file_path,
                hit_ratio: string_of(&ratio),
            };
            let ghost dbefore = div@;
            div.push(e);
            proof {
                ks = ks.push(k@);
                assert(!kso.contains(k@)) by {
                    if kso.contains(k@) {
                        let a = choose|a: int| 0 <= a < ki && #[trigger] keys@[a].0@ == k@ && divergent_key(ls, k@);
                        assert(keys@[a].0@ != keys@[ki as int].0@);
                    }
                }
                assert forall|j: int| 0 <= j < ks.len() implies reports_key(#[trigger] div@[j], ks[j], ls, file_paths@) by {
                    if j < kso.len() {
                        assert(div@[j] == dbefore[j]);
                    } else {
                        let (q, jj) = choose|q: int, jj: int| 0 <= q < ls.len() && 0 <= jj < ls[q].len() && #[trigger] ls[q][jj] == b;
                        assert(spec_branch_key(ls[q][jj]) == k@);
                    }
                }
                assert forall|x: Seq<char>| ks.contains(x) <==> (exists|a: int| 0 <= a < ki + 1 && #[trigger] keys@[a].0@ == x && divergent_key(ls, x)) by {
                    if ks.contains(x) {
                        let y = choose|y: int| 0 <= y < ks.len() && ks[y] == x;
                        if y < kso.len() {
                            assert(kso.contains(x));
                        } else {
                            assert(keys@[ki as int].0@ == x);
                        }
                    }
                    if exists|a: int| 0 <= a < ki + 1 && #[trigger] keys@[a].0@ == x && divergent_key(ls, x) {
                        let a = choose|a: int| 0 <= a < ki + 1 && #[trigger] keys@[a].0@ == x && divergent_key(ls, x);
                        if a < ki {
                            assert(kso.contains(x));
                            let y = choose|y: int| 0 <= y < kso.len() && kso[y] == x;
                            assert(ks[y] == x);
                        } else {
                            assert(ks[kso.len() as int] == x);
                        }
                    }
                }
            }
        } else {
            proof {
                assert forall|x: Seq<char>| ks.contains(x) <==> (exists|a: int| 0 <= a < ki + 1 && #[trigger] keys@[a].0@ == x && divergent_key(ls, x)) by {
                    if exists|a: int| 0 <= a < ki + 1 && #[trigger] keys@[a].0@ == x && divergent_key(ls, x) {
                        let a = choose|a: int| 0 <= a < ki + 1 && #[trigger] keys@[a].0@ == x && divergent_key(ls, x);
                        if a == ki {
                            assert(!divergent_key(ls, x));
                        }
                    }
                }
            }
        }
        ki = ki + 1;
    }
    proof {
        assert forall|k: Seq<char>| ks.contains(k) <==> divergent_key(ls, k) by {
            if divergent_key(ls, k) {
                lemma_hit_count(ls, k);
                let q = choose|q: int| 0 <= q < ls.len() && has_key(#[trigger] ls[q], k);
                let j = choose|j: int| 0 <= j < ls[q].len() && spec_branch_key(#[trigger] ls[q][j]) == k;
                let a = choose|a: int| 0 <= a < keys@.len() && keys@[a].0@ == spec_branch_key(ls[q][j]);
                assert(keys@[a].0@ == k);
            }
        }
        assert(reports_divergence(div@, ls, file_paths@));
    }
    div
}

/// Inserts `f` after every test with at least as many divergent branches.
fn insert_by_divergence(result: &mut Vec<FlakyTest>, f: FlakyTest)
    requires
        forall|i: int, j: int|
            0 <= i < j < old(result)@.len() ==> old(result)@[i].divergent_branches@.len()
                >= old(result)@[j].divergent_branches@.len(),
    ensures
        exists|p: int| 0 <= p <= old(result)@.len() && final(result)@ == old(result)@.insert(p, f),
        forall|i: int, j: int|
            0 <= i < j < final(result)@.len() ==> final(result)@[i].divergent_branches@.len()
                >= final(result)@[j].divergent_branches@.len(),
{
    let n = f.divergent_branches.len();
    let mut pos: usize = 0;
    while pos < result.len() && result[pos].divergent_branches.len() >= n
        invariant
            pos <= result@.len(),
            result@ == old(result)@,
            forall|x: int| 0 <= x < pos ==> result@[x].divergent_branches@.len() >= n,
        decreases result@.len() - pos,
    {
        pos = pos + 1;
    }
    let ghost rb = result@;
    result.insert(pos, f);
    assert(result@ == rb.insert(pos as int, f));
    assert forall|i: int, j: int| 0 <= i < j < result@.len() implies result@[i].divergent_branches@.len()
        >= result@[j].divergent_branches@.len() by {
        let fi = if i < pos { rb[i] } else if i == pos { f } else { rb[i - 1] };
        let fj = if j < pos { rb[j] } else if j == pos { f } else { rb[j - 1] };
        assert(result@[i] == fi);
        assert(result@[j] == fj);
        if i == pos && pos < rb.len() {
            assert(rb[pos as int].divergent_branches@.len() < n);
            if j - 1 > pos {
                assert(rb[pos as int].divergent_branches@.len() >= rb[j - 1].divergent_branches@.len());
            }
        }
    }
}

/// One of the first `k` names is `n`.
pub open spec fn named_before(names: Seq<String>, k: int, n: Seq<char>) -> bool {
    exists|a: int| 0 <= a < k && names[a]@ == n
}

/// Some test of `r` is named `n`.
pub open spec fn found_in(r: Seq<FlakyTest>, n: Seq<char>) -> bool {
    exists|i: int| 0 <= i < r.len() && r[i].test_name@ == n
}

/// What the loop of [`detect_flaky_tests`] keeps after the first `k` names.
pub open spec fn flaky_progress(
    r: Seq<FlakyTest>,
    names: Seq<String>,
    k: int,
    ts: Seq<TestTrace>,
    paths: Map<u64, String>,
) -> bool {
    &&& forall|i: int| 0 <= i < r.len() ==> reports_flaky(#[trigger] r[i], ts, paths)
    &&& forall|i: int| 0 <= i < r.len() ==> named_before(names, k, #[trigger] r[i].test_name@)
    &&& forall|a: int| 0 <= a < k && #[trigger] is_flaky(ts, names[a]@) ==> found_in(r, names[a]@)
    &&& forall|i: int, j: int| 0 <= i < j < r.len() ==> r[i].test_name@ != r[j].test_name@
    &&& forall|i: int, j: int|
        0 <= i < j < r.len() ==> r[i].divergent_branches@.len() >= r[j].divergent_branches@.len()
}

/// Names pairwise different.
pub open spec fn distinct_strings(names: Seq<String>) -> bool {
    forall|a: int, b: int| 0 <= a < b < names.len() ==> names[a]@ != names[b]@
}

/// Adding the report of the next name keeps the loop's facts.
proof fn lemma_flaky_insert(
    rb: Seq<FlakyTest>,
    r: Seq<FlakyTest>,
    p: int,
    f: FlakyTest,
    names: Seq<String>,
    k: int,
    ts: Seq<TestTrace>,
    paths: Map<u64, String>,
)
    requires
        0 <= p <= rb.len(),
        r == rb.insert(p, f),
        0 <= k < names.len(),
        distinct_strings(names),
        f.test_name@ == names[k]@,
        reports_flaky(f, ts, paths),
        flaky_progress(rb, names, k, ts, paths),
        forall|i: int, j: int|
            0 <= i < j < r.len() ==> r[i].divergent_branches@.len() >= r[j].divergent_branches@.len(),
    ensures
        flaky_progress(r, names, k + 1, ts, paths),
{
    assert forall|i: int| 0 <= i < r.len() implies reports_flaky(#[trigger] r[i], ts, paths) by {
        if i < p {
            assert(r[i] == rb[i]);
        } else if i > p {
            assert(r[i] == rb[i - 1]);
        }
    }
    assert forall|i: int| 0 <= i < r.len() implies named_before(names, k + 1, #[trigger] r[i].test_name@) by {
        if i < p {
            assert(r[i] == rb[i]);
            assert(named_before(names, k, rb[i].test_name@));
        } else if i > p {
            assert(r[i] == rb[i - 1]);
            assert(named_before(names, k, rb[i - 1].test_name@));
        } else {
            assert(names[k]@ == r[i].test_name@);
        }
    }
    assert forall|a: int| 0 <= a < k + 1 && #[trigger] is_flaky(ts, names[a]@) implies found_in(r, names[a]@) by {
        if a < k {
            assert(found_in(rb, names[a]@));
            let i = choose|i: int| 0 <= i < rb.len() && rb[i].test_name@ == names[a]@;
            if i < p {
                assert(r[i] == rb[i]);
            } else {
                assert(r[i + 1] == rb[i]);
            }
        } else {
            assert(r[p].test_name@ == names[a]@);
        }
    }
    assert forall|i: int, j: int| 0 <= i < j < r.len() implies r[i].test_name@ != r[j].test_name@ by {
        let fi = if i < p { rb[i] } else if i == p { f } else { rb[i - 1] };
        let fj = if j < p { rb[j] } else if j == p { f } else { rb[j - 1] };
        assert(r[i] == fi);
        assert(r[j] == fj);
        if i == p {
            assert(named_before(names, k, rb[j - 1].test_name@));
            let a = choose|a: int| 0 <= a < k && names[a]@ == rb[j - 1].test_name@;
            assert(names[a]@ != names[k]@);
        } else if j == p {
            assert(named_before(names, k, rb[i].test_name@));
            let a = choose|a: int| 0 <= a < k && names[a]@ == rb[i].test_name@;
            assert(names[a]@ != names[k]@);
        }
    }
}

/// Finds the tests whose branch footprint differs between runs: for every
/// test that ran at least twice, the branches (by key) that some of its
/// runs reach and others do not, each reported at its file, line and
/// direction with the file's path (when the table has it) and `hits/runs`.
/// Tests with no such branch are left out; the rest come most divergent
/// first.
pub fn detect_flaky_tests(runs: &[Vec<TestTrace>], file_paths: &HashMap<u64, String>) -> (r: Vec<FlakyTest>)
    ensures
        forall|i: int| 0 <= i < r@.len() ==> reports_flaky(#[trigger] r@[i], all_traces(runs@), file_paths@),
        forall|n: Seq<char>|
            #[trigger] is_flaky(all_traces(runs@), n) ==> exists|i: int| 0 <= i < r@.len() && r@[i].test_name@ == n,
        forall|i: int, j: int| 0 <= i < j < r@.len() ==> r@[i].test_name@ != r@[j].test_name@,
        forall|i: int, j: int|
            0 <= i < j < r@.len() ==> r@[i].divergent_branches@.len() >= r@[j].divergent_branches@.len(),
{
    let flat = flatten_runs(runs);
    let ghost ts = flat@.map_values(|t: &TestTrace| *t);
    let names = distinct_names(&flat);
    let mut result: Vec<FlakyTest> = Vec::new();
    let mut ni: usize = 0;
    while ni < names.len()
        invariant
            ni <= names@.len(),
            ts == flat@.map_values(|x: &TestTrace| *x),
            distinct_strings(names@),
            flaky_progress(result@, names@, ni as int, ts, file_paths@),
        decreases names@.len() - ni,
    {
        let name = &names[ni];
        let lists = runs_named(&flat, name.as_str());
        let ghost ls = lists@.map_values(|l: &Vec<BranchId>| l@);
        let total = lists.len();
        let ghost rb = result@;
        if total >= 2 {
            let div = divergent_entries(&lists, file_paths);
            if div.len() > 0 {
                let f = FlakyTest {
                    test_name: String::from_str(name.as_str()),
                    divergent_branches: div,
                    divergent_runs: total,
                    total_runs: total,
                };
                proof {
                    let ks = choose|ks: Seq<Seq<char>>|
                        #![trigger ks.len()]
                        ks.len() == f.divergent_branches@.len() && ks.no_duplicates() && (forall|k: Seq<char>|
                            ks.contains(k) <==> divergent_key(ls, k)) && (forall|j: int|
                            0 <= j < ks.len() ==> reports_key(#[trigger] f.divergent_branches@[j], ks[j], ls, file_paths@));
                    assert(ks.contains(ks[0]));
                    assert(divergent_key(ls, ks[0]));
                    assert(is_flaky(ts, name@));
                    reveal(reports_flaky);
                    assert(reports_flaky(f, ts, file_paths@));
                }
                insert_by_divergence(&mut result, f);
                proof {
                    let p = choose|p: int| 0 <= p <= rb.len() && result@ == rb.insert(p, f);
                    lemma_flaky_insert(rb, result@, p, f, names@, ni as int, ts, file_paths@);
                }
            } else {
                proof {
                    let ks = choose|ks: Seq<Seq<char>>|
                        #![trigger ks.len()]
                        ks.len() == div@.len() && ks.no_duplicates() && (forall|k: Seq<char>|
                            ks.contains(k) <==> divergent_key(ls, k)) && (forall|j: int|
                            0 <= j < ks.len() ==> reports_key(#[trigger] div@[j], ks[j], ls, file_paths@));
                    assert forall|k: Seq<char>| !divergent_key(ls, k) by {
                        if divergent_key(ls, k) {
                            assert(ks.contains(k));
                        }
                    }
                    assert(!is_flaky(ts, name@));
                    lemma_flaky_skip(result@, names@, ni as int, ts, file_paths@);
                }
            }
        } else {
            proof {
                assert(!is_flaky(ts, name@));
                lemma_flaky_skip(result@, names@, ni as int, ts, file_paths@);
            }
        }
        ni = ni + 1;
    }
    proof {
        assert forall|n: Seq<char>| #[trigger] is_flaky(ts, n) implies exists|i: int| 0 <= i < result@.len() && result@[i].test_name@ == n by {
            lemma_runs_of_names(ts, n);
            let q = choose|q: int| 0 <= q < ts.len() && ts[q].test_name@ == n;
            assert(ts[q] == *flat@[q]);
            assert(name_listed(names@, flat@[q].test_name@));
            let a = choose|a: int| 0 <= a < names@.len() && names@[a]@ == flat@[q].test_name@;
            assert(is_flaky(ts, names@[a]@));
            assert(found_in(result@, names@[a]@));
        }
    }
    result
}

/// Skipping a name that is not flaky keeps the loop's facts.
proof fn lemma_flaky_skip(r: Seq<FlakyTest>, names: Seq<String>, k: int, ts: Seq<TestTrace>, paths: Map<u64, String>)
    requires
        0 <= k < names.len(),
        !is_flaky(ts, names[k]@),
        flaky_progress(r, names, k, ts, paths),
    ensures
        flaky_progress(r, names, k + 1, ts, paths),
{
    assert forall|i: int| 0 <= i < r.len() implies named_before(names, k + 1, #[trigger] r[i].test_name@) by {
        assert(named_before(names, k, r[i].test_name@));
    }
}

/// A test with runs has a trace with its name.
proof fn lemma_runs_of_names(ts: Seq<TestTrace>, n: Seq<char>)
    ensures
        runs_of(ts, n).len() > 0 ==> exists|q: int| 0 <= q < ts.len() && ts[q].test_name@ == n,
    decreases ts.len(),
{
    if ts.len() > 0 {
        lemma_runs_of_names(ts.drop_last(), n);
        if runs_of(ts.drop_last(), n).len() > 0 {
            let q = choose|q: int| 0 <= q < ts.len() - 1 && ts.drop_last()[q].test_name@ == n;
            assert(ts[q] == ts.drop_last()[q]);
        }
    }
}

/// Whether `tok` is one of `words`.
fn is_word(tok: &Vec<char>, words: &[&str]) -> (b: bool)
    ensures
        b == str_views(words@).contains(tok@),
{
    let mut i: usize = 0;
    while i < words.len()
        invariant
            i <= words@.len(),
            forall|j: int| 0 <= j < i ==> str_views(words@)[j] != tok@,
        decreases words@.len() - i,
    {
        if crate::text::eq_str(tok, words[i]) {
            assert(str_views(words@)[i as int] == tok@);
            return true;
        }
        i = i + 1;
    }
    false
}

} // verus!
