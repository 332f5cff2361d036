//! Pattern expressions with metavariables (`$VAR`), and matching them
//! against source lines.
use vstd::prelude::*;
use crate::strmap::StrMap;
use crate::text::{
    chars_of, contains, contains_exec, find, find_char, lemma_find, push_str, slice_chars,
    split_whitespace_of, split_ws, string_of, trim, trim_chars,
};
use crate::document::opt_view;

verus! {

/// A pattern expression for matching source code.
#[derive(Debug, PartialEq)]
pub enum PatternExpr {
    /// Literal text.
    Literal(String),
    /// Metavariable that captures an identifier (`$VAR`, `$FUNC`, ...).
    Metavar(String),
    /// Pattern elements one after the other (e.g. `$FUNC($ARG)`).
    Sequence(Vec<PatternExpr>),
    /// Any of the alternatives.
    Any(Vec<PatternExpr>),
}

/// A pattern expression as values.
pub enum PatternModel {
    Literal(Seq<char>),
    Metavar(Seq<char>),
    Sequence(Seq<PatternModel>),
    Any(Seq<PatternModel>),
}

/// The values of a pattern expression.
pub open spec fn model_of(e: PatternExpr) -> PatternModel
    decreases e, 1nat, 0int,
{
    match e {
        PatternExpr::Literal(s) => PatternModel::Literal(s@),
        PatternExpr::Metavar(s) => PatternModel::Metavar(s@),
        PatternExpr::Sequence(v) => PatternModel::Sequence(part_models(e, v.len() as int)),
        PatternExpr::Any(v) => PatternModel::Any(part_models(e, v.len() as int)),
    }
}

/// The values of the first `k` parts of a sequence or of alternatives.
pub open spec fn part_models(e: PatternExpr, k: int) -> Seq<PatternModel>
    decreases e, 0nat, k,
{
    match e {
        PatternExpr::Sequence(v) => if 0 < k <= v.len() {
            part_models(e, k - 1).push(model_of(v[k - 1]))
        } else {
            Seq::empty()
        },
        PatternExpr::Any(v) => if 0 < k <= v.len() {
            part_models(e, k - 1).push(model_of(v[k - 1]))
        } else {
            Seq::empty()
        },
        _ => Seq::empty(),
    }
}

/// The parts of a sequence or the alternatives.
pub open spec fn parts_of(e: PatternExpr) -> Seq<PatternExpr> {
    match e {
        PatternExpr::Sequence(v) => v@,
        PatternExpr::Any(v) => v@,
        _ => Seq::empty(),
    }
}

/// Part by part, the values are those of the parts.
pub proof fn lemma_part_models(e: PatternExpr, k: int)
    requires
        0 <= k <= parts_of(e).len(),
    ensures
        part_models(e, k).len() == k,
        forall|j: int| 0 <= j < k ==> #[trigger] part_models(e, k)[j] == model_of(parts_of(e)[j]),
    decreases k,
{
    if k > 0 {
        lemma_part_models(e, k - 1);
    }
}

// ───────────────────────── parsing: model ─────────────────────────

/// `A`–`Z`.
pub open spec fn is_upper(c: char) -> bool {
    'A' <= c <= 'Z'
}

/// A character of a metavariable name: ASCII letter, digit or `_`.
pub open spec fn is_name_char(c: char) -> bool {
    ('A' <= c <= 'Z') || ('a' <= c <= 'z') || ('0' <= c <= '9') || c == '_'
}

/// End of the name that starts at `k`.
pub open spec fn name_end(cs: Seq<char>, k: int) -> int
    decreases cs.len() - k,
{
    if k < 0 || k >= cs.len() {
        cs.len() as int
    } else if is_name_char(cs[k]) {
        name_end(cs, k + 1)
    } else {
        k
    }
}

/// A metavariable starts at `i`: `$` and an upper-case letter.
pub open spec fn starts_metavar(cs: Seq<char>, i: int) -> bool {
    0 <= i && i + 1 < cs.len() && cs[i] == '$' && is_upper(cs[i + 1])
}

/// The pending literal, where there is one.
pub open spec fn flush(buf: Seq<char>) -> Seq<PatternModel> {
    if buf.len() > 0 {
        seq![PatternModel::Literal(buf)]
    } else {
        Seq::empty()
    }
}

/// The elements of `cs` from `i` on, with the literal `buf` pending:
/// metavariables, and the literal text between them.
pub open spec fn tokens(cs: Seq<char>, i: int, buf: Seq<char>) -> Seq<PatternModel>
    decreases cs.len() - i,
{
    if i < 0 || i >= cs.len() {
        flush(buf)
    } else if starts_metavar(cs, i) {
        let e = name_end(cs, i + 1);
        if i + 1 < e <= cs.len() {
            flush(buf) + seq![PatternModel::Metavar(cs.subrange(i + 1, e))] + tokens(
                cs,
                e,
                Seq::empty(),
            )
        } else {
            flush(buf)
        }
    } else {
        tokens(cs, i + 1, buf.push(cs[i]))
    }
}

/// The pieces of `s` between `|` characters (`str::split('|')`).
pub open spec fn split_bar(s: Seq<char>) -> Seq<Seq<char>>
    decreases s.len(),
{
    match find(s, seq!['|']) {
        Some(k) => if 0 <= k < s.len() {
            seq![s.subrange(0, k)] + split_bar(s.subrange(k + 1, s.len() as int))
        } else {
            seq![s]
        },
        None => seq![s],
    }
}

/// The pattern is `{...}`.
pub open spec fn braced(p: Seq<char>) -> bool {
    p.len() >= 2 && p[0] == '{' && p.last() == '}'
}

/// The text between the braces.
pub open spec fn inner(p: Seq<char>) -> Seq<char> {
    p.subrange(1, p.len() - 1)
}

/// The pattern a text reads as: `{a | b | ...}` is the alternatives, each
/// read in turn after trimming; otherwise the elements (metavariables and
/// literal text), one element standing alone.
pub open spec fn parse_spec(p: Seq<char>) -> PatternModel
    decreases p.len(), 1nat, 0int,
{
    if braced(p) {
        PatternModel::Any(parse_alts(split_bar(inner(p)), p.len(), split_bar(inner(p)).len() as int))
    } else {
        let ts = tokens(p, 0, Seq::empty());
        if ts.len() == 1 {
            ts[0]
        } else {
            PatternModel::Sequence(ts)
        }
    }
}

/// The first `k` alternatives, read (each shorter than `bound`).
pub open spec fn parse_alts(parts: Seq<Seq<char>>, bound: nat, k: int) -> Seq<PatternModel>
    decreases bound, 0nat, k,
{
    if 0 < k <= parts.len() {
        let t = trim(parts[k - 1]);
        parse_alts(parts, bound, k - 1).push(
            if t.len() < bound {
                parse_spec(t)
            } else {
                PatternModel::Literal(Seq::empty())
            },
        )
    } else {
        Seq::empty()
    }
}

proof fn lemma_parse_alts(parts: Seq<Seq<char>>, bound: nat, k: int)
    requires
        0 <= k <= parts.len(),
        forall|j: int| 0 <= j < parts.len() ==> trim(#[trigger] parts[j]).len() < bound,
    ensures
        parse_alts(parts, bound, k).len() == k,
        forall|j: int| 0 <= j < k ==> #[trigger] parse_alts(parts, bound, k)[j] == parse_spec(trim(parts[j])),
    decreases k,
{
    if k > 0 {
        lemma_parse_alts(parts, bound, k - 1);
    }
}

proof fn lemma_name_end(cs: Seq<char>, k: int)
    requires
        0 <= k <= cs.len(),
    ensures
        k <= name_end(cs, k) <= cs.len(),
    decreases cs.len() - k,
{
    if k < cs.len() && is_name_char(cs[k]) {
        lemma_name_end(cs, k + 1);
    }
}

proof fn lemma_trim_end_len(s: Seq<char>)
    ensures
        crate::text::trim_end(s).len() <= s.len(),
    decreases s.len(),
{
    if s.len() > 0 {
        lemma_trim_end_len(s.drop_last());
    }
}

proof fn lemma_trim_len(s: Seq<char>)
    ensures
        trim(s).len() <= s.len(),
{
    crate::text::lemma_trim_start_len(s);
    lemma_trim_end_len(crate::text::trim_start(s));
}

proof fn lemma_split_bar_len(s: Seq<char>)
    ensures
        split_bar(s).len() >= 1,
        forall|j: int| 0 <= j < split_bar(s).len() ==> (#[trigger] split_bar(s)[j]).len() <= s.len(),
    decreases s.len(),
{
    lemma_find(s, seq!['|']);
    match find(s, seq!['|']) {
        Some(k) => if 0 <= k < s.len() {
            let rest = s.subrange(k + 1, s.len() as int);
            lemma_split_bar_len(rest);
            assert forall|j: int| 0 <= j < split_bar(s).len() implies (#[trigger] split_bar(s)[j]).len() <= s.len() by {
                if j > 0 {
                    assert(split_bar(s)[j] == split_bar(rest)[j - 1]);
                }
            }
        },
        None => {},
    }
}

// ───────────────────────── parsing: code ─────────────────────────

/// The elements of a pattern text (see [`tokens`]).
fn tokenize(cs: &Vec<char>) -> (r: Vec<PatternExpr>)
    ensures
        r@.map_values(|e: PatternExpr| model_of(e)) == tokens(cs@, 0, Seq::empty()),
{
    let mut parts: Vec<PatternExpr> = Vec::new();
    let mut buf: Vec<char> = Vec::new();
    let n = cs.len();
    let mut i: usize = 0;
    while i < n
        invariant
            i <= n,
            n == cs@.len(),
            parts@.map_values(|e: PatternExpr| model_of(e)) + tokens(cs@, i as int, buf@) == tokens(
                cs@,
                0,
                Seq::empty(),
            ),
        decreases n - i,
    {
        if cs[i] == '$' && i + 1 < n && 'A' <= cs[i + 1] && cs[i + 1] <= 'Z' {
            let ghost pm = parts@.map_values(|e: PatternExpr| model_of(e));
            let ghost b0 = buf@;
            if buf.len() > 0 {
                parts.push(PatternExpr::Literal(string_of(&buf)));
                buf = Vec::new();
            }
            assert(parts@.map_values(|e: PatternExpr| model_of(e)) =~= pm + flush(b0));
            let mut j: usize = i + 1;
            proof {
                lemma_name_end(cs@, i + 1);
            }
            while j < n && (('A' <= cs[j] && cs[j] <= 'Z') || ('a' <= cs[j] && cs[j] <= 'z') || (
            '0' <= cs[j] && cs[j] <= '9') || cs[j] == '_')
                invariant
                    i + 1 <= j <= n,
                    n == cs@.len(),
                    name_end(cs@, i + 1) == name_end(cs@, j as int),
                decreases n - j,
            {
                j = j + 1;
            }
            assert(j == name_end(cs@, i + 1));
            assert(j > i + 1);
            let name = slice_chars(cs, i + 1, j);
            let ghost mid = parts@.map_values(|e: PatternExpr| model_of(e));
            parts.push(PatternExpr::Metavar(string_of(&name)));
            assert(parts@.map_values(|e: PatternExpr| model_of(e)) =~= mid.push(
                PatternModel::Metavar(cs@.subrange(i + 1, j as int)),
            ));
            assert(flush(Seq::<char>::empty()) =~= Seq::<PatternModel>::empty());
            assert(buf@ =~= Seq::<char>::empty());
            assert(starts_metavar(cs@, i as int));
            assert(tokens(cs@, i as int, b0) == flush(b0) + seq![PatternModel::Metavar(cs@.subrange(i + 1, j as int))] + tokens(cs@, j as int, Seq::empty()));
            assert(pm + tokens(cs@, i as int, b0) =~= parts@.map_values(|e: PatternExpr| model_of(e))
                + tokens(cs@, j as int, buf@));
            i = j;
        } else {
            buf.push(cs[i]);
            i = i + 1;
        }
    }
    let ghost pm = parts@.map_values(|e: PatternExpr| model_of(e));
    let ghost b0 = buf@;
    if buf.len() > 0 {
        parts.push(PatternExpr::Literal(string_of(&buf)));
    }
    assert(parts@.map_values(|e: PatternExpr| model_of(e)) =~= pm + flush(b0));
    parts
}

/// The pieces between `|` characters (see [`split_bar`]).
fn split_bar_exec(s: &Vec<char>) -> (r: Vec<Vec<char>>)
    ensures
        r@.map_values(|v: Vec<char>| v@) == split_bar(s@),
{
    let mut r: Vec<Vec<char>> = Vec::new();
    let mut rest: Vec<char> = s.clone();
    assert(rest@ == s@);
    loop
        invariant
            r@.map_values(|v: Vec<char>| v@) + split_bar(rest@) == split_bar(s@),
        decreases rest@.len(),
    {
        let rl = rest.len();
        match find_char(&rest, '|') {
            Some(k) => {
                proof {
                    lemma_find(rest@, seq!['|']);
                }
                let ghost rm = r@.map_values(|v: Vec<char>| v@);
                let head = slice_chars(&rest, 0, k);
                let tail = slice_chars(&rest, k + 1, rl);
                assert(split_bar(rest@) == seq![head@] + split_bar(tail@));
                r.push(head);
                assert(r@.map_values(|v: Vec<char>| v@) =~= rm.push(head@));
                assert(rm + (seq![head@] + split_bar(tail@)) =~= rm.push(head@) + split_bar(tail@));
                rest = tail;
            },
            None => {
                let ghost rm = r@.map_values(|v: Vec<char>| v@);
                assert(split_bar(rest@) == seq![rest@]);
                r.push(rest);
                assert(r@.map_values(|v: Vec<char>| v@) =~= rm + seq![rest@]);
                return r;
            },
        }
    }
}

/// The pattern a character text reads as (see [`parse_spec`]).
fn parse_chars(p: &Vec<char>) -> (e: PatternExpr)
    ensures
        model_of(e) == parse_spec(p@),
    decreases p@.len(),
{
    let n = p.len();
    if n >= 2 && p[0] == '{' && p[n - 1] == '}' {
        let inner_text = slice_chars(p, 1, n - 1);
        assert(inner_text@ == inner(p@));
        let parts = split_bar_exec(&inner_text);
        let ghost pv = parts@.map_values(|v: Vec<char>| v@);
        proof {
            lemma_split_bar_len(inner_text@);
            assert forall|j: int| 0 <= j < pv.len() implies trim(#[trigger] pv[j]).len() < p@.len() by {
                lemma_trim_len(pv[j]);
            }
            lemma_parse_alts(pv, p@.len(), pv.len() as int);
        }
        let mut alts: Vec<PatternExpr> = Vec::new();
        let mut k: usize = 0;
        while k < parts.len()
            invariant
                k <= parts@.len(),
                pv == parts@.map_values(|v: Vec<char>| v@),
                pv == split_bar(inner(p@)),
                forall|j: int| 0 <= j < pv.len() ==> trim(#[trigger] pv[j]).len() < p@.len(),
                alts@.len() == k,
                forall|j: int| 0 <= j < k ==> model_of(#[trigger] alts@[j]) == parse_spec(trim(pv[j])),
            decreases parts@.len() - k,
        {
            let t = trim_chars(&parts[k]);
            assert(t@ == trim(pv[k as int]));
            let a = parse_chars(&t);
            alts.push(a);
            k = k + 1;
        }
        let e = PatternExpr::Any(alts);
        proof {
            lemma_part_models(e, alts@.len() as int);
            assert(part_models(e, alts@.len() as int) =~= parse_alts(pv, p@.len(), pv.len() as int));
        }
        e
    } else {
        let mut ts = tokenize(p);
        if ts.len() == 1 {
            assert(ts@.map_values(|e: PatternExpr| model_of(e))[0] == model_of(ts@[0]));
            ts.remove(0)
        } else {
            let e = PatternExpr::Sequence(ts);
            proof {
                lemma_part_models(e, ts@.len() as int);
                assert(part_models(e, ts@.len() as int) =~= ts@.map_values(|x: PatternExpr| model_of(x)));
            }
            e
        }
    }
}

/// Parses a pattern: `$IDENTIFIER` is a metavariable, other text is
/// literal, adjacent elements form a sequence, and `{a | b | c}` lists
/// alternatives (see [`parse_spec`]).
pub fn parse_pattern(pattern: &str) -> (e: PatternExpr)
    ensures
        model_of(e) == parse_spec(pattern@),
{
    let cs = chars_of(pattern);
    parse_chars(&cs)
}

// ───────────────────────── matching ─────────────────────────

/// A character with a meaning in regex syntax (`regex_syntax::is_meta_character`).
pub open spec fn is_regex_meta(c: char) -> bool {
    c == '\\' || c == '.' || c == '+' || c == '*' || c == '?' || c == '(' || c == ')' || c == '|'
        || c == '[' || c == ']' || c == '{' || c == '}' || c == '^' || c == '$' || c == '#' || c == '&'
        || c == '-' || c == '~'
}

/// `regex::escape` of a text: the text with a `\` before every regex meta
/// character.
pub open spec fn regex_escaped(s: Seq<char>) -> Seq<char>
    decreases s.len(),
{
    if s.len() == 0 {
        Seq::empty()
    } else {
        regex_escaped(s.drop_last()) + if is_regex_meta(s.last()) {
            seq!['\\', s.last()]
        } else {
            seq![s.last()]
        }
    }
}

/// What compiling a regex text and matching it against `source` yields:
/// `None` where the text is no valid regex or nothing matches, else for each
/// of `names` the text its named group captured in the first match, if any.
pub uninterp spec fn regex_named_captures(
    re: Seq<char>,
    source: Seq<char>,
    names: Seq<Seq<char>>,
) -> Option<Seq<Option<Seq<char>>>>;

/// Calls `regex::escape`, which puts a `\` before each regex meta character
/// of the text and copies every other character (see [`regex_escaped`]).
#[verifier::external_body]
fn escape_regex(s: &str) -> (r: String)
    ensures
        r@ == regex_escaped(s@),
{
    regex::escape(s)
}

/// Calls `regex::Regex::new` on `re`, then `Regex::captures` on `source`,
/// then `Captures::name` for each of `names`, keeping the captured texts.
/// The result is a function of the three arguments alone, named by
/// [`regex_named_captures`].
#[verifier::external_body]
fn named_captures(re: &str, source: &str, names: &Vec<String>) -> (r: Option<Vec<Option<String>>>)
    ensures
        r matches Some(v) ==> v@.len() == names@.len(),
        regex_named_captures(re@, source@, names@.map_values(|n: String| n@)) == match r {
            Some(v) => Some(v@.map_values(|o: Option<String>| opt_view(o))),
            None => None::<Seq<Option<Seq<char>>>>,
        },
{
    let compiled = match regex::Regex::new(re) {
        Ok(c) => c,
        Err(_) => return None,
    };
    let caps = compiled.captures(source)?;
    let mut out = Vec::new();
    for n in names {
        out.push(caps.name(n).map(|m| m.as_str().to_string()));
    }
    Some(out)
}

/// The regex a sequence of literals and metavariables compiles to: escaped
/// literals and a named group of word characters per metavariable; `None`
/// where a part is itself a sequence or alternatives.
pub open spec fn sequence_regex(parts: Seq<PatternModel>) -> Option<(Seq<char>, Seq<Seq<char>>)>
    decreases parts.len(),
{
    if parts.len() == 0 {
        Some((Seq::empty(), Seq::empty()))
    } else {
        match sequence_regex(parts.drop_last()) {
            Some((re, names)) => match parts.last() {
                PatternModel::Literal(l) => Some((re + regex_escaped(l), names)),
                PatternModel::Metavar(n) => Some((re + "(?P<"@ + n + ">\\w+)"@, names.push(n))),
                _ => None,
            },
            None => None,
        }
    }
}

/// Bindings from names to the texts captured for them (a later name
/// replaces an earlier equal one; names that captured nothing are left out).
pub open spec fn capture_bindings(names: Seq<Seq<char>>, caps: Seq<Option<Seq<char>>>) -> Map<
    Seq<char>,
    Seq<char>,
>
    decreases names.len(),
{
    if names.len() == 0 || caps.len() != names.len() {
        Map::empty()
    } else {
        let prev = capture_bindings(names.drop_last(), caps.drop_last());
        match caps.last() {
            Some(t) => prev.insert(names.last(), t),
            None => prev,
        }
    }
}

/// What matching a pattern against a source line binds, or `None` where it
/// does not match: a literal matches where it occurs; a metavariable alone
/// binds the first whitespace-separated token; a sequence matches as its
/// regex; alternatives give the first that matches.
pub open spec fn match_spec(p: PatternModel, source: Seq<char>) -> Option<Map<Seq<char>, Seq<char>>>
    decreases p, 1nat, 0int,
{
    match p {
        PatternModel::Literal(l) => if contains(source, l) {
            Some(Map::empty())
        } else {
            None
        },
        PatternModel::Metavar(n) => if split_ws(source).len() > 0 {
            Some(Map::empty().insert(n, split_ws(source)[0]))
        } else {
            None
        },
        PatternModel::Sequence(parts) => match sequence_regex(parts) {
            Some((re, names)) => match regex_named_captures(re, source, names) {
                Some(caps) => Some(capture_bindings(names, caps)),
                None => None,
            },
            None => None,
        },
        PatternModel::Any(alts) => first_alternative(p, 0, source),
    }
}

/// The bindings of the first of the alternatives from `k` on that matches.
pub open spec fn first_alternative(p: PatternModel, k: int, source: Seq<char>) -> Option<
    Map<Seq<char>, Seq<char>>,
>
    decreases p, 0nat, (match p {
        PatternModel::Any(alts) => alts.len() - k,
        _ => 0,
    }),
{
    match p {
        PatternModel::Any(alts) => if 0 <= k < alts.len() {
            match match_spec(alts[k], source) {
                Some(b) => Some(b),
                None => first_alternative(p, k + 1, source),
            }
        } else {
            None
        },
        _ => None,
    }
}

/// The map holds the bindings `b`.
pub open spec fn holds_bindings(m: StrMap<String>, b: Map<Seq<char>, Seq<char>>) -> bool {
    &&& m@.dom() == b.dom()
    &&& forall|k: Seq<char>| #[trigger] m@.contains_key(k) ==> m@[k]@ == b[k]
}

/// The regex text and metavariable names of a sequence (see [`sequence_regex`]).
fn build_regex(parts: &Vec<PatternExpr>) -> (r: Option<(String, Vec<String>)>)
    ensures
        match r {
            Some((re, names)) => sequence_regex(parts@.map_values(|e: PatternExpr| model_of(e)))
                == Some((re@, names@.map_values(|n: String| n@))),
            None => sequence_regex(parts@.map_values(|e: PatternExpr| model_of(e))) is None,
        },
{
    let ghost pm = parts@.map_values(|e: PatternExpr| model_of(e));
    let mut re: Vec<char> = Vec::new();
    let mut names: Vec<String> = Vec::new();
    let mut i: usize = 0;
    assert(pm.take(0) =~= Seq::<PatternModel>::empty());
    assert(names@.map_values(|n: String| n@) =~= Seq::<Seq<char>>::empty());
    while i < parts.len()
        invariant
            i <= parts@.len(),
            pm == parts@.map_values(|e: PatternExpr| model_of(e)),
            sequence_regex(pm.take(i as int)) == Some((re@, names@.map_values(|n: String| n@))),
        decreases parts@.len() - i,
    {
        assert(pm.take(i + 1).drop_last() =~= pm.take(i as int));
        assert(pm.take(i + 1).last() == model_of(parts@[i as int]));
        match &parts[i] {
            PatternExpr::Literal(lit) => {
                let esc = escape_regex(lit.as_str());
                push_str(&mut re, esc.as_str());
            },
            PatternExpr::Metavar(name) => {
                push_str(&mut re, "(?P<");
                push_str(&mut re, name.as_str());
                push_str(&mut re, ">\\w+)");
                let ghost nm = names@.map_values(|n: String| n@);
                names.push(name.clone());
                assert(names@.map_values(|n: String| n@) =~= nm.push(name@));
            },
            _ => {
                proof {
                    lemma_sequence_regex_none(pm, i as int + 1);
                }
                return None;
            },
        }
        i = i + 1;
    }
    assert(pm.take(pm.len() as int) =~= pm);
    Some((string_of(&re), names))
}

/// A sequence whose regex cannot be built from a prefix cannot be built at all.
proof fn lemma_sequence_regex_none(parts: Seq<PatternModel>, n: int)
    requires
        0 <= n <= parts.len(),
        sequence_regex(parts.take(n)) is None,
    ensures
        sequence_regex(parts) is None,
    decreases parts.len() - n,
{
    if n < parts.len() {
        assert(parts.take(n + 1).drop_last() =~= parts.take(n));
        lemma_sequence_regex_none(parts, n + 1);
    } else {
        assert(parts.take(n) =~= parts);
    }
}

/// The bindings of captured texts (see [`capture_bindings`]).
fn bind_captures(names: &Vec<String>, caps: &Vec<Option<String>>) -> (m: StrMap<String>)
    requires
        names@.len() == caps@.len(),
    ensures
        holds_bindings(
            m,
            capture_bindings(
                names@.map_values(|n: String| n@),
                caps@.map_values(|o: Option<String>| opt_view(o)),
            ),
        ),
{
    let ghost nv = names@.map_values(|n: String| n@);
    let ghost cv = caps@.map_values(|o: Option<String>| opt_view(o));
    let mut m: StrMap<String> = StrMap::new();
    let mut i: usize = 0;
    assert(nv.take(0) =~= Seq::<Seq<char>>::empty());
    while i < names.len()
        invariant
            i <= names@.len(),
            names@.len() == caps@.len(),
            nv == names@.map_values(|n: String| n@),
            cv == caps@.map_values(|o: Option<String>| opt_view(o)),
            holds_bindings(m, capture_bindings(nv.take(i as int), cv.take(i as int))),
        decreases names@.len() - i,
    {
        assert(nv.take(i + 1).drop_last() =~= nv.take(i as int));
        assert(cv.take(i + 1).drop_last() =~= cv.take(i as int));
        assert(nv.take(i + 1).last() == names@[i as int]@);
        assert(cv.take(i + 1).last() == opt_view(caps@[i as int]));
        let ghost prev = capture_bindings(nv.take(i as int), cv.take(i as int));
        match &caps[i] {
            Some(t) => {
                m.insert(names[i].clone(), t.clone());
                assert(m@.dom() =~= prev.insert(names@[i as int]@, t@).dom());
            },
            None => {},
        }
        i = i + 1;
    }
    assert(nv.take(nv.len() as int) =~= nv);
    assert(cv.take(cv.len() as int) =~= cv);
    m
}

/// Matches a pattern against a source line: `None` where it does not
/// match, else the metavariable bindings (see [`match_spec`]).
pub fn match_pattern(pattern: &PatternExpr, source: &str) -> (r: Option<StrMap<String>>)
    ensures
        match r {
            Some(m) => match_spec(model_of(*pattern), source@) matches Some(b) && holds_bindings(m, b),
            None => match_spec(model_of(*pattern), source@) is None,
        },
    decreases pattern,
{
    match pattern {
        PatternExpr::Literal(lit) => {
            let sc = chars_of(source);
            let lc = chars_of(lit.as_str());
            if contains_exec(&sc, &lc) {
                let m: StrMap<String> = StrMap::new();
                assert(m@.dom() =~= Map::<Seq<char>, Seq<char>>::empty().dom());
                Some(m)
            } else {
                None
            }
        },
        PatternExpr::Metavar(name) => {
            let sc = chars_of(source);
            let toks = split_whitespace_of(&sc);
            if toks.len() == 0 {
                return None;
            }
            assert(toks@.map_values(|t: Vec<char>| t@)[0] == toks@[0]@);
            let mut m: StrMap<String> = StrMap::new();
            m.insert(name.clone(), string_of(&toks[0]));
            assert(m@.dom() =~= Map::<Seq<char>, Seq<char>>::empty().insert(name@, split_ws(source@)[0]).dom());
            Some(m)
        },
        PatternExpr::Sequence(parts) => {
            proof {
                lemma_part_models(*pattern, parts@.len() as int);
                assert(part_models(*pattern, parts@.len() as int) =~= parts@.map_values(|e: PatternExpr| model_of(e)));
            }
            match build_regex(parts) {
                Some((re, names)) => match named_captures(re.as_str(), source, &names) {
                    Some(caps) => Some(bind_captures(&names, &caps)),
                    None => None,
                },
                None => None,
            }
        },
        PatternExpr::Any(alts) => {
            proof {
                lemma_part_models(*pattern, alts@.len() as int);
            }
            let ghost pm = model_of(*pattern);
            let mut k: usize = 0;
            while k < alts.len()
                invariant
                    k <= alts@.len(),
                    *pattern == PatternExpr::Any(*alts),
                    pm == model_of(*pattern),
                    pm == PatternModel::Any(part_models(*pattern, alts@.len() as int)),
                    part_models(*pattern, alts@.len() as int).len() == alts@.len(),
                    forall|j: int| 0 <= j < alts@.len() ==> #[trigger] part_models(*pattern, alts@.len() as int)[j] == model_of(alts@[j]),
                    first_alternative(pm, 0, source@) == first_alternative(pm, k as int, source@),
                decreases alts@.len() - k,
            {
                match match_pattern(&alts[k], source) {
                    Some(m) => {
                        return Some(m);
                    },
                    None => {},
                }
                k = k + 1;
            }
            None
        },
    }
}

} // verus!
