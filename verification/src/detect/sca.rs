//! Software composition analysis: dependency names and versions read from
//! manifest files, the input of vulnerability lookups.
use vstd::prelude::*;
use crate::text::{
    before_char, before_char_exec, chars_of, contains, contains_str, find, find_char, find_exec,
    lemma_find, lines, lines_of, pair, slice_chars, string_of, trim, trim_chars,
};
use crate::document::{
    field, get_field, members_of, object_field, opt_view, or_empty, parse_json_document,
    parse_toml_document, str_field, str_of, text_field, json_document, toml_document, DocValue,
};

verus! {

/// The package registry a dependency comes from.
#[derive(Debug, Clone, Copy, PartialEq, Eq, Structural)]
pub enum DepSource {
    PyPI,
    CratesIo,
    Npm,
}

/// A single dependency extracted from a manifest file.
#[derive(Debug, Clone)]
pub struct Dependency {
    pub name: String,
    pub version: String,
    pub source: DepSource,
    pub manifest_file: String,
    /// 1-based line of the manifest the dependency was read from.
    pub line: u32,
}

// ───────────────────────── model ─────────────────────────

/// A requirement line with blank, comment and option lines removed, and an
/// inline comment (` #...`) and environment marker (`;...`) cut off.
pub open spec fn requirement_body(line: Seq<char>) -> Option<Seq<char>> {
    let t = trim(line);
    if t.len() == 0 || t[0] == '#' || t[0] == '-' {
        None
    } else {
        let a = match find(t, seq![' ', '#']) {
            Some(p) => trim(t.subrange(0, p)),
            None => t,
        };
        let b = match find(a, seq![';']) {
            Some(p) => trim(a.subrange(0, p)),
            None => a,
        };
        Some(b)
    }
}

/// A lone `>` or `<` at `i` (not followed by `=`).
pub open spec fn single_op_at(s: Seq<char>, i: int) -> bool {
    (s[i] == '>' || s[i] == '<') && !(i + 1 < s.len() && s[i + 1] == '=')
}

/// First lone `>` or `<` at or after `k`.
pub open spec fn first_single_op_from(s: Seq<char>, k: int) -> Option<int>
    decreases s.len() - k,
{
    if k < 0 || k >= s.len() {
        None
    } else if single_op_at(s, k) {
        Some(k)
    } else {
        first_single_op_from(s, k + 1)
    }
}

/// Position and length of the version operator of a requirement: the first
/// of `==`, `>=`, `<=`, `~=`, `!=` found (in that order), else the first lone
/// `>` or `<`.
pub open spec fn version_operator(s: Seq<char>) -> Option<(int, int)> {
    match find(s, seq!['=', '=']) {
        Some(p) => Some((p, 2)),
        None => match find(s, seq!['>', '=']) {
            Some(p) => Some((p, 2)),
            None => match find(s, seq!['<', '=']) {
                Some(p) => Some((p, 2)),
                None => match find(s, seq!['~', '=']) {
                    Some(p) => Some((p, 2)),
                    None => match find(s, seq!['!', '=']) {
                        Some(p) => Some((p, 2)),
                        None => match first_single_op_from(s, 0) {
                            Some(p) => Some((p, 1)),
                            None => None,
                        },
                    },
                },
            },
        },
    }
}

/// A line on which reading the operator would cut a multi-byte character in
/// two: a lone `>` or `<` directly followed by a non-ASCII character.
pub open spec fn operator_splits_char(line: Seq<char>) -> bool {
    match requirement_body(line) {
        Some(b) => match version_operator(b) {
            Some((p, n)) => n == 1 && p + 1 < b.len() && (b[p + 1] as u32) >= 128,
            None => false,
        },
        None => false,
    }
}

/// The `(name, version)` a requirement line names; only the first of several
/// comma-separated version constraints is kept.
pub open spec fn manifest_entry(line: Seq<char>) -> Option<(Seq<char>, Seq<char>)> {
    match requirement_body(line) {
        None => None,
        Some(b) => {
            let (name_part, version) = match version_operator(b) {
                Some((p, n)) => (
                    trim(b.subrange(0, p)),
                    trim(before_char(trim(b.subrange(p + n, b.len() as int)), ',')),
                ),
                None => (b, Seq::<char>::empty()),
            };
            let name = trim(before_char(name_part, '['));
            if name.len() == 0 {
                None
            } else {
                Some((name, version))
            }
        },
    }
}

/// The entries of a list of lines, each with its 1-based line number.
pub open spec fn manifest_entries(ls: Seq<Seq<char>>) -> Seq<(Seq<char>, Seq<char>, int)>
    decreases ls.len(),
{
    if ls.len() == 0 {
        Seq::empty()
    } else {
        let prev = manifest_entries(ls.drop_last());
        match manifest_entry(ls.last()) {
            Some(e) => prev.push((e.0, e.1, ls.len() as int)),
            None => prev,
        }
    }
}

/// `d` is the PyPI dependency of entry `e` read from `manifest`.
pub open spec fn is_requirement_dependency(
    d: Dependency,
    e: (Seq<char>, Seq<char>, int),
    manifest: Seq<char>,
) -> bool {
    &&& d.name@ == e.0
    &&& d.version@ == e.1
    &&& d.source == DepSource::PyPI
    &&& d.manifest_file@ == manifest
    &&& d.line == e.2 as u32
}

// ───────────────────────── code ─────────────────────────

/// First lone `>` or `<` of `s` (see [`first_single_op_from`]).
fn first_single_op(s: &[char]) -> (r: Option<usize>)
    ensures
        match r {
            Some(p) => first_single_op_from(s@, 0) == Some(p as int),
            None => first_single_op_from(s@, 0) is None,
        },
{
    let mut i: usize = 0;
    while i < s.len()
        invariant
            i <= s@.len(),
            first_single_op_from(s@, 0) == first_single_op_from(s@, i as int),
        decreases s@.len() - i,
    {
        if (s[i] == '>' || s[i] == '<') && !(i + 1 < s.len() && s[i + 1] == '=') {
            return Some(i);
        }
        i = i + 1;
    }
    None
}

/// Position and length of the version operator (see [`version_operator`]).
fn find_version_operator(s: &[char]) -> (r: Option<(usize, usize)>)
    ensures
        match r {
            Some((p, n)) => version_operator(s@) == Some((p as int, n as int)),
            None => version_operator(s@) is None,
        },
{
    let ops = [pair('=', '='), pair('>', '='), pair('<', '='), pair('~', '='), pair('!', '=')];
    if let Some(p) = find_exec(s, &ops[0]) {
        return Some((p, 2));
    }
    if let Some(p) = find_exec(s, &ops[1]) {
        return Some((p, 2));
    }
    if let Some(p) = find_exec(s, &ops[2]) {
        return Some((p, 2));
    }
    if let Some(p) = find_exec(s, &ops[3]) {
        return Some((p, 2));
    }
    if let Some(p) = find_exec(s, &ops[4]) {
        return Some((p, 2));
    }
    match first_single_op(s) {
        Some(p) => Some((p, 1)),
        None => None,
    }
}

/// The body of a requirement line (see [`requirement_body`]).
fn requirement_body_exec(line: &[char]) -> (r: Option<Vec<char>>)
    ensures
        match r {
            Some(b) => requirement_body(line@) == Some(b@),
            None => requirement_body(line@) is None,
        },
{
    let t = trim_chars(line);
    if t.len() == 0 || t[0] == '#' || t[0] == '-' {
        return None;
    }
    let a = match find_exec(&t, &pair(' ', '#')) {
        Some(p) => {
            proof {
                lemma_find(t@, seq![' ', '#']);
            }
            trim_chars(&slice_chars(&t, 0, p))
        },
        None => t,
    };
    let b = match find_char(&a, ';') {
        Some(p) => {
            proof {
                lemma_find(a@, seq![';']);
            }
            trim_chars(&slice_chars(&a, 0, p))
        },
        None => a,
    };
    Some(b)
}

/// The `(name, version)` of one requirement line (see [`manifest_entry`]).
fn manifest_line(line: &[char]) -> (r: Option<(Vec<char>, Vec<char>)>)
    requires
        !operator_splits_char(line@),
    ensures
        match r {
            Some((n, v)) => manifest_entry(line@) == Some((n@, v@)),
            None => manifest_entry(line@) is None,
        },
{
    let b = match requirement_body_exec(line) {
        Some(b) => b,
        None => return None,
    };
    let (name_part, version) = match find_version_operator(&b) {
        Some((p, n)) => {
            proof {
                lemma_find(b@, seq!['=', '=']);
                lemma_find(b@, seq!['>', '=']);
                lemma_find(b@, seq!['<', '=']);
                lemma_find(b@, seq!['~', '=']);
                lemma_find(b@, seq!['!', '=']);
                lemma_first_single_op(b@, 0);
            }
            let blen = b.len();
            assert(p + n <= blen);
            let np = trim_chars(&slice_chars(&b, 0, p));
            let rest = trim_chars(&slice_chars(&b, p + n, blen));
            (np, trim_chars(&before_char_exec(&rest, ',')))
        },
        None => (b, Vec::new()),
    };
    let name = trim_chars(&before_char_exec(&name_part, '['));
    if name.len() == 0 {
        None
    } else {
        Some((name, version))
    }
}

/// A lone operator found is inside the sequence.
proof fn lemma_first_single_op(s: Seq<char>, k: int)
    requires
        0 <= k,
    ensures
        match first_single_op_from(s, k) {
            Some(p) => k <= p < s.len(),
            None => true,
        },
    decreases s.len() - k,
{
    if k < s.len() && !single_op_at(s, k) {
        lemma_first_single_op(s, k + 1);
    }
}

/// Parses the content of a `requirements.txt`: for each line of the form
/// `name`, `name[extras]` or `name` followed by a version constraint
/// (`==`, `>=`, `<=`, `~=`, `!=`, `>` or `<`), a PyPI dependency with the name,
/// the first constraint's version (empty when there is none) and the 1-based
/// line number. Blank lines, comments, option lines (`-r`, `--index-url`),
/// inline comments and environment markers are skipped.
pub fn parse_requirements_txt(content: &str, manifest: &str) -> (deps: Vec<Dependency>)
    requires
        forall|i: int|
            0 <= i < lines(content@).len() ==> !operator_splits_char(#[trigger] lines(content@)[i]),
    ensures
        deps.len() == manifest_entries(lines(content@)).len(),
        forall|i: int|
            0 <= i < deps.len() ==> is_requirement_dependency(
                #[trigger] deps@[i],
                manifest_entries(lines(content@))[i],
                manifest@,
            ),
{
    let cs = chars_of(content);
    let ls = lines_of(&cs);
    let ghost lv = ls@.map_values(|l: Vec<char>| l@);
    let mut deps: Vec<Dependency> = Vec::new();
    let mut i: usize = 0;
    assert(lv.take(0) =~= Seq::<Seq<char>>::empty());
    while i < ls.len()
        invariant
            i <= ls@.len(),
            lv == ls@.map_values(|l: Vec<char>| l@),
            lv == lines(content@),
            forall|j: int| 0 <= j < lv.len() ==> !operator_splits_char(#[trigger] lv[j]),
            deps.len() == manifest_entries(lv.take(i as int)).len(),
            forall|j: int|
                0 <= j < deps.len() ==> is_requirement_dependency(
                    #[trigger] deps@[j],
                    manifest_entries(lv.take(i as int))[j],
                    manifest@,
                ),
        decreases ls@.len() - i,
    {
        assert(lv.take(i + 1).drop_last() =~= lv.take(i as int));
        assert(lv.take(i + 1).last() == ls@[i as int]@);
        assert(lv[i as int] == ls@[i as int]@);
        match manifest_line(&ls[i]) {
            Some((n, v)) => {
                let d = Dependency {
                    name: string_of(&n),
                    version: string_of(&v),
                    source: DepSource::PyPI,
                    manifest_file: String::from_str(manifest),
                    line: (i + 1) as u32,
                };
                deps.push(d);
            },
            None => {},
        }
        i = i + 1;
    }
    assert(lv.take(ls@.len() as int) =~= lv);
    deps
}


// ───────────────────────── Cargo.toml and package.json: model ─────────────────────────

/// The key a Cargo.toml line assigns (`key = ...`) where it looks like a
/// dependency name: nonempty, without `.`, not a header or a comment.
pub open spec fn cargo_line_key(line: Seq<char>) -> Option<Seq<char>> {
    let t = trim(line);
    match find(t, seq!['=']) {
        Some(p) => {
            let key = trim(t.subrange(0, p));
            if key.len() > 0 && !contains(key, seq!['.']) && key[0] != '[' && key[0] != '#' {
                Some(key)
            } else {
                None
            }
        },
        None => None,
    }
}

/// The key a package.json line names (`"key": ...`).
pub open spec fn json_line_key(line: Seq<char>) -> Option<Seq<char>> {
    let t = trim(line);
    if t.len() > 0 && t[0] == '"' {
        let rest = t.subrange(1, t.len() as int);
        match find(rest, seq!['"']) {
            Some(q) => {
                let after = trim(rest.subrange(q + 1, rest.len() as int));
                if after.len() > 0 && after[0] == ':' {
                    Some(rest.subrange(0, q))
                } else {
                    None
                }
            },
            None => None,
        }
    } else {
        None
    }
}

/// The key of each line (package.json keys where `json`, else Cargo.toml keys).
pub open spec fn line_keys(ls: Seq<Seq<char>>, json: bool) -> Seq<Option<Seq<char>>> {
    ls.map_values(|l: Seq<char>| if json { json_line_key(l) } else { cargo_line_key(l) })
}

/// Index of the first key equal to `name`.
pub open spec fn first_keyed(ks: Seq<Option<Seq<char>>>, name: Seq<char>) -> Option<int>
    decreases ks.len(),
{
    if ks.len() == 0 {
        None
    } else {
        match first_keyed(ks.drop_last(), name) {
            Some(i) => Some(i),
            None => if ks.last() == Some(name) {
                Some(ks.len() - 1)
            } else {
                None
            },
        }
    }
}

/// The 1-based line of the first line keyed `name`, or 0 where there is none.
pub open spec fn key_line(ks: Seq<Option<Seq<char>>>, name: Seq<char>) -> u32 {
    match first_keyed(ks, name) {
        Some(i) => (i + 1) as u32,
        None => 0,
    }
}

/// The version a Cargo.toml dependency declares: a plain string, or the
/// `version` string of a table that is not `workspace = true`; `None` for
/// path-only, workspace and malformed entries.
pub open spec fn cargo_entry_version(v: DocValue) -> Option<Seq<char>> {
    match v {
        DocValue::Str(s) => Some(s@),
        DocValue::Object(_) => if field(v, "workspace"@) == Some(DocValue::Bool(true)) {
            None
        } else {
            str_field(v, "version"@)
        },
        _ => None,
    }
}

/// `(name, version)` of the entries of a dependency table that have a version.
pub open spec fn cargo_table_entries(t: Seq<(String, DocValue)>) -> Seq<(Seq<char>, Seq<char>)>
    decreases t.len(),
{
    if t.len() == 0 {
        Seq::empty()
    } else {
        cargo_table_entries(t.drop_last()) + match cargo_entry_version(t.last().1) {
            Some(v) => seq![(t.last().0@, v)],
            None => Seq::empty(),
        }
    }
}

/// Entries of the `section` tables of the `[target.*]` tables, in order.
pub open spec fn target_entries(ts: Seq<(String, DocValue)>, section: Seq<char>) -> Seq<
    (Seq<char>, Seq<char>),
>
    decreases ts.len(),
{
    if ts.len() == 0 {
        Seq::empty()
    } else {
        target_entries(ts.drop_last(), section) + match members_of(field(ts.last().1, section)) {
            Some(m) => cargo_table_entries(m),
            None => Seq::empty(),
        }
    }
}

/// Entries of one dependency section: the top-level table, then the same
/// section of each `[target.*]` table.
pub open spec fn cargo_section_entries(doc: DocValue, section: Seq<char>) -> Seq<
    (Seq<char>, Seq<char>),
> {
    let top = match members_of(field(doc, section)) {
        Some(m) => cargo_table_entries(m),
        None => Seq::empty(),
    };
    let targets = match members_of(field(doc, "target"@)) {
        Some(ts) => target_entries(ts, section),
        None => Seq::empty(),
    };
    top + targets
}

/// Entries of a parsed Cargo.toml: `[dependencies]`, `[dev-dependencies]`,
/// `[build-dependencies]`, each with its target-specific tables.
pub open spec fn cargo_entries(doc: DocValue) -> Seq<(Seq<char>, Seq<char>)> {
    cargo_section_entries(doc, "dependencies"@) + cargo_section_entries(doc, "dev-dependencies"@)
        + cargo_section_entries(doc, "build-dependencies"@)
}

/// `(name, version)` of every member of a package.json dependency object
/// (a version that is not a string reads as empty).
pub open spec fn json_table_entries(t: Seq<(String, DocValue)>) -> Seq<(Seq<char>, Seq<char>)> {
    t.map_values(|e: (String, DocValue)| (e.0@, or_empty(str_of(Some(e.1)))))
}

/// Entries of one package.json dependency object.
pub open spec fn json_section_entries(doc: DocValue, section: Seq<char>) -> Seq<
    (Seq<char>, Seq<char>),
> {
    match members_of(field(doc, section)) {
        Some(m) => json_table_entries(m),
        None => Seq::empty(),
    }
}

/// Entries of a parsed package.json: `dependencies`, then `devDependencies`.
pub open spec fn package_json_entries(doc: DocValue) -> Seq<(Seq<char>, Seq<char>)> {
    json_section_entries(doc, "dependencies"@) + json_section_entries(doc, "devDependencies"@)
}

/// `d` is the dependency `e` of `manifest` from `source`, with the line on
/// which the manifest first names it.
pub open spec fn is_manifest_dependency(
    d: Dependency,
    e: (Seq<char>, Seq<char>),
    source: DepSource,
    manifest: Seq<char>,
    keys: Seq<Option<Seq<char>>>,
) -> bool {
    &&& d.name@ == e.0
    &&& d.version@ == e.1
    &&& d.source == source
    &&& d.manifest_file@ == manifest
    &&& d.line == key_line(keys, e.0)
}

/// `deps` are the dependencies of the entries `es`, one each, in order.
pub open spec fn lists_manifest(
    deps: Seq<Dependency>,
    es: Seq<(Seq<char>, Seq<char>)>,
    source: DepSource,
    manifest: Seq<char>,
    keys: Seq<Option<Seq<char>>>,
) -> bool {
    &&& deps.len() == es.len()
    &&& forall|i: int|
        0 <= i < deps.len() ==> is_manifest_dependency(
            #[trigger] deps[i],
            es[i],
            source,
            manifest,
            keys,
        )
}

/// A prefix that already has the key decides the first index.
pub proof fn lemma_first_keyed_prefix(ks: Seq<Option<Seq<char>>>, n: int, name: Seq<char>)
    requires
        0 <= n <= ks.len(),
        first_keyed(ks.take(n), name) is Some,
    ensures
        first_keyed(ks, name) == first_keyed(ks.take(n), name),
    decreases ks.len() - n,
{
    if n == ks.len() {
        assert(ks.take(n) =~= ks);
    } else {
        assert(ks.drop_last().take(n) =~= ks.take(n));
        lemma_first_keyed_prefix(ks.drop_last(), n, name);
    }
}

/// Appending the results of two pieces one after the other.
pub proof fn lemma_lists_append(
    deps: Seq<Dependency>,
    es: Seq<(Seq<char>, Seq<char>)>,
    d: Dependency,
    e: (Seq<char>, Seq<char>),
    source: DepSource,
    manifest: Seq<char>,
    keys: Seq<Option<Seq<char>>>,
)
    requires
        lists_manifest(deps, es, source, manifest, keys),
        is_manifest_dependency(d, e, source, manifest, keys),
    ensures
        lists_manifest(deps.push(d), es.push(e), source, manifest, keys),
{
    assert forall|i: int| 0 <= i < deps.len() + 1 implies is_manifest_dependency(
        #[trigger] deps.push(d)[i],
        es.push(e)[i],
        source,
        manifest,
        keys,
    ) by {
        if i < deps.len() {
            assert(deps.push(d)[i] == deps[i]);
            assert(es.push(e)[i] == es[i]);
        }
    }
}

// ───────────────────────── Cargo.toml and package.json: code ─────────────────────────

/// The Cargo.toml key of a line (see [`cargo_line_key`]).
fn cargo_line_key_exec(line: &[char]) -> (r: Option<Vec<char>>)
    ensures
        match r {
            Some(k) => cargo_line_key(line@) == Some(k@),
            None => cargo_line_key(line@) is None,
        },
{
    let t = trim_chars(line);
    match find_char(&t, '=') {
        Some(p) => {
            proof {
                lemma_find(t@, seq!['=']);
            }
            let key = trim_chars(&slice_chars(&t, 0, p));
            proof {
                reveal_strlit(".");
                assert("."@ =~= seq!['.']);
            }
            if key.len() > 0 && !contains_str(&key, ".") && key[0] != '[' && key[0] != '#' {
                Some(key)
            } else {
                None
            }
        },
        None => None,
    }
}

/// The package.json key of a line (see [`json_line_key`]).
fn json_line_key_exec(line: &[char]) -> (r: Option<Vec<char>>)
    ensures
        match r {
            Some(k) => json_line_key(line@) == Some(k@),
            None => json_line_key(line@) is None,
        },
{
    let t = trim_chars(line);
    let tl = t.len();
    if tl > 0 && t[0] == '"' {
        let rest = slice_chars(&t, 1, tl);
        let rl = rest.len();
        match find_char(&rest, '"') {
            Some(q) => {
                proof {
                    lemma_find(rest@, seq!['"']);
                }
                let after = trim_chars(&slice_chars(&rest, q + 1, rl));
                if after.len() > 0 && after[0] == ':' {
                    Some(slice_chars(&rest, 0, q))
                } else {
                    None
                }
            },
            None => None,
        }
    } else {
        None
    }
}

/// The 1-based line of the first line keyed `name` (see [`key_line`]).
fn key_line_exec(ls: &Vec<Vec<char>>, name: &[char], json: bool) -> (n: u32)
    ensures
        n == key_line(line_keys(ls@.map_values(|l: Vec<char>| l@), json), name@),
{
    let ghost ks = line_keys(ls@.map_values(|l: Vec<char>| l@), json);
    let mut i: usize = 0;
    while i < ls.len()
        invariant
            i <= ls@.len(),
            ks == line_keys(ls@.map_values(|l: Vec<char>| l@), json),
            ks.len() == ls@.len(),
            first_keyed(ks.take(i as int), name@) is None,
        decreases ls@.len() - i,
    {
        assert(ks.take(i + 1).drop_last() =~= ks.take(i as int));
        assert(ks.take(i + 1).last() == ks[i as int]);
        assert(ks[i as int] == (if json {
            json_line_key(ls@[i as int]@)
        } else {
            cargo_line_key(ls@[i as int]@)
        }));
        let k = if json {
            json_line_key_exec(&ls[i])
        } else {
            cargo_line_key_exec(&ls[i])
        };
        let hit = match &k {
            Some(kv) => crate::sorted::same_text(kv, name),
            None => false,
        };
        if hit {
            proof {
                lemma_first_keyed_prefix(ks, i + 1, name@);
            }
            return (i + 1) as u32;
        }
        i = i + 1;
    }
    assert(ks.take(ks.len() as int) =~= ks);
    0
}

/// The dependency `(name, version)` of `manifest`.
fn manifest_dependency(
    name: &String,
    version: String,
    source: DepSource,
    manifest: &str,
    ls: &Vec<Vec<char>>,
    json: bool,
) -> (d: Dependency)
    ensures
        is_manifest_dependency(
            d,
            (name@, version@),
            source,
            manifest@,
            line_keys(ls@.map_values(|l: Vec<char>| l@), json),
        ),
{
    let nc = chars_of(name.as_str());
    let line = key_line_exec(ls, &nc, json);
    Dependency {
        name: name.clone(),
        version,
        source,
        manifest_file: String::from_str(manifest),
        line,
    }
}

/// The version of one Cargo.toml dependency entry (see [`cargo_entry_version`]).
fn cargo_version(v: &DocValue) -> (r: Option<String>)
    ensures
        opt_view(r) == cargo_entry_version(*v),
{
    match v {
        DocValue::Str(s) => Some(s.clone()),
        DocValue::Object(_) => {
            match get_field(v, "workspace") {
                Some(DocValue::Bool(true)) => {
                    return None;
                },
                _ => {},
            }
            text_field(v, "version")
        },
        _ => None,
    }
}

/// Appends the dependencies of one Cargo.toml dependency table.
fn push_cargo_table(
    t: &Vec<(String, DocValue)>,
    ls: &Vec<Vec<char>>,
    manifest: &str,
    deps: &mut Vec<Dependency>,
    Ghost(es): Ghost<Seq<(Seq<char>, Seq<char>)>>,
)
    requires
        lists_manifest(
            old(deps)@,
            es,
            DepSource::CratesIo,
            manifest@,
            line_keys(ls@.map_values(|l: Vec<char>| l@), false),
        ),
    ensures
        lists_manifest(
            final(deps)@,
            es + cargo_table_entries(t@),
            DepSource::CratesIo,
            manifest@,
            line_keys(ls@.map_values(|l: Vec<char>| l@), false),
        ),
{
    let ghost keys = line_keys(ls@.map_values(|l: Vec<char>| l@), false);
    let mut i: usize = 0;
    assert(es + cargo_table_entries(t@.take(0)) =~= es);
    while i < t.len()
        invariant
            i <= t@.len(),
            keys == line_keys(ls@.map_values(|l: Vec<char>| l@), false),
            lists_manifest(
                deps@,
                es + cargo_table_entries(t@.take(i as int)),
                DepSource::CratesIo,
                manifest@,
                keys,
            ),
        decreases t@.len() - i,
    {
        assert(t@.take(i + 1).drop_last() =~= t@.take(i as int));
        assert(t@.take(i + 1).last() == t@[i as int]);
        let ghost before = es + cargo_table_entries(t@.take(i as int));
        match cargo_version(&t[i].1) {
            Some(v) => {
                let d = manifest_dependency(&t[i].0, v, DepSource::CratesIo, manifest, ls, false);
                proof {
                    lemma_lists_append(
                        deps@,
                        before,
                        d,
                        (t@[i as int].0@, d.version@),
                        DepSource::CratesIo,
                        manifest@,
                        keys,
                    );
                    assert(es + cargo_table_entries(t@.take(i + 1)) =~= before.push(
                        (t@[i as int].0@, d.version@),
                    ));
                }
                deps.push(d);
            },
            None => {
                assert(es + cargo_table_entries(t@.take(i + 1)) =~= before);
            },
        }
        i = i + 1;
    }
    assert(t@.take(t@.len() as int) =~= t@);
}

/// Appends the dependencies of one Cargo.toml section (see [`cargo_section_entries`]).
fn push_cargo_section(
    doc: &DocValue,
    section: &str,
    ls: &Vec<Vec<char>>,
    manifest: &str,
    deps: &mut Vec<Dependency>,
    Ghost(es): Ghost<Seq<(Seq<char>, Seq<char>)>>,
)
    requires
        lists_manifest(
            old(deps)@,
            es,
            DepSource::CratesIo,
            manifest@,
            line_keys(ls@.map_values(|l: Vec<char>| l@), false),
        ),
    ensures
        lists_manifest(
            final(deps)@,
            es + cargo_section_entries(*doc, section@),
            DepSource::CratesIo,
            manifest@,
            line_keys(ls@.map_values(|l: Vec<char>| l@), false),
        ),
{
    let ghost top = match members_of(field(*doc, section@)) {
        Some(m) => cargo_table_entries(m),
        None => Seq::empty(),
    };
    match object_field(doc, section) {
        Some(m) => push_cargo_table(m, ls, manifest, deps, Ghost(es)),
        None => {
            assert(es + top =~= es);
        },
    }
    let ghost es1 = es + top;
    match object_field(doc, "target") {
        Some(ts) => {
            let mut i: usize = 0;
            assert(es1 + target_entries(ts@.take(0), section@) =~= es1);
            while i < ts.len()
                invariant
                    i <= ts@.len(),
                    lists_manifest(
                        deps@,
                        es1 + target_entries(ts@.take(i as int), section@),
                        DepSource::CratesIo,
                        manifest@,
                        line_keys(ls@.map_values(|l: Vec<char>| l@), false),
                    ),
                decreases ts@.len() - i,
            {
                assert(ts@.take(i + 1).drop_last() =~= ts@.take(i as int));
                assert(ts@.take(i + 1).last() == ts@[i as int]);
                let ghost before = es1 + target_entries(ts@.take(i as int), section@);
                match object_field(&ts[i].1, section) {
                    Some(m) => {
                        push_cargo_table(m, ls, manifest, deps, Ghost(before));
                        assert(es1 + target_entries(ts@.take(i + 1), section@) =~= before
                            + cargo_table_entries(m@));
                    },
                    None => {
                        assert(es1 + target_entries(ts@.take(i + 1), section@) =~= before);
                    },
                }
                i = i + 1;
            }
            assert(ts@.take(ts@.len() as int) =~= ts@);
            assert(es + cargo_section_entries(*doc, section@) =~= es1 + target_entries(
                ts@,
                section@,
            ));
        },
        None => {
            assert(es + cargo_section_entries(*doc, section@) =~= es1);
        },
    }
}

/// The dependencies a parsed Cargo.toml declares (see [`cargo_entries`]),
/// each with the line of `content` that first names it (0 where none does).
pub fn cargo_manifest_dependencies(doc: &DocValue, content: &str, manifest: &str) -> (deps: Vec<
    Dependency,
>)
    ensures
        lists_manifest(
            deps@,
            cargo_entries(*doc),
            DepSource::CratesIo,
            manifest@,
            line_keys(lines(content@), false),
        ),
{
    let cs = chars_of(content);
    let ls = lines_of(&cs);
    let mut deps: Vec<Dependency> = Vec::new();
    let ghost e0 = Seq::<(Seq<char>, Seq<char>)>::empty();
    let ghost e1 = cargo_section_entries(*doc, "dependencies"@);
    let ghost e2 = cargo_section_entries(*doc, "dev-dependencies"@);
    push_cargo_section(doc, "dependencies", &ls, manifest, &mut deps, Ghost(e0));
    assert(e0 + e1 =~= e1);
    push_cargo_section(doc, "dev-dependencies", &ls, manifest, &mut deps, Ghost(e1));
    push_cargo_section(doc, "build-dependencies", &ls, manifest, &mut deps, Ghost(e1 + e2));
    deps
}

/// Parses the content of a `Cargo.toml`: the dependencies of its
/// `[dependencies]`, `[dev-dependencies]` and `[build-dependencies]` tables
/// (and of the same tables under `[target.*]`) that carry a version, each with
/// the line that first names it. Nothing where the content is not TOML.
pub fn parse_cargo_toml(content: &str, manifest: &str) -> (deps: Vec<Dependency>)
    ensures
        match toml_document(content@) {
            Some(doc) => lists_manifest(
                deps@,
                cargo_entries(doc),
                DepSource::CratesIo,
                manifest@,
                line_keys(lines(content@), false),
            ),
            None => deps.len() == 0,
        },
{
    match parse_toml_document(content) {
        Ok(doc) => cargo_manifest_dependencies(&doc, content, manifest),
        Err(_) => Vec::new(),
    }
}

/// Appends the dependencies of one package.json dependency object.
fn push_json_section(
    doc: &DocValue,
    section: &str,
    ls: &Vec<Vec<char>>,
    manifest: &str,
    deps: &mut Vec<Dependency>,
    Ghost(es): Ghost<Seq<(Seq<char>, Seq<char>)>>,
)
    requires
        lists_manifest(
            old(deps)@,
            es,
            DepSource::Npm,
            manifest@,
            line_keys(ls@.map_values(|l: Vec<char>| l@), true),
        ),
    ensures
        lists_manifest(
            final(deps)@,
            es + json_section_entries(*doc, section@),
            DepSource::Npm,
            manifest@,
            line_keys(ls@.map_values(|l: Vec<char>| l@), true),
        ),
{
    match object_field(doc, section) {
        Some(m) => {
            let ghost keys = line_keys(ls@.map_values(|l: Vec<char>| l@), true);
            let mut i: usize = 0;
            assert(es + json_table_entries(m@.take(0)) =~= es);
            while i < m.len()
                invariant
                    i <= m@.len(),
                    keys == line_keys(ls@.map_values(|l: Vec<char>| l@), true),
                    lists_manifest(
                        deps@,
                        es + json_table_entries(m@.take(i as int)),
                        DepSource::Npm,
                        manifest@,
                        keys,
                    ),
                decreases m@.len() - i,
            {
                let ghost before = es + json_table_entries(m@.take(i as int));
                let version = match as_version(&m[i].1) {
                    Some(v) => v,
                    None => String::from_str(""),
                };
                proof {
                    reveal_strlit("");
                }
                assert(version@ == or_empty(str_of(Some(m@[i as int].1))));
                let d = manifest_dependency(&m[i].0, version, DepSource::Npm, manifest, ls, true);
                proof {
                    lemma_lists_append(
                        deps@,
                        before,
                        d,
                        (m@[i as int].0@, d.version@),
                        DepSource::Npm,
                        manifest@,
                        keys,
                    );
                    assert(es + json_table_entries(m@.take(i + 1)) =~= before.push(
                        (m@[i as int].0@, d.version@),
                    ));
                }
                deps.push(d);
                i = i + 1;
            }
            assert(m@.take(m@.len() as int) =~= m@);
        },
        None => {
            assert(es + json_section_entries(*doc, section@) =~= es);
        },
    }
}

/// The text of a string value.
fn as_version(v: &DocValue) -> (r: Option<String>)
    ensures
        opt_view(r) == str_of(Some(*v)),
{
    match v {
        DocValue::Str(s) => Some(s.clone()),
        _ => None,
    }
}

/// The dependencies a parsed package.json declares (see
/// [`package_json_entries`]), each with the line of `content` that first
/// names it (0 where none does).
pub fn package_json_dependencies(doc: &DocValue, content: &str, manifest: &str) -> (deps: Vec<
    Dependency,
>)
    ensures
        lists_manifest(
            deps@,
            package_json_entries(*doc),
            DepSource::Npm,
            manifest@,
            line_keys(lines(content@), true),
        ),
{
    let cs = chars_of(content);
    let ls = lines_of(&cs);
    let mut deps: Vec<Dependency> = Vec::new();
    let ghost e0 = Seq::<(Seq<char>, Seq<char>)>::empty();
    let ghost e1 = json_section_entries(*doc, "dependencies"@);
    push_json_section(doc, "dependencies", &ls, manifest, &mut deps, Ghost(e0));
    assert(e0 + e1 =~= e1);
    push_json_section(doc, "devDependencies", &ls, manifest, &mut deps, Ghost(e1));
    deps
}

/// Parses the content of a `package.json`: the entries of its
/// `dependencies` and `devDependencies` objects (a version that is not a
/// string reads as empty), each with the line that first names it. Nothing
/// where the content is not JSON.
pub fn parse_package_json(content: &str, manifest: &str) -> (deps: Vec<Dependency>)
    ensures
        match json_document(content@) {
            Some(doc) => lists_manifest(
                deps@,
                package_json_entries(doc),
                DepSource::Npm,
                manifest@,
                line_keys(lines(content@), true),
            ),
            None => deps.len() == 0,
        },
{
    match parse_json_document(content) {
        Ok(doc) => package_json_dependencies(&doc, content, manifest),
        Err(_) => Vec::new(),
    }
}

} // verus!
