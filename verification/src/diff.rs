//! Differential coverage: the lines a unified diff (`git diff --unified=0`)
//! adds to each file, and findings filtered down to those lines.
use vstd::prelude::*;
use std::collections::HashSet;
use crate::strmap::StrMap;
use crate::text::{
    before_char, before_char_exec, chars_of, eq_str, find, find_char, lemma_find, lines,
    lines_of, occurs_at_exec, parse_u32, parse_u32_exec, slice_chars, starts_with, starts_with_str, string_of,
};

verus! {

broadcast use vstd::std_specs::hash::group_hash_axioms;

/// Changed line numbers of each file (keyed by the repository-relative path).
pub type ChangedLineMap = StrMap<HashSet<u32>>;

// ───────────────────────── model: hunks ─────────────────────────

/// `s` without its leading `+` characters.
pub open spec fn trim_plus(s: Seq<char>) -> Seq<char>
    decreases s.len(),
{
    if s.len() > 0 && s[0] == '+' {
        trim_plus(s.drop_first())
    } else {
        s
    }
}

/// The new-side `(start, count)` of a hunk header
/// `@@ -<old>[,<n>] +<start>[,<count>] @@ ...` (a missing count is 1).
pub open spec fn hunk_numbers(line: Seq<char>) -> Option<(u32, u32)> {
    if !starts_with(line, "@@ "@) {
        None
    } else {
        let inner = line.subrange("@@ "@.len() as int, line.len() as int);
        match find(inner, seq![' ']) {
            None => None,
            Some(p) => {
                let new_part = before_char(trim_plus(inner.subrange(p + 1, inner.len() as int)), ' ');
                match find(new_part, seq![',']) {
                    Some(q) => match (
                        parse_u32(new_part.subrange(0, q)),
                        parse_u32(new_part.subrange(q + 1, new_part.len() as int)),
                    ) {
                        (Some(s), Some(c)) => Some((s, c)),
                        _ => None,
                    },
                    None => match parse_u32(new_part) {
                        Some(s) => Some((s, 1u32)),
                        None => None,
                    },
                }
            },
        }
    }
}

/// The lines `start .. start + count`.
pub open spec fn line_range(start: u32, count: u32) -> Set<u32> {
    Set::new(|n: u32| start <= n < start + count)
}

/// The new-side lines a hunk header names (empty for a pure deletion).
pub open spec fn hunk_lines(line: Seq<char>) -> Option<Set<u32>> {
    match hunk_numbers(line) {
        Some((s, c)) => Some(line_range(s, c)),
        None => None,
    }
}

/// The end of the hunk's range fits in a `u32` (or the hunk adds no line).
pub open spec fn hunk_fits(line: Seq<char>) -> bool {
    match hunk_numbers(line) {
        Some((s, c)) => c == 0 || s + c <= u32::MAX,
        None => true,
    }
}

// ───────────────────────── model: diffs ─────────────────────────

/// For a `+++ ` header, the file it opens (`None` for `/dev/null`).
pub open spec fn file_header(line: Seq<char>) -> Option<Option<Seq<char>>> {
    if starts_with(line, "+++ "@) {
        let rest = line.subrange("+++ "@.len() as int, line.len() as int);
        let p = if starts_with(rest, "b/"@) {
            rest.subrange("b/"@.len() as int, rest.len() as int)
        } else {
            rest
        };
        Some(if p == "/dev/null"@ { None } else { Some(p) })
    } else {
        None
    }
}

/// A hunk header while a file is open.
pub open spec fn is_open_hunk(cur: Option<Seq<char>>, line: Seq<char>) -> bool {
    file_header(line) is None && starts_with(line, "@@"@) && cur is Some
}

/// One step of reading a diff: the open file and the changed lines so far.
pub open spec fn diff_step(
    st: (Option<Seq<char>>, Map<Seq<char>, Set<u32>>),
    line: Seq<char>,
) -> (Option<Seq<char>>, Map<Seq<char>, Set<u32>>) {
    match file_header(line) {
        Some(c) => (c, st.1),
        None => if is_open_hunk(st.0, line) && hunk_lines(line) is Some {
            let f = st.0->Some_0;
            let prev = if st.1.contains_key(f) { st.1[f] } else { Set::<u32>::empty() };
            (st.0, st.1.insert(f, prev.union(hunk_lines(line)->Some_0)))
        } else {
            st
        },
    }
}

/// The state after reading the lines `ls`.
pub open spec fn diff_state(ls: Seq<Seq<char>>) -> (Option<Seq<char>>, Map<Seq<char>, Set<u32>>)
    decreases ls.len(),
{
    if ls.len() == 0 {
        (None, Map::empty())
    } else {
        diff_step(diff_state(ls.drop_last()), ls.last())
    }
}

/// The changed lines of each file that a diff names.
pub open spec fn changed_lines_of(diff: Seq<char>) -> Map<Seq<char>, Set<u32>> {
    diff_state(lines(diff)).1
}

/// Every hunk read while a file is open has a range that fits in a `u32`.
pub open spec fn diff_fits(diff: Seq<char>) -> bool {
    let ls = lines(diff);
    forall|i: int|
        0 <= i < ls.len() && #[trigger] is_open_hunk(diff_state(ls.take(i)).0, ls[i]) ==> hunk_fits(
            ls[i],
        )
}

/// The sets of a changed-line map, as sets.
pub open spec fn changed_view(m: Map<Seq<char>, HashSet<u32>>) -> Map<Seq<char>, Set<u32>> {
    m.map_values(|s: HashSet<u32>| s@)
}

// ───────────────────────── model: paths ─────────────────────────

/// The pieces of `s` between the separators `c` (`str::split`).
pub open spec fn split_on(s: Seq<char>, c: char) -> Seq<Seq<char>>
    decreases s.len(),
{
    match find(s, seq![c]) {
        Some(k) => if 0 <= k < s.len() {
            seq![s.subrange(0, k)] + split_on(s.subrange(k + 1, s.len() as int), c)
        } else {
            seq![s]
        },
        None => seq![s],
    }
}

/// The pieces that name a directory or file (not empty, not `.`).
pub open spec fn normal_pieces(ps: Seq<Seq<char>>) -> Seq<Seq<char>>
    decreases ps.len(),
{
    if ps.len() == 0 {
        Seq::empty()
    } else {
        let prev = normal_pieces(ps.drop_last());
        if ps.last().len() == 0 || ps.last() == seq!['.'] {
            prev
        } else {
            prev.push(ps.last())
        }
    }
}

/// The components of a `/`-separated path, as `Path::components` gives them:
/// a root (written `/`) for an absolute path, a leading `.` for a relative
/// path that starts with it, then the names, without empty and `.` pieces.
pub open spec fn path_components(s: Seq<char>) -> Seq<Seq<char>> {
    let pieces = split_on(s, '/');
    if s.len() > 0 && s[0] == '/' {
        seq![seq!['/']] + normal_pieces(pieces.drop_first())
    } else if pieces[0] == seq!['.'] {
        seq![seq!['.']] + normal_pieces(pieces.drop_first())
    } else {
        normal_pieces(pieces)
    }
}

/// `Path::ends_with`: the components of `k` end those of `file` (this
/// includes `file == k`).
pub open spec fn path_ends_with(file: Seq<char>, k: Seq<char>) -> bool {
    let a = path_components(file);
    let b = path_components(k);
    b.len() <= a.len() && a.subrange(a.len() - b.len(), a.len() as int) == b
}

/// The first key (in `keys`' order) that the path `file` ends with.
pub open spec fn matching_key(keys: Seq<Seq<char>>, file: Seq<char>) -> Option<Seq<char>>
    decreases keys.len(),
{
    if keys.len() == 0 {
        None
    } else if path_ends_with(file, keys[0]) {
        Some(keys[0])
    } else {
        matching_key(keys.drop_first(), file)
    }
}

/// A finding `(file, line)` lies on a changed line of the file it matches.
pub open spec fn on_changed_line(
    m: Map<Seq<char>, Set<u32>>,
    keys: Seq<Seq<char>>,
    f: (Seq<char>, Option<u32>),
) -> bool {
    match (f.1, matching_key(keys, f.0)) {
        (Some(l), Some(k)) => m.contains_key(k) && m[k].contains(l),
        _ => false,
    }
}

/// Indices, in order, of the findings that lie on changed lines.
pub open spec fn selected_indices(
    m: Map<Seq<char>, Set<u32>>,
    keys: Seq<Seq<char>>,
    fs: Seq<(Seq<char>, Option<u32>)>,
) -> Seq<usize>
    decreases fs.len(),
{
    if fs.len() == 0 {
        Seq::empty()
    } else {
        let prev = selected_indices(m, keys, fs.drop_last());
        if on_changed_line(m, keys, fs.last()) {
            prev.push((fs.len() - 1) as usize)
        } else {
            prev
        }
    }
}

/// Findings' `(file, line)` pairs, as sequences.
pub open spec fn finding_views(fs: Seq<(String, Option<u32>)>) -> Seq<(Seq<char>, Option<u32>)> {
    fs.map_values(|f: (String, Option<u32>)| (f.0@, f.1))
}

// ───────────────────────── code: hunks ─────────────────────────

/// `(start, count)` of a hunk header (see [`hunk_numbers`]).
fn hunk_numbers_exec(line: &[char]) -> (r: Option<(u32, u32)>)
    ensures
        r == hunk_numbers(line@),
{
    let head = chars_of("@@ ");
    if !starts_with_str(line, "@@ ") {
        return None;
    }
    let inner = slice_chars(line, head.len(), line.len());
    let p = match find_char(&inner, ' ') {
        Some(p) => p,
        None => return None,
    };
    proof {
        lemma_find(inner@, seq![' ']);
    }
    let mut a = p + 1;
    while a < inner.len() && inner[a] == '+'
        invariant
            p + 1 <= a <= inner@.len(),
            trim_plus(inner@.subrange(p + 1, inner@.len() as int)) == trim_plus(
                inner@.subrange(a as int, inner@.len() as int),
            ),
        decreases inner@.len() - a,
    {
        assert(inner@.subrange(a as int, inner@.len() as int).drop_first() =~= inner@.subrange(
            a + 1,
            inner@.len() as int,
        ));
        a = a + 1;
    }
    let tail = slice_chars(&inner, a, inner.len());
    assert(a == inner@.len() || inner@[a as int] != '+');
    assert(trim_plus(tail@) == tail@);
    let new_part = before_char_exec(&tail, ' ');
    match find_char(&new_part, ',') {
        Some(q) => {
            proof {
                lemma_find(new_part@, seq![',']);
            }
            assert(q < new_part@.len());
            let s = parse_u32_exec(&slice_chars(&new_part, 0, q));
            let c = parse_u32_exec(&slice_chars(&new_part, q + 1, new_part.len()));
            match (s, c) {
                (Some(s), Some(c)) => Some((s, c)),
                _ => None,
            }
        },
        None => match parse_u32_exec(&new_part) {
            Some(s) => Some((s, 1u32)),
            None => None,
        },
    }
}

/// Adds the lines `start .. start + count` to `set`.
fn insert_range(set: &mut HashSet<u32>, start: u32, count: u32)
    requires
        count == 0 || start + count <= u32::MAX,
    ensures
        final(set)@ == old(set)@.union(line_range(start, count)),
{
    if count == 0 {
        assert(line_range(start, count) =~= Set::<u32>::empty());
        assert(old(set)@.union(Set::<u32>::empty()) =~= old(set)@);
        return;
    }
    let end = start + count;
    let mut n = start;
    while n < end
        invariant
            start <= n <= end,
            end == start + count,
            set@ == old(set)@.union(Set::new(|x: u32| start <= x < n)),
        decreases end - n,
    {
        set.insert(n);
        assert(set@ =~= old(set)@.union(Set::new(|x: u32| start <= x < n + 1)));
        n = n + 1;
    }
    assert(Set::new(|x: u32| start <= x < n) =~= line_range(start, count));
}

/// Parses a hunk header `@@ -<old>[,<n>] +<start>[,<count>] @@ ...` into the
/// set of new-side line numbers it covers: `start .. start + count`, a
/// missing count being 1 and a count of 0 (pure deletion) giving the empty
/// set. `None` when the line is not such a header.
pub fn parse_hunk_header(line: &str) -> (r: Option<HashSet<u32>>)
    requires
        hunk_fits(line@),
    ensures
        match r {
            Some(s) => hunk_lines(line@) == Some(s@),
            None => hunk_lines(line@) is None,
        },
{
    let cs = chars_of(line);
    match hunk_numbers_exec(&cs) {
        Some((s, c)) => {
            let mut set: HashSet<u32> = HashSet::new();
            insert_range(&mut set, s, c);
            assert(Set::<u32>::empty().union(line_range(s, c)) =~= line_range(s, c));
            Some(set)
        },
        None => None,
    }
}

// ───────────────────────── code: diffs ─────────────────────────

/// For a `+++ ` header, the file it opens (see [`file_header`]).
fn file_header_exec(line: &[char]) -> (r: Option<Option<Vec<char>>>)
    ensures
        match r {
            Some(Some(p)) => file_header(line@) == Some(Some(p@)),
            Some(None) => file_header(line@) == Some(None::<Seq<char>>),
            None => file_header(line@) is None,
        },
{
    if !starts_with_str(line, "+++ ") {
        return None;
    }
    let head = chars_of("+++ ");
    let rest = slice_chars(line, head.len(), line.len());
    let p = if starts_with_str(&rest, "b/") {
        let b = chars_of("b/");
        slice_chars(&rest, b.len(), rest.len())
    } else {
        rest
    };
    if eq_str(&p, "/dev/null") {
        Some(None)
    } else {
        Some(Some(p))
    }
}

/// Whether every hunk of `diff` read while a file is open names a line range
/// that fits in a `u32` (see [`diff_fits`]), so that
/// [`parse_diff_output`] can read it.
pub fn diff_fits_exec(diff: &str) -> (b: bool)
    ensures
        b == diff_fits(diff@),
{
    let cs = chars_of(diff);
    let ls = lines_of(&cs);
    let ghost lv = ls@.map_values(|l: Vec<char>| l@);
    let mut current: Option<Vec<char>> = None;
    let mut i: usize = 0;
    assert(lv.take(0) =~= Seq::<Seq<char>>::empty());
    while i < ls.len()
        invariant
            i <= ls@.len(),
            lv == ls@.map_values(|l: Vec<char>| l@),
            lv == lines(diff@),
            diff_state(lv.take(i as int)).0 == (match current {
                Some(c) => Some(c@),
                None => None::<Seq<char>>,
            }),
            forall|j: int|
                0 <= j < i && #[trigger] is_open_hunk(diff_state(lv.take(j)).0, lv[j]) ==> hunk_fits(lv[j]),
        decreases ls@.len() - i,
    {
        let line = &ls[i];
        let ghost st = diff_state(lv.take(i as int));
        assert(lv.take(i + 1).drop_last() =~= lv.take(i as int));
        assert(lv.take(i + 1).last() == line@);
        assert(lv[i as int] == line@);
        match file_header_exec(line) {
            Some(c) => {
                current = c;
            },
            None => {
                if starts_with_str(line, "@@") {
                    match &current {
                        Some(f) => {
                            assert(is_open_hunk(st.0, lv[i as int]));
                            match hunk_numbers_exec(line) {
                                Some((s, c)) => {
                                    if c != 0 && s > u32::MAX - c {
                                        assert(!hunk_fits(lv[i as int]));
                                        return false;
                                    }
                                },
                                None => {},
                            }
                        },
                        None => {},
                    }
                }
            },
        }
        i = i + 1;
    }
    assert(lv.take(ls@.len() as int) =~= lv);
    true
}

/// Parses unified diff text into the changed (new-side) line numbers of
/// each file: `+++ b/<path>` opens a file (`/dev/null`, a deletion, opens
/// none) and each hunk header `@@ -a[,b] +c[,d] @@` of an open file adds the
/// lines `c .. c + d` (a missing `d` is 1).
pub fn parse_diff_output(diff: &str) -> (result: ChangedLineMap)
    requires
        diff_fits(diff@),
    ensures
        changed_view(result@) == changed_lines_of(diff@),
{
    let cs = chars_of(diff);
    let ls = lines_of(&cs);
    let ghost lv = ls@.map_values(|l: Vec<char>| l@);
    let mut result: ChangedLineMap = StrMap::new();
    let mut current: Option<Vec<char>> = None;
    let mut i: usize = 0;
    assert(lv.take(0) =~= Seq::<Seq<char>>::empty());
    assert(changed_view(result@) =~= Map::<Seq<char>, Set<u32>>::empty());
    while i < ls.len()
        invariant
            i <= ls@.len(),
            lv == ls@.map_values(|l: Vec<char>| l@),
            lv == lines(diff@),
            diff_fits(diff@),
            diff_state(lv.take(i as int)).0 == (match current {
                Some(c) => Some(c@),
                None => None::<Seq<char>>,
            }),
            diff_state(lv.take(i as int)).1 == changed_view(result@),
        decreases ls@.len() - i,
    {
        let line = &ls[i];
        let ghost st = diff_state(lv.take(i as int));
        assert(lv.take(i + 1).drop_last() =~= lv.take(i as int));
        assert(lv.take(i + 1).last() == line@);
        assert(lv[i as int] == line@);
        match file_header_exec(line) {
            Some(c) => {
                current = c;
            },
            None => {
                if starts_with_str(line, "@@") {
                    match &current {
                        Some(f) => {
                            assert(is_open_hunk(st.0, lv[i as int]));
                            match hunk_numbers_exec(line) {
                                Some((s, c)) => {
                                    let key = string_of(f);
                                    let mut set = match result.remove(key.as_str()) {
                                        Some(old) => old,
                                        None => HashSet::new(),
                                    };
                                    let ghost prev = if st.1.contains_key(f@) {
                                        st.1[f@]
                                    } else {
                                        Set::<u32>::empty()
                                    };
                                    assert(set@ == prev);
                                    insert_range(&mut set, s, c);
                                    let ghost mid = result@;
                                    result.insert(key, set);
                                    assert(changed_view(result@) =~= st.1.insert(
                                        f@,
                                        prev.union(line_range(s, c)),
                                    ));
                                },
                                None => {},
                            }
                        },
                        None => {},
                    }
                }
            },
        }
        i = i + 1;
    }
    assert(lv.take(ls@.len() as int) =~= lv);
    result
}

// ───────────────────────── code: paths ─────────────────────────

/// The pieces of `v` between `/` separators (see [`split_on`]).
fn split_slash(v: &[char]) -> (r: Vec<Vec<char>>)
    ensures
        r@.map_values(|p: Vec<char>| p@) == split_on(v@, '/'),
    decreases v@.len(),
{
    let f = find_char(v, '/');
    proof {
        lemma_find(v@, seq!['/']);
    }
    match f {
        Some(k) => {
            let n = v.len();
            assert(k < n);
            let head = slice_chars(v, 0, k);
            let tail = slice_chars(v, k + 1, v.len());
            let rest = split_slash(&tail);
            let mut r: Vec<Vec<char>> = Vec::new();
            r.push(head);
            let ghost hv = r@.map_values(|p: Vec<char>| p@);
            let mut rest = rest;
            let ghost restv = rest@.map_values(|p: Vec<char>| p@);
            r.append(&mut rest);
            assert(r@.map_values(|p: Vec<char>| p@) =~= hv + restv);
            r
        },
        None => {
            let mut r: Vec<Vec<char>> = Vec::new();
            assert(v@.subrange(0, v@.len() as int) =~= v@);
            r.push(slice_chars(v, 0, v.len()));
            assert(r@.map_values(|p: Vec<char>| p@) =~= seq![v@]);
            r
        },
    }
}

/// The components of a path (see [`path_components`]).
fn path_components_exec(v: &[char]) -> (r: Vec<Vec<char>>)
    ensures
        r@.map_values(|p: Vec<char>| p@) == path_components(v@),
{
    let pieces = split_slash(v);
    let ghost pv = pieces@.map_values(|p: Vec<char>| p@);
    assert(pv.len() > 0);
    let mut r: Vec<Vec<char>> = Vec::new();
    let mut i: usize = 0;
    if v.len() > 0 && v[0] == '/' {
        let mut root: Vec<char> = Vec::new();
        root.push('/');
        r.push(root);
        i = 1;
    } else if pieces[0].len() == 1 && pieces[0][0] == '.' {
        let mut dot: Vec<char> = Vec::new();
        dot.push('.');
        r.push(dot);
        i = 1;
    }
    let ghost head = r@.map_values(|p: Vec<char>| p@);
    assert(pieces@[0]@ == pv[0]);
    assert(v@.len() > 0 && v@[0] == '/' ==> head =~= seq![seq!['/']]);
    assert(!(v@.len() > 0 && v@[0] == '/') && pv[0] == seq!['.'] ==> head =~= seq![seq!['.']]);
    assert(!(v@.len() > 0 && v@[0] == '/') && pv[0] == seq!['.'] ==> i == 1) by {
        if pv[0] == seq!['.'] {
            assert(pieces@[0]@.len() == 1);
        }
    }
    assert(!(v@.len() > 0 && v@[0] == '/') && pv[0] != seq!['.'] ==> i == 0) by {
        if i == 1 && !(v@.len() > 0 && v@[0] == '/') {
            assert(pieces@[0]@ =~= seq!['.']);
        }
    }
    let start = i;
    assert(pv.subrange(start as int, start as int) =~= Seq::<Seq<char>>::empty());
    while i < pieces.len()
        invariant
            start <= i <= pieces@.len(),
            pv == pieces@.map_values(|p: Vec<char>| p@),
            r@.map_values(|p: Vec<char>| p@) == head + normal_pieces(
                pv.subrange(start as int, i as int),
            ),
        decreases pieces@.len() - i,
    {
        let p = &pieces[i];
        assert(pv.subrange(start as int, i + 1).drop_last() =~= pv.subrange(start as int, i as int));
        assert(pv[i as int] == p@);
        if p.len() == 0 || (p.len() == 1 && p[0] == '.') {
            assert(p@.len() == 1 && p@[0] == '.' ==> p@ =~= seq!['.']);
        } else {
            assert(p@ != seq!['.']) by {
                if p@ == seq!['.'] {
                    assert(p@.len() == 1);
                }
            }
            let ghost before = r@.map_values(|p: Vec<char>| p@);
            r.push(slice_chars(p, 0, p.len()));
            assert(p@.subrange(0, p@.len() as int) =~= p@);
            assert(r@.map_values(|p: Vec<char>| p@) =~= before.push(p@));
            assert(r@.map_values(|p: Vec<char>| p@) =~= head + normal_pieces(
                pv.subrange(start as int, i + 1),
            ));
        }
        i = i + 1;
    }
    assert(pv.subrange(start as int, pv.len() as int) =~= (if start == 1 {
        pv.drop_first()
    } else {
        pv
    }));
    r
}

/// Whether two character sequences are equal.
fn same_chars(x: &[char], y: &[char]) -> (b: bool)
    ensures
        b == (x@ == y@),
{
    if x.len() != y.len() {
        return false;
    }
    let b = occurs_at_exec(x, y, 0);
    assert(b ==> x@.subrange(0, y@.len() as int) =~= x@);
    assert(x@ == y@ ==> x@.subrange(0, y@.len() as int) =~= x@);
    b
}

/// Whether `a` ends with `b` (as sequences of components).
fn components_end_with(a: &Vec<Vec<char>>, b: &Vec<Vec<char>>) -> (r: bool)
    ensures
        r == ({
            let av = a@.map_values(|p: Vec<char>| p@);
            let bv = b@.map_values(|p: Vec<char>| p@);
            bv.len() <= av.len() && av.subrange(av.len() - bv.len(), av.len() as int) == bv
        }),
{
    let ghost av = a@.map_values(|p: Vec<char>| p@);
    let ghost bv = b@.map_values(|p: Vec<char>| p@);
    if b.len() > a.len() {
        return false;
    }
    let off = a.len() - b.len();
    let mut j: usize = 0;
    while j < b.len()
        invariant
            off + b@.len() == a@.len(),
            a@.len() == a.len(),
            j <= b@.len(),
            av == a@.map_values(|p: Vec<char>| p@),
            bv == b@.map_values(|p: Vec<char>| p@),
            forall|t: int| 0 <= t < j ==> av[off + t] == bv[t],
        decreases b@.len() - j,
    {
        assert(av[off + j] == a@[off + j]@);
        assert(bv[j as int] == b@[j as int]@);
        if !same_chars(&a[off + j], &b[j]) {
            assert(av.subrange(av.len() - bv.len(), av.len() as int)[j as int] != bv[j as int]);
            return false;
        }
        j = j + 1;
    }
    assert(av.subrange(av.len() - bv.len(), av.len() as int) =~= bv);
    true
}

/// Index (in key order) of the first changed file that `file` ends with.
fn matching_key_index(changed: &ChangedLineMap, file: &str) -> (r: Option<usize>)
    ensures
        match r {
            Some(k) => k < changed.key_order().len() && matching_key(changed.key_order(), file@)
                == Some(changed.key_order()[k as int]),
            None => matching_key(changed.key_order(), file@) is None,
        },
{
    let ghost keys = changed.key_order();
    let n = changed.len();
    let fc = path_components_exec(&chars_of(file));
    let mut k: usize = 0;
    assert(keys.subrange(0, n as int) =~= keys);
    while k < n
        invariant
            k <= n,
            n == keys.len(),
            keys == changed.key_order(),
            fc@.map_values(|p: Vec<char>| p@) == path_components(file@),
            matching_key(keys, file@) == matching_key(keys.subrange(k as int, n as int), file@),
        decreases n - k,
    {
        let (key, _) = changed.entry_at(k);
        let kc = path_components_exec(&chars_of(key.as_str()));
        let ghost sub = keys.subrange(k as int, n as int);
        assert(sub[0] == keys[k as int]);
        assert(sub.drop_first() =~= keys.subrange(k + 1, n as int));
        if components_end_with(&fc, &kc) {
            return Some(k);
        }
        k = k + 1;
    }
    assert(keys.subrange(n as int, n as int) =~= Seq::<Seq<char>>::empty());
    None
}

/// Keeps the indices of the findings whose line is among the changed lines of
/// their file. A finding's `(file, line)` matches the first changed file (in
/// the map's key order) that its path ends with, component by component;
/// findings without a line, or whose file matches none, are dropped.
pub fn filter_findings_by_changed_lines(
    findings: &[(String, Option<u32>)],
    changed: &ChangedLineMap,
) -> (r: Vec<usize>)
    ensures
        r@ == selected_indices(
            changed_view(changed@),
            changed.key_order(),
            finding_views(findings@),
        ),
{
    let ghost fv = finding_views(findings@);
    let ghost m = changed_view(changed@);
    let ghost keys = changed.key_order();
    let mut r: Vec<usize> = Vec::new();
    let mut i: usize = 0;
    assert(fv.take(0) =~= Seq::<(Seq<char>, Option<u32>)>::empty());
    while i < findings.len()
        invariant
            i <= findings@.len(),
            fv == finding_views(findings@),
            m == changed_view(changed@),
            keys == changed.key_order(),
            r@ == selected_indices(m, keys, fv.take(i as int)),
        decreases findings@.len() - i,
    {
        let (file, line) = &findings[i];
        assert(fv.take(i + 1).drop_last() =~= fv.take(i as int));
        assert(fv.take(i + 1).last() == (file@, *line));
        if let Some(l) = line {
            match matching_key_index(changed, file.as_str()) {
                Some(k) => {
                    let (_, set) = changed.entry_at(k);
                    if set.contains(l) {
                        r.push(i);
                    }
                },
                None => {},
            }
        }
        i = i + 1;
    }
    assert(fv.take(findings@.len() as int) =~= fv);
    r
}

} // verus!
