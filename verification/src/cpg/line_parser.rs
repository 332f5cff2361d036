//! The line-based source reader shared by the Go and JavaScript graph
//! builders: expressions and calls, argument lists, indentation and braces.
use vstd::prelude::*;
use crate::cpg::graph::{Cpg, CpgView, EdgeKind, NodeKind, NodeView};
use crate::index::analysis::{is_alphanumeric, unicode_alphanumeric};
use crate::text::{
    find, find_char, is_digit, is_ascii_digit, is_whitespace, is_ws, lemma_find, lemma_rfind_from,
    rfind, rfind_exec, rfind_from, slice_chars, string_of, trim, trim_bounds, trim_start, views,
};

verus! {

/// The source language a line reader follows.
#[derive(Debug, Clone, Copy, PartialEq, Eq, Structural)]
pub enum Dialect {
    Go,
    Js,
}

// ───────────────────────── model: characters and pieces ─────────────────────────

/// A character that may stand in a (dotted) name: alphanumeric, `_` or `.`,
/// and in JavaScript also `$`.
pub open spec fn is_name_char(d: Dialect, c: char) -> bool {
    unicode_alphanumeric(c) || c == '_' || c == '.' || (d == Dialect::Js && c == '$')
}

/// Every character of `s` may stand in a name.
pub open spec fn all_name_chars(d: Dialect, s: Seq<char>) -> bool {
    forall|i: int| 0 <= i < s.len() ==> is_name_char(d, #[trigger] s[i])
}

/// The part of `s` before its first character that may not stand in a name.
pub open spec fn name_prefix(d: Dialect, s: Seq<char>) -> Seq<char>
    decreases s.len(),
{
    if s.len() == 0 || !is_name_char(d, s[0]) {
        Seq::empty()
    } else {
        seq![s[0]] + name_prefix(d, s.drop_first())
    }
}

/// `s` with every leading copy of `p` removed (`str::trim_start_matches`).
pub open spec fn strip_all(s: Seq<char>, p: Seq<char>) -> Seq<char>
    decreases s.len(),
{
    if p.len() > 0 && p.len() <= s.len() && s.take(p.len() as int) == p {
        strip_all(s.skip(p.len() as int), p)
    } else {
        s
    }
}

/// `s` with every trailing `c` removed (`str::trim_end_matches`).
pub open spec fn strip_end_char(s: Seq<char>, c: char) -> Seq<char>
    decreases s.len(),
{
    if s.len() > 0 && s.last() == c {
        strip_end_char(s.drop_last(), c)
    } else {
        s
    }
}

/// The pieces of `s` from position `i` on, for `split_args`: `depth` counts
/// open brackets, and a comma at depth 0 ends the piece that began at `start`.
pub open spec fn split_pieces(s: Seq<char>, i: int, depth: nat, start: int) -> Seq<Seq<char>>
    decreases s.len() - i,
{
    if i < 0 || i >= s.len() {
        if start < s.len() {
            seq![s.subrange(start, s.len() as int)]
        } else {
            Seq::empty()
        }
    } else {
        let c = s[i];
        if c == '(' || c == '[' || c == '{' {
            split_pieces(s, i + 1, depth + 1, start)
        } else if c == ')' || c == ']' || c == '}' {
            split_pieces(s, i + 1, if depth > 0 { (depth - 1) as nat } else { 0 }, start)
        } else if c == ',' && depth == 0 {
            seq![s.subrange(start, i)] + split_pieces(s, i + 1, 0, i + 1)
        } else {
            split_pieces(s, i + 1, depth, start)
        }
    }
}

/// An argument list split at its top-level commas; a trailing empty piece is
/// dropped.
pub open spec fn split_args(s: Seq<char>) -> Seq<Seq<char>> {
    split_pieces(s, 0, 0, 0)
}

/// The number of bytes of `c` in UTF-8.
pub open spec fn utf8_width(c: char) -> nat {
    if (c as u32) < 0x80 {
        1
    } else if (c as u32) < 0x800 {
        2
    } else if (c as u32) < 0x10000 {
        3
    } else {
        4
    }
}

/// The number of bytes of `s` in UTF-8.
pub open spec fn utf8_len(s: Seq<char>) -> nat
    decreases s.len(),
{
    if s.len() == 0 {
        0
    } else {
        utf8_len(s.drop_last()) + utf8_width(s.last())
    }
}

/// The indentation of a line: the bytes of its leading whitespace.
pub open spec fn indent_of(s: Seq<char>) -> nat {
    utf8_len(s.take(s.len() - trim_start(s).len()))
}

/// The indentation of the body that starts at line `i`: that of the first
/// line from there that is neither blank nor a lone `{`, else `default`.
pub open spec fn body_indent(lines: Seq<Seq<char>>, i: int, default: nat) -> nat
    decreases lines.len() - i,
{
    if i < 0 || i >= lines.len() {
        default
    } else if trim(lines[i]).len() != 0 && trim(lines[i]) != seq!['{'] {
        indent_of(lines[i])
    } else {
        body_indent(lines, i + 1, default)
    }
}

/// Brace depth after one character: `{` opens, `}` closes (held within the
/// range of `i64`).
pub open spec fn brace_step(depth: i64, c: char) -> i64 {
    if c == '{' && depth < i64::MAX {
        (depth + 1) as i64
    } else if c == '}' && depth > i64::MIN {
        (depth - 1) as i64
    } else {
        depth
    }
}

/// Brace depth after the characters of `s`.
pub open spec fn brace_depth(depth: i64, s: Seq<char>) -> i64
    decreases s.len(),
{
    if s.len() == 0 {
        depth
    } else {
        brace_step(brace_depth(depth, s.drop_last()), s.last())
    }
}

// ───────────────────────── code: characters and pieces ─────────────────────────

/// [`is_name_char`].
pub fn is_name_char_exec(d: Dialect, c: char) -> (b: bool)
    ensures
        b == is_name_char(d, c),
{
    is_alphanumeric(c) || c == '_' || c == '.' || (d == Dialect::Js && c == '$')
}

/// [`all_name_chars`].
pub fn all_name_chars_exec(d: Dialect, s: &[char]) -> (b: bool)
    ensures
        b == all_name_chars(d, s@),
{
    let mut i: usize = 0;
    while i < s.len()
        invariant
            i <= s@.len(),
            forall|j: int| 0 <= j < i ==> is_name_char(d, #[trigger] s@[j]),
        decreases s@.len() - i,
    {
        if !is_name_char_exec(d, s[i]) {
            return false;
        }
        i = i + 1;
    }
    true
}

/// [`name_prefix`].
pub fn name_prefix_exec(d: Dialect, s: &[char]) -> (r: Vec<char>)
    ensures
        r@ == name_prefix(d, s@),
{
    let mut k: usize = 0;
    while k < s.len() && is_name_char_exec(d, s[k])
        invariant
            k <= s@.len(),
            forall|j: int| 0 <= j < k ==> is_name_char(d, #[trigger] s@[j]),
        decreases s@.len() - k,
    {
        k = k + 1;
    }
    proof {
        lemma_name_prefix(d, s@, k as int);
    }
    slice_chars(s, 0, k)
}

/// `name_prefix` is the longest prefix of name characters.
proof fn lemma_name_prefix(d: Dialect, s: Seq<char>, k: int)
    requires
        0 <= k <= s.len(),
        forall|j: int| 0 <= j < k ==> is_name_char(d, #[trigger] s[j]),
        k == s.len() || !is_name_char(d, s[k]),
    ensures
        name_prefix(d, s) == s.subrange(0, k),
    decreases s.len(),
{
    if k == 0 {
        assert(s.subrange(0, 0) =~= Seq::<char>::empty());
    } else {
        assert(is_name_char(d, s[0]));
        lemma_name_prefix(d, s.drop_first(), k - 1);
        assert(seq![s[0]] + s.drop_first().subrange(0, k - 1) =~= s.subrange(0, k));
    }
}

/// `v` trimmed, no longer than `v`.
pub fn trimmed(v: &[char]) -> (r: Vec<char>)
    ensures
        r@ == trim(v@),
        r@.len() <= v@.len(),
{
    let (a, b) = trim_bounds(v, 0, v.len());
    assert(v@.subrange(0, v@.len() as int) =~= v@);
    slice_chars(v, a, b)
}

/// [`strip_all`] of the characters of `p`.
pub fn strip_all_exec(s: &[char], p: &str) -> (r: Vec<char>)
    ensures
        r@ == strip_all(s@, p@),
        r@.len() <= s@.len(),
{
    let pv = crate::text::chars_of(p);
    let mut k: usize = 0;
    let n = s.len();
    let m = pv.len();
    assert(s@.skip(0) =~= s@);
    while m > 0 && m <= n - k && crate::text::occurs_at_exec(s, &pv, k)
        invariant
            k <= n == s@.len(),
            m == pv@.len(),
            pv@ == p@,
            strip_all(s@.skip(k as int), p@) == strip_all(s@, p@),
        decreases n - k,
    {
        assert(s@.skip(k as int).take(m as int) =~= s@.subrange(k as int, k + m));
        assert(s@.skip(k as int).skip(m as int) =~= s@.skip(k + m));
        k = k + m;
    }
    proof {
        if m > 0 && m <= n - k {
            assert(s@.skip(k as int).take(m as int) =~= s@.subrange(k as int, k + m));
        }
    }
    assert(s@.skip(k as int) =~= s@.subrange(k as int, n as int));
    slice_chars(s, k, n)
}

/// `v` without trailing whitespace (`str::trim_end`).
pub fn trim_end_exec(v: &[char]) -> (r: Vec<char>)
    ensures
        r@ == crate::text::trim_end(v@),
{
    let mut k: usize = v.len();
    assert(v@.take(k as int) =~= v@);
    while k > 0 && is_whitespace(v[k - 1])
        invariant
            k <= v@.len(),
            crate::text::trim_end(v@.take(k as int)) == crate::text::trim_end(v@),
        decreases k,
    {
        assert(v@.take(k as int).drop_last() =~= v@.take(k - 1));
        k = k - 1;
    }
    assert(v@.take(k as int) =~= v@.subrange(0, k as int));
    slice_chars(v, 0, k)
}

/// [`strip_end_char`].
pub fn strip_end_char_exec(s: &[char], c: char) -> (r: Vec<char>)
    ensures
        r@ == strip_end_char(s@, c),
        r@.len() <= s@.len(),
{
    let mut k: usize = s.len();
    assert(s@.take(k as int) =~= s@);
    while k > 0 && s[k - 1] == c
        invariant
            k <= s@.len(),
            strip_end_char(s@.take(k as int), c) == strip_end_char(s@, c),
        decreases k,
    {
        assert(s@.take(k as int).drop_last() =~= s@.take(k - 1));
        k = k - 1;
    }
    assert(s@.take(k as int) =~= s@.subrange(0, k as int));
    slice_chars(s, 0, k)
}

/// [`split_args`], each piece no longer than `s`.
pub fn split_args_exec(s: &[char]) -> (r: Vec<Vec<char>>)
    ensures
        r@.map_values(|p: Vec<char>| p@) == split_args(s@),
        forall|j: int| 0 <= j < r@.len() ==> (#[trigger] r@[j])@.len() <= s@.len(),
{
    let n = s.len();
    let mut r: Vec<Vec<char>> = Vec::new();
    let mut depth: usize = 0;
    let mut start: usize = 0;
    let mut i: usize = 0;
    while i < n
        invariant
            n == s@.len(),
            start <= i <= n,
            depth <= i,
            r@.map_values(|p: Vec<char>| p@) + split_pieces(s@, i as int, depth as nat, start as int)
                == split_args(s@),
            forall|j: int| 0 <= j < r@.len() ==> (#[trigger] r@[j])@.len() <= s@.len(),
        decreases n - i,
    {
        let c = s[i];
        let ghost before = r@.map_values(|p: Vec<char>| p@);
        if c == '(' || c == '[' || c == '{' {
            depth = depth + 1;
        } else if c == ')' || c == ']' || c == '}' {
            depth = if depth > 0 { depth - 1 } else { 0 };
        } else if c == ',' && depth == 0 {
            let piece = slice_chars(s, start, i);
            let ghost pv = piece@;
            r.push(piece);
            assert(r@.map_values(|p: Vec<char>| p@) =~= before.push(pv));
            assert(before.push(pv) + split_pieces(s@, i + 1, 0, i + 1)
                =~= before + (seq![pv] + split_pieces(s@, i + 1, 0, i + 1)));
            start = i + 1;
        }
        i = i + 1;
    }
    let ghost before = r@.map_values(|p: Vec<char>| p@);
    if start < n {
        let piece = slice_chars(s, start, n);
        let ghost pv = piece@;
        r.push(piece);
        assert(r@.map_values(|p: Vec<char>| p@) =~= before.push(pv));
        assert(before + seq![pv] =~= before.push(pv));
    } else {
        assert(before + Seq::<Seq<char>>::empty() =~= before);
    }
    r
}

/// [`indent_of`] of `s`.
pub fn indent_exec(s: &[char]) -> (n: u128)
    ensures
        n == indent_of(s@),
{
    let mut k: usize = 0;
    assert(s@.skip(0) =~= s@);
    while k < s.len() && is_whitespace(s[k])
        invariant
            k <= s@.len(),
            trim_start(s@.skip(k as int)) == trim_start(s@),
        decreases s@.len() - k,
    {
        assert(s@.skip(k as int).drop_first() =~= s@.skip(k + 1));
        k = k + 1;
    }
    assert(trim_start(s@.skip(k as int)) == s@.skip(k as int));
    assert(s@.len() - trim_start(s@).len() == k);
    let mut total: u128 = 0;
    let mut i: usize = 0;
    while i < k
        invariant
            i <= k <= s@.len(),
            total == utf8_len(s@.take(i as int)),
            total <= 4 * i,
        decreases k - i,
    {
        let u = s[i] as u32;
        let w: u128 = if u < 0x80 { 1 } else if u < 0x800 { 2 } else if u < 0x10000 { 3 } else { 4 };
        assert(s@.take(i + 1).drop_last() =~= s@.take(i as int));
        total = total + w;
        i = i + 1;
    }
    total
}

/// [`brace_depth`] of `s` from `depth`.
pub fn brace_depth_exec(depth: i64, s: &[char]) -> (r: i64)
    ensures
        r == brace_depth(depth, s@),
{
    let mut d = depth;
    let mut i: usize = 0;
    while i < s.len()
        invariant
            i <= s@.len(),
            d == brace_depth(depth, s@.take(i as int)),
        decreases s@.len() - i,
    {
        assert(s@.take(i + 1).drop_last() =~= s@.take(i as int));
        let c = s[i];
        if c == '{' && d < i64::MAX {
            d = d + 1;
        } else if c == '}' && d > i64::MIN {
            d = d - 1;
        }
        i = i + 1;
    }
    assert(s@.take(s@.len() as int) =~= s@);
    d
}

/// [`body_indent`] of `lines` from line `i`.
pub fn body_indent_exec(lines: &Vec<Vec<char>>, i: usize, default: u128) -> (r: u128)
    requires
        i <= lines@.len(),
    ensures
        r == body_indent(lines@.map_values(|l: Vec<char>| l@), i as int, default as nat),
{
    let ghost ls = lines@.map_values(|l: Vec<char>| l@);
    let mut k = i;
    while k < lines.len()
        invariant
            i <= k <= lines@.len(),
            ls == lines@.map_values(|l: Vec<char>| l@),
            body_indent(ls, k as int, default as nat) == body_indent(ls, i as int, default as nat),
        decreases lines@.len() - k,
    {
        let t = trimmed(lines[k].as_slice());
        assert(ls[k as int] == lines@[k as int]@);
        let brace = t.len() == 1 && t[0] == '{';
        assert(brace == (t@ == seq!['{'])) by {
            if t@.len() == 1 && t@[0] == '{' {
                assert(t@ =~= seq!['{']);
            }
        }
        if t.len() != 0 && !brace {
            return indent_exec(lines[k].as_slice());
        }
        k = k + 1;
    }
    default
}

// ───────────────────────── model: expressions ─────────────────────────

/// A character that opens a string literal.
pub open spec fn is_quote(c: char) -> bool {
    c == '"' || c == '`' || c == '\''
}

/// The graph after reading the expression `expr` of line `line` as operand
/// `index` of node `parent`. The trimmed expression becomes a literal (where
/// it opens with a quote or a digit), a call (see [`call_graph`]), or an
/// identifier (its leading name characters); each hangs from `parent` by an
/// argument edge. An empty expression, or one without a name, adds nothing.
pub open spec fn expr_graph(d: Dialect, g: CpgView, expr: Seq<char>, line: u32, parent: u32, index: u32) -> CpgView
    decreases expr.len(), 2int, 0int,
{
    let e = trim(expr);
    if e.len() == 0 || e.len() > expr.len() {
        g
    } else if is_quote(e[0]) || is_digit(e[0]) {
        g.with_node(NodeView::Literal { value: e, line }).with_edge(
            parent,
            g.next_id(),
            EdgeKind::Argument { index },
        )
    } else {
        match call_graph(d, g, e, line) {
            Some((g2, cid)) => g2.with_edge(parent, cid, EdgeKind::Argument { index }),
            None => {
                let name = trim(name_prefix(d, e));
                if name.len() == 0 {
                    g
                } else {
                    g.with_node(NodeView::Identifier { name, line }).with_edge(
                        parent,
                        g.next_id(),
                        EdgeKind::Argument { index },
                    )
                }
            },
        }
    }
}

/// The graph after reading `e` as a call `callee(args)`, with the new call
/// node's id: `e` needs a `(` after a non-empty callee made of name
/// characters, and a last `)` after it. The call node comes first; then each
/// non-empty top-level argument, as operand of its position.
pub open spec fn call_graph(d: Dialect, g: CpgView, e: Seq<char>, line: u32) -> Option<(CpgView, u32)>
    decreases e.len(), 1int, 0int,
{
    match find(e, seq!['(']) {
        None => None,
        Some(p) => if p == 0 || !all_name_chars(d, e.subrange(0, p)) {
            None
        } else {
            match rfind(e, seq![')']) {
                None => None,
                Some(c) => if c < p {
                    None
                } else {
                    let cid = g.next_id();
                    let g1 = g.with_node(NodeView::Call { name: e.subrange(0, p), line });
                    Some((args_graph(d, g1, split_args(e.subrange(p + 1, c)), 0, line, cid, e.len()), cid))
                },
            }
        },
    }
}

/// The graph after reading the arguments `args` from position `k` on as
/// operands of call `cid` (each shorter than `bound`, the call's length).
pub open spec fn args_graph(d: Dialect, g: CpgView, args: Seq<Seq<char>>, k: int, line: u32, cid: u32, bound: nat) -> CpgView
    decreases bound, 0int, args.len() - k,
{
    if k < 0 || k >= args.len() {
        g
    } else {
        let a = trim(args[k]);
        let g2 = if a.len() == 0 || a.len() >= bound {
            g
        } else {
            expr_graph(d, g, a, line, cid, k as u32)
        };
        args_graph(d, g2, args, k + 1, line, cid, bound)
    }
}

// ───────────────────────── code: expressions ─────────────────────────

/// Whether `c` opens a string literal.
fn is_quote_exec(c: char) -> (b: bool)
    ensures
        b == is_quote(c),
{
    c == '"' || c == '`' || c == '\''
}

/// Reads the expression `expr` of line `line` as operand `index` of `parent`
/// (see [`expr_graph`]).
pub fn attach_expr(d: Dialect, expr: &[char], line: u32, parent: u32, index: u32, cpg: &mut Cpg)
    ensures
        final(cpg)@ == expr_graph(d, old(cpg)@, expr@, line, parent, index),
    decreases expr@.len(), 2int, 0int,
{
    let e = trimmed(expr);
    if e.len() == 0 {
        return;
    }
    if is_quote_exec(e[0]) || is_ascii_digit(e[0]) {
        let id = cpg.add_node(NodeKind::Literal { value: string_of(&e), line });
        cpg.add_edge(parent, id, EdgeKind::Argument { index });
        return;
    }
    match try_call(d, &e, line, cpg) {
        Some(cid) => {
            cpg.add_edge(parent, cid, EdgeKind::Argument { index });
        },
        None => {
            let np = name_prefix_exec(d, &e);
            let name = trimmed(&np);
            if name.len() != 0 {
                let id = cpg.add_node(NodeKind::Identifier { name: string_of(&name), line });
                cpg.add_edge(parent, id, EdgeKind::Argument { index });
            }
        },
    }
}

/// Reads `e` as a call (see [`call_graph`]) and returns the call node's id;
/// adds nothing where `e` is not a call.
pub fn try_call(d: Dialect, e: &[char], line: u32, cpg: &mut Cpg) -> (r: Option<u32>)
    ensures
        match call_graph(d, old(cpg)@, e@, line) {
            Some((g, cid)) => r == Some(cid) && final(cpg)@ == g,
            None => r is None && final(cpg)@ == old(cpg)@,
        },
    decreases e@.len(), 1int, 0int,
{
    proof {
        lemma_find(e@, seq!['(']);
        lemma_rfind_from(e@, seq![')'], e@.len() - 1);
    }
    let p = match find_char(e, '(') {
        Some(p) => p,
        None => {
            return None;
        },
    };
    if p == 0 {
        return None;
    }
    let callee = slice_chars(e, 0, p);
    if !all_name_chars_exec(d, &callee) {
        return None;
    }
    let mut close_v: Vec<char> = Vec::new();
    close_v.push(')');
    assert(close_v@ =~= seq![')']);
    let c = match rfind_exec(e, &close_v) {
        Some(c) => c,
        None => {
            return None;
        },
    };
    if c < p {
        return None;
    }
    assert(rfind(e@, seq![')']) == rfind_from(e@, seq![')'], e@.len() - 1));
    assert(e@.subrange(p as int, p + 1)[0] == e@[p as int]);
    assert(e@.subrange(c as int, c + 1)[0] == e@[c as int]);
    assert(c != p);
    let ghost g0 = cpg@;
    let cid = cpg.add_node(NodeKind::Call { name: string_of(&callee), line });
    let ghost g1 = cpg@;
    let inner = slice_chars(e, p + 1, c);
    let args = split_args_exec(&inner);
    let ghost av = args@.map_values(|q: Vec<char>| q@);
    let ghost bound = e@.len();
    let mut k: usize = 0;
    while k < args.len()
        invariant
            k <= args@.len(),
            av == args@.map_values(|q: Vec<char>| q@),
            av == split_args(inner@),
            bound == e@.len(),
            inner@.len() < e@.len(),
            forall|j: int| 0 <= j < args@.len() ==> (#[trigger] args@[j])@.len() <= inner@.len(),
            args_graph(d, cpg@, av, k as int, line, cid, bound as nat)
                == args_graph(d, g1, av, 0, line, cid, bound as nat),
        decreases args@.len() - k,
    {
        let a = trimmed(args[k].as_slice());
        assert(av[k as int] == args@[k as int]@);
        if a.len() != 0 {
            attach_expr(d, &a, line, cid, k as u32, cpg);
        }
        k = k + 1;
    }
    Some(cid)
}

// ───────────────────────── model: splitting and parameters ─────────────────────────

/// The pieces of `s` between the characters `c` (`str::split` with a
/// `char`): always at least one piece.
pub open spec fn split_on(s: Seq<char>, c: char) -> Seq<Seq<char>>
    decreases s.len(),
{
    match find(s, seq![c]) {
        Some(i) => if 0 <= i < s.len() {
            seq![s.take(i)] + split_on(s.skip(i + 1), c)
        } else {
            seq![s]
        },
        None => seq![s],
    }
}

/// The graph after adding parameter nodes `params[k..]` (each numbered by its
/// position) under method `mid`, each by a syntax edge.
pub open spec fn params_graph(g: CpgView, params: Seq<Seq<char>>, k: int, mid: u32) -> CpgView
    decreases params.len() - k,
{
    if k < 0 || k >= params.len() {
        g
    } else {
        let pid = g.next_id();
        params_graph(
            g.with_node(NodeView::Parameter { name: params[k], index: k as u32 }).with_edge(mid, pid, EdgeKind::Ast),
            params,
            k + 1,
            mid,
        )
    }
}

// ───────────────────────── code: splitting and parameters ─────────────────────────

/// [`split_on`].
pub fn split_on_exec(s: &[char], c: char) -> (r: Vec<Vec<char>>)
    ensures
        r@.map_values(|p: Vec<char>| p@) == split_on(s@, c),
{
    let n = s.len();
    let mut r: Vec<Vec<char>> = Vec::new();
    let mut start: usize = 0;
    let mut i: usize = 0;
    assert(s@.skip(0) =~= s@);
    while i < n
        invariant
            n == s@.len(),
            start <= i <= n,
            forall|j: int| start <= j < i ==> s@[j] != c,
            r@.map_values(|p: Vec<char>| p@) + split_on(s@.skip(start as int), c) == split_on(s@, c),
        decreases n - i,
    {
        if s[i] == c {
            let ghost rest = s@.skip(start as int);
            proof {
                lemma_find(rest, seq![c]);
                assert(rest.subrange((i - start) as int, (i - start) + 1) =~= seq![c]);
                assert forall|j: int| 0 <= j < i - start implies !crate::text::occurs_at(rest, seq![c], j) by {
                    assert(rest.subrange(j, j + 1)[0] == rest[j]);
                }
                assert(find(rest, seq![c]) == Some((i - start) as int)) by {
                    if find(rest, seq![c]) != Some((i - start) as int) {
                        assert(crate::text::occurs_at(rest, seq![c], (i - start) as int));
                    }
                }
                assert(rest.take((i - start) as int) =~= s@.subrange(start as int, i as int));
                assert(rest.skip((i - start) + 1) =~= s@.skip(i + 1));
            }
            let piece = slice_chars(s, start, i);
            let ghost before = r@.map_values(|p: Vec<char>| p@);
            let ghost pv = piece@;
            r.push(piece);
            assert(r@.map_values(|p: Vec<char>| p@) =~= before.push(pv));
            assert(before.push(pv) + split_on(s@.skip(i + 1), c) =~= before + (seq![pv] + split_on(s@.skip(i + 1), c)));
            start = i + 1;
        }
        i = i + 1;
    }
    let ghost rest = s@.skip(start as int);
    proof {
        lemma_find(rest, seq![c]);
        if find(rest, seq![c]) is Some {
            let j = find(rest, seq![c])->0;
            assert(rest.subrange(j, j + 1)[0] == rest[j]);
            assert(s@[start + j] == c);
        }
    }
    let piece = slice_chars(s, start, n);
    assert(piece@ =~= rest);
    let ghost before = r@.map_values(|p: Vec<char>| p@);
    r.push(piece);
    assert(r@.map_values(|p: Vec<char>| p@) =~= before.push(rest));
    assert(before + seq![rest] =~= before.push(rest));
    r
}

/// Adds parameter nodes for `params` under method `mid` (see [`params_graph`]).
pub fn add_params(params: &Vec<Vec<char>>, mid: u32, cpg: &mut Cpg)
    ensures
        final(cpg)@ == params_graph(old(cpg)@, params@.map_values(|p: Vec<char>| p@), 0, mid),
{
    let ghost pv = params@.map_values(|p: Vec<char>| p@);
    let mut k: usize = 0;
    while k < params.len()
        invariant
            k <= params@.len(),
            pv == params@.map_values(|p: Vec<char>| p@),
            params_graph(cpg@, pv, k as int, mid) == params_graph(old(cpg)@, pv, 0, mid),
        decreases params@.len() - k,
    {
        assert(pv[k as int] == params@[k as int]@);
        let pid = cpg.add_node(NodeKind::Parameter { name: string_of(params[k].as_slice()), index: k as u32 });
        cpg.add_edge(mid, pid, EdgeKind::Ast);
        k = k + 1;
    }
}

} // verus!
