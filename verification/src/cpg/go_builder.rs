//! The Go statement forms of the line-based graph builder: function
//! signatures, assignments, control structures.
use vstd::prelude::*;
use crate::cpg::graph::{Cpg, CpgBuilder, CpgView, CtrlKind, NodeKind, NodeView};
use crate::cpg::function_reader::{read_source, source_graph, source_ok};
use crate::types::Language;
use crate::cpg::line_parser::{
    attach_expr, call_graph, expr_graph, split_on, split_on_exec, strip_all, strip_all_exec, trimmed,
    try_call, Dialect,
};
use crate::index::analysis::{is_alphanumeric, unicode_alphanumeric};
use crate::text::{
    eq_str, find, find_char, find_exec, first_ws_from, is_whitespace, lemma_find, lemma_first_ws_from,
    slice_chars, starts_with, starts_with_str, string_of, trim,
};

verus! {

// ───────────────────────── model ─────────────────────────

/// A character of a Go variable name: alphanumeric or `_`.
pub open spec fn is_word_char(c: char) -> bool {
    unicode_alphanumeric(c) || c == '_'
}

/// Every comma-separated part of `lhs`, trimmed, is a non-empty name.
pub open spec fn go_lhs_ok(lhs: Seq<char>) -> bool {
    let parts = split_on(lhs, ',');
    forall|i: int| 0 <= i < parts.len() ==> {
        let p = #[trigger] trim(parts[i]);
        p.len() > 0 && forall|j: int| 0 <= j < p.len() ==> is_word_char(#[trigger] p[j])
    }
}

/// A character before `=` that makes it part of another operator.
pub open spec fn go_op_before_eq(c: char) -> bool {
    c == '!' || c == '<' || c == '>' || c == '=' || c == ':' || c == '+' || c == '-' || c == '*'
        || c == '/' || c == '%'
}

/// The first plain assignment `lhs = rhs` of `s` from position `i` on: an `=`
/// that is not part of `==`, `!=`, `<=`, `>=`, `:=` or a compound assignment,
/// with non-empty trimmed sides and a valid left side.
pub open spec fn go_assignment_from(s: Seq<char>, i: int) -> Option<(Seq<char>, Seq<char>)>
    decreases s.len() - i,
{
    if i < 0 || i >= s.len() {
        None
    } else if s[i] == '=' && !(i + 1 < s.len() && s[i + 1] == '=') && !(i > 0 && go_op_before_eq(s[i - 1]))
        && trim(s.take(i)).len() > 0 && trim(s.skip(i + 1)).len() > 0 && go_lhs_ok(trim(s.take(i))) {
        Some((trim(s.take(i)), trim(s.skip(i + 1))))
    } else {
        go_assignment_from(s, i + 1)
    }
}

/// The plain assignment of a statement, if any.
pub open spec fn go_assignment(s: Seq<char>) -> Option<(Seq<char>, Seq<char>)> {
    go_assignment_from(s, 0)
}

/// The short declaration `lhs := rhs` of a statement, if any.
pub open spec fn go_short_decl(s: Seq<char>) -> Option<(Seq<char>, Seq<char>)> {
    match find(s, ":="@) {
        Some(pos) => {
            let lhs = trim(s.take(pos));
            let rhs = trim(s.skip(pos + 2));
            if lhs.len() > 0 && rhs.len() > 0 && go_lhs_ok(lhs) {
                Some((lhs, rhs))
            } else {
                None
            }
        },
        None => None,
    }
}

/// The control structure a statement opens: `if`, `for`, and `switch` (read
/// as an `if`).
pub open spec fn go_ctrl(s: Seq<char>) -> Option<CtrlKind> {
    if starts_with(s, "if "@) || starts_with(s, "if("@) {
        Some(CtrlKind::If)
    } else if starts_with(s, "for "@) || starts_with(s, "for{"@) || s == "for {"@ {
        Some(CtrlKind::For)
    } else if starts_with(s, "switch "@) || starts_with(s, "switch{"@) || s == "switch {"@ {
        Some(CtrlKind::If)
    } else {
        None
    }
}

/// The graph after reading one trimmed statement of a Go function body, with
/// the id of the statement's node where there is one: `return` (with its
/// operand), a control structure, a short declaration or assignment (with
/// its right side as operand), or a call.
pub open spec fn go_statement(g: CpgView, s: Seq<char>, line: u32) -> (CpgView, Option<u32>) {
    if s.len() == 0 || starts_with(s, "//"@) || s == "{"@ || s == "}"@ {
        (g, None)
    } else if starts_with(s, "return"@) {
        let rid = g.next_id();
        let g1 = g.with_node(NodeView::Return { line });
        let rest = trim(strip_all(s, "return"@));
        (if rest.len() == 0 { g1 } else { expr_graph(Dialect::Go, g1, rest, line, rid, 0) }, Some(rid))
    } else if go_ctrl(s) is Some {
        (g.with_node(NodeView::ControlStructure { kind: go_ctrl(s)->0, line }), Some(g.next_id()))
    } else if go_short_decl(s) is Some {
        let (lhs, rhs) = go_short_decl(s)->0;
        let aid = g.next_id();
        (expr_graph(Dialect::Go, g.with_node(NodeView::Assignment { lhs, line }), rhs, line, aid, 0), Some(aid))
    } else if go_assignment(s) is Some {
        let (lhs, rhs) = go_assignment(s)->0;
        let aid = g.next_id();
        (expr_graph(Dialect::Go, g.with_node(NodeView::Assignment { lhs, line }), trim(rhs), line, aid, 0), Some(aid))
    } else {
        match call_graph(Dialect::Go, g, s, line) {
            Some((g2, cid)) => (g2, Some(cid)),
            None => (g, None),
        }
    }
}

/// A signature with its receiver, if any, removed: the text after the
/// `func ` keyword, without a leading `(receiver)`.
pub open spec fn go_sig_rest(line: Seq<char>) -> Seq<char> {
    let l1 = trim(strip_all(line, "func "@));
    if l1.len() > 0 && l1[0] == '(' {
        match find(l1, seq![')']) {
            Some(c) => trim(l1.skip(c + 1)),
            None => l1,
        }
    } else {
        l1
    }
}

/// The name of a parameter entry: its first word, without leading `*`.
pub open spec fn go_param_name(p: Seq<char>) -> Seq<char> {
    trim(strip_all(p.take(first_ws_from(p, 0)), "*"@))
}

/// The parameter names of the entries `parts`, skipping empty ones.
pub open spec fn go_param_names(parts: Seq<Seq<char>>) -> Seq<Seq<char>>
    decreases parts.len(),
{
    if parts.len() == 0 {
        Seq::empty()
    } else {
        let p = trim(parts.last());
        go_param_names(parts.drop_last()) + if p.len() == 0 || go_param_name(p).len() == 0 {
            Seq::empty()
        } else {
            seq![go_param_name(p)]
        }
    }
}

/// Whether a signature can be read: its parameter list does not close before
/// it opens.
pub open spec fn go_sig_ok(line: Seq<char>) -> bool {
    let l2 = go_sig_rest(line);
    !(find(l2, seq!['(']) is Some && find(l2, seq![')']) is Some
        && find(l2, seq![')'])->0 < find(l2, seq!['('])->0)
}

/// The name and parameter names of a `func name(params) result {` line.
pub open spec fn go_signature(line: Seq<char>) -> (Seq<char>, Seq<Seq<char>>) {
    let l2 = go_sig_rest(line);
    let paren = match find(l2, seq!['(']) {
        Some(p) => p,
        None => l2.len() as int,
    };
    let params = match (find(l2, seq!['(']), find(l2, seq![')'])) {
        (Some(o), Some(c)) => go_param_names(split_on(l2.subrange(o + 1, c), ',')),
        _ => Seq::empty(),
    };
    (trim(l2.take(paren)), params)
}

// ───────────────────────── code ─────────────────────────

/// Whether `c` may stand in a Go variable name.
fn is_word_char_exec(c: char) -> (b: bool)
    ensures
        b == is_word_char(c),
{
    is_alphanumeric(c) || c == '_'
}

/// [`go_lhs_ok`].
pub fn go_lhs_ok_exec(lhs: &[char]) -> (b: bool)
    ensures
        b == go_lhs_ok(lhs@),
{
    let parts = split_on_exec(lhs, ',');
    let ghost pv = parts@.map_values(|p: Vec<char>| p@);
    let mut i: usize = 0;
    while i < parts.len()
        invariant
            i <= parts@.len(),
            pv == parts@.map_values(|p: Vec<char>| p@),
            pv == split_on(lhs@, ','),
            forall|k: int| 0 <= k < i ==> {
                let p = #[trigger] trim(pv[k]);
                p.len() > 0 && forall|j: int| 0 <= j < p.len() ==> is_word_char(#[trigger] p[j])
            },
        decreases parts@.len() - i,
    {
        let p = trimmed(parts[i].as_slice());
        assert(pv[i as int] == parts@[i as int]@);
        assert(trim(pv[i as int]) == p@);
        if p.len() == 0 {
            return false;
        }
        let mut j: usize = 0;
        while j < p.len()
            invariant
                j <= p@.len(),
                i < parts@.len(),
                pv == parts@.map_values(|p: Vec<char>| p@),
                pv == split_on(lhs@, ','),
                trim(pv[i as int]) == p@,
                forall|m: int| 0 <= m < j ==> is_word_char(#[trigger] p@[m]),
            decreases p@.len() - j,
        {
            if !is_word_char_exec(p[j]) {
                assert(!is_word_char(p@[j as int]));
                assert(!go_lhs_ok(lhs@)) by {
                    assert(trim(pv[i as int]) == p@);
                }
                return false;
            }
            j = j + 1;
        }
        i = i + 1;
    }
    true
}

/// [`go_assignment`]: the first plain assignment of `s`.
pub fn go_assignment_exec(s: &[char]) -> (r: Option<(Vec<char>, Vec<char>)>)
    ensures
        match go_assignment(s@) {
            Some((l, rr)) => r matches Some((a, b)) && a@ == l && b@ == rr,
            None => r is None,
        },
{
    let n = s.len();
    let mut i: usize = 0;
    while i < n
        invariant
            n == s@.len(),
            i <= n,
            go_assignment_from(s@, i as int) == go_assignment(s@),
        decreases n - i,
    {
        if s[i] == '=' {
            let next_eq = i + 1 < n && s[i + 1] == '=';
            let prev_op = i > 0 && {
                let c = s[i - 1];
                c == '!' || c == '<' || c == '>' || c == '=' || c == ':' || c == '+' || c == '-' || c == '*'
                    || c == '/' || c == '%'
            };
            if !next_eq && !prev_op {
                let left = slice_chars(s, 0, i);
                let right = slice_chars(s, i + 1, n);
                assert(left@ =~= s@.take(i as int));
                assert(right@ =~= s@.skip(i + 1));
                let lhs = trimmed(&left);
                let rhs = trimmed(&right);
                if lhs.len() > 0 && rhs.len() > 0 && go_lhs_ok_exec(&lhs) {
                    return Some((lhs, rhs));
                }
            }
        }
        i = i + 1;
    }
    None
}

/// [`go_short_decl`].
pub fn go_short_decl_exec(s: &[char]) -> (r: Option<(Vec<char>, Vec<char>)>)
    ensures
        match go_short_decl(s@) {
            Some((l, rr)) => r matches Some((a, b)) && a@ == l && b@ == rr,
            None => r is None,
        },
{
    let pat = crate::text::pair(':', '=');
    proof {
        reveal_strlit(":=");
    }
    assert(pat@ =~= ":="@);
    assert(":="@.len() == 2);
    proof {
        lemma_find(s@, ":="@);
    }
    match find_exec(s, &pat) {
        Some(pos) => {
            assert(find(s@, ":="@) == Some(pos as int));
            assert(crate::text::occurs_at(s@, ":="@, pos as int));
            let n = s.len();
            assert(pos + 2 <= n);
            let left = slice_chars(s, 0, pos);
            let right = slice_chars(s, pos + 2, n);
            assert(left@ =~= s@.take(pos as int));
            assert(right@ =~= s@.skip(pos + 2));
            let lhs = trimmed(&left);
            let rhs = trimmed(&right);
            if lhs.len() > 0 && rhs.len() > 0 && go_lhs_ok_exec(&lhs) {
                Some((lhs, rhs))
            } else {
                None
            }
        },
        None => None,
    }
}

/// [`go_ctrl`].
pub fn go_ctrl_exec(s: &[char]) -> (r: Option<CtrlKind>)
    ensures
        r == go_ctrl(s@),
{
    if starts_with_str(s, "if ") || starts_with_str(s, "if(") {
        Some(CtrlKind::If)
    } else if starts_with_str(s, "for ") || starts_with_str(s, "for{") || eq_str(s, "for {") {
        Some(CtrlKind::For)
    } else if starts_with_str(s, "switch ") || starts_with_str(s, "switch{") || eq_str(s, "switch {") {
        Some(CtrlKind::If)
    } else {
        None
    }
}

/// Reads one trimmed statement of a Go function body (see [`go_statement`])
/// and returns the id of its node.
pub fn go_statement_exec(s: &[char], line: u32, cpg: &mut Cpg) -> (r: Option<u32>)
    ensures
        (final(cpg)@, r) == go_statement(old(cpg)@, s@, line),
{
    if s.len() == 0 || starts_with_str(s, "//") || eq_str(s, "{") || eq_str(s, "}") {
        return None;
    }
    if starts_with_str(s, "return") {
        let rid = cpg.add_node(NodeKind::Return { line });
        let stripped = strip_all_exec(s, "return");
        let rest = trimmed(&stripped);
        if rest.len() != 0 {
            attach_expr(Dialect::Go, &rest, line, rid, 0, cpg);
        }
        return Some(rid);
    }
    match go_ctrl_exec(s) {
        Some(kind) => {
            return Some(cpg.add_node(NodeKind::ControlStructure { kind, line }));
        },
        None => {},
    }
    match go_short_decl_exec(s) {
        Some((lhs, rhs)) => {
            let aid = cpg.add_node(NodeKind::Assignment { lhs: string_of(&lhs), line });
            attach_expr(Dialect::Go, &rhs, line, aid, 0, cpg);
            return Some(aid);
        },
        None => {},
    }
    match go_assignment_exec(s) {
        Some((lhs, rhs)) => {
            let aid = cpg.add_node(NodeKind::Assignment { lhs: string_of(&lhs), line });
            let r2 = trimmed(&rhs);
            attach_expr(Dialect::Go, &r2, line, aid, 0, cpg);
            return Some(aid);
        },
        None => {},
    }
    try_call(Dialect::Go, s, line, cpg)
}

/// [`go_sig_rest`].
fn go_sig_rest_exec(line: &[char]) -> (r: Vec<char>)
    ensures
        r@ == go_sig_rest(line@),
{
    let stripped = strip_all_exec(line, "func ");
    let l1 = trimmed(&stripped);
    if l1.len() > 0 && l1[0] == '(' {
        proof {
            lemma_find(l1@, seq![')']);
        }
        match find_char(&l1, ')') {
            Some(c) => {
                let n = l1.len();
                assert(c + 1 <= n);
                let tail = slice_chars(&l1, c + 1, n);
                assert(tail@ =~= l1@.skip(c + 1));
                trimmed(&tail)
            },
            None => l1,
        }
    } else {
        l1
    }
}

/// [`go_param_name`].
fn go_param_name_exec(p: &[char]) -> (r: Vec<char>)
    ensures
        r@ == go_param_name(p@),
{
    let mut k: usize = 0;
    while k < p.len() && !is_whitespace(p[k])
        invariant
            k <= p@.len(),
            first_ws_from(p@, k as int) == first_ws_from(p@, 0),
        decreases p@.len() - k,
    {
        k = k + 1;
    }
    let word = slice_chars(p, 0, k);
    assert(word@ =~= p@.take(first_ws_from(p@, 0)));
    let stripped = strip_all_exec(&word, "*");
    trimmed(&stripped)
}

/// [`go_param_names`] of the entries `parts`.
fn go_param_names_exec(parts: &Vec<Vec<char>>) -> (r: Vec<Vec<char>>)
    ensures
        r@.map_values(|q: Vec<char>| q@) == go_param_names(parts@.map_values(|q: Vec<char>| q@)),
{
    let ghost pv = parts@.map_values(|q: Vec<char>| q@);
    let mut out: Vec<Vec<char>> = Vec::new();
    let mut i: usize = 0;
    while i < parts.len()
        invariant
            i <= parts@.len(),
            pv == parts@.map_values(|q: Vec<char>| q@),
            out@.map_values(|q: Vec<char>| q@) == go_param_names(pv.take(i as int)),
        decreases parts@.len() - i,
    {
        assert(pv.take(i + 1).drop_last() =~= pv.take(i as int));
        assert(pv.take(i + 1).last() == parts@[i as int]@);
        let p = trimmed(parts[i].as_slice());
        let ghost before = out@.map_values(|q: Vec<char>| q@);
        if p.len() != 0 {
            let name = go_param_name_exec(&p);
            if name.len() != 0 {
                let ghost nv = name@;
                out.push(name);
                assert(out@.map_values(|q: Vec<char>| q@) =~= before + seq![nv]);
            } else {
                assert(before + Seq::<Seq<char>>::empty() =~= before);
            }
        } else {
            assert(before + Seq::<Seq<char>>::empty() =~= before);
        }
        i = i + 1;
    }
    assert(pv.take(parts@.len() as int) =~= pv);
    out
}

/// [`go_signature`]: the name and parameter names of a readable signature.
pub fn go_signature_exec(line: &[char]) -> (r: (Vec<char>, Vec<Vec<char>>))
    requires
        go_sig_ok(line@),
    ensures
        r.0@ == go_signature(line@).0,
        r.1@.map_values(|q: Vec<char>| q@) == go_signature(line@).1,
{
    let l2 = go_sig_rest_exec(line);
    let n = l2.len();
    proof {
        lemma_find(l2@, seq!['(']);
        lemma_find(l2@, seq![')']);
    }
    let open = find_char(&l2, '(');
    let close = find_char(&l2, ')');
    let paren = match open {
        Some(p) => p,
        None => n,
    };
    let head = slice_chars(&l2, 0, paren);
    assert(head@ =~= l2@.take(paren as int));
    let name = trimmed(&head);
    let params = match (open, close) {
        (Some(o), Some(c)) => {
            assert(l2@.subrange(o as int, o + 1)[0] == l2@[o as int]);
            assert(l2@.subrange(c as int, c + 1)[0] == l2@[c as int]);
            assert(c != o);
            let inner = slice_chars(&l2, o + 1, c);
            let parts = split_on_exec(&inner, ',');
            go_param_names_exec(&parts)
        },
        _ => {
            let e: Vec<Vec<char>> = Vec::new();
            assert(e@.map_values(|q: Vec<char>| q@) =~= Seq::<Seq<char>>::empty());
            e
        },
    };
    (name, params)
}

/// Builds code property graphs from Go source files.
pub struct GoCpgBuilder;

impl CpgBuilder for GoCpgBuilder {
    open spec fn accepts(&self, source: Seq<char>) -> bool {
        source_ok(Dialect::Go, source)
    }

    fn build(&self, source: &str, filename: &str) -> (g: Cpg)
        ensures
            g@ == source_graph(Dialect::Go, source@, filename@),
    {
        build_go_cpg(source, filename)
    }

    fn language(&self) -> (l: Language)
        ensures
            l == Language::Go,
    {
        Language::Go
    }
}

/// The code property graph of a Go source file (see
/// [`crate::cpg::function_reader::lines_graph`]): for each `func` line a
/// method node with its parameters, and for each statement of the body the
/// statement's node and the nodes of its operands. Requires that every
/// definition line the reader meets has a readable signature.
pub fn build_go_cpg(source: &str, filename: &str) -> (g: Cpg)
    requires
        source_ok(Dialect::Go, source@),
    ensures
        g@ == source_graph(Dialect::Go, source@, filename@),
{
    read_source(Dialect::Go, source, filename)
}

} // verus!
