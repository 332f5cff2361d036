//! The JavaScript statement forms of the line-based graph builder: function
//! signatures, arrow functions, assignments, control structures.
use vstd::prelude::*;
use crate::cpg::graph::{Cpg, CpgBuilder, CpgView, CtrlKind, NodeKind, NodeView};
use crate::cpg::function_reader::{read_source, source_graph, source_ok};
use crate::types::Language;
use crate::cpg::line_parser::{
    add_params, attach_expr, call_graph, expr_graph, params_graph, split_on, split_on_exec, strip_all,
    strip_all_exec, strip_end_char, strip_end_char_exec, trimmed, try_call, Dialect,
};
use crate::index::analysis::{is_alphanumeric, unicode_alphanumeric};
use crate::text::{
    before_char, before_char_exec, contains, contains_str, eq_str, find, find_char, find_exec,
    lemma_find, lemma_rfind_from, rfind, rfind_exec, rfind_from, slice_chars, starts_with,
    starts_with_str, string_of, trim, trim_end, trim_bounds,
};

verus! {

// ───────────────────────── model ─────────────────────────

/// The control structure a statement opens: `if`, `while`, `for`, `try`.
pub open spec fn js_ctrl(s: Seq<char>) -> Option<CtrlKind> {
    if starts_with(s, "if "@) || starts_with(s, "if("@) {
        Some(CtrlKind::If)
    } else if starts_with(s, "while "@) || starts_with(s, "while("@) {
        Some(CtrlKind::While)
    } else if starts_with(s, "for "@) || starts_with(s, "for("@) {
        Some(CtrlKind::For)
    } else if starts_with(s, "try "@) || starts_with(s, "try{"@) || s == "try {"@ || s == "try{"@ {
        Some(CtrlKind::Try)
    } else {
        None
    }
}

/// A character before `=` that makes it a comparison.
pub open spec fn js_comparison_before_eq(c: char) -> bool {
    c == '!' || c == '<' || c == '>' || c == '='
}

/// A character before `=` that makes it a compound assignment.
pub open spec fn js_op_before_eq(c: char) -> bool {
    c == '+' || c == '-' || c == '*' || c == '/' || c == '%' || c == '&' || c == '|' || c == '^'
}

/// The first assignment of `s` from position `i` on: an `=` that is not part
/// of `==`, `=>` or a comparison, with non-empty trimmed sides; for a
/// compound assignment the operator is left out of the left side.
pub open spec fn js_assignment_from(s: Seq<char>, i: int) -> Option<(Seq<char>, Seq<char>)>
    decreases s.len() - i,
{
    if i < 0 || i >= s.len() {
        None
    } else if s[i] != '=' || (i + 1 < s.len() && (s[i + 1] == '=' || s[i + 1] == '>'))
        || (i > 0 && js_comparison_before_eq(s[i - 1])) {
        js_assignment_from(s, i + 1)
    } else {
        let lhs = if i > 0 && js_op_before_eq(s[i - 1]) { trim(s.take(i - 1)) } else { trim(s.take(i)) };
        let rhs = trim(s.skip(i + 1));
        if lhs.len() > 0 && rhs.len() > 0 {
            Some((lhs, rhs))
        } else {
            js_assignment_from(s, i + 1)
        }
    }
}

/// The assignment of a statement, if any.
pub open spec fn js_assignment(s: Seq<char>) -> Option<(Seq<char>, Seq<char>)> {
    js_assignment_from(s, 0)
}

/// The left side of a declaration without its `const `, `let ` or `var `.
pub open spec fn js_clean_lhs(lhs: Seq<char>) -> Seq<char> {
    trim(strip_all(strip_all(strip_all(lhs, "const "@), "let "@), "var "@))
}

/// A character of a bare JavaScript parameter: alphanumeric, `_` or `$`.
pub open spec fn is_js_word_char(c: char) -> bool {
    unicode_alphanumeric(c) || c == '_' || c == '$'
}

/// The trailing run of parameter characters of `s`.
pub open spec fn word_suffix(s: Seq<char>) -> Seq<char>
    decreases s.len(),
{
    if s.len() == 0 || !is_js_word_char(s.last()) {
        Seq::empty()
    } else {
        word_suffix(s.drop_last()).push(s.last())
    }
}

/// The non-empty trimmed pieces of `parts`, in order.
pub open spec fn nonempty_trimmed(parts: Seq<Seq<char>>) -> Seq<Seq<char>>
    decreases parts.len(),
{
    if parts.len() == 0 {
        Seq::empty()
    } else {
        nonempty_trimmed(parts.drop_last()) + if trim(parts.last()).len() == 0 {
            Seq::empty()
        } else {
            seq![trim(parts.last())]
        }
    }
}

/// The parameter of an arrow function written without parentheses: the last
/// word before the arrow, unless it is `async`.
pub open spec fn bare_arrow_param(before: Seq<char>) -> Seq<Seq<char>> {
    let b = trim(word_suffix(trim(before)));
    if b.len() == 0 || b == "async"@ {
        Seq::empty()
    } else {
        seq![b]
    }
}

/// The parameters of an arrow function on `line`: the comma-separated names
/// in the last parentheses before `=>`, or a single bare name.
pub open spec fn arrow_params(line: Seq<char>) -> Seq<Seq<char>> {
    match find(line, "=>"@) {
        None => Seq::empty(),
        Some(a) => {
            let before = trim_end(line.take(a));
            match rfind(before, seq![')']) {
                Some(close) => match rfind(before.take(close), seq!['(']) {
                    Some(open) => nonempty_trimmed(split_on(before.subrange(open + 1, close), ',')),
                    None => bare_arrow_param(before),
                },
                None => bare_arrow_param(before),
            }
        },
    }
}

/// The graph after reading `line` as an arrow function `name = (params) =>
/// ...`, with the new method node's id: a method node named by the
/// declaration and one parameter node per parameter.
pub open spec fn js_arrow(g: CpgView, line: Seq<char>, line_no: u32, file: Seq<char>) -> Option<(CpgView, u32)> {
    if !contains(line, "=>"@) {
        None
    } else {
        match js_assignment(line) {
            None => None,
            Some((lhs, _)) => {
                let name = js_clean_lhs(lhs);
                if name.len() == 0 || contains(name, " "@) {
                    None
                } else {
                    let mid = g.next_id();
                    let g1 = g.with_node(NodeView::Method { name, file, line: line_no });
                    Some((params_graph(g1, arrow_params(line), 0, mid), mid))
                }
            },
        }
    }
}

/// The graph after reading one trimmed statement of a JavaScript function
/// body, with the id of the statement's node where there is one: `return`
/// (with its operand), a control structure, an arrow function, an
/// assignment (with its right side as operand), or a call; a trailing `;`
/// is dropped from operands and calls.
pub open spec fn js_statement(g: CpgView, s: Seq<char>, line: u32, file: Seq<char>) -> (CpgView, Option<u32>) {
    if s.len() == 0 || starts_with(s, "//"@) || s == "{"@ || s == "}"@ {
        (g, None)
    } else if starts_with(s, "return"@) {
        let rid = g.next_id();
        let g1 = g.with_node(NodeView::Return { line });
        let rest = strip_end_char(trim(strip_all(s, "return"@)), ';');
        (if rest.len() == 0 { g1 } else { expr_graph(Dialect::Js, g1, rest, line, rid, 0) }, Some(rid))
    } else if js_ctrl(s) is Some {
        (g.with_node(NodeView::ControlStructure { kind: js_ctrl(s)->0, line }), Some(g.next_id()))
    } else if contains(s, "=>"@) && js_arrow(g, s, line, file) is Some {
        let (g2, mid) = js_arrow(g, s, line, file)->0;
        (g2, Some(mid))
    } else if js_assignment(s) is Some {
        let (lhs, rhs) = js_assignment(s)->0;
        let aid = g.next_id();
        let g1 = g.with_node(NodeView::Assignment { lhs: js_clean_lhs(lhs), line });
        (expr_graph(Dialect::Js, g1, strip_end_char(trim(rhs), ';'), line, aid, 0), Some(aid))
    } else {
        match call_graph(Dialect::Js, g, strip_end_char(s, ';'), line) {
            Some((g2, cid)) => (g2, Some(cid)),
            None => (g, None),
        }
    }
}

/// A signature without its `function` and `async` keywords.
pub open spec fn js_sig_rest(line: Seq<char>) -> Seq<char> {
    trim(strip_all(strip_all(trim(strip_all(line, "function "@)), "async "@), "function "@))
}

/// A parameter entry without type annotation and default value.
pub open spec fn js_param_name(p: Seq<char>) -> Seq<char> {
    trim(before_char(before_char(trim(p), ':'), '='))
}

/// The parameter names of the entries `parts`, skipping empty ones.
pub open spec fn js_param_names(parts: Seq<Seq<char>>) -> Seq<Seq<char>>
    decreases parts.len(),
{
    if parts.len() == 0 {
        Seq::empty()
    } else {
        js_param_names(parts.drop_last()) + if js_param_name(parts.last()).len() == 0 {
            Seq::empty()
        } else {
            seq![js_param_name(parts.last())]
        }
    }
}

/// Whether a signature can be read: its parameter list does not close before
/// it opens.
pub open spec fn js_sig_ok(line: Seq<char>) -> bool {
    let l2 = js_sig_rest(line);
    !(find(l2, seq!['(']) is Some && find(l2, seq![')']) is Some
        && find(l2, seq![')'])->0 < find(l2, seq!['('])->0)
}

/// The name and parameter names of a `function name(params) {` line.
pub open spec fn js_signature(line: Seq<char>) -> (Seq<char>, Seq<Seq<char>>) {
    let l2 = js_sig_rest(line);
    let paren = match find(l2, seq!['(']) {
        Some(p) => p,
        None => l2.len() as int,
    };
    let params = match (find(l2, seq!['(']), find(l2, seq![')'])) {
        (Some(o), Some(c)) => js_param_names(split_on(l2.subrange(o + 1, c), ',')),
        _ => Seq::empty(),
    };
    (trim(l2.take(paren)), params)
}

// ───────────────────────── code ─────────────────────────

/// [`js_ctrl`].
pub fn js_ctrl_exec(s: &[char]) -> (r: Option<CtrlKind>)
    ensures
        r == js_ctrl(s@),
{
    if starts_with_str(s, "if ") || starts_with_str(s, "if(") {
        Some(CtrlKind::If)
    } else if starts_with_str(s, "while ") || starts_with_str(s, "while(") {
        Some(CtrlKind::While)
    } else if starts_with_str(s, "for ") || starts_with_str(s, "for(") {
        Some(CtrlKind::For)
    } else if starts_with_str(s, "try ") || starts_with_str(s, "try{") || eq_str(s, "try {") || eq_str(s, "try{") {
        Some(CtrlKind::Try)
    } else {
        None
    }
}

/// [`js_assignment`]: the first assignment of `s`.
pub fn js_assignment_exec(s: &[char]) -> (r: Option<(Vec<char>, Vec<char>)>)
    ensures
        match js_assignment(s@) {
            Some((l, rr)) => r matches Some((a, b)) && a@ == l && b@ == rr,
            None => r is None,
        },
{
    let n = s.len();
    let mut i: usize = 0;
    while i < n
        invariant
            n == s@.len(),
            i <= n,
            js_assignment_from(s@, i as int) == js_assignment(s@),
        decreases n - i,
    {
        if s[i] == '=' {
            let next_skip = i + 1 < n && (s[i + 1] == '=' || s[i + 1] == '>');
            let prev_comparison = i > 0 && {
                let c = s[i - 1];
                c == '!' || c == '<' || c == '>' || c == '='
            };
            if !next_skip && !prev_comparison {
                let prev_op = i > 0 && {
                    let c = s[i - 1];
                    c == '+' || c == '-' || c == '*' || c == '/' || c == '%' || c == '&' || c == '|' || c == '^'
                };
                let cut = if prev_op { i - 1 } else { i };
                let left = slice_chars(s, 0, cut);
                let right = slice_chars(s, i + 1, n);
                assert(left@ =~= s@.take(cut as int));
                assert(right@ =~= s@.skip(i + 1));
                let lhs = trimmed(&left);
                let rhs = trimmed(&right);
                if lhs.len() > 0 && rhs.len() > 0 {
                    return Some((lhs, rhs));
                }
            }
        }
        i = i + 1;
    }
    None
}

/// [`js_clean_lhs`].
pub fn js_clean_lhs_exec(lhs: &[char]) -> (r: Vec<char>)
    ensures
        r@ == js_clean_lhs(lhs@),
{
    let a = strip_all_exec(lhs, "const ");
    let b = strip_all_exec(&a, "let ");
    let c = strip_all_exec(&b, "var ");
    trimmed(&c)
}

/// Whether `c` may stand in a bare JavaScript parameter.
fn is_js_word_char_exec(c: char) -> (b: bool)
    ensures
        b == is_js_word_char(c),
{
    is_alphanumeric(c) || c == '_' || c == '$'
}

/// [`word_suffix`].
fn word_suffix_exec(s: &[char]) -> (r: Vec<char>)
    ensures
        r@ == word_suffix(s@),
{
    let n = s.len();
    let mut k: usize = n;
    assert(s@.take(n as int) =~= s@);
    assert(word_suffix(s@) + s@.subrange(n as int, n as int) =~= word_suffix(s@));
    while k > 0 && is_js_word_char_exec(s[k - 1])
        invariant
            k <= n == s@.len(),
            word_suffix(s@) == word_suffix(s@.take(k as int)) + s@.subrange(k as int, n as int),
        decreases k,
    {
        assert(s@.take(k as int).drop_last() =~= s@.take(k - 1));
        assert(s@.take(k as int).last() == s@[k - 1]);
        assert(s@.subrange(k - 1, n as int) =~= seq![s@[k - 1]] + s@.subrange(k as int, n as int));
        assert(word_suffix(s@.take(k - 1)).push(s@[k - 1]) + s@.subrange(k as int, n as int)
            =~= word_suffix(s@.take(k - 1)) + s@.subrange(k - 1, n as int));
        k = k - 1;
    }
    assert(word_suffix(s@.take(k as int)) =~= Seq::<char>::empty());
    assert(Seq::<char>::empty() + s@.subrange(k as int, n as int) =~= s@.subrange(k as int, n as int));
    slice_chars(s, k, n)
}

/// [`nonempty_trimmed`] of `parts`.
fn nonempty_trimmed_exec(parts: &Vec<Vec<char>>) -> (r: Vec<Vec<char>>)
    ensures
        r@.map_values(|q: Vec<char>| q@) == nonempty_trimmed(parts@.map_values(|q: Vec<char>| q@)),
{
    let ghost pv = parts@.map_values(|q: Vec<char>| q@);
    let mut out: Vec<Vec<char>> = Vec::new();
    let mut i: usize = 0;
    while i < parts.len()
        invariant
            i <= parts@.len(),
            pv == parts@.map_values(|q: Vec<char>| q@),
            out@.map_values(|q: Vec<char>| q@) == nonempty_trimmed(pv.take(i as int)),
        decreases parts@.len() - i,
    {
        assert(pv.take(i + 1).drop_last() =~= pv.take(i as int));
        assert(pv.take(i + 1).last() == parts@[i as int]@);
        let p = trimmed(parts[i].as_slice());
        let ghost before = out@.map_values(|q: Vec<char>| q@);
        if p.len() != 0 {
            let ghost v = p@;
            out.push(p);
            assert(out@.map_values(|q: Vec<char>| q@) =~= before + seq![v]);
        } else {
            assert(before + Seq::<Seq<char>>::empty() =~= before);
        }
        i = i + 1;
    }
    assert(pv.take(parts@.len() as int) =~= pv);
    out
}

/// [`bare_arrow_param`].
fn bare_arrow_param_exec(before: &[char]) -> (r: Vec<Vec<char>>)
    ensures
        r@.map_values(|q: Vec<char>| q@) == bare_arrow_param(before@),
{
    let t = trimmed(before);
    let w = word_suffix_exec(&t);
    let b = trimmed(&w);
    let mut r: Vec<Vec<char>> = Vec::new();
    if b.len() == 0 || eq_str(&b, "async") {
        assert(r@.map_values(|q: Vec<char>| q@) =~= Seq::<Seq<char>>::empty());
        r
    } else {
        let ghost v = b@;
        r.push(b);
        assert(r@.map_values(|q: Vec<char>| q@) =~= seq![v]);
        r
    }
}

/// [`arrow_params`].
pub fn arrow_params_exec(line: &[char]) -> (r: Vec<Vec<char>>)
    ensures
        r@.map_values(|q: Vec<char>| q@) == arrow_params(line@),
{
    let arrow = crate::text::pair('=', '>');
    proof {
        reveal_strlit("=>");
        lemma_find(line@, "=>"@);
    }
    assert(arrow@ =~= "=>"@);
    let a = match find_exec(line, &arrow) {
        Some(a) => a,
        None => {
            let e: Vec<Vec<char>> = Vec::new();
            assert(e@.map_values(|q: Vec<char>| q@) =~= Seq::<Seq<char>>::empty());
            return e;
        },
    };
    let n = line.len();
    assert(a <= n);
    let head = slice_chars(line, 0, a);
    assert(head@ =~= line@.take(a as int));
    let before = crate::cpg::line_parser::trim_end_exec(&head);
    let mut close_v: Vec<char> = Vec::new();
    close_v.push(')');
    assert(close_v@ =~= seq![')']);
    let nb = before.len();
    proof {
        lemma_rfind_from(before@, seq![')'], nb - 1);
    }
    match rfind_exec(&before, &close_v) {
        Some(close) => {
            assert(rfind(before@, seq![')']) == rfind_from(before@, seq![')'], nb - 1));
            let pre = slice_chars(&before, 0, close);
            assert(pre@ =~= before@.take(close as int));
            let mut open_v: Vec<char> = Vec::new();
            open_v.push('(');
            assert(open_v@ =~= seq!['(']);
            proof {
                lemma_rfind_from(pre@, seq!['('], pre@.len() - 1);
            }
            match rfind_exec(&pre, &open_v) {
                Some(open) => {
                    assert(rfind(pre@, seq!['(']) == rfind_from(pre@, seq!['('], pre@.len() - 1));
                    let inner = slice_chars(&before, open + 1, close);
                    let parts = split_on_exec(&inner, ',');
                    nonempty_trimmed_exec(&parts)
                },
                None => bare_arrow_param_exec(&before),
            }
        },
        None => bare_arrow_param_exec(&before),
    }
}

/// Reads `line` as an arrow function (see [`js_arrow`]) and returns the new
/// method node's id; adds nothing where it is not one.
pub fn js_arrow_exec(line: &[char], line_no: u32, file: &str, cpg: &mut Cpg) -> (r: Option<u32>)
    ensures
        match js_arrow(old(cpg)@, line@, line_no, file@) {
            Some((g, mid)) => r == Some(mid) && final(cpg)@ == g,
            None => r is None && final(cpg)@ == old(cpg)@,
        },
{
    if !contains_str(line, "=>") {
        return None;
    }
    let lhs = match js_assignment_exec(line) {
        Some((l, _)) => l,
        None => {
            return None;
        },
    };
    let name = js_clean_lhs_exec(&lhs);
    if name.len() == 0 || contains_str(&name, " ") {
        return None;
    }
    let params = arrow_params_exec(line);
    let mid = cpg.add_node(NodeKind::Method {
        name: string_of(&name),
        file: string_of(&crate::text::chars_of(file)),
        line: line_no,
    });
    add_params(&params, mid, cpg);
    Some(mid)
}

/// [`js_param_names`] of the entries `parts`.
fn js_param_names_exec(parts: &Vec<Vec<char>>) -> (r: Vec<Vec<char>>)
    ensures
        r@.map_values(|q: Vec<char>| q@) == js_param_names(parts@.map_values(|q: Vec<char>| q@)),
{
    let ghost pv = parts@.map_values(|q: Vec<char>| q@);
    let mut out: Vec<Vec<char>> = Vec::new();
    let mut i: usize = 0;
    while i < parts.len()
        invariant
            i <= parts@.len(),
            pv == parts@.map_values(|q: Vec<char>| q@),
            out@.map_values(|q: Vec<char>| q@) == js_param_names(pv.take(i as int)),
        decreases parts@.len() - i,
    {
        assert(pv.take(i + 1).drop_last() =~= pv.take(i as int));
        assert(pv.take(i + 1).last() == parts@[i as int]@);
        let t = trimmed(parts[i].as_slice());
        let a = before_char_exec(&t, ':');
        let b = before_char_exec(&a, '=');
        let name = trimmed(&b);
        let ghost before = out@.map_values(|q: Vec<char>| q@);
        if name.len() != 0 {
            let ghost v = name@;
            out.push(name);
            assert(out@.map_values(|q: Vec<char>| q@) =~= before + seq![v]);
        } else {
            assert(before + Seq::<Seq<char>>::empty() =~= before);
        }
        i = i + 1;
    }
    assert(pv.take(parts@.len() as int) =~= pv);
    out
}

/// [`js_signature`]: the name and parameter names of a readable signature.
pub fn js_signature_exec(line: &[char]) -> (r: (Vec<char>, Vec<Vec<char>>))
    requires
        js_sig_ok(line@),
    ensures
        r.0@ == js_signature(line@).0,
        r.1@.map_values(|q: Vec<char>| q@) == js_signature(line@).1,
{
    let a = strip_all_exec(line, "function ");
    let b = trimmed(&a);
    let c = strip_all_exec(&b, "async ");
    let d = strip_all_exec(&c, "function ");
    let l2 = trimmed(&d);
    let n = l2.len();
    proof {
        lemma_find(l2@, seq!['(']);
        lemma_find(l2@, seq![')']);
    }
    let open = find_char(&l2, '(');
    let close = find_char(&l2, ')');
    let paren = match open {
        Some(p) => p,
        None => n,
    };
    let head = slice_chars(&l2, 0, paren);
    assert(head@ =~= l2@.take(paren as int));
    let name = trimmed(&head);
    let params = match (open, close) {
        (Some(o), Some(c)) => {
            assert(l2@.subrange(o as int, o + 1)[0] == l2@[o as int]);
            assert(l2@.subrange(c as int, c + 1)[0] == l2@[c as int]);
            assert(c != o);
            let inner = slice_chars(&l2, o + 1, c);
            let parts = split_on_exec(&inner, ',');
            js_param_names_exec(&parts)
        },
        _ => {
            let e: Vec<Vec<char>> = Vec::new();
            assert(e@.map_values(|q: Vec<char>| q@) =~= Seq::<Seq<char>>::empty());
            e
        },
    };
    (name, params)
}

/// Reads one trimmed statement of a JavaScript function body (see
/// [`js_statement`]) and returns the id of its node.
pub fn js_statement_exec(s: &[char], line: u32, file: &str, cpg: &mut Cpg) -> (r: Option<u32>)
    ensures
        (final(cpg)@, r) == js_statement(old(cpg)@, s@, line, file@),
{
    if s.len() == 0 || starts_with_str(s, "//") || eq_str(s, "{") || eq_str(s, "}") {
        return None;
    }
    if starts_with_str(s, "return") {
        let rid = cpg.add_node(NodeKind::Return { line });
        let stripped = strip_all_exec(s, "return");
        let t = trimmed(&stripped);
        let rest = strip_end_char_exec(&t, ';');
        if rest.len() != 0 {
            attach_expr(Dialect::Js, &rest, line, rid, 0, cpg);
        }
        return Some(rid);
    }
    match js_ctrl_exec(s) {
        Some(kind) => {
            return Some(cpg.add_node(NodeKind::ControlStructure { kind, line }));
        },
        None => {},
    }
    if contains_str(s, "=>") {
        match js_arrow_exec(s, line, file, cpg) {
            Some(mid) => {
                return Some(mid);
            },
            None => {},
        }
    }
    match js_assignment_exec(s) {
        Some((lhs, rhs)) => {
            let clean = js_clean_lhs_exec(&lhs);
            let aid = cpg.add_node(NodeKind::Assignment { lhs: string_of(&clean), line });
            let t = trimmed(&rhs);
            let operand = strip_end_char_exec(&t, ';');
            attach_expr(Dialect::Js, &operand, line, aid, 0, cpg);
            return Some(aid);
        },
        None => {},
    }
    let call = strip_end_char_exec(s, ';');
    try_call(Dialect::Js, &call, line, cpg)
}

/// Builds code property graphs from JavaScript source files.
pub struct JsCpgBuilder;

impl CpgBuilder for JsCpgBuilder {
    open spec fn accepts(&self, source: Seq<char>) -> bool {
        source_ok(Dialect::Js, source)
    }

    fn build(&self, source: &str, filename: &str) -> (g: Cpg)
        ensures
            g@ == source_graph(Dialect::Js, source@, filename@),
    {
        build_js_cpg(source, filename)
    }

    fn language(&self) -> (l: Language)
        ensures
            l == Language::JavaScript,
    {
        Language::JavaScript
    }
}

/// The code property graph of a JavaScript source file (see
/// [`crate::cpg::function_reader::lines_graph`]): for each `function` line and each arrow function a
/// method node with its parameters, and for each statement of the body the
/// statement's node and the nodes of its operands. Requires that every
/// definition line the reader meets has a readable signature.
pub fn build_js_cpg(source: &str, filename: &str) -> (g: Cpg)
    requires
        source_ok(Dialect::Js, source@),
    ensures
        g@ == source_graph(Dialect::Js, source@, filename@),
{
    read_source(Dialect::Js, source, filename)
}

} // verus!
