//! Reading whole source files line by line: function definitions with their
//! bodies, and the statements of each body in order.
use vstd::prelude::*;
use crate::cpg::graph::{Cpg, CpgView, EdgeKind, NodeKind, NodeView};
use crate::cpg::go_builder::{go_sig_ok, go_signature, go_signature_exec, go_statement, go_statement_exec};
use crate::cpg::js_builder::{
    js_arrow, js_arrow_exec, js_sig_ok, js_signature, js_signature_exec, js_statement, js_statement_exec,
};
use crate::cpg::line_parser::{
    add_params, body_indent, body_indent_exec, brace_depth, brace_depth_exec, indent_exec, indent_of,
    params_graph, trimmed, Dialect,
};
use crate::text::{chars_of, lines, lines_of, starts_with, starts_with_str, string_of, trim};

verus! {

// ───────────────────────── model ─────────────────────────

/// The keyword that opens a function definition line.
pub open spec fn fn_keyword(d: Dialect) -> Seq<char> {
    match d {
        Dialect::Go => "func "@,
        Dialect::Js => "function "@,
    }
}

/// The body indentation assumed where a body has no statement line.
pub open spec fn default_indent(d: Dialect) -> nat {
    match d {
        Dialect::Go => 1,
        Dialect::Js => 2,
    }
}

/// Whether a definition line's signature can be read.
pub open spec fn sig_ok(d: Dialect, line: Seq<char>) -> bool {
    match d {
        Dialect::Go => go_sig_ok(line),
        Dialect::Js => js_sig_ok(line),
    }
}

/// The name and parameters of a definition line.
pub open spec fn signature(d: Dialect, line: Seq<char>) -> (Seq<char>, Seq<Seq<char>>) {
    match d {
        Dialect::Go => go_signature(line),
        Dialect::Js => js_signature(line),
    }
}

/// The graph after one statement, with the statement's node id.
pub open spec fn statement(d: Dialect, g: CpgView, s: Seq<char>, line: u32, file: Seq<char>) -> (CpgView, Option<u32>) {
    match d {
        Dialect::Go => go_statement(g, s, line),
        Dialect::Js => js_statement(g, s, line, file),
    }
}

/// The graph after the body lines from `i` on of method `mid`: blank lines
/// are skipped; the body ends on the line where the brace depth drops to 0
/// or at a line indented less than the body (`indent`); every statement node
/// hangs from the method by a syntax edge and follows the previous statement
/// node `prev` by a control-flow edge.
pub open spec fn body_graph(
    d: Dialect,
    g: CpgView,
    ls: Seq<Seq<char>>,
    i: int,
    depth: i64,
    prev: Option<u32>,
    mid: u32,
    indent: nat,
    file: Seq<char>,
) -> CpgView
    decreases ls.len() - i,
{
    if i < 0 || i >= ls.len() {
        g
    } else if trim(ls[i]).len() == 0 {
        body_graph(d, g, ls, i + 1, depth, prev, mid, indent, file)
    } else {
        let depth2 = brace_depth(depth, ls[i]);
        if depth2 <= 0 || (indent_of(ls[i]) < indent && indent > 0) {
            g
        } else {
            let (g2, sid) = statement(d, g, trim(ls[i]), (i + 1) as u32, file);
            match sid {
                Some(s) => {
                    let g3 = g2.with_edge(mid, s, EdgeKind::Ast);
                    let g4 = match prev {
                        Some(p) => g3.with_edge(p, s, EdgeKind::Cfg),
                        None => g3,
                    };
                    body_graph(d, g4, ls, i + 1, depth2, Some(s), mid, indent, file)
                },
                None => body_graph(d, g2, ls, i + 1, depth2, prev, mid, indent, file),
            }
        }
    }
}

/// The line after a body that starts at line `i` (see [`body_graph`]): the
/// line after the one that closes the last brace, or the first line
/// indented less than the body.
pub open spec fn body_end(ls: Seq<Seq<char>>, i: int, depth: i64, indent: nat) -> int
    decreases ls.len() - i,
{
    if i < 0 || i >= ls.len() {
        i
    } else if trim(ls[i]).len() == 0 {
        body_end(ls, i + 1, depth, indent)
    } else {
        let depth2 = brace_depth(depth, ls[i]);
        if depth2 <= 0 {
            i + 1
        } else if indent_of(ls[i]) < indent && indent > 0 {
            i
        } else {
            body_end(ls, i + 1, depth2, indent)
        }
    }
}

/// The graph after the function defined at line `k`: a method node (named
/// by the signature, in `file`, at line `k + 1`), its parameter nodes, and
/// its body.
pub open spec fn fn_graph(d: Dialect, g: CpgView, ls: Seq<Seq<char>>, k: int, file: Seq<char>) -> CpgView {
    let def_line = trim(ls[k]);
    let (name, params) = signature(d, def_line);
    let mid = g.next_id();
    let g1 = params_graph(
        g.with_node(NodeView::Method { name, file, line: (k + 1) as u32 }),
        params,
        0,
        mid,
    );
    body_graph(d, g1, ls, k + 1, brace_depth(0, def_line), None, mid, body_indent(ls, k + 1, default_indent(d)), file)
}

/// The line after the function defined at line `k`.
pub open spec fn fn_end(d: Dialect, ls: Seq<Seq<char>>, k: int) -> int {
    body_end(ls, k + 1, brace_depth(0, trim(ls[k])), body_indent(ls, k + 1, default_indent(d)))
}

/// The graph after the lines from `i` on: a line opening with the function
/// keyword starts a definition, read through its body; in JavaScript any
/// other line may define an arrow function.
pub open spec fn lines_graph(d: Dialect, g: CpgView, ls: Seq<Seq<char>>, i: int, file: Seq<char>) -> CpgView
    decreases ls.len() - i,
{
    if i < 0 || i >= ls.len() {
        g
    } else if starts_with(trim(ls[i]), fn_keyword(d)) {
        let g2 = fn_graph(d, g, ls, i, file);
        if i < fn_end(d, ls, i) <= ls.len() {
            lines_graph(d, g2, ls, fn_end(d, ls, i), file)
        } else {
            g2
        }
    } else {
        let g2 = match d {
            Dialect::Go => g,
            Dialect::Js => match js_arrow(g, trim(ls[i]), (i + 1) as u32, file) {
                Some((g3, _)) => g3,
                None => g,
            },
        };
        lines_graph(d, g2, ls, i + 1, file)
    }
}

/// Whether every definition line that the reader meets from line `i` on has
/// a readable signature.
pub open spec fn defs_ok(d: Dialect, ls: Seq<Seq<char>>, i: int) -> bool
    decreases ls.len() - i,
{
    if i < 0 || i >= ls.len() {
        true
    } else if starts_with(trim(ls[i]), fn_keyword(d)) {
        sig_ok(d, trim(ls[i])) && (i < fn_end(d, ls, i) <= ls.len() ==> defs_ok(d, ls, fn_end(d, ls, i)))
    } else {
        defs_ok(d, ls, i + 1)
    }
}

/// The empty graph.
pub open spec fn empty_graph() -> CpgView {
    CpgView { nodes: Seq::empty(), edges: Seq::empty() }
}

/// The graph of a whole source text (split into lines as `str::lines` does).
pub open spec fn source_graph(d: Dialect, source: Seq<char>, file: Seq<char>) -> CpgView {
    lines_graph(d, empty_graph(), lines(source), 0, file)
}

/// Whether the reader can read a whole source text.
pub open spec fn source_ok(d: Dialect, source: Seq<char>) -> bool {
    defs_ok(d, lines(source), 0)
}

/// A body ends after the line it starts at, or at it.
proof fn lemma_body_end(ls: Seq<Seq<char>>, i: int, depth: i64, indent: nat)
    requires
        0 <= i <= ls.len(),
    ensures
        i <= body_end(ls, i, depth, indent) <= ls.len(),
    decreases ls.len() - i,
{
    if i < ls.len() {
        if trim(ls[i]).len() == 0 {
            lemma_body_end(ls, i + 1, depth, indent);
        } else if brace_depth(depth, ls[i]) > 0 && !(indent_of(ls[i]) < indent && indent > 0) {
            lemma_body_end(ls, i + 1, brace_depth(depth, ls[i]), indent);
        }
    }
}

// ───────────────────────── code ─────────────────────────

/// One statement in the given dialect.
fn statement_exec(d: Dialect, s: &[char], line: u32, file: &str, cpg: &mut Cpg) -> (r: Option<u32>)
    ensures
        (final(cpg)@, r) == statement(d, old(cpg)@, s@, line, file@),
{
    match d {
        Dialect::Go => go_statement_exec(s, line, cpg),
        Dialect::Js => js_statement_exec(s, line, file, cpg),
    }
}

/// Reads the body that starts at line `start` (see [`body_graph`]) and
/// returns the line after it.
fn read_body(
    d: Dialect,
    ls: &Vec<Vec<char>>,
    start: usize,
    depth0: i64,
    mid: u32,
    indent: u128,
    file: &str,
    cpg: &mut Cpg,
) -> (end: usize)
    requires
        start <= ls@.len(),
    ensures
        final(cpg)@ == body_graph(d, old(cpg)@, ls@.map_values(|l: Vec<char>| l@), start as int, depth0, None, mid, indent as nat, file@),
        end == body_end(ls@.map_values(|l: Vec<char>| l@), start as int, depth0, indent as nat),
{
    let ghost lv = ls@.map_values(|l: Vec<char>| l@);
    let n = ls.len();
    let mut i = start;
    let mut depth = depth0;
    let mut prev: Option<u32> = None;
    while i < n
        invariant
            start <= i <= n == ls@.len(),
            lv == ls@.map_values(|l: Vec<char>| l@),
            body_graph(d, cpg@, lv, i as int, depth, prev, mid, indent as nat, file@)
                == body_graph(d, old(cpg)@, lv, start as int, depth0, None, mid, indent as nat, file@),
            body_end(lv, i as int, depth, indent as nat) == body_end(lv, start as int, depth0, indent as nat),
        decreases n - i,
    {
        let raw = ls[i].as_slice();
        assert(lv[i as int] == raw@);
        let t = trimmed(raw);
        if t.len() == 0 {
            i = i + 1;
        } else {
            let depth2 = brace_depth_exec(depth, raw);
            if depth2 <= 0 {
                return i + 1;
            }
            if indent_exec(raw) < indent && indent > 0 {
                return i;
            }
            let line_no = (i + 1) as u32;
            let sid = statement_exec(d, &t, line_no, file, cpg);
            match sid {
                Some(s) => {
                    cpg.add_edge(mid, s, EdgeKind::Ast);
                    match prev {
                        Some(p) => {
                            cpg.add_edge(p, s, EdgeKind::Cfg);
                        },
                        None => {},
                    }
                    prev = Some(s);
                },
                None => {},
            }
            depth = depth2;
            i = i + 1;
        }
    }
    i
}

/// Reads the function defined at line `k` (see [`fn_graph`]) and returns the
/// line after it.
fn read_function(d: Dialect, ls: &Vec<Vec<char>>, k: usize, file: &str, cpg: &mut Cpg) -> (end: usize)
    requires
        k < ls@.len(),
        sig_ok(d, trim(ls@[k as int]@)),
    ensures
        final(cpg)@ == fn_graph(d, old(cpg)@, ls@.map_values(|l: Vec<char>| l@), k as int, file@),
        end == fn_end(d, ls@.map_values(|l: Vec<char>| l@), k as int),
        k < end <= ls@.len(),
{
    let ghost lv = ls@.map_values(|l: Vec<char>| l@);
    let n = ls.len();
    assert(lv[k as int] == ls@[k as int]@);
    let def_line = trimmed(ls[k].as_slice());
    let (name, params) = match d {
        Dialect::Go => go_signature_exec(&def_line),
        Dialect::Js => js_signature_exec(&def_line),
    };
    let mid = cpg.add_node(NodeKind::Method {
        name: string_of(&name),
        file: string_of(&chars_of(file)),
        line: (k + 1) as u32,
    });
    add_params(&params, mid, cpg);
    let default: u128 = match d {
        Dialect::Go => 1,
        Dialect::Js => 2,
    };
    let indent = body_indent_exec(ls, k + 1, default);
    let depth0 = brace_depth_exec(0, &def_line);
    let end = read_body(d, ls, k + 1, depth0, mid, indent, file, cpg);
    proof {
        lemma_body_end(lv, k + 1, depth0, indent as nat);
    }
    end
}

/// Reads every line of `ls` (see [`lines_graph`]).
fn read_lines(d: Dialect, ls: &Vec<Vec<char>>, file: &str, cpg: &mut Cpg)
    requires
        defs_ok(d, ls@.map_values(|l: Vec<char>| l@), 0),
    ensures
        final(cpg)@ == lines_graph(d, old(cpg)@, ls@.map_values(|l: Vec<char>| l@), 0, file@),
{
    let ghost lv = ls@.map_values(|l: Vec<char>| l@);
    let n = ls.len();
    let mut i: usize = 0;
    let kw = match d {
        Dialect::Go => "func ",
        Dialect::Js => "function ",
    };
    while i < n
        invariant
            i <= n == ls@.len(),
            lv == ls@.map_values(|l: Vec<char>| l@),
            kw@ == fn_keyword(d),
            defs_ok(d, lv, i as int),
            lines_graph(d, cpg@, lv, i as int, file@) == lines_graph(d, old(cpg)@, lv, 0, file@),
        decreases n - i,
    {
        assert(lv[i as int] == ls@[i as int]@);
        let t = trimmed(ls[i].as_slice());
        if starts_with_str(&t, kw) {
            let end = read_function(d, ls, i, file, cpg);
            i = end;
        } else {
            match d {
                Dialect::Go => {},
                Dialect::Js => {
                    let line_no = (i + 1) as u32;
                    let _ = js_arrow_exec(&t, line_no, file, cpg);
                },
            }
            i = i + 1;
        }
    }
}

/// The graph of a whole source text in the given dialect (see [`source_graph`]).
pub fn read_source(d: Dialect, source: &str, filename: &str) -> (cpg: Cpg)
    requires
        source_ok(d, source@),
    ensures
        cpg@ == source_graph(d, source@, filename@),
{
    let chars = chars_of(source);
    let ls = lines_of(&chars);
    let mut cpg = Cpg::new();
    assert(cpg@ == empty_graph()) by {
        assert(cpg@.nodes =~= Seq::<(u32, NodeView)>::empty());
        assert(cpg@.edges =~= Seq::<crate::cpg::graph::Edge>::empty());
    }
    read_lines(d, &ls, filename, &mut cpg);
    cpg
}

} // verus!
