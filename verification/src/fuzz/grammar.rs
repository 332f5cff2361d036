//! Context-free grammars for structured input generation, and the parse
//! trees that generation and grammar-aware mutation work on.
use vstd::prelude::*;
use crate::strmap::StrMap;
use rand::rngs::StdRng;
use rand::Rng;

verus! {

broadcast use vstd::std_specs::vec::group_vec_axioms;

/// A symbol in a grammar production rule.
#[derive(Debug, Clone, PartialEq)]
pub enum Symbol {
    /// A non-terminal symbol referencing another production.
    NonTerminal(String),
    /// A terminal symbol standing for literal text.
    Terminal(String),
}

/// A production rule: `lhs -> alt1 | alt2 | ...`
#[derive(Debug, Clone)]
pub struct Production {
    /// Left-hand side non-terminal name.
    pub lhs: String,
    /// Each alternative is a sequence of symbols.
    pub alternatives: Vec<Vec<Symbol>>,
}

/// A node in a parse tree.
#[derive(Debug, PartialEq)]
pub enum ParseNode {
    /// A leaf holding terminal text.
    Leaf(String),
    /// An interior node with its non-terminal name and children.
    Interior(String, Vec<ParseNode>),
}

/// A context-free grammar.
pub struct Grammar {
    /// The start symbol.
    pub start: String,
    /// The production of each non-terminal, keyed by its name.
    pub productions: StrMap<Production>,
}

// ───────────────────────── parse-tree model ─────────────────────────

/// A parse tree as a mathematical value.
pub enum NodeView {
    Leaf(Seq<char>),
    Interior(Seq<char>, Seq<NodeView>),
}

/// The value a parse tree stands for.
pub open spec fn node_view(n: ParseNode) -> NodeView
    decreases n, 1nat, 0int,
{
    match n {
        ParseNode::Leaf(s) => NodeView::Leaf(s@),
        ParseNode::Interior(name, ch) => NodeView::Interior(name@, children_views(n, ch.len() as int)),
    }
}

/// The values of the first `k` children of `n`.
pub open spec fn children_views(n: ParseNode, k: int) -> Seq<NodeView>
    decreases n, 0nat, k,
{
    match n {
        ParseNode::Leaf(_) => Seq::empty(),
        ParseNode::Interior(_, ch) => if 0 < k <= ch.len() {
            children_views(n, k - 1).push(node_view(ch[k - 1]))
        } else {
            Seq::empty()
        },
    }
}

/// The first `k` children's values are those of the children, in order.
pub proof fn lemma_children_views(n: ParseNode, k: int)
    requires
        n is Interior,
        0 <= k <= n->Interior_1.len(),
    ensures
        children_views(n, k).len() == k,
        forall|j: int| 0 <= j < k ==> #[trigger] children_views(n, k)[j] == node_view(n->Interior_1[j]),
    decreases k,
{
    if k > 0 {
        lemma_children_views(n, k - 1);
    }
}

impl Grammar {
    /// A grammar with start symbol `start` and no productions.
    pub fn new(start: &str) -> (g: Self)
        ensures
            g.start@ == start@,
            g.productions@ == Map::<Seq<char>, Production>::empty(),
    {
        Grammar { start: String::from_str(start), productions: StrMap::new() }
    }

    /// Adds the production `lhs -> alternatives`; when `lhs` already has a
    /// production, the new alternatives are appended to its own.
    pub fn add_production(&mut self, lhs: &str, alternatives: Vec<Vec<Symbol>>)
        ensures
            final(self).start == old(self).start,
            final(self).productions@.dom() == old(self).productions@.dom().insert(lhs@),
            forall|k: Seq<char>|
                k != lhs@ && #[trigger] old(self).productions@.contains_key(k) ==> final(self).productions@[k] == old(self).productions@[k],
            old(self).productions@.contains_key(lhs@) ==> {
                &&& final(self).productions@[lhs@].lhs == old(self).productions@[lhs@].lhs
                &&& final(self).productions@[lhs@].alternatives@ == old(self).productions@[lhs@].alternatives@ + alternatives@
            },
            !old(self).productions@.contains_key(lhs@) ==> {
                &&& final(self).productions@[lhs@].lhs@ == lhs@
                &&& final(self).productions@[lhs@].alternatives@ == alternatives@
            },
    {
        let mut alternatives = alternatives;
        let key = String::from_str(lhs);
        match self.productions.remove(lhs) {
            Some(mut p) => {
                p.alternatives.append(&mut alternatives);
                self.productions.insert(key, p);
            },
            None => {
                let p = Production { lhs: String::from_str(lhs), alternatives };
                self.productions.insert(key, p);
            },
        }
        assert(self.productions@.dom() =~= old(self).productions@.dom().insert(lhs@));
    }
}

// ───────────────────────── generation ─────────────────────────

/// `rand::rngs::StdRng`, a seedable random generator, carried through opaquely.
#[verifier::external_type_specification]
#[verifier::external_body]
pub struct ExStdRng(StdRng);

/// Draws an index below `n`: calls `Rng::gen_range(0..n)` on the generator,
/// which panics on an empty range (hence `n > 0`). Which index comes out is
/// the generator's; only the bound is claimed.
#[verifier::external_body]
fn draw_index(rng: &mut StdRng, n: usize) -> (r: usize)
    requires
        n > 0,
    ensures
        r < n,
{
    rng.gen_range(0..n)
}

/// The text of the terminals of `alt`, in order (non-terminals skipped).
pub open spec fn terminals_text(alt: Seq<Symbol>) -> Seq<char>
    decreases alt.len(),
{
    if alt.len() == 0 {
        Seq::empty()
    } else {
        terminals_text(alt.drop_last()) + match alt.last() {
            Symbol::Terminal(t) => t@,
            Symbol::NonTerminal(_) => Seq::empty(),
        }
    }
}

/// The index of the first shortest alternative among `alts[k..]`, against
/// the best one so far.
pub open spec fn shortest_from(alts: Seq<Vec<Symbol>>, k: int, best: int) -> int
    decreases alts.len() - k,
{
    if k < 0 || k >= alts.len() {
        best
    } else if alts[k]@.len() < alts[best]@.len() {
        shortest_from(alts, k + 1, k)
    } else {
        shortest_from(alts, k + 1, best)
    }
}

/// The index of the first shortest alternative (`Iterator::min_by_key`).
pub open spec fn shortest_index(alts: Seq<Vec<Symbol>>) -> int {
    shortest_from(alts, 1, 0)
}

/// The alternative chosen at position `pos` of the choice stream `cs` among
/// `n` alternatives.
pub open spec fn pick(cs: spec_fn(int) -> nat, pos: int, n: nat) -> int {
    (cs(pos) % n) as int
}

/// The text generated from symbol `sym` with `depth` expansion levels left,
/// reading alternative choices from `cs` at positions `pos, pos + 1, ...`,
/// with the position after the last choice read. An unknown symbol is
/// emitted by name; at depth 0 (or without alternatives) only the terminals
/// of the first shortest alternative are emitted; otherwise one alternative
/// is chosen and its symbols are generated in order one level deeper.
pub open spec fn expand(
    prods: Map<Seq<char>, Production>,
    sym: Seq<char>,
    depth: nat,
    cs: spec_fn(int) -> nat,
    pos: int,
) -> (Seq<char>, int)
    decreases depth as int, 1int, 0int,
{
    if !prods.contains_key(sym) {
        (sym, pos)
    } else {
        let alts = prods[sym].alternatives@;
        if alts.len() == 0 {
            (Seq::empty(), pos)
        } else if depth == 0 {
            (terminals_text(alts[shortest_index(alts)]@), pos)
        } else {
            expand_seq(prods, alts[pick(cs, pos, alts.len())]@, 0, (depth - 1) as nat, cs, pos + 1)
        }
    }
}

/// The text generated from the symbols `alt[k..]` at depth `d` (see [`expand`]).
pub open spec fn expand_seq(
    prods: Map<Seq<char>, Production>,
    alt: Seq<Symbol>,
    k: int,
    d: nat,
    cs: spec_fn(int) -> nat,
    pos: int,
) -> (Seq<char>, int)
    decreases d + 1, 0int, alt.len() - k,
{
    if k < 0 || k >= alt.len() {
        (Seq::empty(), pos)
    } else {
        match alt[k] {
            Symbol::Terminal(t) => {
                let r = expand_seq(prods, alt, k + 1, d, cs, pos);
                (t@ + r.0, r.1)
            },
            Symbol::NonTerminal(nt) => {
                let a = expand(prods, nt@, d, cs, pos);
                let r = expand_seq(prods, alt, k + 1, d, cs, a.1);
                (a.0 + r.0, r.1)
            },
        }
    }
}

/// The choice stream `cs` holds `log` from position `pos` on.
pub open spec fn agrees(cs: spec_fn(int) -> nat, log: Seq<nat>, pos: int) -> bool {
    forall|i: int| 0 <= i < log.len() ==> #[trigger] cs(pos + i) == log[i]
}

impl Grammar {
    /// Generates a random text from the start symbol, with at most
    /// `max_depth` levels of non-terminal expansion (see [`expand`]): `None`
    /// exactly when the start symbol has no production; otherwise the text
    /// generated for some sequence of choices, each drawn from `rng`.
    pub fn generate(&self, rng: &mut StdRng, max_depth: usize) -> (r: Option<String>)
        ensures
            r is None <==> !self.productions@.contains_key(self.start@),
            r matches Some(s) ==> exists|cs: spec_fn(int) -> nat|
                s@ == #[trigger] expand(self.productions@, self.start@, max_depth as nat, cs, 0).0,
    {
        if !self.productions.contains_key(self.start.as_str()) {
            return None;
        }
        let mut out = String::new();
        let ghost empty = out@;
        let log = self.generate_from(self.start.as_str(), rng, max_depth, &mut out, Ghost(0int));
        let ghost cs = |i: int| if 0 <= i < log@.len() { log@[i] } else { 0nat };
        assert(agrees(cs, log@, 0));
        assert(empty =~= Seq::<char>::empty());
        assert(out@ =~= expand(self.productions@, self.start@, max_depth as nat, cs, 0).0);
        Some(out)
    }

    /// Appends the text generated from `sym` (see [`expand`]) to `out` and
    /// returns the choices drawn, read as positions `pos, pos + 1, ...`.
    fn generate_from(
        &self,
        sym: &str,
        rng: &mut StdRng,
        depth: usize,
        out: &mut String,
        Ghost(pos): Ghost<int>,
    ) -> (log: Ghost<Seq<nat>>)
        ensures
            forall|cs: spec_fn(int) -> nat| #[trigger] agrees(cs, log@, pos) ==> {
                &&& final(out)@ == old(out)@ + expand(self.productions@, sym@, depth as nat, cs, pos).0
                &&& expand(self.productions@, sym@, depth as nat, cs, pos).1 == pos + log@.len()
            },
        decreases depth,
    {
        let prod = match self.productions.get(sym) {
            Some(p) => p,
            None => {
                crate::text::append_str(out, sym);
                return Ghost(Seq::empty());
            },
        };
        let alts = &prod.alternatives;
        let n = alts.len();
        if n == 0 {
            return Ghost(Seq::empty());
        }
        if depth == 0 {
            let mut best: usize = 0;
            let mut k: usize = 1;
            while k < n
                invariant
                    1 <= k <= n == alts@.len(),
                    best < n,
                    shortest_from(alts@, k as int, best as int) == shortest_index(alts@),
                decreases n - k,
            {
                if alts[k].len() < alts[best].len() {
                    best = k;
                }
                k = k + 1;
            }
            push_terminals(&alts[best], out);
            return Ghost(Seq::empty());
        }
        let idx = draw_index(rng, n);
        let alt = &alts[idx];
        let ghost start_out = old(out)@;
        let ghost prods = self.productions@;
        let ghost d = (depth - 1) as nat;
        let ghost mut log: Seq<nat> = seq![idx as nat];
        assert forall|cs: spec_fn(int) -> nat| #[trigger] agrees(cs, log, pos) implies
            expand(prods, sym@, depth as nat, cs, pos) == expand_seq(prods, alt@, 0, d, cs, pos + 1) by {
            assert(cs(pos + 0) == log[0]);
            assert(pos + 0 == pos);
            assert(cs(pos) == idx as nat);
            vstd::arithmetic::div_mod::lemma_small_mod(idx as nat, n as nat);
            assert(pick(cs, pos, alts@.len()) == idx as int);
            assert(prods.contains_key(sym@) && prods[sym@] == *prod);
            assert(alts@[idx as int] == *alt);
        }
        let mut k: usize = 0;
        while k < alt.len()
            invariant
                k <= alt@.len(),
                prods == self.productions@,
                d + 1 == depth,
                log.len() >= 1,
                forall|cs: spec_fn(int) -> nat| #[trigger] agrees(cs, log, pos) ==> {
                    &&& expand(prods, sym@, depth as nat, cs, pos) == expand_seq(prods, alt@, 0, d, cs, pos + 1)
                    &&& start_out + expand_seq(prods, alt@, 0, d, cs, pos + 1).0
                        == out@ + expand_seq(prods, alt@, k as int, d, cs, pos + log.len()).0
                    &&& expand_seq(prods, alt@, 0, d, cs, pos + 1).1
                        == expand_seq(prods, alt@, k as int, d, cs, pos + log.len()).1
                },
            decreases alt@.len() - k,
        {
            match &alt[k] {
                Symbol::Terminal(t) => {
                    let ghost before = out@;
                    crate::text::append_str(out, t.as_str());
                    assert forall|cs: spec_fn(int) -> nat| #[trigger] agrees(cs, log, pos) implies
                        before + expand_seq(prods, alt@, k as int, d, cs, pos + log.len()).0
                            == out@ + expand_seq(prods, alt@, k + 1, d, cs, pos + log.len()).0 by {
                        assert(before + (t@ + expand_seq(prods, alt@, k + 1, d, cs, pos + log.len()).0)
                            =~= (before + t@) + expand_seq(prods, alt@, k + 1, d, cs, pos + log.len()).0);
                    }
                },
                Symbol::NonTerminal(nt) => {
                    let ghost before = out@;
                    let ghost p1 = pos + log.len();
                    let clog = self.generate_from(nt.as_str(), rng, depth - 1, out, Ghost(p1));
                    let ghost newlog = log + clog@;
                    assert forall|cs: spec_fn(int) -> nat| #[trigger] agrees(cs, newlog, pos) implies {
                        &&& agrees(cs, log, pos)
                        &&& before + expand_seq(prods, alt@, k as int, d, cs, p1).0
                            == out@ + expand_seq(prods, alt@, k + 1, d, cs, pos + newlog.len()).0
                        &&& expand_seq(prods, alt@, k as int, d, cs, p1).1
                            == expand_seq(prods, alt@, k + 1, d, cs, pos + newlog.len()).1
                    } by {
                        assert forall|i: int| 0 <= i < log.len() implies #[trigger] cs(pos + i) == log[i] by {
                            assert(cs(pos + i) == newlog[i]);
                        }
                        assert forall|i: int| 0 <= i < clog@.len() implies #[trigger] cs(p1 + i) == clog@[i] by {
                            assert(cs(pos + (log.len() + i)) == newlog[log.len() + i]);
                            assert(pos + (log.len() + i) == p1 + i);
                        }
                        assert(agrees(cs, clog@, p1));
                        let a = expand(prods, nt@, d, cs, p1);
                        assert(a.1 == pos + newlog.len());
                        assert(before + (a.0 + expand_seq(prods, alt@, k + 1, d, cs, a.1).0)
                            =~= (before + a.0) + expand_seq(prods, alt@, k + 1, d, cs, a.1).0);
                    }
                    proof {
                        log = newlog;
                    }
                },
            }
            k = k + 1;
        }
        Ghost(log)
    }
}

/// Appends the terminals of `alt` to `out`, in order.
fn push_terminals(alt: &Vec<Symbol>, out: &mut String)
    ensures
        final(out)@ == old(out)@ + terminals_text(alt@),
{
    let mut k: usize = 0;
    while k < alt.len()
        invariant
            k <= alt@.len(),
            out@ == old(out)@ + terminals_text(alt@.take(k as int)),
        decreases alt@.len() - k,
    {
        assert(alt@.take(k + 1).drop_last() =~= alt@.take(k as int));
        assert(alt@.take(k + 1).last() == alt@[k as int]);
        let ghost before = out@;
        match &alt[k] {
            Symbol::Terminal(t) => {
                crate::text::append_str(out, t.as_str());
            },
            Symbol::NonTerminal(_) => {},
        }
        assert(out@ =~= old(out)@ + terminals_text(alt@.take(k + 1)));
        k = k + 1;
    }
    assert(alt@.take(alt@.len() as int) =~= alt@);
}

} // verus!
