//! A code property graph: numbered nodes and labelled edges between them.
use vstd::prelude::*;
use crate::types::Language;

verus! {

/// Kind of a control structure.
#[derive(Debug, Clone, Copy, PartialEq, Eq, Structural)]
pub enum CtrlKind {
    If,
    For,
    While,
    Try,
}

/// Kind of an edge.
#[derive(Debug, Clone, Copy, PartialEq, Eq, Structural)]
pub enum EdgeKind {
    /// Syntactic parent to child.
    Ast,
    /// Control flow from one statement to the next.
    Cfg,
    /// From a call or statement to its `index`-th operand.
    Argument { index: u32 },
}

/// Kind of a node, with what it names and where it stands.
#[derive(Debug, Clone)]
pub enum NodeKind {
    Method { name: String, file: String, line: u32 },
    Parameter { name: String, index: u32 },
    Assignment { lhs: String, line: u32 },
    Call { name: String, line: u32 },
    Literal { value: String, line: u32 },
    Identifier { name: String, line: u32 },
    Return { line: u32 },
    ControlStructure { kind: CtrlKind, line: u32 },
}

/// A node kind with its texts as character sequences.
pub enum NodeView {
    Method { name: Seq<char>, file: Seq<char>, line: u32 },
    Parameter { name: Seq<char>, index: u32 },
    Assignment { lhs: Seq<char>, line: u32 },
    Call { name: Seq<char>, line: u32 },
    Literal { value: Seq<char>, line: u32 },
    Identifier { name: Seq<char>, line: u32 },
    Return { line: u32 },
    ControlStructure { kind: CtrlKind, line: u32 },
}

impl View for NodeKind {
    type V = NodeView;

    open spec fn view(&self) -> NodeView {
        match self {
            NodeKind::Method { name, file, line } => NodeView::Method { name: name@, file: file@, line: *line },
            NodeKind::Parameter { name, index } => NodeView::Parameter { name: name@, index: *index },
            NodeKind::Assignment { lhs, line } => NodeView::Assignment { lhs: lhs@, line: *line },
            NodeKind::Call { name, line } => NodeView::Call { name: name@, line: *line },
            NodeKind::Literal { value, line } => NodeView::Literal { value: value@, line: *line },
            NodeKind::Identifier { name, line } => NodeView::Identifier { name: name@, line: *line },
            NodeKind::Return { line } => NodeView::Return { line: *line },
            NodeKind::ControlStructure { kind, line } => NodeView::ControlStructure { kind: *kind, line: *line },
        }
    }
}

/// An edge: source node, target node, kind.
pub type Edge = (u32, u32, EdgeKind);

/// The abstract graph: nodes with their ids in the order they were added, and
/// edges in the order they were added.
pub struct CpgView {
    pub nodes: Seq<(u32, NodeView)>,
    pub edges: Seq<Edge>,
}

impl CpgView {
    /// The id the next node receives: the number of nodes so far, kept to 32 bits.
    pub open spec fn next_id(self) -> u32 {
        self.nodes.len() as u32
    }

    /// The graph with node `k` added under [`CpgView::next_id`].
    pub open spec fn with_node(self, k: NodeView) -> CpgView {
        CpgView { nodes: self.nodes.push((self.next_id(), k)), edges: self.edges }
    }

    /// The graph with edge `from -> to` of kind `k` added.
    pub open spec fn with_edge(self, from: u32, to: u32, k: EdgeKind) -> CpgView {
        CpgView { nodes: self.nodes, edges: self.edges.push((from, to, k)) }
    }
}

/// A code property graph.
pub struct Cpg {
    nodes: Vec<(u32, NodeKind)>,
    edges: Vec<Edge>,
}

impl View for Cpg {
    type V = CpgView;

    closed spec fn view(&self) -> CpgView {
        CpgView {
            nodes: self.nodes@.map_values(|n: (u32, NodeKind)| (n.0, n.1@)),
            edges: self.edges@,
        }
    }
}

impl Cpg {
    /// An empty graph.
    pub fn new() -> (g: Self)
        ensures
            g@.nodes.len() == 0,
            g@.edges.len() == 0,
    {
        let g = Cpg { nodes: Vec::new(), edges: Vec::new() };
        assert(g@.nodes =~= Seq::<(u32, NodeView)>::empty());
        g
    }

    /// Adds a node and returns its id, the number of nodes before it (kept to
    /// 32 bits).
    pub fn add_node(&mut self, kind: NodeKind) -> (id: u32)
        ensures
            id == old(self)@.next_id(),
            final(self)@ == old(self)@.with_node(kind@),
    {
        let id = self.nodes.len() as u32;
        let ghost before = self.nodes@;
        let ghost kv = kind@;
        self.nodes.push((id, kind));
        assert(self.nodes@.map_values(|n: (u32, NodeKind)| (n.0, n.1@))
            =~= before.map_values(|n: (u32, NodeKind)| (n.0, n.1@)).push((id, kv)));
        id
    }

    /// Adds the edge `from -> to` of kind `kind`.
    pub fn add_edge(&mut self, from: u32, to: u32, kind: EdgeKind)
        ensures
            final(self)@ == old(self)@.with_edge(from, to, kind),
    {
        self.edges.push((from, to, kind));
    }

    /// The number of nodes.
    pub fn node_count(&self) -> (n: usize)
        ensures
            n == self@.nodes.len(),
    {
        self.nodes.len()
    }

    /// The nodes with their ids, in the order they were added.
    pub fn nodes(&self) -> (r: &Vec<(u32, NodeKind)>)
        ensures
            r@.map_values(|n: (u32, NodeKind)| (n.0, n.1@)) == self@.nodes,
    {
        &self.nodes
    }

    /// The edges, in the order they were added.
    pub fn edges(&self) -> (r: &Vec<Edge>)
        ensures
            r@ == self@.edges,
    {
        &self.edges
    }

    /// The edges leaving `id`, in the order they were added.
    pub fn edges_from(&self, id: u32) -> (r: Vec<Edge>)
        ensures
            r@ == self@.edges.filter(|e: Edge| e.0 == id),
    {
        let mut r: Vec<Edge> = Vec::new();
        let mut i: usize = 0;
        while i < self.edges.len()
            invariant
                i <= self.edges@.len(),
                r@ == self.edges@.take(i as int).filter(|e: Edge| e.0 == id),
            decreases self.edges@.len() - i,
        {
            let e = self.edges[i];
            assert(self.edges@.take(i + 1).drop_last() =~= self.edges@.take(i as int));
            assert(self.edges@.take(i + 1).last() == e);
            proof {
                reveal_with_fuel(Seq::<Edge>::filter, 1);
            }
            if e.0 == id {
                r.push(e);
            }
            i = i + 1;
        }
        assert(self.edges@.take(self.edges@.len() as int) =~= self.edges@);
        r
    }
}

/// Builds a code property graph from the source text of one file.
pub trait CpgBuilder {
    /// The source texts this builder can read.
    spec fn accepts(&self, source: Seq<char>) -> bool;

    /// The graph of `source`, whose nodes name `filename` where they name a file.
    fn build(&self, source: &str, filename: &str) -> Cpg
        requires
            self.accepts(source@),
    ;

    /// The language this builder reads.
    fn language(&self) -> Language;
}

} // verus!
