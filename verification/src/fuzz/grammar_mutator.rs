//! Grammar-aware mutation: parse trees measured, flattened back to text, and
//! changed by swapping subtrees.
use vstd::prelude::*;
use crate::fuzz::grammar::{children_views, lemma_children_views, node_view, NodeView, ParseNode};
use crate::text::{chars_of, push_all, string_of};

verus! {

broadcast use vstd::std_specs::vec::group_vec_axioms;

// ───────────────────────── model ─────────────────────────

/// Number of nodes of a tree.
pub open spec fn view_count(v: NodeView) -> nat
    decreases v,
{
    match v {
        NodeView::Leaf(_) => 1,
        NodeView::Interior(_, ch) => 1 + forest_count(ch),
    }
}

/// Number of nodes of a list of trees.
pub open spec fn forest_count(s: Seq<NodeView>) -> nat
    decreases s,
{
    if s.len() == 0 {
        0
    } else {
        forest_count(s.drop_last()) + view_count(s.last())
    }
}

/// The leaves of a tree, concatenated left to right.
pub open spec fn view_text(v: NodeView) -> Seq<char>
    decreases v,
{
    match v {
        NodeView::Leaf(s) => s,
        NodeView::Interior(_, ch) => forest_text(ch),
    }
}

/// The leaves of a list of trees, concatenated left to right.
pub open spec fn forest_text(s: Seq<NodeView>) -> Seq<char>
    decreases s,
{
    if s.len() == 0 {
        Seq::empty()
    } else {
        forest_text(s.drop_last()) + view_text(s.last())
    }
}

/// A tree with its `i`-th top-level child replaced by `r` (a leaf, or an
/// index past the children, is left as it is).
pub open spec fn replaced(v: NodeView, i: int, r: NodeView) -> NodeView {
    match v {
        NodeView::Leaf(s) => NodeView::Leaf(s),
        NodeView::Interior(name, ch) => NodeView::Interior(
            name,
            if 0 <= i < ch.len() {
                ch.update(i, r)
            } else {
                ch
            },
        ),
    }
}

/// A prefix of a list of trees has no more nodes than the list.
proof fn lemma_forest_count_prefix(s: Seq<NodeView>, k: int)
    requires
        0 <= k <= s.len(),
    ensures
        forest_count(s.subrange(0, k)) <= forest_count(s),
    decreases s.len() - k,
{
    if k < s.len() {
        lemma_forest_count_prefix(s, k + 1);
        assert(s.subrange(0, k + 1).drop_last() =~= s.subrange(0, k));
    } else {
        assert(s.subrange(0, k) =~= s);
    }
}

// ───────────────────────── code ─────────────────────────

/// Counts the nodes of a parse tree.
pub fn count_nodes(node: &ParseNode) -> (n: usize)
    requires
        view_count(node_view(*node)) <= usize::MAX,
    ensures
        n == view_count(node_view(*node)),
    decreases node,
{
    match node {
        ParseNode::Leaf(_) => 1,
        ParseNode::Interior(_, children) => {
            let ghost full = children_views(*node, children@.len() as int);
            proof {
                lemma_children_views(*node, children@.len() as int);
            }
            let mut total: usize = 1;
            let mut i: usize = 0;
            while i < children.len()
                invariant
                    *node is Interior,
                    children == node->Interior_1,
                    i <= children@.len(),
                    full == children_views(*node, children@.len() as int),
                    full.len() == children@.len(),
                    forall|j: int| 0 <= j < children@.len() ==> #[trigger] full[j] == node_view(children@[j]),
                    view_count(node_view(*node)) == 1 + forest_count(full),
                    view_count(node_view(*node)) <= usize::MAX,
                    total == 1 + forest_count(full.subrange(0, i as int)),
                decreases children@.len() - i,
            {
                proof {
                    lemma_forest_count_prefix(full, i + 1);
                    assert(full.subrange(0, i + 1).drop_last() =~= full.subrange(0, i as int));
                    assert(full.subrange(0, i + 1).last() == node_view(children@[i as int]));
                    assert(forest_count(node_view(children@[i as int])->Interior_1) >= 0 || true);
                }
                let c = count_nodes(&children[i]);
                total = total + c;
                i = i + 1;
            }
            assert(full.subrange(0, i as int) =~= full);
            total
        },
    }
}

/// Flattens a parse tree back to text: its leaves concatenated left to right.
pub fn flatten_tree(node: &ParseNode) -> (s: String)
    ensures
        s@ == view_text(node_view(*node)),
    decreases node,
{
    match node {
        ParseNode::Leaf(s) => String::from_str(s.as_str()),
        ParseNode::Interior(_, children) => {
            let ghost full = children_views(*node, children@.len() as int);
            proof {
                lemma_children_views(*node, children@.len() as int);
            }
            let mut out: Vec<char> = Vec::new();
            let mut i: usize = 0;
            while i < children.len()
                invariant
                    *node is Interior,
                    children == node->Interior_1,
                    i <= children@.len(),
                    full == children_views(*node, children@.len() as int),
                    full.len() == children@.len(),
                    forall|j: int| 0 <= j < children@.len() ==> #[trigger] full[j] == node_view(children@[j]),
                    out@ == forest_text(full.subrange(0, i as int)),
                decreases children@.len() - i,
            {
                proof {
                    assert(full.subrange(0, i + 1).drop_last() =~= full.subrange(0, i as int));
                    assert(full.subrange(0, i + 1).last() == node_view(children@[i as int]));
                }
                let t = flatten_tree(&children[i]);
                push_all(&mut out, &chars_of(t.as_str()));
                i = i + 1;
            }
            assert(full.subrange(0, i as int) =~= full);
            string_of(&out)
        },
    }
}

/// A copy of a parse tree.
pub fn copy_node(node: &ParseNode) -> (c: ParseNode)
    ensures
        node_view(c) == node_view(*node),
    decreases node,
{
    match node {
        ParseNode::Leaf(s) => ParseNode::Leaf(String::from_str(s.as_str())),
        ParseNode::Interior(name, children) => {
            let v = copy_children(node, children.len());
            let c = ParseNode::Interior(String::from_str(name.as_str()), v);
            proof {
                lemma_children_views(*node, children@.len() as int);
                lemma_children_views(c, children@.len() as int);
                assert(children_views(c, children@.len() as int) =~= children_views(
                    *node,
                    children@.len() as int,
                ));
            }
            c
        },
    }
}

/// Copies of the first `k` children of an interior node.
fn copy_children(node: &ParseNode, k: usize) -> (v: Vec<ParseNode>)
    requires
        *node is Interior,
        k <= node->Interior_1@.len(),
    ensures
        v@.len() == k,
        forall|j: int| 0 <= j < k ==> #[trigger] node_view(v@[j]) == node_view(node->Interior_1@[j]),
    decreases node, k,
{
    match node {
        ParseNode::Interior(_, children) => {
            let mut v: Vec<ParseNode> = Vec::new();
            let mut i: usize = 0;
            while i < k
                invariant
                    *node is Interior,
                    children == node->Interior_1,
                    i <= k <= children@.len(),
                    v@.len() == i,
                    forall|j: int| 0 <= j < i ==> #[trigger] node_view(v@[j]) == node_view(children@[j]),
                decreases k - i,
            {
                let c = copy_node(&children[i]);
                v.push(c);
                i = i + 1;
            }
            v
        },
        ParseNode::Leaf(_) => Vec::new(),
    }
}

/// Replaces the top-level child at `child_index` of an interior node with a
/// copy of `replacement`; a leaf, or an index past the children, gives a copy
/// of `node`.
pub fn replace_subtree(node: &ParseNode, child_index: usize, replacement: &ParseNode) -> (r: ParseNode)
    ensures
        node_view(r) == replaced(node_view(*node), child_index as int, node_view(*replacement)),
{
    match node {
        ParseNode::Leaf(s) => ParseNode::Leaf(String::from_str(s.as_str())),
        ParseNode::Interior(name, children) => {
            proof {
                lemma_children_views(*node, children@.len() as int);
            }
            let mut v: Vec<ParseNode> = Vec::new();
            let mut i: usize = 0;
            while i < children.len()
                invariant
                    *node is Interior,
                    children == node->Interior_1,
                    i <= children@.len(),
                    v@.len() == i,
                    forall|j: int|
                        0 <= j < i ==> #[trigger] node_view(v@[j]) == (if j == child_index {
                            node_view(*replacement)
                        } else {
                            node_view(children@[j])
                        }),
                decreases children@.len() - i,
            {
                if i == child_index {
                    v.push(copy_node(replacement));
                } else {
                    v.push(copy_node(&children[i]));
                }
                i = i + 1;
            }
            let r = ParseNode::Interior(String::from_str(name.as_str()), v);
            proof {
                lemma_children_views(r, children@.len() as int);
                let ch = children_views(*node, children@.len() as int);
                let expect = if 0 <= child_index < ch.len() {
                    ch.update(child_index as int, node_view(*replacement))
                } else {
                    ch
                };
                assert(children_views(r, children@.len() as int) =~= expect);
            }
            r
        },
    }
}

} // verus!
