//! The mathematical model of a parsed tree.
//!
//! A tree is the sequence of its nodes in document order. Each node carries
//! its depth, so the shape needs no links: the subtree of a node is the run of
//! deeper nodes that follows it, and its children are the nodes of that run
//! that lie exactly one level down.

use vstd::prelude::*;
use crate::engine::{
    NodeModel, NodeState, XML_CDATA_SECTION_NODE, XML_COMMENT_NODE, XML_ELEMENT_NODE,
    XML_TEXT_NODE,
};
use crate::text::lowercased;

verus! {

/// The sequence lists a forest in document order: it starts at the top
/// level, and no node lies more than one level below the node before it.
pub open spec fn depth_ordered(tree: Seq<NodeModel>) -> bool {
    &&& tree.len() > 0 ==> tree[0].depth == 0
    &&& forall|i: int, j: int|
        0 <= i && j == i + 1 && j < tree.len() ==> (#[trigger] tree[j]).depth <= (
        #[trigger] tree[i]).depth + 1
}

/// Node `j` is node `i` or lies below it, whatever is attached or detached.
pub open spec fn in_subtree(tree: Seq<NodeModel>, i: int, j: int) -> bool {
    &&& 0 <= i <= j < tree.len()
    &&& forall|k: int| i < k <= j ==> (#[trigger] tree[k]).depth > tree[i].depth
}

/// `end` is the position just behind the subtree of node `i`.
pub open spec fn is_extent(tree: Seq<NodeModel>, i: int, end: int) -> bool {
    &&& 0 <= i < end <= tree.len()
    &&& forall|k: int| i < k < end ==> (#[trigger] tree[k]).depth > tree[i].depth
    &&& end < tree.len() ==> tree[end].depth <= tree[i].depth
}

/// Node `c` is a child of node `p`.
pub open spec fn is_child(tree: Seq<NodeModel>, p: int, c: int) -> bool {
    &&& in_subtree(tree, p, c)
    &&& tree[c].depth == tree[p].depth + 1
}

/// Node `j` follows node `i` among the children of one parent (or, at the
/// top level, of the document).
pub open spec fn is_later_sibling(tree: Seq<NodeModel>, i: int, j: int) -> bool {
    &&& 0 <= i < j < tree.len()
    &&& tree[j].depth == tree[i].depth
    &&& forall|k: int| i < k < j ==> (#[trigger] tree[k]).depth >= tree[i].depth
}

/// Node `i` exists: it is a position of the tree and was not destroyed.
pub open spec fn is_live(tree: Seq<NodeModel>, i: int) -> bool {
    &&& 0 <= i < tree.len()
    &&& tree[i].state != NodeState::Destroyed
}

/// Node `i` was detached and not destroyed.
pub open spec fn is_detached(tree: Seq<NodeModel>, i: int) -> bool {
    &&& 0 <= i < tree.len()
    &&& tree[i].state == NodeState::Detached
}

/// Node `i` hangs under its parent.
pub open spec fn is_attached(tree: Seq<NodeModel>, i: int) -> bool {
    &&& 0 <= i < tree.len()
    &&& tree[i].state == NodeState::Attached
}

/// Node `i` is an attached element at the top level: a candidate for the
/// root.
pub open spec fn is_root_candidate(tree: Seq<NodeModel>, i: int) -> bool {
    &&& is_attached(tree, i)
    &&& tree[i].depth == 0
    &&& tree[i].kind == XML_ELEMENT_NODE
}

/// `found` is the root element: the first attached element of the top level,
/// absent where there is none.
pub open spec fn is_root(tree: Seq<NodeModel>, found: Option<int>) -> bool {
    match found {
        Some(r) => is_root_candidate(tree, r) && forall|k: int|
            is_root_candidate(tree, k) ==> r <= k,
        None => forall|k: int| !is_root_candidate(tree, k),
    }
}

/// `found` is the first attached child of node `p`, absent where `p` has no
/// attached child.
pub open spec fn is_first_child(tree: Seq<NodeModel>, p: int, found: Option<int>) -> bool {
    match found {
        Some(c) => is_child(tree, p, c) && is_attached(tree, c) && forall|k: int|
            is_child(tree, p, k) && is_attached(tree, k) ==> c <= k,
        None => forall|k: int| !(is_child(tree, p, k) && is_attached(tree, k)),
    }
}

/// `found` is the next sibling of node `i`: the first attached node that
/// follows it under the same parent. A node that is itself detached has
/// none.
pub open spec fn is_next_sibling(tree: Seq<NodeModel>, i: int, found: Option<int>) -> bool {
    match found {
        Some(s) => is_attached(tree, i) && is_later_sibling(tree, i, s) && is_attached(tree, s)
            && forall|k: int| is_later_sibling(tree, i, k) && is_attached(tree, k) ==> s <= k,
        None => is_attached(tree, i) ==> forall|k: int|
            !(is_later_sibling(tree, i, k) && is_attached(tree, k)),
    }
}

/// The kind carries a name. Text, CDATA sections and comments carry none:
/// what the engine reports as their name is a label of the kind, the same
/// for every node of it.
pub open spec fn carries_name(kind: i32) -> bool {
    kind != XML_TEXT_NODE && kind != XML_CDATA_SECTION_NODE && kind != XML_COMMENT_NODE
}

/// The name of node `i`: for a kind that carries a name, the reported name
/// in ASCII lower case, absent where none was reported; for any other kind,
/// absent.
pub open spec fn name_of(tree: Seq<NodeModel>, i: int) -> Option<Seq<char>> {
    if carries_name(tree[i].kind) {
        match tree[i].name {
            Some(spelled) => Some(lowercased(spelled)),
            None => None,
        }
    } else {
        None
    }
}

/// Node `j` can be reached downward from node `i`: it lies in the subtree of
/// `i`, and it and every node between the two on the way down are attached.
pub open spec fn covers(tree: Seq<NodeModel>, i: int, j: int) -> bool {
    &&& in_subtree(tree, i, j)
    &&& forall|k: int| i < k <= j && #[trigger] in_subtree(tree, k, j) ==> is_attached(tree, k)
}

/// The kind carries text that counts towards the content of the elements
/// above it.
pub open spec fn is_text_kind(kind: i32) -> bool {
    kind == XML_TEXT_NODE || kind == XML_CDATA_SECTION_NODE
}

/// The node's own character data, empty where it has none.
pub open spec fn own_text(node: NodeModel) -> Seq<u8> {
    match node.content {
        Some(bytes) => bytes,
        None => Seq::empty(),
    }
}

/// What node `j` adds to the text of node `i`: its character data where it
/// is a text node that `i` covers, nothing otherwise.
pub open spec fn text_share(tree: Seq<NodeModel>, i: int, j: int) -> Seq<u8> {
    if covers(tree, i, j) && is_text_kind(tree[j].kind) {
        own_text(tree[j])
    } else {
        Seq::empty()
    }
}

/// The text of the descendants of node `i` that stand before position
/// `upto`, in document order.
pub open spec fn text_below(tree: Seq<NodeModel>, i: int, upto: int) -> Seq<u8>
    decreases upto - i,
{
    if upto <= i + 1 {
        Seq::empty()
    } else {
        text_below(tree, i, upto - 1) + text_share(tree, i, upto - 1)
    }
}

/// Positions that node `i` does not cover add nothing to its text.
pub proof fn lemma_text_below_skips(tree: Seq<NodeModel>, i: int, from: int, to: int)
    requires
        i < from <= to,
        forall|m: int| from <= m < to ==> !covers(tree, i, m),
    ensures
        text_below(tree, i, to) == text_below(tree, i, from),
    decreases to - from,
{
    if from < to {
        lemma_text_below_skips(tree, i, from, to - 1);
    }
}

/// `ends` holds, for each node of the tree, the position just behind its
/// subtree.
pub open spec fn are_extents(tree: Seq<NodeModel>, ends: Seq<usize>) -> bool {
    &&& ends.len() == tree.len()
    &&& forall|i: int| 0 <= i < tree.len() ==> is_extent(tree, i, #[trigger] ends[i] as int)
}

/// Extents depend on the depths alone: they are the extents of every tree
/// with as many nodes at the same depths.
pub proof fn lemma_extents_of_same_depths(
    tree: Seq<NodeModel>,
    other: Seq<NodeModel>,
    ends: Seq<usize>,
)
    requires
        are_extents(tree, ends),
        other.len() == tree.len(),
        forall|k: int| 0 <= k < tree.len() ==> (#[trigger] other[k]).depth == tree[k].depth,
    ensures
        are_extents(other, ends),
{
    assert forall|i: int| 0 <= i < other.len() implies is_extent(
        other,
        i,
        #[trigger] ends[i] as int,
    ) by {
        assert(is_extent(tree, i, ends[i] as int));
        assert forall|k: int| i < k < ends[i] implies (#[trigger] other[k]).depth
            > other[i].depth by {
            assert(tree[k].depth > tree[i].depth);
        }
    }
}

/// The content of node `i`: for an element, the text of all the text nodes
/// that it covers, in document order (empty where it covers none); for any
/// other kind, the node's own character data, absent where it has none.
pub open spec fn content_of(tree: Seq<NodeModel>, i: int) -> Option<Seq<u8>> {
    if tree[i].kind == XML_ELEMENT_NODE {
        Some(text_below(tree, i, tree.len() as int))
    } else {
        tree[i].content
    }
}

/// The tree after node `i` was detached: an attached node becomes detached,
/// nothing else changes.
pub open spec fn detached(tree: Seq<NodeModel>, i: int) -> Seq<NodeModel> {
    if is_attached(tree, i) {
        tree.update(i, NodeModel { state: NodeState::Detached, ..tree[i] })
    } else {
        tree
    }
}

/// The tree after node `i` was destroyed: the node is gone and holds
/// nothing, its place in the sequence stays.
pub open spec fn destroyed(tree: Seq<NodeModel>, i: int) -> Seq<NodeModel> {
    tree.update(
        i,
        NodeModel { state: NodeState::Destroyed, name: None, content: None, ..tree[i] },
    )
}

/// The positions below `upto` whose nodes exist, in ascending order: what a
/// teardown has to release.
pub open spec fn live_positions(tree: Seq<NodeModel>, upto: int) -> Seq<int>
    decreases upto,
{
    if upto <= 0 {
        Seq::empty()
    } else if is_live(tree, upto - 1) {
        live_positions(tree, upto - 1).push(upto - 1)
    } else {
        live_positions(tree, upto - 1)
    }
}

/// A list of positions as numbers.
pub open spec fn as_positions(list: Seq<usize>) -> Seq<int> {
    Seq::new(list.len(), |k: int| list[k] as int)
}

} // verus!
