//! What holds of the tree operations taken together.

use vstd::prelude::*;
use crate::engine::{
    reported_tree, EngineNode, NodeModel, XML_ELEMENT_NODE, XML_ENTITY_REF_NODE,
};
use crate::tree::{
    content_of, covers, depth_ordered, destroyed, detached, in_subtree, is_attached, is_child,
    is_detached, is_first_child, is_live, is_next_sibling, is_root, is_text_kind, live_positions,
    text_below, text_share,
};

use crate::walk::{
    followed_forest, followed_tree, listed_forest, listed_tree, onward, EngineTree,
};

verus! {

/// A list in document order is a forest: every node below the top level
/// has a parent.
pub proof fn lemma_parent_exists(tree: Seq<NodeModel>, j: int) -> (p: int)
    requires
        depth_ordered(tree),
        0 <= j < tree.len(),
        tree[j].depth > 0,
    ensures
        is_child(tree, p, j),
{
    lemma_nearest_shallower(tree, j, j - 1)
}

/// Searching backward from position `k`, finds the parent of node `j`: the
/// nearest node before it that lies less deep.
proof fn lemma_nearest_shallower(tree: Seq<NodeModel>, j: int, k: int) -> (p: int)
    requires
        depth_ordered(tree),
        0 <= k < j < tree.len(),
        tree[j].depth > 0,
        forall|m: int| k < m <= j ==> (#[trigger] tree[m]).depth >= tree[j].depth,
    ensures
        is_child(tree, p, j),
    decreases k,
{
    if tree[k].depth < tree[j].depth {
        assert(tree[k + 1].depth <= tree[k].depth + 1);
        k
    } else {
        lemma_nearest_shallower(tree, j, k - 1)
    }
}

/// No node has two parents.
pub proof fn lemma_parent_unique(tree: Seq<NodeModel>, p: int, q: int, j: int)
    requires
        is_child(tree, p, j),
        is_child(tree, q, j),
    ensures
        p == q,
{
}

/// One step of a traversal: from node `from` to what `children()` or
/// `next()` yields for it.
pub open spec fn is_step(tree: Seq<NodeModel>, from: int, to: int) -> bool {
    is_first_child(tree, from, Some(to)) || is_next_sibling(tree, from, Some(to))
}

/// A traversal: every node of the walk but the first is reached from the
/// one before it by one step.
pub open spec fn is_walk(tree: Seq<NodeModel>, walk: Seq<int>) -> bool {
    forall|s: int, t: int|
        0 <= s && t == s + 1 && t < walk.len() ==> is_step(tree, #[trigger] walk[s], #[trigger] walk[t])
}

/// A step never enters the subtree of a node that is not attached: what it
/// reaches from outside that subtree lies outside it too.
proof fn lemma_step_stays_outside(tree: Seq<NodeModel>, node: int, from: int, to: int)
    requires
        0 <= node < tree.len(),
        !is_attached(tree, node),
        0 <= from,
        is_step(tree, from, to),
        !in_subtree(tree, node, from),
    ensures
        !in_subtree(tree, node, to),
{
}

/// No traversal enters the subtree of a node that is not attached: a walk
/// that starts outside it stays outside it.
pub proof fn lemma_walk_stays_outside(tree: Seq<NodeModel>, node: int, walk: Seq<int>, t: int)
    requires
        0 <= node < tree.len(),
        !is_attached(tree, node),
        is_walk(tree, walk),
        walk.len() > 0,
        0 <= walk[0],
        !in_subtree(tree, node, walk[0]),
        0 <= t < walk.len(),
    ensures
        !in_subtree(tree, node, walk[t]),
    decreases t,
{
    if t > 0 {
        lemma_walk_stays_outside(tree, node, walk, t - 1);
        lemma_step_stays_outside(tree, node, walk[t - 1], walk[t]);
    }
}

/// Once a node is detached, no traversal that starts at its former parent
/// meets the node or anything below it.
pub proof fn lemma_detached_subtree_unreachable(
    tree: Seq<NodeModel>,
    parent: int,
    node: int,
    walk: Seq<int>,
    t: int,
)
    requires
        is_child(tree, parent, node),
        is_live(tree, node),
        walk.len() > 0,
        walk[0] == parent,
        is_walk(detached(tree, node), walk),
        0 <= t < walk.len(),
    ensures
        !in_subtree(detached(tree, node), node, walk[t]),
{
    lemma_detach_keeps_subtrees(tree, node, node, parent);
    lemma_walk_stays_outside(detached(tree, node), node, walk, t);
}

/// Once a node is detached, no traversal that starts at the root of the
/// document meets the node or anything below it.
pub proof fn lemma_detached_subtree_unreachable_from_root(
    tree: Seq<NodeModel>,
    node: int,
    walk: Seq<int>,
    t: int,
)
    requires
        is_live(tree, node),
        walk.len() > 0,
        is_root(detached(tree, node), Some(walk[0])),
        is_walk(detached(tree, node), walk),
        0 <= t < walk.len(),
    ensures
        !in_subtree(detached(tree, node), node, walk[t]),
{
    lemma_walk_stays_outside(detached(tree, node), node, walk, t);
}

/// Detaching a node moves nothing: every subtree holds the positions that
/// it held before.
pub proof fn lemma_detach_keeps_subtrees(tree: Seq<NodeModel>, node: int, i: int, j: int)
    ensures
        in_subtree(detached(tree, node), i, j) == in_subtree(tree, i, j),
{
    let after = detached(tree, node);
    if in_subtree(after, i, j) {
        assert forall|k: int| i < k <= j implies (#[trigger] tree[k]).depth > tree[i].depth by {
            assert(after[k].depth > after[i].depth);
        }
    }
}

/// A teardown releases exactly the nodes that exist, each of them once:
/// the positions it releases are the live ones, in ascending order.
pub proof fn lemma_teardown_releases_live_once(tree: Seq<NodeModel>, upto: int)
    requires
        0 <= upto <= tree.len(),
    ensures
        forall|p: int|
            #[trigger] live_positions(tree, upto).contains(p) <==> 0 <= p < upto && is_live(
                tree,
                p,
            ),
        forall|a: int, b: int|
            0 <= a < b < live_positions(tree, upto).len() ==> #[trigger] live_positions(
                tree,
                upto,
            )[a] < #[trigger] live_positions(tree, upto)[b],
        live_positions(tree, upto).no_duplicates(),
    decreases upto,
{
    let list = live_positions(tree, upto);
    if upto > 0 {
        let shorter = live_positions(tree, upto - 1);
        lemma_teardown_releases_live_once(tree, upto - 1);
        if is_live(tree, upto - 1) {
            assert forall|p: int| #[trigger] list.contains(p) <==> 0 <= p < upto && is_live(
                tree,
                p,
            ) by {
                if list.contains(p) {
                    let at = choose|at: int| 0 <= at < list.len() && list[at] == p;
                    if at < shorter.len() {
                        assert(shorter.contains(p));
                    }
                }
                if 0 <= p < upto && is_live(tree, p) {
                    if p == upto - 1 {
                        assert(list[shorter.len() as int] == p);
                    } else {
                        assert(shorter.contains(p));
                        let at = choose|at: int| 0 <= at < shorter.len() && shorter[at] == p;
                        assert(list[at] == p);
                    }
                }
            }
            assert forall|a: int, b: int| 0 <= a < b < list.len() implies #[trigger] list[a]
                < #[trigger] list[b] by {
                assert(shorter.contains(shorter[a]));
            }
        }
    }
}

/// No node is released twice. A node that was destroyed is not among those
/// that a later teardown releases, and destroying it takes nothing else
/// from the teardown and adds nothing to it.
pub proof fn lemma_destroyed_not_released_again(tree: Seq<NodeModel>, node: int)
    requires
        is_detached(tree, node),
    ensures
        live_positions(tree, tree.len() as int).contains(node),
        !live_positions(destroyed(tree, node), tree.len() as int).contains(node),
        forall|p: int|
            p != node ==> (live_positions(destroyed(tree, node), tree.len() as int).contains(p)
                <==> live_positions(tree, tree.len() as int).contains(p)),
        live_positions(destroyed(tree, node), tree.len() as int).no_duplicates(),
{
    let after = destroyed(tree, node);
    lemma_teardown_releases_live_once(tree, tree.len() as int);
    lemma_teardown_releases_live_once(after, tree.len() as int);
}

/// A freshly parsed document is whole and owes nothing to any other
/// document: its tree is the one reported for it, every node is attached,
/// and its teardown releases every position, each once.
pub proof fn lemma_parsed_document_whole(nodes: Seq<EngineNode>)
    ensures
        forall|i: int| 0 <= i < nodes.len() ==> is_attached(reported_tree(nodes), i),
        live_positions(reported_tree(nodes), nodes.len() as int) =~= Seq::new(
            nodes.len(),
            |i: int| i,
        ),
{
    let tree = reported_tree(nodes);
    lemma_all_live(tree, nodes.len() as int);
}

/// Where every node below `upto` exists, a teardown releases all of them.
proof fn lemma_all_live(tree: Seq<NodeModel>, upto: int)
    requires
        0 <= upto <= tree.len(),
        forall|i: int| 0 <= i < upto ==> is_live(tree, i),
    ensures
        live_positions(tree, upto) =~= Seq::new(upto as nat, |i: int| i),
    decreases upto,
{
    if upto > 0 {
        lemma_all_live(tree, upto - 1);
    }
}

/// An element that covers no text node has the empty content, not an absent
/// one.
pub proof fn lemma_element_without_text_is_empty(tree: Seq<NodeModel>, i: int)
    requires
        0 <= i < tree.len(),
        tree[i].kind == XML_ELEMENT_NODE,
        forall|j: int| covers(tree, i, j) && j != i ==> !is_text_kind(tree[j].kind),
    ensures
        content_of(tree, i) == Some(Seq::<u8>::empty()),
{
    lemma_no_text_below(tree, i, tree.len() as int);
}

/// Where no text node is covered, no text is gathered.
proof fn lemma_no_text_below(tree: Seq<NodeModel>, i: int, upto: int)
    requires
        forall|j: int| covers(tree, i, j) && j != i ==> !is_text_kind(tree[j].kind),
    ensures
        text_below(tree, i, upto) == Seq::<u8>::empty(),
    decreases upto - i,
{
    if upto > i + 1 {
        lemma_no_text_below(tree, i, upto - 1);
    }
}

/// Detaching frees nothing: a teardown after it releases what a teardown
/// before it would have released.
pub proof fn lemma_detach_frees_nothing(tree: Seq<NodeModel>, node: int, upto: int)
    ensures
        live_positions(detached(tree, node), upto) == live_positions(tree, upto),
    decreases upto,
{
    if upto > 0 {
        lemma_detach_frees_nothing(tree, node, upto - 1);
    }
}

/// Detaching a node changes the content of the nodes above it and of no
/// other: the node itself, what hangs under it and every node beside it
/// keep their content.
pub proof fn lemma_detach_keeps_content_elsewhere(tree: Seq<NodeModel>, node: int, i: int)
    requires
        0 <= i < tree.len(),
        !(i < node && in_subtree(tree, i, node)),
    ensures
        content_of(detached(tree, node), i) == content_of(tree, i),
{
    lemma_detach_keeps_text(tree, node, i, tree.len() as int);
}

/// Detaching a node that does not lie below node `i` leaves the text below
/// `i` as it was.
proof fn lemma_detach_keeps_text(tree: Seq<NodeModel>, node: int, i: int, upto: int)
    requires
        0 <= i < tree.len(),
        !(i < node && in_subtree(tree, i, node)),
    ensures
        text_below(detached(tree, node), i, upto) == text_below(tree, i, upto),
    decreases upto - i,
{
    let after = detached(tree, node);
    if upto > i + 1 {
        let j = upto - 1;
        lemma_detach_keeps_text(tree, node, i, j);
        lemma_detach_keeps_subtrees(tree, node, i, j);
        if in_subtree(tree, i, j) {
            assert forall|k: int| i < k <= j implies in_subtree(after, k, j) == in_subtree(
                tree,
                k,
                j,
            ) by {
                lemma_detach_keeps_subtrees(tree, node, k, j);
            }
        }
    }
}

/// A caller who follows the walk through a tree records the list of the
/// tree, and is then sent where it would be sent from a node without
/// children: on to the next sibling, else up, else nowhere.
pub proof fn lemma_followed_tree_is_listed(tree: EngineTree, depth: nat, has_next: bool)
    ensures
        followed_tree(tree, depth, has_next) == (
            listed_tree(tree, depth),
            onward(depth, has_next).0,
            onward(depth, has_next).1,
        ),
    decreases tree, 0nat,
{
    if tree.children.len() > 0 && tree.kind != XML_ENTITY_REF_NODE {
        lemma_followed_forest_is_listed(tree.children, 0, depth + 1);
    }
}

/// A caller who follows the walk through a forest records the list of the
/// forest. From a forest below the top level it is sent back to the parent;
/// from the top level, nowhere: the walk is over.
pub proof fn lemma_followed_forest_is_listed(forest: Seq<EngineTree>, from: int, depth: nat)
    requires
        0 <= from < forest.len(),
    ensures
        followed_forest(forest, from, depth) == (
            listed_forest(forest, from, depth),
            onward(depth, false).0,
            onward(depth, false).1,
        ),
    decreases forest, forest.len() - from,
{
    lemma_followed_tree_is_listed(forest[from], depth, from + 1 < forest.len());
    if from + 1 < forest.len() {
        lemma_followed_forest_is_listed(forest, from + 1, depth);
    } else {
        assert(listed_forest(forest, from + 1, depth) =~= Seq::<NodeModel>::empty());
        assert(listed_tree(forest[from], depth) + Seq::<NodeModel>::empty() =~= listed_tree(
            forest[from],
            depth,
        ));
    }
}

} // verus!
