//! The walk over the engine's tree that produces the report of a parse.
//!
//! The engine's tree can only be read node by node, through its links. The
//! caller does the reading; the walk decides where to go next, tracks the
//! depth, and keeps the record. From a node it goes down where it can, else
//! on to the next sibling, else up. Whatever it is shown, what it records is
//! a list in document order, of which a document can be made; and a caller
//! who follows it through a tree has recorded that tree, node by node, when
//! the walk is over.

use vstd::prelude::*;
use crate::engine::{
    bytes_of, chars_of, reported_tree, EngineNode, NodeModel, NodeState, XML_ENTITY_REF_NODE,
};
use crate::tree::depth_ordered;

verus! {

/// Where the caller moves next.
#[derive(Clone, Copy, Debug, PartialEq, Eq, Structural)]
pub enum Step {
    /// To the first child of the current node, and visit it.
    FirstChild,
    /// To the next sibling of the current node, and visit it.
    NextSibling,
    /// To the parent of the current node, and leave it.
    Parent,
    /// Nowhere: the walk is over.
    Done,
}

/// Where a walk goes once the current node and everything under it are
/// recorded: on to the next sibling where there is one, otherwise up, and
/// nowhere from the top level.
pub open spec fn onward(depth: nat, has_next: bool) -> (Step, nat) {
    if has_next {
        (Step::NextSibling, depth)
    } else if depth == 0 {
        (Step::Done, 0nat)
    } else {
        (Step::Parent, (depth - 1) as nat)
    }
}

/// Where a walk goes from a node that it has just recorded at `depth`: down
/// where the node has children to walk, otherwise onward. What hangs under
/// an entity reference belongs to the entity's declaration, not to the place
/// of the reference, so the walk does not descend into one.
pub open spec fn after_visit(kind: i32, depth: nat, has_child: bool, has_next: bool) -> (
    Step,
    nat,
) {
    if has_child && kind != XML_ENTITY_REF_NODE {
        (Step::FirstChild, depth + 1)
    } else {
        onward(depth, has_next)
    }
}

/// A walk in progress: the nodes recorded so far, and the depth of the node
/// to which the caller was sent last.
#[derive(Debug)]
pub struct Walk {
    nodes: Vec<EngineNode>,
    depth: usize,
}

impl Walk {
    /// The tree recorded so far.
    pub closed spec fn report(&self) -> Seq<NodeModel> {
        reported_tree(self.nodes@)
    }

    /// The depth of the node to which the caller was sent last: 0 at the
    /// start.
    pub closed spec fn depth(&self) -> nat {
        self.depth as nat
    }

    /// The record is in document order, and a node visited next would extend
    /// it in document order. Every walk that this library hands out is well
    /// formed, and every operation keeps it so.
    pub open spec fn wf(&self) -> bool {
        &&& depth_ordered(self.report())
        &&& self.depth() <= self.report().len()
        &&& self.report().len() > 0 ==> self.depth() <= self.report().last().depth + 1
    }

    /// A walk that stands before the first node of the top level.
    pub fn new() -> (walk: Walk)
        ensures
            walk.wf(),
            walk.report() == Seq::<NodeModel>::empty(),
            walk.depth() == 0,
    {
        let walk = Walk { nodes: Vec::new(), depth: 0 };
        assert(walk.report() =~= Seq::<NodeModel>::empty());
        walk
    }

    /// Visits the node to which the caller was sent: records what the engine
    /// shows of it, at the current depth, and says where to go next.
    pub fn visit(
        &mut self,
        kind: i32,
        name: Option<String>,
        content: Option<Vec<u8>>,
        has_child: bool,
        has_next: bool,
    ) -> (step: Step)
        requires
            old(self).wf(),
        ensures
            final(self).wf(),
            final(self).report() == old(self).report().push(
                NodeModel {
                    kind,
                    name: chars_of(name),
                    content: bytes_of(content),
                    depth: old(self).depth(),
                    state: NodeState::Attached,
                },
            ),
            (step, final(self).depth()) == after_visit(
                kind,
                old(self).depth(),
                has_child,
                has_next,
            ),
    {
        let depth: usize = self.depth;
        self.nodes.push(EngineNode { kind, name, content, depth });
        let recorded: usize = self.nodes.len();
        proof {
            assert(self.report() =~= old(self).report().push(
                NodeModel {
                    kind,
                    name: chars_of(name),
                    content: bytes_of(content),
                    depth: depth as nat,
                    state: NodeState::Attached,
                },
            ));
            assert(depth < recorded);
        }
        if has_child && kind != XML_ENTITY_REF_NODE {
            self.depth = depth + 1;
            Step::FirstChild
        } else {
            self.leave(has_next)
        }
    }

    /// Leaves the node to which the caller was sent back, now that
    /// everything under it is recorded, and says where to go next.
    pub fn leave(&mut self, has_next: bool) -> (step: Step)
        requires
            old(self).wf(),
        ensures
            final(self).wf(),
            final(self).report() == old(self).report(),
            (step, final(self).depth()) == onward(old(self).depth(), has_next),
    {
        if has_next {
            Step::NextSibling
        } else if self.depth == 0 {
            Step::Done
        } else {
            self.depth = self.depth - 1;
            Step::Parent
        }
    }

    /// Ends the walk and hands out the record, which is in document order:
    /// a document can always be made of it.
    pub fn finish(self) -> (nodes: Vec<EngineNode>)
        requires
            self.wf(),
        ensures
            reported_tree(nodes@) == self.report(),
            depth_ordered(reported_tree(nodes@)),
    {
        self.nodes
    }
}

/// A tree as the engine holds it: what it shows of a node, and the trees
/// that hang under the node, in their order.
pub struct EngineTree {
    /// The node's kind code.
    pub kind: i32,
    /// The node's name.
    pub name: Option<Seq<char>>,
    /// The node's own character data.
    pub content: Option<Seq<u8>>,
    /// What hangs under the node.
    pub children: Seq<EngineTree>,
}

/// The list of a tree whose root lies at `depth`: the root, then the list of
/// what hangs under it, one level further down. Nothing is listed under an
/// entity reference.
pub open spec fn listed_tree(tree: EngineTree, depth: nat) -> Seq<NodeModel>
    decreases tree, 0nat,
{
    let root = NodeModel {
        kind: tree.kind,
        name: tree.name,
        content: tree.content,
        depth,
        state: NodeState::Attached,
    };
    if tree.kind == XML_ENTITY_REF_NODE {
        seq![root]
    } else {
        seq![root] + listed_forest(tree.children, 0, depth + 1)
    }
}

/// The list of the trees of a forest from position `from` on, all of them
/// rooted at `depth`: the list of the first, then that of the rest.
pub open spec fn listed_forest(forest: Seq<EngineTree>, from: int, depth: nat) -> Seq<NodeModel>
    decreases forest, forest.len() - from,
{
    if 0 <= from < forest.len() {
        listed_tree(forest[from], depth) + listed_forest(forest, from + 1, depth)
    } else {
        Seq::empty()
    }
}

/// What a caller who follows the walk has recorded, and where it is sent,
/// when it is done with a tree rooted at `depth`: it visits the root, goes
/// through what hangs under it if it is sent down, and leaves the root when
/// it is sent back up.
pub open spec fn followed_tree(tree: EngineTree, depth: nat, has_next: bool) -> (
    Seq<NodeModel>,
    Step,
    nat,
)
    decreases tree, 0nat,
{
    let root = NodeModel {
        kind: tree.kind,
        name: tree.name,
        content: tree.content,
        depth,
        state: NodeState::Attached,
    };
    let (step, level) = after_visit(tree.kind, depth, tree.children.len() > 0, has_next);
    if step == Step::FirstChild {
        let (below, back, upper) = followed_forest(tree.children, 0, level);
        if back == Step::Parent {
            let (on, last) = onward(upper, has_next);
            (seq![root] + below, on, last)
        } else {
            (seq![root] + below, back, upper)
        }
    } else {
        (seq![root], step, level)
    }
}

/// What a caller who follows the walk has recorded, and where it is sent,
/// when it is done with the trees of a forest from position `from` on: it
/// goes through the first, and on through the rest if it is sent to the
/// next sibling.
pub open spec fn followed_forest(forest: Seq<EngineTree>, from: int, depth: nat) -> (
    Seq<NodeModel>,
    Step,
    nat,
)
    decreases forest, forest.len() - from,
{
    if 0 <= from < forest.len() {
        let (first, step, level) = followed_tree(forest[from], depth, from + 1 < forest.len());
        if step == Step::NextSibling {
            let (rest, last, end) = followed_forest(forest, from + 1, level);
            (first + rest, last, end)
        } else {
            (first, step, level)
        }
    } else {
        (Seq::empty(), Step::Done, depth)
    }
}

} // verus!
