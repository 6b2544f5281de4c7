//! The document: sole owner of one parsed tree.

use vstd::prelude::*;
use crate::engine::{
    bytes_of, chars_of, reported_tree, EngineNode, NodeModel, NodeState, XML_ELEMENT_NODE,
};
use crate::node::{issued_by, position, Node};
use crate::tree::{
    as_positions, depth_ordered, destroyed, detached, is_detached, is_extent, is_live, is_root,
    are_extents, is_root_candidate, lemma_extents_of_same_depths, live_positions,
};

verus! {

/// One node as the document holds it.
#[derive(Debug)]
struct Slot {
    kind: i32,
    name: Option<String>,
    content: Option<Vec<u8>>,
    depth: usize,
    state: NodeState,
}

impl Slot {
    spec fn model(self) -> NodeModel {
        NodeModel {
            kind: self.kind,
            name: chars_of(self.name),
            content: bytes_of(self.content),
            depth: self.depth as nat,
            state: self.state,
        }
    }
}

/// A parsed document. It owns every node of its tree; a handle into the
/// tree is a position together with the identity of the document, and holds
/// nothing.
#[derive(Debug)]
pub struct Document {
    slots: Vec<Slot>,
    /// For each node, the position just behind its subtree. It is fixed when
    /// the tree is adopted, so that a traversal can step over a whole
    /// subtree at once.
    ends: Vec<usize>,
    /// The identity given at adoption, which every handle of this document
    /// records.
    identity: u64,
}

impl View for Document {
    type V = Seq<NodeModel>;

    /// The nodes in document order.
    closed spec fn view(&self) -> Seq<NodeModel> {
        Seq::new(self.slots@.len(), |i: int| self.slots@[i].model())
    }
}

/// Whether the reported nodes list a forest in document order.
fn in_depth_order(nodes: &Vec<EngineNode>) -> (ordered: bool)
    ensures
        ordered == depth_ordered(reported_tree(nodes@)),
{
    let n: usize = nodes.len();
    if n == 0 {
        return true;
    }
    if nodes[0].depth != 0 {
        return false;
    }
    let ghost tree = reported_tree(nodes@);
    let mut j: usize = 1;
    while j < n
        invariant
            1 <= j <= n,
            n == nodes@.len(),
            tree == reported_tree(nodes@),
            tree[0].depth == 0,
            forall|i: int, k: int|
                0 <= i && k == i + 1 && k < j ==> (#[trigger] tree[k]).depth <= (
                #[trigger] tree[i]).depth + 1,
        decreases n - j,
    {
        let above: usize = nodes[j - 1].depth;
        let here: usize = nodes[j].depth;
        if here > above && here - above > 1 {
            assert(tree[j as int].depth > tree[j - 1].depth + 1);
            return false;
        }
        j += 1;
    }
    true
}

/// The position behind each node's subtree.
fn subtree_ends(nodes: &Vec<EngineNode>) -> (ends: Vec<usize>)
    ensures
        are_extents(reported_tree(nodes@), ends@),
{
    let n: usize = nodes.len();
    let ghost tree = reported_tree(nodes@);
    let mut ends: Vec<usize> = Vec::new();
    ends.resize(n, n);
    let mut i: usize = n;
    while i > 0
        invariant
            i <= n,
            n == nodes@.len(),
            ends@.len() == n,
            tree == reported_tree(nodes@),
            forall|m: int| i <= m < n ==> is_extent(tree, m, #[trigger] ends@[m] as int),
        decreases i,
    {
        i -= 1;
        let depth: usize = nodes[i].depth;
        let mut k: usize = i + 1;
        while k < n && nodes[k].depth > depth
            invariant
                i < k <= n,
                n == nodes@.len(),
                ends@.len() == n,
                tree == reported_tree(nodes@),
                depth == nodes@[i as int].depth,
                forall|m: int| i < m < n ==> is_extent(tree, m, #[trigger] ends@[m] as int),
                forall|m: int| i < m < k ==> (#[trigger] tree[m]).depth > tree[i as int].depth,
            decreases n - k,
        {
            k = ends[k];
        }
        ends.set(i, k);
    }
    ends
}

/// Turns the reported nodes into slots, every node attached.
fn adopt(nodes: Vec<EngineNode>) -> (slots: Vec<Slot>)
    ensures
        slots@.len() == nodes@.len(),
        forall|k: int| 0 <= k < slots@.len() ==> (#[trigger] slots@[k]).model() == nodes@[k]@,
{
    let mut slots: Vec<Slot> = Vec::new();
    for node in iter: nodes
        invariant
            slots@.len() == iter.index(),
            iter.seq() == nodes@,
            forall|k: int| 0 <= k < slots@.len() ==> (#[trigger] slots@[k]).model() == nodes@[k]@,
    {
        slots.push(
            Slot {
                kind: node.kind,
                name: node.name,
                content: node.content,
                depth: node.depth,
                state: NodeState::Attached,
            },
        );
    }
    slots
}

impl Document {
    /// The extent that the document caches for each node is the extent of
    /// that node.
    pub closed spec fn extents_cached(&self) -> bool {
        are_extents(self@, self.ends@)
    }

    /// The document is well formed: its nodes stand in document order.
    /// Every document that this library hands out is well formed, and every
    /// operation keeps it so.
    pub open spec fn wf(&self) -> bool {
        &&& depth_ordered(self@)
        &&& self.extents_cached()
    }

    /// The identity that the document was given at adoption.
    pub closed spec fn spec_id(&self) -> u64 {
        self.identity
    }

    /// The handle is one of this document, and its node exists.
    pub open spec fn holds(&self, node: &Node) -> bool {
        &&& node.document_id() == self.id()
        &&& is_live(self@, node@)
    }

    /// The handle is one of this document, and its node was detached and not
    /// destroyed.
    pub open spec fn holds_detached(&self, node: &Node) -> bool {
        &&& node.document_id() == self.id()
        &&& is_detached(self@, node@)
    }

    /// The identity that the document was given at adoption.
    #[verifier::when_used_as_spec(spec_id)]
    pub fn id(&self) -> (id: u64)
        ensures
            id == self.id(),
    {
        self.identity
    }

    /// Number of positions in the document.
    pub(crate) fn len(&self) -> (len: usize)
        ensures
            len == self@.len(),
    {
        self.slots.len()
    }

    /// The position just behind the subtree of node `i`.
    pub(crate) fn extent(&self, i: usize) -> (end: usize)
        requires
            self.wf(),
            i < self@.len(),
        ensures
            is_extent(self@, i as int, end as int),
    {
        self.ends[i]
    }

    /// The depth of node `i`.
    pub(crate) fn depth(&self, i: usize) -> (depth: usize)
        requires
            i < self@.len(),
        ensures
            depth == self@[i as int].depth,
    {
        self.slots[i].depth
    }

    /// The state of node `i`.
    pub(crate) fn state(&self, i: usize) -> (state: NodeState)
        requires
            i < self@.len(),
        ensures
            state == self@[i as int].state,
    {
        self.slots[i].state
    }

    /// The kind of node `i`.
    pub(crate) fn kind(&self, i: usize) -> (kind: i32)
        requires
            i < self@.len(),
        ensures
            kind == self@[i as int].kind,
    {
        self.slots[i].kind
    }

    /// The name of node `i` as the engine spelled it.
    pub(crate) fn spelled_name(&self, i: usize) -> (name: &Option<String>)
        requires
            i < self@.len(),
        ensures
            chars_of(*name) == self@[i as int].name,
    {
        &self.slots[i].name
    }

    /// The character data that node `i` carries itself.
    pub(crate) fn own_data(&self, i: usize) -> (data: &Option<Vec<u8>>)
        requires
            i < self@.len(),
        ensures
            bytes_of(*data) == self@[i as int].content,
    {
        &self.slots[i].content
    }

    /// Marks node `i` as detached, unless it is detached already.
    pub(crate) fn detach(&mut self, i: usize)
        requires
            old(self).wf(),
            is_live(old(self)@, i as int),
        ensures
            final(self).wf(),
            final(self).id() == old(self).id(),
            final(self)@ == detached(old(self)@, i as int),
    {
        if self.slots[i].state == NodeState::Attached {
            self.slots[i].state = NodeState::Detached;
        }
        proof {
            assert(self@ =~= detached(old(self)@, i as int));
            lemma_extents_of_same_depths(old(self)@, self@, self.ends@);
        }
    }

    /// Releases what node `i` holds and marks it as destroyed.
    pub(crate) fn destroy(&mut self, i: usize)
        requires
            old(self).wf(),
            is_detached(old(self)@, i as int),
        ensures
            final(self).wf(),
            final(self).id() == old(self).id(),
            final(self)@ == destroyed(old(self)@, i as int),
    {
        self.slots[i].state = NodeState::Destroyed;
        self.slots[i].name = None;
        self.slots[i].content = None;
        proof {
            assert(self@ =~= destroyed(old(self)@, i as int));
            lemma_extents_of_same_depths(old(self)@, self@, self.ends@);
        }
    }

    /// Adopts the tree that the engine reports for a parse.
    ///
    /// The engine reports either a failure (`None`) or the nodes of the tree
    /// in document order. A failure gives no document, and so does a list
    /// that is not in document order: no partial tree is ever exposed. Any
    /// other list, the empty one included, gives the document of exactly
    /// that tree, with every node attached.
    ///
    /// `identity` is what tells this document from every other: each of its
    /// handles records it, and no operation takes a handle that records
    /// another. The caller gives each document an identity of its own.
    pub fn parse_html(reported: Option<Vec<EngineNode>>, identity: u64) -> (parsed: Option<
        Document,
    >)
        ensures
            match reported {
                Some(nodes) => if depth_ordered(reported_tree(nodes@)) {
                    &&& parsed is Some
                    &&& parsed->Some_0.wf()
                    &&& parsed->Some_0.id() == identity
                    &&& parsed->Some_0@ == reported_tree(nodes@)
                } else {
                    parsed is None
                },
                None => parsed is None,
            },
    {
        let nodes = match reported {
            Some(nodes) => nodes,
            None => { return None; },
        };
        if !in_depth_order(&nodes) {
            return None;
        }
        let ends = subtree_ends(&nodes);
        let document = Document { slots: adopt(nodes), ends, identity };
        proof {
            assert(document@ =~= reported_tree(nodes@));
        }
        Some(document)
    }

    /// The root element: the first element of the top level that is still
    /// attached, absent where the tree has none. The handle is one of this
    /// document.
    pub fn root(&self) -> (root: Option<Node>)
        requires
            self.wf(),
        ensures
            is_root(self@, position(root)),
            issued_by(root, self.id()),
    {
        let len: usize = self.len();
        let ghost tree = self@;
        let mut i: usize = 0;
        while i < len
            invariant
                self.wf(),
                tree == self@,
                len == tree.len(),
                i <= len,
                i < len ==> tree[i as int].depth == 0,
                forall|k: int| 0 <= k < i ==> !is_root_candidate(tree, k),
            decreases len - i,
        {
            if self.state(i) == NodeState::Attached && self.kind(i) == XML_ELEMENT_NODE {
                return Some(Node::at(i, self.identity));
            }
            i = self.extent(i);
        }
        None
    }

    /// Whether the handle is one of this document and its node exists: what
    /// every operation on a node asks for.
    pub fn is_live(&self, node: &Node) -> (live: bool)
        ensures
            live == self.holds(node),
    {
        let i: usize = node.index();
        node.document_id() == self.identity && i < self.slots.len() && self.slots[i].state
            != NodeState::Destroyed
    }

    /// Whether the handle is one of this document and its node was detached
    /// and not destroyed: the one state in which it may be destroyed.
    pub fn is_detached(&self, node: &Node) -> (detached: bool)
        ensures
            detached == self.holds_detached(node),
    {
        let i: usize = node.index();
        node.document_id() == self.identity && i < self.slots.len() && self.slots[i].state
            == NodeState::Detached
    }

    /// Tears the document down and releases what is left of the tree: every
    /// node that exists, attached or detached, once, and none that was
    /// destroyed before. Returns the positions released, in document order.
    pub fn teardown(self) -> (released: Vec<usize>)
        ensures
            as_positions(released@) == live_positions(self@, self@.len() as int),
    {
        let len: usize = self.len();
        let ghost tree = self@;
        let mut released: Vec<usize> = Vec::new();
        let mut i: usize = 0;
        while i < len
            invariant
                tree == self@,
                len == tree.len(),
                i <= len,
                as_positions(released@) =~= live_positions(tree, i as int),
            decreases len - i,
        {
            if self.state(i) != NodeState::Destroyed {
                released.push(i);
            }
            i = i + 1;
        }
        released
    }
}

} // verus!
