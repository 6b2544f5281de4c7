//! Node handles: traversal, inspection, content extraction, and the two
//! operations that take a node out of the tree.
//!
//! A handle is a position in its document, together with the identity of
//! that document, and holds nothing. It may be used with its own document
//! as long as its node exists: every operation asks for both, and nothing
//! that was destroyed is ever handed out.

use vstd::prelude::*;
use crate::document::Document;
use crate::engine::{
    bytes_of, chars_of, NodeState, XML_CDATA_SECTION_NODE, XML_COMMENT_NODE, XML_ELEMENT_NODE,
    XML_TEXT_NODE,
};
use crate::text::to_lowercase_ascii;
use crate::tree::{
    content_of, covers, destroyed, detached, in_subtree, is_attached, is_child, is_extent,
    is_first_child, is_later_sibling, is_next_sibling, lemma_text_below_skips, name_of,
    text_below,
};

verus! {

/// A reference to one node of a document's tree.
#[derive(Debug)]
pub struct Node {
    index: usize,
    /// The identity of the document that handed the handle out.
    owner: u64,
}

impl View for Node {
    type V = int;

    /// The node's position in document order.
    closed spec fn view(&self) -> int {
        self.index as int
    }
}

/// An optional handle, where there is one, is a handle of the document with
/// the identity `id`.
pub open spec fn issued_by(node: Option<Node>, id: u64) -> bool {
    match node {
        Some(n) => n.document_id() == id,
        None => true,
    }
}

/// The position of the node that an optional handle refers to.
pub open spec fn position(node: Option<Node>) -> Option<int> {
    match node {
        Some(n) => Some(n@),
        None => None,
    }
}

/// Appends a copy of `bytes` to `out`.
fn append_bytes(out: &mut Vec<u8>, bytes: &Vec<u8>)
    ensures
        final(out)@ == old(out)@ + bytes@,
{
    out.extend_from_slice(bytes.as_slice());
}

/// A copy of `bytes`.
fn copy_bytes(bytes: &Vec<u8>) -> (copy: Vec<u8>)
    ensures
        copy@ == bytes@,
{
    let mut copy: Vec<u8> = Vec::new();
    append_bytes(&mut copy, bytes);
    copy
}

impl Node {
    /// The identity of the document that handed the handle out.
    pub closed spec fn spec_document_id(&self) -> u64 {
        self.owner
    }

    /// The handle of the node at a position of the document with the
    /// identity `owner`.
    pub(crate) fn at(index: usize, owner: u64) -> (node: Node)
        ensures
            node@ == index,
            node.document_id() == owner,
    {
        Node { index, owner }
    }

    /// The identity of the document that handed the handle out.
    #[verifier::when_used_as_spec(spec_document_id)]
    pub fn document_id(&self) -> (id: u64)
        ensures
            id == self.document_id(),
    {
        self.owner
    }

    /// The node's position in document order, counted from 0 over every
    /// node of the document.
    pub fn index(&self) -> (index: usize)
        ensures
            index == self@,
    {
        self.index
    }

    /// The kind of the node, exactly as the engine reported it.
    pub fn node_type(&self, doc: &Document) -> (kind: i32)
        requires
            doc.holds(self),
        ensures
            kind == doc@[self@].kind,
    {
        doc.kind(self.index)
    }

    /// The name of the node in ASCII lower case, for the kinds that carry a
    /// name. A text node, a CDATA section and a comment have none, whatever
    /// label the engine reports for them, and neither has a node for which
    /// the engine reports no name.
    pub fn name(&self, doc: &Document) -> (name: Option<String>)
        requires
            doc.holds(self),
        ensures
            chars_of(name) == name_of(doc@, self@),
    {
        let kind: i32 = doc.kind(self.index);
        if kind == XML_TEXT_NODE || kind == XML_CDATA_SECTION_NODE || kind == XML_COMMENT_NODE {
            return None;
        }
        match doc.spelled_name(self.index) {
            Some(spelled) => Some(to_lowercase_ascii(spelled)),
            None => None,
        }
    }

    /// The first child of the node that is still attached, absent where
    /// there is none.
    pub fn children(&self, doc: &Document) -> (child: Option<Node>)
        requires
            doc.wf(),
            doc.holds(self),
        ensures
            is_first_child(doc@, self@, position(child)),
            issued_by(child, doc.id()),
    {
        let n: usize = self.index;
        let end: usize = doc.extent(n);
        let ghost tree = doc@;
        // The children stand at n + 1, behind the subtree of the child at
        // n + 1, behind the subtree of that one, and so on up to `end`.
        let mut j: usize = n + 1;
        while j < end
            invariant
                doc.wf(),
                tree == doc@,
                n == self@,
                self.document_id() == doc.id(),
                n < j <= end,
                is_extent(tree, n as int, end as int),
                j < end ==> tree[j as int].depth == tree[n as int].depth + 1,
                forall|k: int| n < k < j ==> !(is_child(tree, n as int, k) && is_attached(tree, k)),
            decreases end - j,
        {
            if doc.state(j) == NodeState::Attached {
                return Some(Node::at(j, self.owner));
            }
            j = doc.extent(j);
        }
        None
    }

    /// The next sibling of the node that is still attached, absent at the
    /// end of the sibling chain. A detached node has no siblings.
    pub fn next(&self, doc: &Document) -> (sibling: Option<Node>)
        requires
            doc.wf(),
            doc.holds(self),
        ensures
            is_next_sibling(doc@, self@, position(sibling)),
            issued_by(sibling, doc.id()),
    {
        let n: usize = self.index;
        if doc.state(n) != NodeState::Attached {
            return None;
        }
        let depth: usize = doc.depth(n);
        let len: usize = doc.len();
        let ghost tree = doc@;
        // The following siblings stand behind the subtree of this node,
        // behind the subtree of that sibling, and so on, as long as the
        // depth stays the same.
        let mut j: usize = doc.extent(n);
        while j < len && doc.depth(j) == depth
            invariant
                doc.wf(),
                tree == doc@,
                n == self@,
                self.document_id() == doc.id(),
                len == tree.len(),
                n < j <= len,
                depth == tree[n as int].depth,
                is_attached(tree, n as int),
                j < len ==> tree[j as int].depth <= depth,
                forall|k: int| n < k < j ==> (#[trigger] tree[k]).depth >= depth,
                forall|k: int|
                    n < k < j ==> !(is_later_sibling(tree, n as int, k) && is_attached(tree, k)),
            decreases len - j,
        {
            if doc.state(j) == NodeState::Attached {
                return Some(Node::at(j, self.owner));
            }
            j = doc.extent(j);
        }
        None
    }

    /// The textual content of the node, copied into a buffer of the caller's
    /// own.
    ///
    /// For an element this is the text of every text node that can be
    /// reached downward from it, in document order; an element without such
    /// a node has the empty content. Any other kind yields its own
    /// character data, and is without content where it carries none.
    pub fn content(&self, doc: &Document) -> (content: Option<Vec<u8>>)
        requires
            doc.wf(),
            doc.holds(self),
        ensures
            bytes_of(content) == content_of(doc@, self@),
    {
        let n: usize = self.index;
        if doc.kind(n) != XML_ELEMENT_NODE {
            return match doc.own_data(n) {
                Some(bytes) => Some(copy_bytes(bytes)),
                None => None,
            };
        }
        let end: usize = doc.extent(n);
        let ghost tree = doc@;
        let mut out: Vec<u8> = Vec::new();
        let mut j: usize = n + 1;
        while j < end
            invariant
                doc.wf(),
                tree == doc@,
                n == self@,
                self.document_id() == doc.id(),
                n < j <= end,
                is_extent(tree, n as int, end as int),
                out@ == text_below(tree, n as int, j as int),
                // Position j lies below no node that was taken out.
                forall|k: int| n < k < j && !is_attached(tree, k) ==> !in_subtree(tree, k, j as int),
            decreases end - j,
        {
            if doc.state(j) != NodeState::Attached {
                // Node j was taken out: nothing below it counts.
                let next: usize = doc.extent(j);
                proof {
                    assert forall|m: int| j <= m < next implies !covers(tree, n as int, m) by {
                        assert(in_subtree(tree, j as int, m));
                    }
                    lemma_text_below_skips(tree, n as int, j as int, next as int);
                }
                j = next;
            } else {
                let kind: i32 = doc.kind(j);
                if kind == XML_TEXT_NODE || kind == XML_CDATA_SECTION_NODE {
                    if let Some(bytes) = doc.own_data(j) {
                        append_bytes(&mut out, bytes);
                    }
                }
                j = j + 1;
            }
        }
        proof {
            assert forall|m: int| end <= m < tree.len() implies !covers(tree, n as int, m) by {}
            lemma_text_below_skips(tree, n as int, end as int, tree.len() as int);
        }
        Some(out)
    }

    /// Detaches the node: takes it, with all that hangs under it, out of its
    /// parent's children, and frees nothing. The node and its subtree stay
    /// valid, and the subtree stays navigable from the node. Detaching a
    /// node that is already detached changes nothing.
    pub fn unlink(&self, doc: &mut Document)
        requires
            old(doc).wf(),
            old(doc).holds(self),
        ensures
            final(doc).wf(),
            final(doc).id() == old(doc).id(),
            final(doc)@ == detached(old(doc)@, self@),
    {
        doc.detach(self.index);
    }

    /// Destroys the node: deallocates this one node, which must have been
    /// detached before. The handle is used up. The nodes that hung under it
    /// stay as they are.
    pub fn free(self, doc: &mut Document)
        requires
            old(doc).wf(),
            old(doc).holds_detached(&self),
        ensures
            final(doc).wf(),
            final(doc).id() == old(doc).id(),
            final(doc)@ == destroyed(old(doc)@, self@),
    {
        doc.destroy(self.index);
    }
}

} // verus!
