//! What crosses the boundary with the parsing engine: its node kind codes,
//! its parse option bits, and the plain record in which one node of a parsed
//! tree is reported.

use vstd::prelude::*;

verus! {

/// Kind code of an element node.
pub const XML_ELEMENT_NODE: i32 = 1;

/// Kind code of a text node.
pub const XML_TEXT_NODE: i32 = 3;

/// Kind code of a CDATA section, which carries text as a text node does.
pub const XML_CDATA_SECTION_NODE: i32 = 4;

/// Kind code of an entity reference.
pub const XML_ENTITY_REF_NODE: i32 = 5;

/// Kind code of a comment node.
pub const XML_COMMENT_NODE: i32 = 8;

/// Parse option: attempt to continue past structural errors.
pub const HTML_PARSE_RECOVER: i32 = 1;

/// Parse option: suppress error reporting to the engine's error channel.
pub const HTML_PARSE_NOERROR: i32 = 32;

/// Parse option: suppress warning reporting.
pub const HTML_PARSE_NOWARN: i32 = 64;

/// Parse option: forbid the engine to resolve external network references.
pub const HTML_PARSE_NONET: i32 = 2048;

/// Whether a node exists in the tree, and whether it hangs under a parent.
#[derive(Clone, Copy, Debug, PartialEq, Eq, Structural)]
pub enum NodeState {
    /// Linked under its parent (or, at the top level, under the document).
    Attached,
    /// Unlinked from its parent; the node and what hangs under it still exist.
    Detached,
    /// Deallocated; no handle to it may be used again.
    Destroyed,
}

/// The mathematical value of one node.
pub struct NodeModel {
    /// The engine's kind code, passed through as it is.
    pub kind: i32,
    /// The name, for kinds that carry one.
    pub name: Option<Seq<char>>,
    /// The node's own character data, for kinds that carry some.
    pub content: Option<Seq<u8>>,
    /// Number of ancestors inside the document.
    pub depth: nat,
    /// Where the node stands in its life.
    pub state: NodeState,
}

/// One node as the engine reports it. A parsed tree is reported as the list
/// of its nodes in document order, each with its depth below the document.
#[derive(Debug)]
pub struct EngineNode {
    /// The engine's kind code.
    pub kind: i32,
    /// The name as the engine spells it, absent where it has none.
    pub name: Option<String>,
    /// The node's own character data, absent where it has none.
    pub content: Option<Vec<u8>>,
    /// Number of ancestors inside the document: 0 at the top level.
    pub depth: usize,
}

/// The characters of an optional name.
pub open spec fn chars_of(name: Option<String>) -> Option<Seq<char>> {
    match name {
        Some(text) => Some(text@),
        None => None,
    }
}

/// The bytes of an optional buffer.
pub open spec fn bytes_of(buffer: Option<Vec<u8>>) -> Option<Seq<u8>> {
    match buffer {
        Some(bytes) => Some(bytes@),
        None => None,
    }
}

impl View for EngineNode {
    type V = NodeModel;

    /// A reported node enters the tree attached.
    open spec fn view(&self) -> NodeModel {
        NodeModel {
            kind: self.kind,
            name: chars_of(self.name),
            content: bytes_of(self.content),
            depth: self.depth as nat,
            state: NodeState::Attached,
        }
    }
}

/// The tree that a list of reported nodes stands for.
pub open spec fn reported_tree(nodes: Seq<EngineNode>) -> Seq<NodeModel> {
    Seq::new(nodes.len(), |i: int| nodes[i]@)
}

} // verus!
