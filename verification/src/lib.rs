//! A memory-safe tree layer in front of a foreign HTML parsing engine.
//!
//! The engine parses bytes into a tree of manually managed nodes. This
//! library takes over from there: a [`Document`] adopts the tree that the
//! engine reports and owns every node of it; a [`Node`] is a position in a
//! document, bound to that document by its identity, and owns nothing.
//! Nodes can be inspected, traversed, detached from their parent and, once
//! detached, destroyed; a teardown releases whatever is left. Every node
//! goes through the states of [`NodeState`] in one direction only, so
//! nothing is used after it was destroyed and nothing is released twice.
//!
//! - [`engine`]: kind codes, parse option bits, and the record in which the
//!   engine reports a node.
//! - [`tree`]: the mathematical model of a tree, over which all contracts
//!   are stated.
//! - [`document`], [`node`]: the operations.
//! - [`bridge`]: the choice of the deallocator for engine buffers.
//! - [`walk`]: the walk over the engine's tree that produces the report.
//! - [`text`]: case normalisation of names.
//! - [`laws`]: what holds of the operations taken together.

pub mod bridge;
pub mod document;
pub mod engine;
pub mod laws;
pub mod node;
pub mod text;
pub mod tree;
pub mod walk;

pub use bridge::{xml_free, Deallocator};
pub use document::Document;
pub use engine::{
    EngineNode, NodeModel, NodeState, HTML_PARSE_NOERROR, HTML_PARSE_NONET, HTML_PARSE_NOWARN,
    HTML_PARSE_RECOVER, XML_CDATA_SECTION_NODE, XML_COMMENT_NODE, XML_ELEMENT_NODE,
    XML_ENTITY_REF_NODE, XML_TEXT_NODE,
};
pub use node::Node;
pub use walk::{Step, Walk};
