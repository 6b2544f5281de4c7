use html_dom::{
    xml_free, Deallocator, Document, EngineNode, Node, XML_CDATA_SECTION_NODE, XML_COMMENT_NODE,
    XML_ELEMENT_NODE, XML_TEXT_NODE,
};

fn tag(name: &str, depth: usize) -> EngineNode {
    EngineNode { kind: XML_ELEMENT_NODE, name: Some(name.to_string()), content: None, depth }
}

/// A node with character data, under the label that the engine gives its
/// kind.
fn data(kind: i32, bytes: &[u8], depth: usize) -> EngineNode {
    let label = match kind {
        XML_TEXT_NODE => Some("text".to_string()),
        XML_COMMENT_NODE => Some("comment".to_string()),
        _ => None,
    };
    EngineNode { kind, name: label, content: Some(bytes.to_vec()), depth }
}

/// ```text
/// 0 html
/// 1   body
/// 2     div
/// 3       "a"
/// 4       <!--x-->
/// 5       b
/// 6         "b"
/// 7       script
/// 8         [CDATA "c"]
/// 9     div          (empty)
/// 10    "d"
/// ```
fn sample() -> Document {
    let report = vec![
        tag("html", 0),
        tag("body", 1),
        tag("div", 2),
        data(XML_TEXT_NODE, b"a", 3),
        data(XML_COMMENT_NODE, b"x", 3),
        tag("b", 3),
        data(XML_TEXT_NODE, b"b", 4),
        tag("script", 3),
        data(XML_CDATA_SECTION_NODE, b"c", 4),
        tag("div", 2),
        data(XML_TEXT_NODE, b"d", 2),
    ];
    Document::parse_html(Some(report), 1).expect("a document")
}

fn descend(doc: &Document, path: &[usize]) -> Node {
    let mut node = doc.root().expect("a root");
    for &step in path {
        let mut child = node.children(doc).expect("a child");
        for _ in 0..step {
            child = child.next(doc).expect("a sibling");
        }
        node = child;
    }
    node
}

#[test]
fn element_content_is_the_text_of_its_descendants_in_order() {
    let doc = sample();
    let root = doc.root().expect("a root");
    assert_eq!(root.content(&doc), Some(b"abcd".to_vec()));
    let div = descend(&doc, &[0, 0]);
    assert_eq!(div.index(), 2);
    assert_eq!(div.content(&doc), Some(b"abc".to_vec()));
    let bold = descend(&doc, &[0, 0, 2]);
    assert_eq!(bold.index(), 5);
    assert_eq!(bold.content(&doc), Some(b"b".to_vec()));
}

#[test]
fn empty_element_has_empty_content_not_none() {
    let doc = sample();
    let empty = descend(&doc, &[0, 1]);
    assert_eq!(empty.index(), 9);
    assert_eq!(empty.content(&doc), Some(Vec::new()));
    assert_ne!(empty.content(&doc), None);
}

#[test]
fn element_with_only_a_comment_below_has_empty_content() {
    let report = vec![tag("div", 0), data(XML_COMMENT_NODE, b"hidden", 1)];
    let doc = Document::parse_html(Some(report), 1).expect("a document");
    let div = doc.root().expect("a root");
    assert_eq!(div.content(&doc), Some(Vec::new()));
}

#[test]
fn other_kinds_yield_their_own_data() {
    let doc = sample();
    let text = descend(&doc, &[0, 0, 0]);
    assert_eq!(text.node_type(&doc), XML_TEXT_NODE);
    assert_eq!(text.content(&doc), Some(b"a".to_vec()));
    let comment = descend(&doc, &[0, 0, 1]);
    assert_eq!(comment.node_type(&doc), XML_COMMENT_NODE);
    assert_eq!(comment.content(&doc), Some(b"x".to_vec()));
    let cdata = descend(&doc, &[0, 0, 3, 0]);
    assert_eq!(cdata.node_type(&doc), XML_CDATA_SECTION_NODE);
    assert_eq!(cdata.content(&doc), Some(b"c".to_vec()));
}

#[test]
fn node_without_data_that_is_no_element_has_no_content() {
    let report = vec![
        tag("html", 0),
        EngineNode { kind: XML_TEXT_NODE, name: Some("text".to_string()), content: None, depth: 1 },
        EngineNode { kind: 14, name: None, content: None, depth: 1 },
    ];
    let doc = Document::parse_html(Some(report), 1).expect("a document");
    let root = doc.root().expect("a root");
    let text = root.children(&doc).expect("a child");
    assert_eq!(text.content(&doc), None);
    let other = text.next(&doc).expect("a sibling");
    assert_eq!(other.content(&doc), None);
    assert_eq!(root.content(&doc), Some(Vec::new()));
}

#[test]
fn content_is_bytes_and_need_not_be_text() {
    let report = vec![tag("p", 0), data(XML_TEXT_NODE, &[0xff, 0x00, 0xc3], 1)];
    let doc = Document::parse_html(Some(report), 1).expect("a document");
    let p = doc.root().expect("a root");
    assert_eq!(p.content(&doc), Some(vec![0xff, 0x00, 0xc3]));
}

#[test]
fn detached_subtree_no_longer_counts_towards_the_content_above() {
    let mut doc = sample();
    let bold = descend(&doc, &[0, 0, 2]);
    bold.unlink(&mut doc);
    let root = doc.root().expect("a root");
    assert_eq!(root.content(&doc), Some(b"acd".to_vec()));
    assert_eq!(bold.content(&doc), Some(b"b".to_vec()));

    let div = descend(&doc, &[0, 0]);
    div.unlink(&mut doc);
    assert_eq!(root.content(&doc), Some(b"d".to_vec()));
    assert_eq!(div.content(&doc), Some(b"ac".to_vec()));
}

#[test]
fn states_follow_the_life_of_a_node() {
    let mut doc = sample();
    let div = descend(&doc, &[0, 0]);
    assert!(doc.is_live(&div));
    assert!(!doc.is_detached(&div));
    div.unlink(&mut doc);
    assert!(doc.is_live(&div));
    assert!(doc.is_detached(&div));
    let again = descend(&doc, &[0, 0]);
    assert_eq!(again.index(), 9);
    let position = div.index();
    div.free(&mut doc);
    assert_eq!(doc.teardown().contains(&position), false);
}

#[test]
fn handle_of_a_larger_document_is_not_live_in_a_smaller_one() {
    let large = sample();
    let small = Document::parse_html(Some(vec![tag("html", 0)]), 1).expect("a document");
    let far = descend(&large, &[0, 1]);
    assert_eq!(far.index(), 9);
    assert!(!small.is_live(&far));
    assert!(!small.is_detached(&far));
}

fn twin(identity: u64) -> Document {
    let report = vec![tag("html", 0), tag("body", 1)];
    Document::parse_html(Some(report), identity).expect("a document")
}

#[test]
fn handle_is_live_in_its_own_document_only() {
    let first = twin(1);
    let second = twin(2);
    let root = first.root().expect("a root");
    assert!(first.is_live(&root));
    assert!(!second.is_live(&root));
    let other = second.root().expect("a root");
    assert_eq!(other.index(), root.index());
    assert!(second.is_live(&other));
    assert!(!first.is_live(&other));
}

#[test]
fn handle_is_not_live_in_a_twin_after_its_document_is_gone() {
    let first = twin(1);
    let second = twin(2);
    let root = first.root().expect("a root");
    assert_eq!(first.teardown(), vec![0, 1]);
    assert!(!second.is_live(&root));
    assert!(!second.is_detached(&root));
}

#[test]
fn detached_handle_counts_in_its_own_document_only() {
    let mut first = twin(1);
    let mut second = twin(2);
    let body = first.root().expect("a root").children(&first).expect("a child");
    let twin_body = second.root().expect("a root").children(&second).expect("a child");
    body.unlink(&mut first);
    twin_body.unlink(&mut second);
    assert!(first.is_detached(&body));
    assert!(!second.is_detached(&body));
    assert!(second.is_detached(&twin_body));
    assert!(!first.is_detached(&twin_body));
}

#[test]
fn identity_outlasts_detaching_and_destroying() {
    let mut doc = twin(9);
    let body = doc.root().expect("a root").children(&doc).expect("a child");
    body.unlink(&mut doc);
    assert_eq!(doc.id(), 9);
    body.free(&mut doc);
    assert_eq!(doc.id(), 9);
    assert_eq!(doc.root().expect("a root").document_id(), 9);
}

#[test]
fn destroyed_node_is_not_released_again_at_teardown() {
    let mut doc = sample();
    let comment = descend(&doc, &[0, 0, 1]);
    assert_eq!(comment.index(), 4);
    comment.unlink(&mut doc);
    comment.free(&mut doc);
    let released = doc.teardown();
    assert_eq!(released, vec![0, 1, 2, 3, 5, 6, 7, 8, 9, 10]);
    let mut unique = released.clone();
    unique.dedup();
    assert_eq!(unique, released);
}

#[test]
fn teardown_releases_attached_and_detached_nodes_alike() {
    let mut doc = sample();
    let div = descend(&doc, &[0, 0]);
    div.unlink(&mut doc);
    assert_eq!(doc.teardown(), (0..11).collect::<Vec<usize>>());
}

#[test]
fn destroying_a_node_leaves_what_hung_under_it() {
    let mut doc = sample();
    let div = descend(&doc, &[0, 0]);
    let first = div.children(&doc).expect("a child");
    div.unlink(&mut doc);
    div.free(&mut doc);

    assert!(doc.is_live(&first));
    assert_eq!(first.content(&doc), Some(b"a".to_vec()));
    let mut chain = vec![first.index()];
    let mut cursor = first.next(&doc);
    while let Some(node) = cursor {
        chain.push(node.index());
        cursor = node.next(&doc);
    }
    assert_eq!(chain, vec![3, 4, 5, 7]);
    assert_eq!(doc.teardown(), vec![0, 1, 3, 4, 5, 6, 7, 8, 9, 10]);
}

#[test]
fn every_node_can_be_destroyed_before_teardown() {
    let report = vec![tag("html", 0), tag("body", 1)];
    let mut doc = Document::parse_html(Some(report), 1).expect("a document");
    let root = doc.root().expect("a root");
    let body = root.children(&doc).expect("a child");
    body.unlink(&mut doc);
    body.free(&mut doc);
    root.unlink(&mut doc);
    root.free(&mut doc);
    assert!(doc.root().is_none());
    assert_eq!(doc.teardown(), Vec::<usize>::new());
}

#[test]
fn registered_hook_is_chosen_over_the_platform() {
    match xml_free(Some(7u32)) {
        Deallocator::Registered(hook) => assert_eq!(hook, 7),
        Deallocator::Platform => panic!("the registered hook was passed over"),
    }
}

#[test]
fn platform_deallocator_is_the_fallback() {
    assert!(matches!(xml_free::<u32>(None), Deallocator::Platform));
}
