use usfm3::source_map::{SourceMap, SourceNode, SourceSpans};

#[test]
fn source_spans_builders_attach_optional_metadata() {
    let spans = SourceSpans::node(10..20)
        .with_code(11..14)
        .with_number(15..16)
        .with_close(18..20);

    assert_eq!(spans.node, 10..20);
    assert_eq!(spans.code, Some(11..14));
    assert_eq!(spans.number, Some(15..16));
    assert_eq!(spans.close, Some(18..20));
}

#[test]
fn structural_source_node_keeps_spans_children_and_anchor() {
    let node = SourceNode::structural(
        SourceSpans::node(0..20).with_code(0..3),
        vec![SourceNode::leaf()],
        Some(7),
    );

    assert_eq!(node.spans.as_ref().unwrap().code, Some(0..3));
    assert_eq!(node.children.len(), 1);
    assert_eq!(node.anchor_cst, Some(7));
}

#[test]
fn leaf_source_node_is_empty() {
    let node = SourceNode::leaf();

    assert!(node.spans.is_none());
    assert!(node.children.is_empty());
    assert!(node.anchor_cst.is_none());
    assert_eq!(node, SourceNode::default());
}
