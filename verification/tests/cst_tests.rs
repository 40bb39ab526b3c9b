use usfm3::cst::{parse, CstKind};

#[test]
fn lossless_round_trip_preserves_source() {
    let input = "\\p  \\v 1  In the beginning\n";
    let parsed = parse(input);
    assert_eq!(parsed.to_source_string(), input);
}

#[test]
fn leaf_lookup_covers_whitespace_gap() {
    let input = "\\p  \\v 1  In the beginning";
    let parsed = parse(input);
    let first_gap = parsed.leaf_at_offset(2).unwrap();
    let second_gap = parsed.leaf_at_offset(8).unwrap();
    assert!(matches!(
        parsed.node(first_gap).kind,
        usfm3::cst::CstKind::WhitespaceToken
    ));
    assert!(matches!(
        parsed.node(second_gap).kind,
        usfm3::cst::CstKind::WhitespaceToken
    ));
}

#[test]
fn covering_node_is_the_lowest_on_the_leaf_path() {
    let cst = usfm3::cst::parse("\\p  \\v 1  In the beginning");
    let found = cst.covering_node_range(4, 8).unwrap();
    let span = &cst.node(found).span;
    assert!(span.start <= 4 && span.end >= 8);
    let mut current = cst.leaf_at_offset(4).unwrap();
    while current.index() != found.index() {
        let s = &cst.node(current).span;
        assert!(!(s.start <= 4 && s.end >= 8));
        current = cst.node(current).parent.unwrap();
    }
    assert!(cst.covering_node_range(8, 4).is_none());
    assert!(cst.covering_node_range(0, 1000).is_none());
}

fn child_kinds(doc: &usfm3::cst::CstDocument, id: usfm3::cst::CstNodeId) -> Vec<usfm3::cst::CstKind> {
    let mut out = Vec::new();
    let mut c = doc.node(id).first_child;
    while let Some(x) = c {
        out.push(doc.node(x).kind.clone());
        c = doc.node(x).next_sibling;
    }
    out
}

#[test]
fn markers_open_their_nodes_in_order() {
    let doc = usfm3::cst::parse("\\id GEN\n\\c 1\n\\p\n\\v 1 In the beginning");
    let root = doc.root_id();
    let top = child_kinds(&doc, root);
    assert_eq!(top.len(), 4);
    assert!(matches!(&top[0], usfm3::cst::CstKind::Book { marker } if marker.as_str() == "id"));
    assert!(matches!(&top[1], usfm3::cst::CstKind::Chapter { marker } if marker.as_str() == "c"));
    assert!(matches!(&top[2], usfm3::cst::CstKind::NewlineToken));
    assert!(matches!(&top[3], usfm3::cst::CstKind::Para { marker } if marker.as_str() == "p"));
    let mut c = doc.node(root).first_child;
    let mut para = None;
    while let Some(x) = c {
        if matches!(doc.node(x).kind, usfm3::cst::CstKind::Para { .. }) {
            para = Some(x);
        }
        c = doc.node(x).next_sibling;
    }
    let para = para.unwrap();
    let kids = child_kinds(&doc, para);
    assert_eq!(kids.len(), 5);
    assert!(matches!(&kids[0], usfm3::cst::CstKind::MarkerToken { normalized, .. } if *normalized == usfm3::markers::MarkerName::parse("p")));
    assert!(matches!(&kids[1], usfm3::cst::CstKind::NewlineToken));
    assert!(matches!(&kids[2], usfm3::cst::CstKind::Verse { .. }));
    assert!(matches!(&kids[3], usfm3::cst::CstKind::WhitespaceToken));
    assert!(matches!(&kids[4], usfm3::cst::CstKind::TextToken));
    let verse = doc.node(doc.node(para).first_child.unwrap()).next_sibling.unwrap();
    let verse = doc.node(verse).next_sibling.unwrap();
    let vk = child_kinds(&doc, verse);
    assert_eq!(vk.len(), 3);
    assert!(matches!(&vk[0], usfm3::cst::CstKind::MarkerToken { token_kind: usfm3::cst::MarkerTokenKind::Verse, .. }));
    assert!(matches!(&vk[1], usfm3::cst::CstKind::WhitespaceToken));
    assert!(matches!(&vk[2], usfm3::cst::CstKind::TextToken));
    assert_eq!(doc.leaf_ids().len(), 15);
}
