use usfm3::ast::{Attribute, ChapterData, CharData, Document, Node, VerseData};
use usfm3::markers::MarkerName;

#[test]
fn document_new_starts_empty() {
    let doc = Document::new();
    assert!(doc.content.is_empty());
    assert_eq!(doc, Document::default());
}

#[test]
fn text_helper_creates_text_node() {
    assert_eq!(Node::text("hello"), Node::Text("hello".into()));
}

#[test]
fn marker_is_reported_for_structural_nodes() {
    let node = Node::Book {
        marker: "id".into(),
        code: "GEN".to_string(),
        content: vec![],
    };

    assert_eq!(node.marker().as_deref(), Some("id"));
}

#[test]
fn marker_is_none_for_non_marker_variants() {
    assert_eq!(Node::text("x").marker(), None);
    assert_eq!(Node::OptBreak.marker(), None);
    assert_eq!(
        Node::Periph {
            alt: None,
            content: vec![],
            attributes: vec![],
        }
        .marker(),
        None
    );
}

#[test]
fn children_are_exposed_for_container_nodes() {
    let node = Node::Para {
        marker: "p".into(),
        content: vec![Node::text("Hello world")],
    };

    assert_eq!(node.children().len(), 1);
}

#[test]
fn children_are_empty_for_leaf_like_nodes() {
    assert!(Node::text("abc").children().is_empty());
    assert!(Node::OptBreak.children().is_empty());
    assert!(
        Node::Verse(Box::new(VerseData {
            marker: "v".into(),
            number: "1".into(),
            sid: None,
            altnumber: None,
            pubnumber: None,
        }))
        .children()
        .is_empty()
    );
}

#[test]
fn children_mut_is_available_for_containers() {
    let mut node = Node::Para {
        marker: "p".into(),
        content: vec![],
    };

    node.children_mut().unwrap().push(Node::text("appended"));
    assert_eq!(node.children().len(), 1);
}

#[test]
fn children_mut_is_none_for_non_containers() {
    let mut verse = Node::Verse(Box::new(VerseData {
        marker: "v".into(),
        number: "1".into(),
        sid: None,
        altnumber: None,
        pubnumber: None,
    }));

    assert!(verse.children_mut().is_none());
}

#[test]
fn helper_methods_cover_all_container_variants() {
    let nodes = vec![
        Node::Book {
            marker: "id".into(),
            code: "GEN".into(),
            content: vec![Node::text("Genesis")],
        },
        Node::Char(Box::new(CharData {
            marker: "nd".into(),
            content: vec![Node::text("Lord")],
            attributes: vec![],
        })),
        Node::Note {
            marker: "f".into(),
            caller: "+".into(),
            category: None,
            content: vec![Node::text("Footnote")],
        },
        Node::Figure {
            marker: "fig".into(),
            content: vec![Node::text("Caption")],
            attributes: vec![],
        },
        Node::Sidebar {
            marker: "esb".into(),
            category: None,
            content: vec![Node::text("Sidebar")],
        },
        Node::Table {
            content: vec![Node::TableRow {
                marker: "tr".into(),
                content: vec![Node::TableCell {
                    marker: "tc1".into(),
                    align: "start".into(),
                    content: vec![Node::text("Cell")],
                }],
            }],
        },
        Node::Ref {
            content: vec![Node::text("Gen 1:1")],
            attributes: vec![],
        },
        Node::Unknown {
            marker: "zcustom".into(),
            content: vec![Node::text("custom data")],
        },
    ];

    for node in nodes {
        assert!(!node.children().is_empty());
    }
}
