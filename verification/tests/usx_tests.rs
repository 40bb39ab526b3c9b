use usfm3::spanned_ast::{Attribute, Document, Node};
use usfm3::usx::to_usx_string;

fn sample_document() -> Document {
    Document {
        content: vec![
            Node::Book {
                marker: "id".into(),
                code: "GEN".into(),
                content: vec![Node::text("Genesis")],
                span: 0..20,
            },
            Node::Chapter {
                marker: "c".into(),
                number: "1".into(),
                sid: Some("GEN 1".into()),
                altnumber: None,
                pubnumber: None,
                span: 20..25,
            },
            Node::Para {
                marker: "p".into(),
                content: vec![
                    Node::Verse {
                        marker: "v".into(),
                        number: "1".into(),
                        sid: Some("GEN 1:1".into()),
                        altnumber: None,
                        pubnumber: None,
                        span: 30..33,
                    },
                    Node::text("In the beginning God created the heavens and the earth."),
                ],
                span: 25..90,
            },
        ],
    }
}

#[test]
fn test_usx_basic() {
    let xml = to_usx_string(&sample_document()).unwrap();
    assert!(xml.contains("<usx version=\"3.0\">"));
    assert!(xml.contains("</usx>"));
    assert!(xml.contains("<book code=\"GEN\" style=\"id\">Genesis</book>"));
    assert!(xml.contains("<chapter number=\"1\" style=\"c\" sid=\"GEN 1\"/>"));
    assert!(xml.contains("<verse number=\"1\" style=\"v\" sid=\"GEN 1:1\"/>"));
    assert!(xml.contains("<para style=\"p\">"));
    assert!(xml.contains("In the beginning"));
}

#[test]
fn test_usx_chapter_eid() {
    let doc = Document {
        content: vec![
            Node::Book {
                marker: "id".into(),
                code: "GEN".into(),
                content: vec![],
                span: 0..5,
            },
            Node::Chapter {
                marker: "c".into(),
                number: "1".into(),
                sid: Some("GEN 1".into()),
                altnumber: None,
                pubnumber: None,
                span: 5..10,
            },
            Node::Chapter {
                marker: "c".into(),
                number: "2".into(),
                sid: Some("GEN 2".into()),
                altnumber: None,
                pubnumber: None,
                span: 10..15,
            },
        ],
    };
    let xml = to_usx_string(&doc).unwrap();
    // Should have eid for chapter 1 before chapter 2
    assert!(xml.contains("<chapter eid=\"GEN 1\"/>"));
    // Should have eid for chapter 2 at end
    assert!(xml.contains("<chapter eid=\"GEN 2\"/>"));
}

#[test]
fn test_usx_verse_eid() {
    let doc = Document {
        content: vec![
            Node::Book {
                marker: "id".into(),
                code: "GEN".into(),
                content: vec![],
                span: 0..5,
            },
            Node::Chapter {
                marker: "c".into(),
                number: "1".into(),
                sid: Some("GEN 1".into()),
                altnumber: None,
                pubnumber: None,
                span: 5..10,
            },
            Node::Para {
                marker: "p".into(),
                content: vec![
                    Node::Verse {
                        marker: "v".into(),
                        number: "1".into(),
                        sid: Some("GEN 1:1".into()),
                        altnumber: None,
                        pubnumber: None,
                        span: 10..14,
                    },
                    Node::text("First verse. "),
                    Node::Verse {
                        marker: "v".into(),
                        number: "2".into(),
                        sid: Some("GEN 1:2".into()),
                        altnumber: None,
                        pubnumber: None,
                        span: 20..24,
                    },
                    Node::text("Second verse."),
                ],
                span: 10..40,
            },
        ],
    };
    let xml = to_usx_string(&doc).unwrap();
    assert!(xml.contains("<verse eid=\"GEN 1:1\"/>"));
    assert!(xml.contains("<verse eid=\"GEN 1:2\"/>"));
}

#[test]
fn test_usx_note() {
    let doc = Document {
        content: vec![Node::Para {
            marker: "p".into(),
            content: vec![Node::Note {
                marker: "f".into(),
                caller: "+".into(),
                category: None,
                content: vec![Node::Char {
                    marker: "ft".into(),
                    content: vec![Node::text("A footnote")],
                    attributes: vec![],
                    span: 5..20,
                }],
                span: 0..25,
            }],
            span: 0..30,
        }],
    };
    let xml = to_usx_string(&doc).unwrap();
    assert!(xml.contains("<note caller=\"+\" style=\"f\">"));
    assert!(xml.contains("<char style=\"ft\">A footnote</char>"));
    assert!(xml.contains("</note>"));
}

#[test]
fn test_usx_milestone() {
    let doc = Document {
        content: vec![Node::Para {
            marker: "p".into(),
            content: vec![Node::Milestone {
                marker: "qt1-s".into(),
                attributes: vec![Attribute {
                    key: "who".into(),
                    value: "Jesus".into(),
                }],
                span: 0..15,
            }],
            span: 0..20,
        }],
    };
    let xml = to_usx_string(&doc).unwrap();
    assert!(xml.contains("<ms style=\"qt1-s\" who=\"Jesus\"/>"));
}

#[test]
fn test_usx_empty_document() {
    let doc = Document::new();
    let xml = to_usx_string(&doc).unwrap();
    assert!(xml.contains("<usx version=\"3.0\""));
    assert!(xml.contains("</usx>"));
}

#[test]
fn test_usx_xml_escaping() {
    let doc = Document {
        content: vec![Node::Para {
            marker: "p".into(),
            content: vec![Node::text("He said \"hello\" & <goodbye>")],
            span: 0..30,
        }],
    };
    let xml = to_usx_string(&doc).unwrap();
    // XML special characters should be escaped
    assert!(xml.contains("&amp;"));
    assert!(xml.contains("&lt;"));
    assert!(xml.contains("&gt;"));
}
