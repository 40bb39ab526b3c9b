use serde_json::Value;
use usfm3::json::JsonValue;
use usfm3::spanned_ast::{Attribute, Document, Node, Span};
use usfm3::spanned_usj::{document_value, node_value};

/// The same value as a `serde_json::Value`, for indexing in assertions.
fn value_of(v: &JsonValue) -> Value {
    match v {
        JsonValue::String(s) => Value::String(s.clone()),
        JsonValue::Number(n) => Value::from(*n),
        JsonValue::Array(items) => Value::Array(items.iter().map(value_of).collect()),
        JsonValue::Object(members) => {
            let mut map = serde_json::Map::new();
            for m in members {
                map.insert(m.key.clone(), value_of(&m.value));
            }
            Value::Object(map)
        }
    }
}

#[test]
fn create_document() {
    let doc = Document::new();
    assert!(doc.content.is_empty());
}

#[test]
fn create_book_node() {
    let node = Node::Book {
        marker: "id".into(),
        code: "GEN".into(),
        content: vec![],
        span: 0..5,
    };
    assert_eq!(node.marker(), Some("id"));
    assert_eq!(node.span(), Some(&(0..5)));
    assert!(node.children().is_empty());
}

#[test]
fn create_chapter_node() {
    let mut node = Node::Chapter {
        marker: "c".into(),
        number: "1".into(),
        sid: Some("GEN 1".into()),
        altnumber: None,
        pubnumber: None,
        span: 10..14,
    };
    assert_eq!(node.marker(), Some("c"));
    assert_eq!(node.span(), Some(&(10..14)));
    // Chapter is a milestone: no children.
    assert!(node.children().is_empty());
    assert!(node.children_mut().is_none());
}

#[test]
fn create_verse_node() {
    let node = Node::Verse {
        marker: "v".into(),
        number: "3-4".into(),
        sid: Some("GEN 1:3-4".into()),
        altnumber: None,
        pubnumber: None,
        span: 20..25,
    };
    assert_eq!(node.marker(), Some("v"));
    assert!(node.children().is_empty());
}

#[test]
fn create_para_node() {
    let node = Node::Para {
        marker: "p".into(),
        content: vec![Node::text("Hello world")],
        span: 30..50,
    };
    assert_eq!(node.marker(), Some("p"));
    assert_eq!(node.children().len(), 1);
}

#[test]
fn create_char_node() {
    let node = Node::Char {
        marker: "nd".into(),
        content: vec![Node::text("Lord")],
        attributes: vec![],
        span: 40..55,
    };
    assert_eq!(node.marker(), Some("nd"));
    assert_eq!(node.children().len(), 1);
}

#[test]
fn create_note_node() {
    let node = Node::Note {
        marker: "f".into(),
        caller: "+".into(),
        category: None,
        content: vec![Node::text("A footnote.")],
        span: 60..80,
    };
    assert_eq!(node.marker(), Some("f"));
    assert_eq!(node.children().len(), 1);
}

#[test]
fn create_milestone_node() {
    let node = Node::Milestone {
        marker: "qt1-s".into(),
        attributes: vec![Attribute {
            key: "who".into(),
            value: "Jesus".into(),
        }],
        span: 90..100,
    };
    assert_eq!(node.marker(), Some("qt1-s"));
    assert!(node.children().is_empty());
}

#[test]
fn create_figure_node() {
    let node = Node::Figure {
        marker: "fig".into(),
        content: vec![Node::text("Caption text")],
        attributes: vec![
            Attribute {
                key: "src".into(),
                value: "image.png".into(),
            },
            Attribute {
                key: "alt".into(),
                value: "Description".into(),
            },
        ],
        span: 100..130,
    };
    assert_eq!(node.marker(), Some("fig"));
    assert_eq!(node.children().len(), 1);
}

#[test]
fn create_sidebar_node() {
    let node = Node::Sidebar {
        marker: "esb".into(),
        category: None,
        content: vec![Node::Para {
            marker: "p".into(),
            content: vec![Node::text("Sidebar content")],
            span: 140..160,
        }],
        span: 135..170,
    };
    assert_eq!(node.marker(), Some("esb"));
    assert_eq!(node.children().len(), 1);
}

#[test]
fn create_text_node() {
    let mut node = Node::text("In the beginning");
    assert_eq!(node.marker(), None);
    assert_eq!(node.span(), None);
    assert!(node.children().is_empty());
    assert!(node.children_mut().is_none());
}

#[test]
fn create_unknown_node() {
    let node = Node::Unknown {
        marker: "zcustom".into(),
        content: vec![Node::text("custom data")],
        span: 200..220,
    };
    assert_eq!(node.marker(), Some("zcustom"));
    assert_eq!(node.children().len(), 1);
}

#[test]
fn text_shorthand() {
    let node = Node::text("hello");
    assert_eq!(node, Node::Text("hello".into()));
}

#[test]
fn children_returns_empty_for_text() {
    let node = Node::text("abc");
    assert!(node.children().is_empty());
}

#[test]
fn children_mut_returns_some_for_para() {
    let mut node = Node::Para {
        marker: "p".into(),
        content: vec![],
        span: 0..1,
    };
    let kids = node.children_mut().unwrap();
    kids.push(Node::text("appended"));
    assert_eq!(node.children().len(), 1);
}

#[test]
fn children_mut_returns_none_for_verse() {
    let mut node = Node::Verse {
        marker: "v".into(),
        number: "1".into(),
        sid: None,
        altnumber: None,
        pubnumber: None,
        span: 0..3,
    };
    assert!(node.children_mut().is_none());
}

#[test]
fn marker_returns_none_for_text() {
    assert_eq!(Node::text("x").marker(), None);
}

#[test]
fn span_returns_none_for_text() {
    assert_eq!(Node::text("x").span(), None);
}

#[test]
fn serialize_document_to_usj() {
    let doc = Document {
        content: vec![
            Node::Book {
                marker: "id".into(),
                code: "GEN".into(),
                content: vec![Node::text("Genesis")],
                span: 0..20,
            },
            Node::Chapter {
                marker: "c".into(),
                number: "1".into(),
                sid: Some("GEN 1".into()),
                altnumber: None,
                pubnumber: None,
                span: 20..25,
            },
            Node::Para {
                marker: "p".into(),
                content: vec![
                    Node::Verse {
                        marker: "v".into(),
                        number: "1".into(),
                        sid: Some("GEN 1:1".into()),
                        altnumber: None,
                        pubnumber: None,
                        span: 30..33,
                    },
                    Node::text("In the beginning God created the heavens and the earth."),
                ],
                span: 25..90,
            },
        ],
    };

    let value: Value = value_of(&document_value(&doc));

    // Top-level structure
    assert!(value["content"].is_array());

    // Book node
    let book = &value["content"][0];
    assert_eq!(book["type"], "book");
    assert_eq!(book["marker"], "id");
    assert_eq!(book["code"], "GEN");
    assert_eq!(book["content"][0], "Genesis");

    // Chapter node
    let chapter = &value["content"][1];
    assert_eq!(chapter["type"], "chapter");
    assert_eq!(chapter["marker"], "c");
    assert_eq!(chapter["number"], "1");
    assert_eq!(chapter["sid"], "GEN 1");
    // span must NOT appear in JSON
    assert!(chapter.get("span").is_none());

    // Para node
    let para = &value["content"][2];
    assert_eq!(para["type"], "para");
    assert_eq!(para["marker"], "p");

    // Verse inside para
    let verse = &para["content"][0];
    assert_eq!(verse["type"], "verse");
    assert_eq!(verse["number"], "1");
    assert_eq!(verse["sid"], "GEN 1:1");

    // Text inside para (untagged -- bare string)
    let text = &para["content"][1];
    assert_eq!(
        text,
        "In the beginning God created the heavens and the earth."
    );
}

#[test]
fn serialize_note_to_json() {
    let note = Node::Note {
        marker: "f".into(),
        caller: "+".into(),
        category: None,
        content: vec![
            Node::Char {
                marker: "fr".into(),
                content: vec![Node::text("1.1")],
                attributes: vec![],
                span: 0..5,
            },
            Node::Char {
                marker: "ft".into(),
                content: vec![Node::text("Some manuscripts read ...")],
                attributes: vec![],
                span: 5..30,
            },
        ],
        span: 0..35,
    };

    let value: Value = value_of(&node_value(&note));
    assert_eq!(value["type"], "note");
    assert_eq!(value["marker"], "f");
    assert_eq!(value["caller"], "+");
    assert_eq!(value["content"].as_array().unwrap().len(), 2);
}

#[test]
fn serialize_milestone_to_json() {
    let ms = Node::Milestone {
        marker: "qt1-s".into(),
        attributes: vec![Attribute {
            key: "who".into(),
            value: "Jesus".into(),
        }],
        span: 0..10,
    };

    let value: Value = value_of(&node_value(&ms));
    assert_eq!(value["type"], "ms");
    assert_eq!(value["marker"], "qt1-s");
    assert_eq!(value["attributes"][0]["key"], "who");
    assert_eq!(value["attributes"][0]["value"], "Jesus");
}

#[test]
fn serialize_figure_to_json() {
    let fig = Node::Figure {
        marker: "fig".into(),
        content: vec![Node::text("A beautiful landscape")],
        attributes: vec![Attribute {
            key: "src".into(),
            value: "landscape.jpg".into(),
        }],
        span: 0..50,
    };

    let value: Value = value_of(&node_value(&fig));
    assert_eq!(value["type"], "figure");
    assert_eq!(value["marker"], "fig");
    assert_eq!(value["content"][0], "A beautiful landscape");
    assert_eq!(value["attributes"][0]["key"], "src");
}

#[test]
fn serialize_unknown_to_json() {
    let node = Node::Unknown {
        marker: "zcustom".into(),
        content: vec![Node::text("data")],
        span: 0..15,
    };

    let value: Value = value_of(&node_value(&node));
    assert_eq!(value["type"], "unknown");
    assert_eq!(value["marker"], "zcustom");
    assert_eq!(value["content"][0], "data");
}

#[test]
fn serialize_empty_content_omitted() {
    let para = Node::Para {
        marker: "b".into(),
        content: vec![],
        span: 0..3,
    };

    let value: Value = value_of(&node_value(&para));
    assert_eq!(value["type"], "para");
    assert_eq!(value["marker"], "b");
    // Empty content should be omitted
    assert!(value.get("content").is_none());
}

#[test]
fn serialize_optional_sid_omitted_when_none() {
    let verse = Node::Verse {
        marker: "v".into(),
        number: "1".into(),
        sid: None,
        altnumber: None,
        pubnumber: None,
        span: 0..3,
    };

    let value: Value = value_of(&node_value(&verse));
    assert_eq!(value["type"], "verse");
    assert!(value.get("sid").is_none());
}

#[test]
fn serialize_text_as_bare_string() {
    let text = Node::text("plain text");
    let value: Value = value_of(&node_value(&text));
    assert_eq!(value, Value::from("plain text"));
}

#[test]
fn serialize_char_to_json() {
    let node = Node::Char {
        marker: "nd".into(),
        content: vec![Node::text("Lord")],
        attributes: vec![],
        span: 0..10,
    };

    let value: Value = value_of(&node_value(&node));
    assert_eq!(value["type"], "char");
    assert_eq!(value["marker"], "nd");
    assert_eq!(value["content"][0], "Lord");
}

#[test]
fn serialize_sidebar_to_json() {
    let node = Node::Sidebar {
        marker: "esb".into(),
        category: None,
        content: vec![Node::Para {
            marker: "p".into(),
            content: vec![Node::text("Sidebar text")],
            span: 5..20,
        }],
        span: 0..25,
    };

    let value: Value = value_of(&node_value(&node));
    assert_eq!(value["type"], "sidebar");
    assert_eq!(value["marker"], "esb");
    assert_eq!(value["content"].as_array().unwrap().len(), 1);
}

#[test]
fn span_is_std_range() {
    // Confirm that Span is exactly std::ops::Range<usize>.
    let s: Span = 10..20;
    assert_eq!(s.start, 10);
    assert_eq!(s.end, 20);
    assert_eq!(s.len(), 10);
}
