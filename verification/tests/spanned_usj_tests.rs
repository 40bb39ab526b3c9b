use serde_json::Value;
use usfm3::json::JsonValue;
use usfm3::spanned_ast::{Document, Node};
use usfm3::spanned_usj::{to_usj_string, to_usj_string_pretty, UsjDocument};

/// The same value as a `serde_json::Value`, for indexing in assertions.
fn value_of(v: &JsonValue) -> Value {
    match v {
        JsonValue::String(s) => Value::String(s.clone()),
        JsonValue::Number(n) => Value::from(*n),
        JsonValue::Array(items) => Value::Array(items.iter().map(value_of).collect()),
        JsonValue::Object(members) => {
            let mut map = serde_json::Map::new();
            for m in members {
                map.insert(m.key.clone(), value_of(&m.value));
            }
            Value::Object(map)
        }
    }
}

fn to_usj_value(doc: &Document) -> Result<Value, serde_json::Error> {
    usfm3::spanned_usj::to_usj_value(doc).map(|v| value_of(&v))
}

fn sample_document() -> Document {
    Document {
        content: vec![
            Node::Book {
                marker: "id".into(),
                code: "GEN".into(),
                content: vec![Node::text("Genesis")],
                span: 0..20,
            },
            Node::Chapter {
                marker: "c".into(),
                number: "1".into(),
                sid: Some("GEN 1".into()),
                altnumber: None,
                pubnumber: None,
                span: 20..25,
            },
            Node::Para {
                marker: "p".into(),
                content: vec![
                    Node::Verse {
                        marker: "v".into(),
                        number: "1".into(),
                        sid: Some("GEN 1:1".into()),
                        altnumber: None,
                        pubnumber: None,
                        span: 30..33,
                    },
                    Node::text("In the beginning God created the heavens and the earth."),
                ],
                span: 25..90,
            },
        ],
    }
}

#[test]
fn test_usj_string() {
    let doc = sample_document();
    let json_str = to_usj_string(&doc).unwrap();
    assert!(json_str.contains("\"type\":\"USJ\""));
    assert!(json_str.contains("\"version\":\"3.1\""));
    assert!(json_str.contains("\"type\":\"book\""));
    assert!(json_str.contains("\"code\":\"GEN\""));
}

#[test]
fn test_usj_pretty() {
    let doc = sample_document();
    let json_str = to_usj_string_pretty(&doc).unwrap();
    assert!(json_str.contains('\n')); // pretty-printed has newlines
    assert!(json_str.contains("\"type\": \"USJ\""));
}

#[test]
fn test_usj_value() {
    let doc = sample_document();
    let value = to_usj_value(&doc).unwrap();
    assert_eq!(value["type"], "USJ");
    assert_eq!(value["version"], "3.1");
    assert!(value["content"].is_array());
    assert_eq!(value["content"][0]["type"], "book");
    assert_eq!(value["content"][0]["code"], "GEN");
    assert_eq!(value["content"][0]["content"][0], "Genesis");
    assert_eq!(value["content"][1]["type"], "chapter");
    assert_eq!(value["content"][1]["number"], "1");
    assert_eq!(value["content"][2]["type"], "para");
    assert_eq!(value["content"][2]["content"][0]["type"], "verse");
    assert_eq!(value["content"][2]["content"][1], "In the beginning God created the heavens and the earth.");
}

#[test]
fn test_usj_no_spans() {
    let doc = sample_document();
    let json_str = to_usj_string(&doc).unwrap();
    assert!(!json_str.contains("span"));
}

#[test]
fn test_usj_empty_document() {
    let doc = Document::new();
    let value = to_usj_value(&doc).unwrap();
    assert_eq!(value["type"], "USJ");
    assert_eq!(value["content"], Value::Array(vec![]));
}

#[test]
fn test_usj_text_is_bare_string() {
    let doc = Document {
        content: vec![
            Node::Para {
                marker: "p".into(),
                content: vec![Node::text("hello world")],
                span: 0..20,
            },
        ],
    };
    let value = to_usj_value(&doc).unwrap();
    // Text nodes should be bare strings, not objects
    assert_eq!(value["content"][0]["content"][0], "hello world");
}

#[test]
fn test_usj_note() {
    let doc = Document {
        content: vec![
            Node::Para {
                marker: "p".into(),
                content: vec![
                    Node::Note {
                        marker: "f".into(),
                        caller: "+".into(),
                        category: None,
                        content: vec![
                            Node::Char {
                                marker: "fr".into(),
                                content: vec![Node::text("1.1")],
                                attributes: vec![],
                                span: 5..10,
                            },
                            Node::Char {
                                marker: "ft".into(),
                                content: vec![Node::text("A footnote")],
                                attributes: vec![],
                                span: 10..25,
                            },
                        ],
                        span: 0..30,
                    },
                ],
                span: 0..35,
            },
        ],
    };
    let value = to_usj_value(&doc).unwrap();
    let note = &value["content"][0]["content"][0];
    assert_eq!(note["type"], "note");
    assert_eq!(note["marker"], "f");
    assert_eq!(note["caller"], "+");
}

#[test]
fn test_from_document() {
    let doc = sample_document();
    let usj = UsjDocument::from_document(&doc);
    assert_eq!(usj.doc_type, "USJ");
    assert_eq!(usj.version, "3.1");
    assert_eq!(usj.content.len(), 3);
}

#[test]
fn from_document_keeps_nested_spans() {
    let doc = sample_document();
    let usj = UsjDocument::from_document(&doc);
    let para = &usj.content[2];
    assert_eq!(para.span(), Some(&(25..90)));
    assert_eq!(para.children()[0].span(), Some(&(30..33)));
    assert_eq!(para.children()[1].span(), None);
}
