use serde_json::Value;
use usfm3::ast::{Attribute, ChapterData, CharData, Document, Node, VerseData};
use usfm3::json::JsonValue;
use usfm3::source_map::{SourceMap, SourceNode, SourceSpans};
use usfm3::usj::{to_usj_string, to_usj_string_pretty, UsjError, UsjOptions};

/// The same value as a `serde_json::Value`, for indexing in assertions.
fn value_of(v: &JsonValue) -> Value {
    match v {
        JsonValue::String(s) => Value::String(s.clone()),
        JsonValue::Number(n) => Value::from(*n),
        JsonValue::Array(items) => Value::Array(items.iter().map(value_of).collect()),
        JsonValue::Object(members) => {
            let mut map = serde_json::Map::new();
            for m in members {
                map.insert(m.key.clone(), value_of(&m.value));
            }
            Value::Object(map)
        }
    }
}

fn to_usj_value(doc: &Document) -> Result<Value, UsjError> {
    usfm3::usj::to_usj_value(doc).map(|v| value_of(&v))
}

fn to_usj_value_with_options(
    doc: &Document,
    source_map: Option<&SourceMap>,
    options: UsjOptions,
) -> Result<Value, UsjError> {
    usfm3::usj::to_usj_value_with_options(doc, source_map, options).map(|v| value_of(&v))
}

fn sample_document() -> Document {
    Document {
        content: vec![
            Node::Book {
                marker: "id".into(),
                code: "GEN".into(),
                content: vec![Node::text("Genesis")],
            },
            Node::Chapter(Box::new(ChapterData {
                marker: "c".into(),
                number: "1".into(),
                sid: Some("GEN 1".into()),
                altnumber: None,
                pubnumber: None,
            })),
            Node::Para {
                marker: "p".into(),
                content: vec![
                    Node::Verse(Box::new(VerseData {
                        marker: "v".into(),
                        number: "1".into(),
                        sid: Some("GEN 1:1".into()),
                        altnumber: None,
                        pubnumber: None,
                    })),
                    Node::text("In the beginning God created the heavens and the earth."),
                ],
            },
        ],
    }
}

fn sample_source_map() -> SourceMap {
    SourceMap {
        content: vec![
            SourceNode::structural(
                SourceSpans::node(0..20).with_code(4..7),
                vec![SourceNode::leaf()],
                Some(0),
            ),
            SourceNode::structural(
                SourceSpans::node(21..25).with_number(24..25),
                Vec::new(),
                Some(1),
            ),
            SourceNode::structural(
                SourceSpans::node(26..90),
                vec![
                    SourceNode::structural(
                        SourceSpans::node(29..33).with_number(32..33),
                        Vec::new(),
                        Some(2),
                    ),
                    SourceNode::leaf(),
                ],
                Some(3),
            ),
        ],
    }
}

#[test]
fn usj_string_contains_envelope_and_book_data() {
    let doc = sample_document();
    let json = to_usj_string(&doc).unwrap();

    assert!(json.contains("\"type\":\"USJ\""));
    assert!(json.contains("\"version\":\"3.1\""));
    assert!(json.contains("\"type\":\"book\""));
    assert!(json.contains("\"code\":\"GEN\""));
}

#[test]
fn usj_pretty_prints() {
    let doc = sample_document();
    let json = to_usj_string_pretty(&doc).unwrap();

    assert!(json.contains('\n'));
    assert!(json.contains("\"type\": \"USJ\""));
}

#[test]
fn usj_value_preserves_structure() {
    let doc = sample_document();
    let value = to_usj_value(&doc).unwrap();

    assert_eq!(value["type"], "USJ");
    assert_eq!(value["version"], "3.1");
    assert_eq!(value["content"][0]["type"], "book");
    assert_eq!(value["content"][0]["code"], "GEN");
    assert_eq!(value["content"][0]["content"][0], "Genesis");
    assert_eq!(value["content"][1]["type"], "chapter");
    assert_eq!(value["content"][1]["number"], "1");
    assert_eq!(value["content"][2]["type"], "para");
    assert_eq!(value["content"][2]["content"][0]["type"], "verse");
    assert_eq!(
        value["content"][2]["content"][1],
        "In the beginning God created the heavens and the earth."
    );
}

#[test]
fn usj_omits_spans_by_default() {
    let value = to_usj_value(&sample_document()).unwrap();

    assert!(value["content"][0].get("spans").is_none());
}

#[test]
fn usj_with_spans_uses_source_map() {
    let doc = sample_document();
    let source_map = sample_source_map();
    let value = to_usj_value_with_options(
        &doc,
        Some(&source_map),
        UsjOptions {
            include_spans: true,
        },
    )
    .unwrap();

    assert_eq!(value["content"][0]["spans"]["node"], Value::from(vec![0, 20]));
    assert_eq!(value["content"][0]["spans"]["code"], Value::from(vec![4, 7]));
    assert_eq!(value["content"][1]["spans"]["number"], Value::from(vec![24, 25]));
    assert!(value["content"][2]["content"][1].is_string());
}

#[test]
fn usj_with_spans_requires_source_map() {
    let error = to_usj_value_with_options(
        &sample_document(),
        None,
        UsjOptions {
            include_spans: true,
        },
    )
    .unwrap_err();

    assert!(matches!(error, UsjError::MissingSourceMapForSpans));
}

#[test]
fn usj_rejects_shape_mismatches_between_ast_and_source_map() {
    let doc = sample_document();
    let source_map = SourceMap {
        content: vec![SourceNode::structural(
            SourceSpans::node(0..1),
            Vec::new(),
            None,
        )],
    };

    let error = to_usj_value_with_options(
        &doc,
        Some(&source_map),
        UsjOptions {
            include_spans: true,
        },
    )
    .unwrap_err();

    assert!(matches!(error, UsjError::SourceMapShapeMismatch));
}

#[test]
fn usj_empty_document_is_valid() {
    let value = to_usj_value(&Document::new()).unwrap();
    assert_eq!(value["type"], "USJ");
    assert_eq!(value["content"], Value::Array(vec![]));
}

#[test]
fn usj_text_nodes_serialize_as_bare_strings() {
    let doc = Document {
        content: vec![Node::Para {
            marker: "p".into(),
            content: vec![Node::text("hello world")],
        }],
    };

    let value = to_usj_value(&doc).unwrap();
    assert_eq!(value["content"][0]["content"][0], "hello world");
}

#[test]
fn usj_serializes_note_and_attributes() {
    let doc = Document {
        content: vec![Node::Para {
            marker: "p".into(),
            content: vec![Node::Note {
                marker: "f".into(),
                caller: "+".into(),
                category: Some("ex".into()),
                content: vec![
                    Node::Char(Box::new(CharData {
                        marker: "fr".into(),
                        content: vec![Node::text("1.1")],
                        attributes: vec![],
                    })),
                    Node::Char(Box::new(CharData {
                        marker: "ft".into(),
                        content: vec![Node::text("A footnote")],
                        attributes: vec![Attribute {
                            key: "style".into(),
                            value: "plain".into(),
                        }],
                    })),
                ],
            }],
        }],
    };

    let value = to_usj_value(&doc).unwrap();
    let note = &value["content"][0]["content"][0];
    assert_eq!(note["type"], "note");
    assert_eq!(note["marker"], "f");
    assert_eq!(note["caller"], "+");
    assert_eq!(note["category"], "ex");
    assert_eq!(note["content"][1]["attributes"][0]["key"], "style");
}

#[test]
fn usj_omits_empty_content_arrays() {
    let doc = Document {
        content: vec![Node::Para {
            marker: "b".into(),
            content: vec![],
        }],
    };

    let value = to_usj_value(&doc).unwrap();
    assert_eq!(value["content"][0]["type"], "para");
    assert_eq!(value["content"][0]["marker"], "b");
    assert!(value["content"][0].get("content").is_none());
}
