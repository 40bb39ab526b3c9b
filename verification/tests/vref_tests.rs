use serde_json::Value;
use usfm3::ast::{ChapterData, CharData, Document, Node, VerseData};
use usfm3::vref::to_vref_json_string;

/// The verse map as a JSON object, for lookups by reference.
fn to_vref_map(doc: &Document) -> serde_json::Map<String, Value> {
    let mut map = serde_json::Map::new();
    for (k, v) in usfm3::vref::to_vref_map(doc) {
        map.insert(k, Value::String(v));
    }
    map
}

fn sample_doc() -> Document {
    Document {
        content: vec![
            Node::Book {
                marker: "id".into(),
                code: "GEN".into(),
                content: vec![Node::text("Genesis")],
            },
            Node::Chapter(Box::new(ChapterData {
                marker: "c".into(),
                number: "1".into(),
                sid: Some("GEN 1".into()),
                altnumber: None,
                pubnumber: None,
            })),
            Node::Para {
                marker: "p".into(),
                content: vec![
                    Node::Verse(Box::new(VerseData {
                        marker: "v".into(),
                        number: "1".into(),
                        sid: Some("GEN 1:1".into()),
                        altnumber: None,
                        pubnumber: None,
                    })),
                    Node::text("In the beginning God created the heavens and the earth."),
                    Node::Verse(Box::new(VerseData {
                        marker: "v".into(),
                        number: "2".into(),
                        sid: Some("GEN 1:2".into()),
                        altnumber: None,
                        pubnumber: None,
                    })),
                    Node::text("The earth was without form and void."),
                ],
            },
        ],
    }
}


#[test]
fn test_basic_vref() {
    let map = to_vref_map(&sample_doc());
    assert_eq!(map.len(), 2);
    assert_eq!(
        map.get("GEN 1:1").and_then(|v| v.as_str()),
        Some("In the beginning God created the heavens and the earth.")
    );
    assert_eq!(
        map.get("GEN 1:2").and_then(|v| v.as_str()),
        Some("The earth was without form and void.")
    );
}

#[test]
fn test_insertion_order_preserved() {
    let pairs = usfm3::vref::to_vref_map(&sample_doc());
    let keys: Vec<&String> = pairs.iter().map(|(k, _)| k).collect();
    assert_eq!(keys, vec!["GEN 1:1", "GEN 1:2"]);
}

#[test]
fn test_footnotes_stripped() {
    let doc = Document {
        content: vec![
            Node::Book {
                marker: "id".into(),
                code: "GEN".into(),
                content: vec![],
            },
            Node::Chapter(Box::new(ChapterData {
                marker: "c".into(),
                number: "1".into(),
                sid: Some("GEN 1".into()),
                altnumber: None,
                pubnumber: None,
            })),
            Node::Para {
                marker: "p".into(),
                content: vec![
                    Node::Verse(Box::new(VerseData {
                        marker: "v".into(),
                        number: "1".into(),
                        sid: Some("GEN 1:1".into()),
                        altnumber: None,
                        pubnumber: None,
                    })),
                    Node::text("In the beginning"),
                    Node::Note {
                        marker: "f".into(),
                        caller: "+".into(),
                        category: None,
                        content: vec![Node::text("A footnote")],
                    },
                    Node::text(" God created."),
                ],
            },
        ],
    };
    let map = to_vref_map(&doc);
    assert_eq!(
        map.get("GEN 1:1").and_then(|v| v.as_str()),
        Some("In the beginning God created.")
    );
}

#[test]
fn test_section_headings_skipped() {
    let doc = Document {
        content: vec![
            Node::Book {
                marker: "id".into(),
                code: "GEN".into(),
                content: vec![],
            },
            Node::Chapter(Box::new(ChapterData {
                marker: "c".into(),
                number: "1".into(),
                sid: Some("GEN 1".into()),
                altnumber: None,
                pubnumber: None,
            })),
            // Section heading -- should be ignored.
            Node::Para {
                marker: "s1".into(),
                content: vec![Node::text("The Creation")],
            },
            Node::Para {
                marker: "p".into(),
                content: vec![
                    Node::Verse(Box::new(VerseData {
                        marker: "v".into(),
                        number: "1".into(),
                        sid: Some("GEN 1:1".into()),
                        altnumber: None,
                        pubnumber: None,
                    })),
                    Node::text("In the beginning."),
                ],
            },
        ],
    };
    let map = to_vref_map(&doc);
    assert_eq!(map.len(), 1);
    assert_eq!(
        map.get("GEN 1:1").and_then(|v| v.as_str()),
        Some("In the beginning.")
    );
}

#[test]
fn test_char_markers_text_included() {
    let doc = Document {
        content: vec![
            Node::Book {
                marker: "id".into(),
                code: "GEN".into(),
                content: vec![],
            },
            Node::Chapter(Box::new(ChapterData {
                marker: "c".into(),
                number: "1".into(),
                sid: Some("GEN 1".into()),
                altnumber: None,
                pubnumber: None,
            })),
            Node::Para {
                marker: "p".into(),
                content: vec![
                    Node::Verse(Box::new(VerseData {
                        marker: "v".into(),
                        number: "1".into(),
                        sid: Some("GEN 1:1".into()),
                        altnumber: None,
                        pubnumber: None,
                    })),
                    Node::text("The "),
                    Node::Char(Box::new(CharData {
                        marker: "nd".into(),
                        content: vec![Node::text("Lord")],
                        attributes: vec![],
                    })),
                    Node::text(" said."),
                ],
            },
        ],
    };
    let map = to_vref_map(&doc);
    assert_eq!(
        map.get("GEN 1:1").and_then(|v| v.as_str()),
        Some("The Lord said.")
    );
}

#[test]
fn vref_test_empty_document() {
    let map = to_vref_map(&Document::new());
    assert!(map.is_empty());
}

#[test]
fn test_verse_spanning_paragraphs() {
    let doc = Document {
        content: vec![
            Node::Book {
                marker: "id".into(),
                code: "GEN".into(),
                content: vec![],
            },
            Node::Chapter(Box::new(ChapterData {
                marker: "c".into(),
                number: "1".into(),
                sid: Some("GEN 1".into()),
                altnumber: None,
                pubnumber: None,
            })),
            Node::Para {
                marker: "p".into(),
                content: vec![
                    Node::Verse(Box::new(VerseData {
                        marker: "v".into(),
                        number: "1".into(),
                        sid: Some("GEN 1:1".into()),
                        altnumber: None,
                        pubnumber: None,
                    })),
                    Node::text("First part."),
                ],
            },
            // Continuation paragraph (no verse marker, same verse).
            Node::Para {
                marker: "q1".into(),
                content: vec![Node::text("Second part.")],
            },
        ],
    };
    let map = to_vref_map(&doc);
    assert_eq!(map.len(), 1);
    assert_eq!(
        map.get("GEN 1:1").and_then(|v| v.as_str()),
        Some("First part. Second part.")
    );
}

#[test]
fn test_json_output() {
    let json = to_vref_json_string(&sample_doc()).unwrap();
    assert!(json.contains("\"GEN 1:1\""));
    assert!(json.contains("\"GEN 1:2\""));
    assert!(json.contains("In the beginning"));
}

#[test]
fn test_root_level_verses_collected() {
    // Verses at root level (no Para wrapper) — valid per USFM 3.1.
    let doc = Document {
        content: vec![
            Node::Book {
                marker: "id".into(),
                code: "GEN".into(),
                content: vec![],
            },
            Node::Chapter(Box::new(ChapterData {
                marker: "c".into(),
                number: "1".into(),
                sid: Some("GEN 1".into()),
                altnumber: None,
                pubnumber: None,
            })),
            Node::Verse(Box::new(VerseData {
                marker: "v".into(),
                number: "1".into(),
                sid: Some("GEN 1:1".into()),
                altnumber: None,
                pubnumber: None,
            })),
            Node::text("In the beginning."),
            Node::Verse(Box::new(VerseData {
                marker: "v".into(),
                number: "2".into(),
                sid: Some("GEN 1:2".into()),
                altnumber: None,
                pubnumber: None,
            })),
            Node::text("And God said."),
        ],
    };
    let map = to_vref_map(&doc);
    assert_eq!(map.len(), 2);
    assert_eq!(
        map.get("GEN 1:1").and_then(|v| v.as_str()),
        Some("In the beginning.")
    );
    assert_eq!(
        map.get("GEN 1:2").and_then(|v| v.as_str()),
        Some("And God said.")
    );
}

#[test]
fn test_root_level_verses_then_paragraph() {
    // Root-level verses followed by a paragraph with more verses.
    let doc = Document {
        content: vec![
            Node::Book {
                marker: "id".into(),
                code: "GEN".into(),
                content: vec![],
            },
            Node::Chapter(Box::new(ChapterData {
                marker: "c".into(),
                number: "1".into(),
                sid: Some("GEN 1".into()),
                altnumber: None,
                pubnumber: None,
            })),
            // Root-level verse.
            Node::Verse(Box::new(VerseData {
                marker: "v".into(),
                number: "1".into(),
                sid: Some("GEN 1:1".into()),
                altnumber: None,
                pubnumber: None,
            })),
            Node::text("First."),
            // Then a paragraph with verse 2.
            Node::Para {
                marker: "p".into(),
                content: vec![
                    Node::Verse(Box::new(VerseData {
                        marker: "v".into(),
                        number: "2".into(),
                        sid: Some("GEN 1:2".into()),
                        altnumber: None,
                        pubnumber: None,
                    })),
                    Node::text("Second."),
                ],
            },
        ],
    };
    let map = to_vref_map(&doc);
    assert_eq!(map.len(), 2);
    assert_eq!(map.get("GEN 1:1").and_then(|v| v.as_str()), Some("First."));
    assert_eq!(map.get("GEN 1:2").and_then(|v| v.as_str()), Some("Second."));
}

#[test]
fn vref_repeated_reference_is_refiled_in_place() {
    let verse = |n: &str| {
        Node::Verse(Box::new(VerseData {
            marker: "v".into(),
            number: n.into(),
            sid: None,
            altnumber: None,
            pubnumber: None,
        }))
    };
    let doc = Document {
        content: vec![
            Node::Book {
                marker: "id".into(),
                code: "GEN".into(),
                content: vec![],
            },
            Node::Chapter(Box::new(ChapterData {
                marker: "c".into(),
                number: "1".into(),
                sid: None,
                altnumber: None,
                pubnumber: None,
            })),
            verse("1"),
            Node::text("First."),
            verse("2"),
            Node::text("  Second.  "),
            verse("1"),
            Node::text("Again."),
        ],
    };
    let pairs = usfm3::vref::to_vref_map(&doc);
    let keys: Vec<&str> = pairs.iter().map(|(k, _)| k.as_str()).collect();
    assert_eq!(keys, vec!["GEN 1:1", "GEN 1:2"]);
    assert_eq!(pairs[0].1, "Again.");
    assert_eq!(pairs[1].1, "Second.");
}
