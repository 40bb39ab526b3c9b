use usfm3::ast::{Attribute, ChapterData, CharData, Document, Node, VerseData};
use usfm3::markers::MarkerName;
use usfm3::usfm::to_usfm_string;

#[test]
fn usfm_test_simple_document() {
    let doc = Document {
        content: vec![
            Node::Book {
                marker: "id".into(),
                code: "GEN".into(),
                content: vec![Node::text("Genesis")],
            },
            Node::Chapter(Box::new(ChapterData {
                marker: "c".into(),
                number: "1".into(),
                sid: Some("GEN 1".into()),
                altnumber: None,
                pubnumber: None,
            })),
            Node::Para {
                marker: "p".into(),
                content: vec![
                    Node::Verse(Box::new(VerseData {
                        marker: "v".into(),
                        number: "1".into(),
                        sid: Some("GEN 1:1".into()),
                        altnumber: None,
                        pubnumber: None,
                    })),
                    Node::text("In the beginning God created the heavens and the earth."),
                ],
            },
        ],
    };
    let usfm = to_usfm_string(&doc);
    assert!(usfm.contains("\\id GEN Genesis"));
    assert!(usfm.contains("\\c 1"));
    assert!(usfm.contains("\\p"));
    assert!(usfm.contains("\\v 1 "));
    assert!(usfm.contains("In the beginning"));
}

#[test]
fn usfm_test_character_markers() {
    let doc = Document {
        content: vec![Node::Para {
            marker: "p".into(),
            content: vec![
                Node::text("The "),
                Node::Char(Box::new(CharData {
                    marker: "nd".into(),
                    content: vec![Node::text("Lord")],
                    attributes: vec![],
                })),
                Node::text(" spoke."),
            ],
        }],
    };
    let usfm = to_usfm_string(&doc);
    assert!(usfm.contains("\\nd Lord\\nd*"));
}

#[test]
fn usfm_test_footnote() {
    let doc = Document {
        content: vec![Node::Para {
            marker: "p".into(),
            content: vec![
                Node::text("text"),
                Node::Note {
                    marker: "f".into(),
                    caller: "+".into(),
                    category: None,
                    content: vec![
                        Node::Char(Box::new(CharData {
                            marker: "fr".into(),
                            content: vec![Node::text("1.1")],
                            attributes: vec![],
                        })),
                        Node::Char(Box::new(CharData {
                            marker: "ft".into(),
                            content: vec![Node::text("A note")],
                            attributes: vec![],
                        })),
                    ],
                },
                Node::text(" more text"),
            ],
        }],
    };
    let usfm = to_usfm_string(&doc);
    assert!(usfm.contains("\\f + "));
    assert!(usfm.contains("\\f*"));
    assert!(usfm.contains("\\fr 1.1\\fr*"));
}

#[test]
fn test_poetry() {
    let doc = Document {
        content: vec![
            Node::Para {
                marker: "q1".into(),
                content: vec![
                    Node::Verse(Box::new(VerseData {
                        marker: "v".into(),
                        number: "1".into(),
                        sid: None,
                        altnumber: None,
                        pubnumber: None,
                    })),
                    Node::text("O Lord, I have heard of what you have done,"),
                ],
            },
            Node::Para {
                marker: "q2".into(),
                content: vec![Node::text("and I am filled with awe.")],
            },
        ],
    };
    let usfm = to_usfm_string(&doc);
    assert!(usfm.contains("\\q1"));
    assert!(usfm.contains("\\q2"));
}

#[test]
fn usfm_test_sidebar() {
    let doc = Document {
        content: vec![Node::Sidebar {
            marker: "esb".into(),
            category: None,
            content: vec![Node::Para {
                marker: "p".into(),
                content: vec![Node::text("Sidebar content")],
            }],
        }],
    };
    let usfm = to_usfm_string(&doc);
    assert!(usfm.contains("\\esb"));
    assert!(usfm.contains("\\esbe"));
    assert!(usfm.contains("Sidebar content"));
}

#[test]
fn usfm_test_empty_document() {
    let doc = Document::new();
    let usfm = to_usfm_string(&doc);
    assert!(usfm.is_empty() || usfm.trim().is_empty());
}

#[test]
fn test_blank_line_paragraph() {
    let doc = Document {
        content: vec![Node::Para {
            marker: "b".into(),
            content: vec![],
        }],
    };
    let usfm = to_usfm_string(&doc);
    assert!(usfm.contains("\\b"));
}

#[test]
fn test_milestone_with_attributes() {
    let doc = Document {
        content: vec![Node::Para {
            marker: "p".into(),
            content: vec![Node::Milestone {
                marker: "qt1-s".into(),
                attributes: vec![Attribute {
                    key: "who".into(),
                    value: "Jesus".into(),
                }],
            }],
        }],
    };
    let usfm = to_usfm_string(&doc);
    assert!(usfm.contains("\\qt1-s|who=\"Jesus\"\\*"));
}

#[test]
fn test_milestone_without_attributes() {
    let doc = Document {
        content: vec![Node::Para {
            marker: "p".into(),
            content: vec![Node::Milestone {
                marker: "qt1-e".into(),
                attributes: vec![],
            }],
        }],
    };
    let usfm = to_usfm_string(&doc);
    assert!(usfm.contains("\\qt1-e\\*"));
}

#[test]
fn test_figure() {
    let doc = Document {
        content: vec![Node::Para {
            marker: "p".into(),
            content: vec![Node::Figure {
                marker: "fig".into(),
                content: vec![Node::text("A caption")],
                attributes: vec![Attribute {
                    key: "src".into(),
                    value: "image.jpg".into(),
                }],
            }],
        }],
    };
    let usfm = to_usfm_string(&doc);
    assert!(usfm.contains("\\fig A caption|src=\"image.jpg\"\\fig*"));
}

#[test]
fn usfm_test_unknown_marker() {
    let doc = Document {
        content: vec![Node::Para {
            marker: "p".into(),
            content: vec![Node::Unknown {
                marker: "zcustom".into(),
                content: vec![Node::text("data")],
            }],
        }],
    };
    let usfm = to_usfm_string(&doc);
    assert!(usfm.contains("\\zcustom data\\zcustom*"));
}

#[test]
fn test_multiple_verses_in_paragraph() {
    let doc = Document {
        content: vec![Node::Para {
            marker: "p".into(),
            content: vec![
                Node::Verse(Box::new(VerseData {
                    marker: "v".into(),
                    number: "1".into(),
                    sid: None,
                    altnumber: None,
                    pubnumber: None,
                })),
                Node::text("First verse text."),
                Node::Verse(Box::new(VerseData {
                    marker: "v".into(),
                    number: "2".into(),
                    sid: None,
                    altnumber: None,
                    pubnumber: None,
                })),
                Node::text("Second verse text."),
            ],
        }],
    };
    let usfm = to_usfm_string(&doc);
    assert!(usfm.contains("\\v 1 First verse text."));
    assert!(usfm.contains("\\v 2 Second verse text."));
}

#[test]
fn test_trailing_newline() {
    let doc = Document {
        content: vec![Node::Para {
            marker: "p".into(),
            content: vec![Node::text("hello")],
        }],
    };
    let usfm = to_usfm_string(&doc);
    assert!(usfm.ends_with('\n'));
}

#[test]
fn test_header_markers() {
    let doc = Document {
        content: vec![
            Node::Book {
                marker: "id".into(),
                code: "GEN".into(),
                content: vec![Node::text("Genesis")],
            },
            Node::Para {
                marker: "h".into(),
                content: vec![Node::text("Genesis")],
            },
            Node::Para {
                marker: "toc1".into(),
                content: vec![Node::text("Genesis")],
            },
        ],
    };
    let usfm = to_usfm_string(&doc);
    assert!(usfm.contains("\\id GEN Genesis\n"));
    assert!(usfm.contains("\\h Genesis"));
    assert!(usfm.contains("\\toc1 Genesis"));
}

#[test]
fn test_nested_char_markers() {
    let doc = Document {
        content: vec![Node::Para {
            marker: "p".into(),
            content: vec![Node::Char(Box::new(CharData {
                marker: "add".into(),
                content: vec![
                    Node::text("added "),
                    Node::Char(Box::new(CharData {
                        marker: "nd".into(),
                        content: vec![Node::text("Lord")],
                        attributes: vec![],
                    })),
                ],
                attributes: vec![],
            }))],
        }],
    };
    let usfm = to_usfm_string(&doc);
    assert!(usfm.contains("\\add added \\nd Lord\\nd*\\add*"));
}

#[test]
fn test_cross_reference() {
    let doc = Document {
        content: vec![Node::Para {
            marker: "p".into(),
            content: vec![
                Node::text("text"),
                Node::Note {
                    marker: "x".into(),
                    caller: "-".into(),
                    category: None,
                    content: vec![Node::Char(Box::new(CharData {
                        marker: "xt".into(),
                        content: vec![Node::text("Gen 1:1")],
                        attributes: vec![],
                    }))],
                },
            ],
        }],
    };
    let usfm = to_usfm_string(&doc);
    assert!(usfm.contains("\\x - \\xt Gen 1:1\\xt*\\x*"));
}
