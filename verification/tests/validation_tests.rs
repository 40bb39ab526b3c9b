use usfm3::ast::{Attribute, ChapterData, CharData, Document, Node, VerseData};
use usfm3::diagnostics::{DiagnosticCode, DiagnosticList};
use usfm3::source_map::{SourceMap, SourceNode, SourceSpans};
use usfm3::validation::{parse_verse_part, parse_verse_range_end, validate, VersePart};

fn doc_with(nodes: Vec<Node>) -> Document {
    Document { content: nodes }
}

fn validate_doc(doc: &Document) -> DiagnosticList {
    validate(doc, &source_map_for_document(doc))
}

fn source_map_for_document(doc: &Document) -> SourceMap {
    SourceMap {
        content: doc
            .content
            .iter()
            .enumerate()
            .map(|(index, node)| source_node_for_node(node, index * 10))
            .collect(),
    }
}

fn source_node_for_node(node: &Node, start: usize) -> SourceNode {
    let children = node
        .children()
        .iter()
        .enumerate()
        .map(|(index, child)| source_node_for_node(child, (start + 1) * 10 + index))
        .collect();

    match node {
        Node::Text(_) | Node::OptBreak => SourceNode::leaf(),
        _ => SourceNode::structural(SourceSpans::node(start..start + 1), children, None),
    }
}

#[test]
fn parse_verse_helpers_cover_ranges_and_suffixes() {
    let vp = |num, suffix| Some(VersePart { num, suffix });
    assert_eq!(parse_verse_part("1"), vp(1, None));
    assert_eq!(parse_verse_part("3-4"), vp(3, None));
    assert_eq!(parse_verse_part("2b"), vp(2, Some('b')));
    assert_eq!(parse_verse_part("abc"), None);

    assert_eq!(parse_verse_range_end("1"), vp(1, None));
    assert_eq!(parse_verse_range_end("3-4"), vp(4, None));
    assert_eq!(parse_verse_range_end("2b-3a"), vp(3, Some('a')));
}

#[test]
fn validation_uses_source_map_spans() {
    let doc = Document {
        content: vec![Node::Book {
            marker: "id".into(),
            code: "BAD".into(),
            content: Vec::new(),
        }],
    };
    let source_map = SourceMap {
        content: vec![SourceNode::structural(
            SourceSpans::node(4..7),
            Vec::new(),
            Some(0),
        )],
    };
    let diagnostics = validate(&doc, &source_map);
    let first = diagnostics.iter().next().unwrap();
    assert_eq!(first.span, 4..7);
}

#[test]
fn missing_id_is_reported() {
    let doc = doc_with(vec![Node::Para {
        marker: "p".into(),
        content: vec![],
    }]);

    let diagnostics = validate_doc(&doc);
    assert!(
        diagnostics
            .iter()
            .any(|diagnostic| diagnostic.code == DiagnosticCode::MissingIdMarker)
    );
}

#[test]
fn valid_and_invalid_book_codes_are_distinguished() {
    let valid = doc_with(vec![Node::Book {
        marker: "id".into(),
        code: "GEN".into(),
        content: vec![],
    }]);
    let invalid = doc_with(vec![Node::Book {
        marker: "id".into(),
        code: "XYZ".into(),
        content: vec![],
    }]);

    assert!(
        !validate_doc(&valid)
            .iter()
            .any(|diagnostic| diagnostic.code == DiagnosticCode::InvalidBookCode)
    );
    assert!(
        validate_doc(&invalid)
            .iter()
            .any(|diagnostic| diagnostic.code == DiagnosticCode::InvalidBookCode)
    );
}

#[test]
fn chapter_sequence_and_duplicates_are_reported() {
    let valid = doc_with(vec![
        Node::Book {
            marker: "id".into(),
            code: "GEN".into(),
            content: vec![],
        },
        Node::Chapter(Box::new(ChapterData {
            marker: "c".into(),
            number: "1".into(),
            sid: None,
            altnumber: None,
            pubnumber: None,
        })),
        Node::Chapter(Box::new(ChapterData {
            marker: "c".into(),
            number: "2".into(),
            sid: None,
            altnumber: None,
            pubnumber: None,
        })),
    ]);
    let gap = doc_with(vec![
        Node::Book {
            marker: "id".into(),
            code: "GEN".into(),
            content: vec![],
        },
        Node::Chapter(Box::new(ChapterData {
            marker: "c".into(),
            number: "1".into(),
            sid: None,
            altnumber: None,
            pubnumber: None,
        })),
        Node::Chapter(Box::new(ChapterData {
            marker: "c".into(),
            number: "3".into(),
            sid: None,
            altnumber: None,
            pubnumber: None,
        })),
    ]);
    let duplicate = doc_with(vec![
        Node::Book {
            marker: "id".into(),
            code: "GEN".into(),
            content: vec![],
        },
        Node::Chapter(Box::new(ChapterData {
            marker: "c".into(),
            number: "1".into(),
            sid: None,
            altnumber: None,
            pubnumber: None,
        })),
        Node::Chapter(Box::new(ChapterData {
            marker: "c".into(),
            number: "1".into(),
            sid: None,
            altnumber: None,
            pubnumber: None,
        })),
    ]);

    assert!(
        !validate_doc(&valid)
            .iter()
            .any(|diagnostic| diagnostic.code == DiagnosticCode::InvalidChapterSequence)
    );
    assert!(
        validate_doc(&gap)
            .iter()
            .any(|diagnostic| diagnostic.code == DiagnosticCode::InvalidChapterSequence)
    );
    assert!(
        validate_doc(&duplicate)
            .iter()
            .any(|diagnostic| diagnostic.code == DiagnosticCode::DuplicateChapter)
    );
}

#[test]
fn verse_sequence_rules_handle_ranges_and_new_chapters() {
    let valid = doc_with(vec![
        Node::Book {
            marker: "id".into(),
            code: "GEN".into(),
            content: vec![],
        },
        Node::Chapter(Box::new(ChapterData {
            marker: "c".into(),
            number: "1".into(),
            sid: None,
            altnumber: None,
            pubnumber: None,
        })),
        Node::Para {
            marker: "p".into(),
            content: vec![
                Node::Verse(Box::new(VerseData {
                    marker: "v".into(),
                    number: "1".into(),
                    sid: None,
                    altnumber: None,
                    pubnumber: None,
                })),
                Node::Verse(Box::new(VerseData {
                    marker: "v".into(),
                    number: "2".into(),
                    sid: None,
                    altnumber: None,
                    pubnumber: None,
                })),
                Node::Verse(Box::new(VerseData {
                    marker: "v".into(),
                    number: "3-4".into(),
                    sid: None,
                    altnumber: None,
                    pubnumber: None,
                })),
                Node::Verse(Box::new(VerseData {
                    marker: "v".into(),
                    number: "5".into(),
                    sid: None,
                    altnumber: None,
                    pubnumber: None,
                })),
            ],
        },
        Node::Chapter(Box::new(ChapterData {
            marker: "c".into(),
            number: "2".into(),
            sid: None,
            altnumber: None,
            pubnumber: None,
        })),
        Node::Para {
            marker: "p".into(),
            content: vec![Node::Verse(Box::new(VerseData {
                marker: "v".into(),
                number: "1".into(),
                sid: None,
                altnumber: None,
                pubnumber: None,
            }))],
        },
    ]);
    let gap = doc_with(vec![
        Node::Book {
            marker: "id".into(),
            code: "GEN".into(),
            content: vec![],
        },
        Node::Chapter(Box::new(ChapterData {
            marker: "c".into(),
            number: "1".into(),
            sid: None,
            altnumber: None,
            pubnumber: None,
        })),
        Node::Para {
            marker: "p".into(),
            content: vec![
                Node::Verse(Box::new(VerseData {
                    marker: "v".into(),
                    number: "1".into(),
                    sid: None,
                    altnumber: None,
                    pubnumber: None,
                })),
                Node::Verse(Box::new(VerseData {
                    marker: "v".into(),
                    number: "3".into(),
                    sid: None,
                    altnumber: None,
                    pubnumber: None,
                })),
            ],
        },
    ]);

    assert!(
        !validate_doc(&valid)
            .iter()
            .any(|diagnostic| diagnostic.code == DiagnosticCode::InvalidVerseSequence)
    );
    assert!(
        validate_doc(&gap)
            .iter()
            .any(|diagnostic| diagnostic.code == DiagnosticCode::InvalidVerseSequence)
    );
}

#[test]
fn text_before_id_is_detected() {
    let doc = doc_with(vec![
        Node::text("stray text"),
        Node::Book {
            marker: "id".into(),
            code: "GEN".into(),
            content: vec![],
        },
    ]);

    let diagnostics = validate_doc(&doc);
    assert!(
        diagnostics
            .iter()
            .any(|diagnostic| diagnostic.code == DiagnosticCode::TextBeforeId)
    );
}

#[test]
fn header_after_body_but_not_body_headers_is_reported() {
    let bad = doc_with(vec![
        Node::Book {
            marker: "id".into(),
            code: "GEN".into(),
            content: vec![],
        },
        Node::Chapter(Box::new(ChapterData {
            marker: "c".into(),
            number: "1".into(),
            sid: None,
            altnumber: None,
            pubnumber: None,
        })),
        Node::Para {
            marker: "h".into(),
            content: vec![Node::text("Genesis")],
        },
    ]);
    let ok = doc_with(vec![
        Node::Book {
            marker: "id".into(),
            code: "GEN".into(),
            content: vec![],
        },
        Node::Chapter(Box::new(ChapterData {
            marker: "c".into(),
            number: "1".into(),
            sid: None,
            altnumber: None,
            pubnumber: None,
        })),
        Node::Para {
            marker: "cl".into(),
            content: vec![Node::text("Chapter One")],
        },
    ]);

    assert!(
        validate_doc(&bad)
            .iter()
            .any(|diagnostic| diagnostic.code == DiagnosticCode::HeaderAfterBody)
    );
    assert!(
        !validate_doc(&ok)
            .iter()
            .any(|diagnostic| diagnostic.code == DiagnosticCode::HeaderAfterBody)
    );
}

#[test]
fn note_only_markers_must_stay_inside_notes() {
    let bad = doc_with(vec![
        Node::Book {
            marker: "id".into(),
            code: "GEN".into(),
            content: vec![],
        },
        Node::Para {
            marker: "p".into(),
            content: vec![Node::Char(Box::new(CharData {
                marker: "ft".into(),
                content: vec![Node::text("footnote text")],
                attributes: vec![],
            }))],
        },
    ]);
    let ok = doc_with(vec![
        Node::Book {
            marker: "id".into(),
            code: "GEN".into(),
            content: vec![],
        },
        Node::Para {
            marker: "p".into(),
            content: vec![Node::Note {
                marker: "f".into(),
                caller: "+".into(),
                category: None,
                content: vec![Node::Char(Box::new(CharData {
                    marker: "ft".into(),
                    content: vec![Node::text("footnote text")],
                    attributes: vec![],
                }))],
            }],
        },
    ]);

    assert!(
        validate_doc(&bad)
            .iter()
            .any(|diagnostic| diagnostic.code == DiagnosticCode::NoteSubmarkerOutsideNote)
    );
    assert!(
        !validate_doc(&ok)
            .iter()
            .any(|diagnostic| diagnostic.code == DiagnosticCode::NoteSubmarkerOutsideNote)
    );
}

#[test]
fn milestone_pairing_is_validated() {
    let matched = doc_with(vec![
        Node::Book {
            marker: "id".into(),
            code: "GEN".into(),
            content: vec![],
        },
        Node::Milestone {
            marker: "qt1-s".into(),
            attributes: vec![],
        },
        Node::Milestone {
            marker: "qt1-e".into(),
            attributes: vec![],
        },
    ]);
    let unmatched = doc_with(vec![
        Node::Book {
            marker: "id".into(),
            code: "GEN".into(),
            content: vec![],
        },
        Node::Milestone {
            marker: "qt1-s".into(),
            attributes: vec![],
        },
    ]);

    assert!(
        !validate_doc(&matched)
            .iter()
            .any(|diagnostic| diagnostic.code == DiagnosticCode::MilestoneMismatch)
    );
    assert!(
        validate_doc(&unmatched)
            .iter()
            .any(|diagnostic| diagnostic.code == DiagnosticCode::MilestoneMismatch)
    );
}

#[test]
fn table_column_sequence_accepts_spans_and_rejects_gaps() {
    let valid = doc_with(vec![
        Node::Book {
            marker: "id".into(),
            code: "GEN".into(),
            content: vec![],
        },
        Node::Table {
            content: vec![Node::TableRow {
                marker: "tr".into(),
                content: vec![
                    Node::TableCell {
                        marker: "tcr1-2".into(),
                        align: "end".into(),
                        content: vec![Node::text("Total: ")],
                    },
                    Node::TableCell {
                        marker: "tcc3".into(),
                        align: "center".into(),
                        content: vec![Node::text("186,400")],
                    },
                ],
            }],
        },
    ]);
    let invalid = doc_with(vec![
        Node::Book {
            marker: "id".into(),
            code: "GEN".into(),
            content: vec![],
        },
        Node::Table {
            content: vec![Node::TableRow {
                marker: "tr".into(),
                content: vec![
                    Node::TableCell {
                        marker: "th1".into(),
                        align: "start".into(),
                        content: vec![Node::text("header1 ")],
                    },
                    Node::TableCell {
                        marker: "th3".into(),
                        align: "start".into(),
                        content: vec![Node::text("header3")],
                    },
                ],
            }],
        },
    ]);

    assert!(
        !validate_doc(&valid)
            .iter()
            .any(|diagnostic| diagnostic.code == DiagnosticCode::InvalidTableColumnSequence)
    );
    assert!(
        validate_doc(&invalid)
            .iter()
            .any(|diagnostic| diagnostic.code == DiagnosticCode::InvalidTableColumnSequence)
    );
}

#[test]
fn char_and_figure_specific_validation_rules_still_hold() {
    let word_with_empty_attribute = doc_with(vec![
        Node::Book {
            marker: "id".into(),
            code: "GEN".into(),
            content: vec![],
        },
        Node::Chapter(Box::new(ChapterData {
            marker: "c".into(),
            number: "1".into(),
            sid: None,
            altnumber: None,
            pubnumber: None,
        })),
        Node::Para {
            marker: "p".into(),
            content: vec![
                Node::Verse(Box::new(VerseData {
                    marker: "v".into(),
                    number: "1".into(),
                    sid: None,
                    altnumber: None,
                    pubnumber: None,
                })),
                Node::Char(Box::new(CharData {
                    marker: "w".into(),
                    content: vec![Node::text("word")],
                    attributes: vec![Attribute {
                        key: "lemma".into(),
                        value: "".into(),
                    }],
                })),
            ],
        },
    ]);
    let empty_figure = doc_with(vec![
        Node::Book {
            marker: "id".into(),
            code: "GEN".into(),
            content: vec![],
        },
        Node::Figure {
            marker: "fig".into(),
            content: vec![Node::text(" ")],
            attributes: vec![],
        },
    ]);

    assert!(
        validate_doc(&word_with_empty_attribute)
            .iter()
            .any(|diagnostic| diagnostic.code == DiagnosticCode::InvalidAttributes)
    );
    assert!(
        validate_doc(&empty_figure)
            .iter()
            .any(|diagnostic| diagnostic.code == DiagnosticCode::EmptyFigure)
    );
}

#[test]
fn valid_document_can_still_produce_no_diagnostics() {
    let doc = doc_with(vec![
        Node::Book {
            marker: "id".into(),
            code: "GEN".into(),
            content: vec![],
        },
        Node::Chapter(Box::new(ChapterData {
            marker: "c".into(),
            number: "1".into(),
            sid: None,
            altnumber: None,
            pubnumber: None,
        })),
        Node::Para {
            marker: "p".into(),
            content: vec![
                Node::Verse(Box::new(VerseData {
                    marker: "v".into(),
                    number: "1".into(),
                    sid: None,
                    altnumber: None,
                    pubnumber: None,
                })),
                Node::text("In the beginning"),
            ],
        },
    ]);

    assert!(validate_doc(&doc).is_empty());
}

#[test]
fn verse_sequence_handles_sub_verse_letters() {
    fn make_doc(numbers: &[&'static str]) -> Document {
        let verses = numbers
            .iter()
            .map(|n| {
                Node::Verse(Box::new(VerseData {
                    marker: "v".into(),
                    number: (*n).into(),
                    sid: None,
                    altnumber: None,
                    pubnumber: None,
                }))
            })
            .collect();
        doc_with(vec![
            Node::Book {
                marker: "id".into(),
                code: "GEN".into(),
                content: vec![],
            },
            Node::Chapter(Box::new(ChapterData {
                marker: "c".into(),
                number: "1".into(),
                sid: None,
                altnumber: None,
                pubnumber: None,
            })),
            Node::Para {
                marker: "p".into(),
                content: verses,
            },
        ])
    }
    fn has_seq_err(numbers: &[&'static str]) -> bool {
        validate_doc(&make_doc(numbers))
            .iter()
            .any(|d| d.code == DiagnosticCode::InvalidVerseSequence)
    }

    // Single sub-verse is fine — treated as that integer's position
    assert!(!has_seq_err(&["1", "2", "3b", "4"]));
    // Full sub-verse sequence then next integer
    assert!(!has_seq_err(&["1", "2", "3a", "3b", "4"]));
    // Longer sub-verse sequence
    assert!(!has_seq_err(&["1", "2", "3a", "3b", "3c", "4"]));
    // Sub-verse then skip to next integer (3a, then 4 — 3b never appears)
    assert!(!has_seq_err(&["1", "2", "3a", "4"]));

    // Repeated sub-verse is an error
    assert!(has_seq_err(&["1", "2", "3a", "3a", "4"]));
    // Backward sub-verse is an error
    assert!(has_seq_err(&["1", "2", "3b", "3a", "4"]));
    // Plain verse after a sub-verse of the same integer is an error
    assert!(has_seq_err(&["1", "2", "3a", "3", "4"]));
}
