use usfm3::ast::{Attribute, ChapterData, CharData, Document, Node, VerseData};
use usfm3::builder::{lower, parse, parse_attributes, split_first_word};
use usfm3::cst::{self, CstDocument};
use usfm3::diagnostics::{Diagnostic, DiagnosticCode, Severity};
use usfm3::markers::MarkerName;
use usfm3::{AstDocument, ParseOptions};

fn diagnostics(result: &AstDocument) -> &[Diagnostic] {
    result
        .diagnostics
        .as_deref()
        .expect("builder::parse() should collect diagnostics in tests")
}

fn get_cst(input: &str) -> CstDocument {
    cst::parse(input)
}

fn parse_from_cst(document: &CstDocument) -> AstDocument {
    lower(document, ParseOptions { diagnostics: true })
}

#[test]
fn builder_test_simple_document() {
    let result = parse("\\id GEN Genesis\n\\c 1\n\\p\n\\v 1 In the beginning");
    assert!(!result.ast.content.is_empty());
    // Should have Book, Chapter, Para nodes
    match &result.ast.content[0] {
        Node::Book { code, .. } => assert_eq!(code, "GEN"),
        other => panic!("expected Book, got {:?}", other),
    }
}

#[test]
fn builder_test_character_markers() {
    let result = parse("\\id GEN\n\\c 1\n\\p\n\\v 1 The \\nd Lord\\nd* spoke");
    // Find the Para node and check it has Char child
    let has_char = result.ast.content.iter().any(|n| {
        if let Node::Para { content, .. } = n {
            content.iter().any(|c| match c {
                Node::Char(data) => data.marker == "nd",
                _ => false,
            })
        } else {
            false
        }
    });
    assert!(has_char);
}

#[test]
fn builder_test_footnote() {
    let result =
        parse("\\id GEN\n\\c 1\n\\p\n\\v 1 text\\f + \\fr 1.1 \\ft note text\\f* more");
    // Should have a Note node inside the Para
    let has_note = result.ast.content.iter().any(|n| {
        if let Node::Para { content, .. } = n {
            content
                .iter()
                .any(|c| matches!(c, Node::Note { marker, .. } if marker == "f"))
        } else {
            false
        }
    });
    assert!(has_note);
}

#[test]
fn builder_test_implicit_paragraph_close() {
    let result = parse("\\id GEN\n\\c 1\n\\p First para\n\\p Second para");
    // Should have two Para nodes (first implicitly closed by second)
    let para_count = result
        .ast
        .content
        .iter()
        .filter(|n| matches!(n, Node::Para { .. }))
        .count();
    assert_eq!(para_count, 2);
}

#[test]
fn test_root_level_verse_recovers_into_implicit_paragraph() {
    let result = parse("\\id GEN\n\\c 1\n\\v 1 text\n\\v 2 more");

    let warnings: Vec<_> = result
        .diagnostics
        .as_deref()
        .expect("diagnostics should be available")
        .iter()
        .filter(|d| d.code == usfm3::diagnostics::DiagnosticCode::VerseOutsideParagraph)
        .collect();
    assert_eq!(
        warnings.len(),
        1,
        "only the first offending root-level verse should warn"
    );
    assert_eq!(warnings[0].severity, usfm3::diagnostics::Severity::Warning);

    let para = result
        .ast
        .content
        .iter()
        .find(|n| matches!(n, Node::Para { marker, .. } if marker == "p"))
        .expect("root-level verse recovery should synthesize a \\p paragraph");

    let verses = para
        .children()
        .iter()
        .filter(|n| matches!(n, Node::Verse { .. }))
        .count();
    assert_eq!(verses, 2, "implicit paragraph should contain both verses");
}

#[test]
fn builder_test_milestone() {
    let result = parse("\\id GEN\n\\c 1\n\\p\n\\v 1 \\qt1-s text \\qt1-e");
    let has_milestone = result.ast.content.iter().any(|n| {
        if let Node::Para { content, .. } = n {
            content.iter().any(|c| matches!(c, Node::Milestone { .. }))
        } else {
            false
        }
    });
    assert!(has_milestone);
}

#[test]
fn builder_test_nested_character_marker() {
    let result = parse("\\id GEN\n\\c 1\n\\p\n\\v 1 \\add text \\+nd Lord\\+nd*\\add*");
    // Should parse without nesting prefix warning
    let nesting_warnings = result
        .diagnostics
        .as_deref()
        .expect("diagnostics should be available")
        .iter()
        .filter(|d| d.code == usfm3::diagnostics::DiagnosticCode::MissingNestingPrefix)
        .count();
    assert_eq!(nesting_warnings, 0);
}

#[test]
fn builder_test_empty_input() {
    let result = parse("");
    assert!(result.ast.content.is_empty());
}

#[test]
fn builder_test_poetry_paragraphs() {
    let result = parse("\\id GEN\n\\c 1\n\\q1\n\\v 1 Line one\n\\q2 Line two");
    let para_count = result
        .ast
        .content
        .iter()
        .filter(|n| matches!(n, Node::Para { .. }))
        .count();
    assert_eq!(para_count, 2);
}

#[test]
fn builder_test_parse_attributes_key_value() {
    let attrs = parse_attributes(r#"|lemma="grace" strong="H1234""#).unwrap();
    assert_eq!(attrs.len(), 2);
    assert_eq!(attrs[0].key, "lemma");
    assert_eq!(attrs[0].value, "grace");
    assert_eq!(attrs[1].key, "strong");
    assert_eq!(attrs[1].value, "H1234");
}

#[test]
fn builder_test_parse_attributes_default() {
    let attrs = parse_attributes("|grace").unwrap();
    assert_eq!(attrs.len(), 1);
    assert_eq!(attrs[0].key, "default");
    assert_eq!(attrs[0].value, "grace");
}

#[test]
fn builder_test_parse_attributes_empty() {
    let attrs = parse_attributes("|").unwrap();
    assert!(attrs.is_empty());
}

#[test]
fn test_parse_attributes_escaped_quotes() {
    let attrs = parse_attributes(r#"|alt="He said: \"hello\"" src="img.jpg""#).unwrap();
    assert_eq!(attrs.len(), 2);
    assert_eq!(attrs[0].key, "alt");
    assert_eq!(attrs[0].value, r#"He said: "hello""#);
    assert_eq!(attrs[1].key, "src");
    assert_eq!(attrs[1].value, "img.jpg");
}

#[test]
fn test_parse_attributes_malformed_unquoted() {
    // Unquoted values → malformed
    assert!(parse_attributes("|lemma=grace strong=\"H1234\"").is_none());
}

#[test]
fn test_parse_attributes_bare_whitespace() {
    // "| " → bare default value is a space
    let attrs = parse_attributes("| ").unwrap();
    assert_eq!(attrs.len(), 1);
    assert_eq!(attrs[0].key, "default");
    assert_eq!(attrs[0].value, " ");
}

#[test]
fn builder_test_split_first_word() {
    let (a, b) = split_first_word("hello world");
    assert_eq!((a.as_str(), b.as_str()), ("hello", "world"));
    let (a, b) = split_first_word("only");
    assert_eq!((a.as_str(), b.as_str()), ("only", ""));
    let (a, b) = split_first_word("  spaced  out  ");
    assert_eq!((a.as_str(), b.as_str()), ("spaced", "out  "));
}

#[test]
fn builder_test_chapter_sid_generation() {
    let result = parse("\\id GEN\n\\c 3\n\\p\n\\v 5 text");
    // Find the Chapter node and verify sid.
    let chapter = result.ast.content.iter().find_map(|n| {
        if let Node::Chapter(data) = n {
            Some((data.number.clone(), data.sid.clone()))
        } else {
            None
        }
    });
    assert_eq!(chapter, Some(("3".into(), Some("GEN 3".into()))));
}

#[test]
fn builder_test_verse_sid_generation() {
    let result = parse("\\id GEN\n\\c 1\n\\p\n\\v 2 text");
    let verse = result.ast.content.iter().find_map(|n| {
        if let Node::Para { content, .. } = n {
            content.iter().find_map(|c| {
                if let Node::Verse(data) = c {
                    Some((data.number.clone(), data.sid.clone()))
                } else {
                    None
                }
            })
        } else {
            None
        }
    });
    assert_eq!(verse, Some(("2".into(), Some("GEN 1:2".into()))));
}

#[test]
fn builder_test_book_code_extraction() {
    let result = parse("\\id MAT Gospel of Matthew");
    match &result.ast.content[0] {
        Node::Book { code, content, .. } => {
            assert_eq!(code, "MAT");
            // The remainder "Gospel of Matthew" should be in content.
            assert!(!content.is_empty());
            match &content[0] {
                Node::Text(s) => assert_eq!(s, "Gospel of Matthew"),
                other => panic!("expected Text, got {:?}", other),
            }
        }
        other => panic!("expected Book, got {:?}", other),
    }
}

#[test]
fn test_cst_lowering_handles_basic_document() {
    let input = "\\id GEN Genesis\n\\c 1\n\\p  \\v 1  In the beginning";
    let cst = get_cst(input);
    let lowered = parse_from_cst(&cst).ast;
    let parsed = parse(input).ast;
    assert_eq!(lowered, parsed);
}

#[test]
fn test_cst_lowering_handles_sidebar_document() {
    let input = "\\id MAT\n\\c 1\n\\esb \\cat People\\cat*\n\\ms \\jmp |link-href=\"article-john_the_baptist\"\\jmp* John the Baptist\n\\p John announced the coming king.\n\\esbe";
    let cst = get_cst(input);
    let lowered = parse_from_cst(&cst).ast;
    let parsed = parse(input).ast;
    assert_eq!(lowered, parsed);
}

#[test]
fn builder_test_note_caller_extraction() {
    let result = parse("\\id GEN\n\\c 1\n\\p\n\\v 1 text\\f + footnote text\\f*");
    let note = result.ast.content.iter().find_map(|n| {
        if let Node::Para { content, .. } = n {
            content.iter().find_map(|c| {
                if let Node::Note {
                    caller, content, ..
                } = c
                {
                    Some((caller.clone(), content.clone()))
                } else {
                    None
                }
            })
        } else {
            None
        }
    });
    assert!(note.is_some());
    let (caller, _content) = note.unwrap();
    assert_eq!(caller, "+");
}

#[test]
fn builder_test_unclosed_note_at_paragraph_boundary() {
    let result = parse("\\id GEN\n\\c 1\n\\p\n\\v 1 text\\f + note\n\\p next");
    // The unclosed \f should produce a diagnostic.
    let has_unclosed_note = result
        .diagnostics
        .as_deref()
        .expect("diagnostics should be available")
        .iter()
        .any(|d| d.code == usfm3::diagnostics::DiagnosticCode::UnclosedNote);
    assert!(has_unclosed_note);
}

#[test]
fn builder_test_header_markers_become_para() {
    let result = parse("\\id GEN\n\\h Genesis");
    // \h should become a Para node.
    let has_para = result
        .ast
        .content
        .iter()
        .any(|n| matches!(n, Node::Para { marker, .. } if marker == "h"));
    assert!(has_para);
}

#[test]
fn builder_test_unknown_marker_diagnostic() {
    let result = parse("\\id GEN\n\\c 1\n\\p\n\\v 1 \\notreal text\\notreal*");
    let has_unknown = result
        .diagnostics
        .as_deref()
        .expect("diagnostics should be available")
        .iter()
        .any(|d| d.code == usfm3::diagnostics::DiagnosticCode::UnknownMarker);
    assert!(has_unknown);
}

#[test]
fn builder_test_z_prefix_no_diagnostic() {
    let result = parse("\\id GEN\n\\c 1\n\\p\n\\v 1 \\zcustom text\\zcustom*");
    let has_unknown = result
        .diagnostics
        .as_deref()
        .expect("diagnostics should be available")
        .iter()
        .any(|d| d.code == usfm3::diagnostics::DiagnosticCode::UnknownMarker);
    assert!(
        !has_unknown,
        "\\z-prefix markers should not produce UnknownMarker diagnostics"
    );
}

#[test]
fn test_non_z_unknown_still_gets_diagnostics() {
    // Non-z unknown markers should still produce diagnostics.
    let result = parse("\\id GEN\n\\c 1\n\\p\n\\v 1 \\notreal text");
    let has_unknown = result
        .diagnostics
        .as_deref()
        .expect("diagnostics should be available")
        .iter()
        .any(|d| d.code == usfm3::diagnostics::DiagnosticCode::UnknownMarker);
    assert!(
        has_unknown,
        "Non-z unknown markers should still produce UnknownMarker diagnostics"
    );
    let has_eof = result
        .diagnostics
        .as_deref()
        .expect("diagnostics should be available")
        .iter()
        .any(|d| d.code == usfm3::diagnostics::DiagnosticCode::UnclosedAtEof);
    assert!(
        has_eof,
        "Non-z unknown markers should still produce UnclosedAtEof diagnostics"
    );
}

#[test]
fn test_unprefixed_nested_character_marker_no_warning() {
    let result = parse(
        "\\id GEN\n\\c 1\n\\p\n\\v 1 That is why \\bk The Book of the \\nd Lord\\nd*'s Battles\\bk* speaks",
    );
    let nesting_warnings = result
        .diagnostics
        .as_deref()
        .expect("diagnostics should be available")
        .iter()
        .filter(|d| d.code == usfm3::diagnostics::DiagnosticCode::MissingNestingPrefix)
        .count();
    assert_eq!(nesting_warnings, 0);
}

#[test]
fn test_unprefixed_nested_marker_still_requires_proper_closing_order() {
    let result = parse("\\id GEN\n\\c 1\n\\p\n\\v 1 \\add text \\nd Lord\\add*");
    let has_misnested = result
        .diagnostics
        .as_deref()
        .expect("diagnostics should be available")
        .iter()
        .any(|d| d.code == usfm3::diagnostics::DiagnosticCode::MisnestedMarker);
    assert!(
        has_misnested,
        "closing parent before nested child should produce MisnestedMarker"
    );
}

#[test]
fn builder_test_sidebar() {
    let result = parse("\\id GEN\n\\c 1\n\\esb\n\\p Sidebar content\n\\esbe");
    let has_sidebar = result
        .ast
        .content
        .iter()
        .any(|n| matches!(n, Node::Sidebar { .. }));
    assert!(has_sidebar);
}

#[test]
fn builder_test_multiple_chapters() {
    let result = parse("\\id GEN\n\\c 1\n\\p\n\\v 1 text\n\\c 2\n\\p\n\\v 1 more text");
    let chapter_count = result
        .ast
        .content
        .iter()
        .filter(|n| matches!(n, Node::Chapter(_)))
        .count();
    assert_eq!(chapter_count, 2);
}

#[test]
fn builder_test_verse_range() {
    let result = parse("\\id GEN\n\\c 1\n\\p\n\\v 3-4 combined text");
    let verse = result.ast.content.iter().find_map(|n| {
        if let Node::Para { content, .. } = n {
            content.iter().find_map(|c| {
                if let Node::Verse(data) = c {
                    Some(data.number.clone())
                } else {
                    None
                }
            })
        } else {
            None
        }
    });
    assert_eq!(verse, Some("3-4".into()));
}

#[test]
fn test_fm_marker_parses_as_character() {
    let result = parse("\\id GEN\n\\c 1\n\\p\n\\v 17 text\\fm GEN 2:9\\fm* more text");

    let has_unknown = result
        .diagnostics
        .as_deref()
        .expect("diagnostics should be available")
        .iter()
        .any(|d| d.code == usfm3::diagnostics::DiagnosticCode::UnknownMarker);
    assert!(!has_unknown, "\\fm should not produce UnknownMarker");

    let has_fm_char = result.ast.content.iter().any(|n| {
        if let Node::Para { content, .. } = n {
            content.iter().any(|c| match c {
                Node::Char(data) => data.marker == "fm",
                _ => false,
            })
        } else {
            false
        }
    });
    assert!(has_fm_char, "\\fm should parse as a character node");
}

#[test]
fn test_addpn_marker_parses_as_character_with_deprecation_warning() {
    let result = parse("\\id GEN\n\\c 1\n\\p\n\\v 1 text \\addpn Added Name\\addpn* more");

    let has_unknown = result
        .diagnostics
        .as_deref()
        .expect("diagnostics should be available")
        .iter()
        .any(|d| d.code == usfm3::diagnostics::DiagnosticCode::UnknownMarker);
    assert!(!has_unknown, "\\addpn should not produce UnknownMarker");

    let deprecation_warnings: Vec<_> = result
        .diagnostics
        .as_deref()
        .expect("diagnostics should be available")
        .iter()
        .filter(|d| d.code == usfm3::diagnostics::DiagnosticCode::DeprecatedMarker)
        .collect();
    assert_eq!(
        deprecation_warnings.len(),
        1,
        "\\addpn should produce exactly one deprecation warning"
    );
    assert!(deprecation_warnings[0].message.contains("\\addpn"));

    let has_addpn_char = result.ast.content.iter().any(|n| {
        if let Node::Para { content, .. } = n {
            content.iter().any(|c| match c {
                Node::Char(data) => data.marker == "addpn",
                _ => false,
            })
        } else {
            false
        }
    });
    assert!(has_addpn_char, "\\addpn should parse as a character node");
}

#[test]
fn test_verse_bridge_parsed_correctly() {
    let result = parse("\\id GEN\n\\c 1\n\\p\n\\v 12-83 text");
    let verse = result.ast.content.iter().find_map(|n| {
        if let Node::Para { content, .. } = n {
            content.iter().find_map(|c| {
                if let Node::Verse(data) = c {
                    Some(data.as_ref())
                } else {
                    None
                }
            })
        } else {
            None
        }
    });
    let verse = verse.expect("should find a Verse node");
    assert_eq!(verse.number.as_str(), "12-83");
    assert_eq!(verse.sid.as_deref(), Some("GEN 1:12-83"));
}

#[test]
fn test_verse_subverse_letter_parsed_correctly() {
    let result = parse("\\id GEN\n\\c 1\n\\p\n\\v 3b text");
    let verse = result.ast.content.iter().find_map(|n| {
        if let Node::Para { content, .. } = n {
            content.iter().find_map(|c| {
                if let Node::Verse(data) = c {
                    Some(data.as_ref())
                } else {
                    None
                }
            })
        } else {
            None
        }
    });
    let verse = verse.expect("should find a Verse node");
    assert_eq!(verse.number.as_str(), "3b");
    assert_eq!(verse.sid.as_deref(), Some("GEN 1:3b"));
}

#[test]
fn builder_test_stray_close_marker() {
    let result = parse("\\id GEN\n\\c 1\n\\p\n\\v 1 text\\nd* stray");
    assert!(
        diagnostics(&result)
            .iter()
            .any(|diagnostic| diagnostic.severity == usfm3::diagnostics::Severity::Error)
    );
}

#[test]
fn builder_test_unclosed_at_eof() {
    let result = parse("\\id GEN\n\\c 1\n\\p\n\\v 1 \\nd Lord");
    let has_unclosed_nd = diagnostics(&result).iter().any(|d| {
        d.code == usfm3::diagnostics::DiagnosticCode::UnclosedAtEof
            && d.message.contains("\\nd")
    });
    assert!(
        has_unclosed_nd,
        "\\nd left open at EOF should produce UnclosedAtEof"
    );
}

#[test]
fn test_implicit_close_when_character_crosses_paragraph_boundary() {
    let result = parse("\\id GEN\n\\c 1\n\\p\n\\v 1 \\add text\n\\p next");
    let has_implicit_close_add = diagnostics(&result).iter().any(|d| {
        d.code == usfm3::diagnostics::DiagnosticCode::ImplicitClose
            && d.message.contains("\\add")
            && d.message.contains("\\p")
    });
    assert!(
        has_implicit_close_add,
        "\\add crossing a paragraph boundary should produce ImplicitClose"
    );
}

#[test]
fn test_z_prefix_implicit_close_no_diagnostic() {
    // \zcustom implicitly closed by paragraph should not produce diagnostics.
    let result = parse("\\id GEN\n\\c 1\n\\p\n\\v 1 \\zcustom text\n\\p next para");
    let implicit_close_on_z = diagnostics(&result).iter().any(|d| {
        d.code == usfm3::diagnostics::DiagnosticCode::ImplicitClose
            && d.message.contains("zcustom")
    });
    assert!(
        !implicit_close_on_z,
        "\\z-prefix markers should not produce ImplicitClose diagnostics"
    );
}

#[test]
fn test_z_prefix_unclosed_eof_no_diagnostic() {
    // \zcustom left open at EOF should not produce diagnostics.
    let result = parse("\\id GEN\n\\c 1\n\\p\n\\v 1 \\zcustom text");
    let unclosed_eof_on_z = diagnostics(&result).iter().any(|d| {
        d.code == usfm3::diagnostics::DiagnosticCode::UnclosedAtEof
            && d.message.contains("zcustom")
    });
    assert!(
        !unclosed_eof_on_z,
        "\\z-prefix markers should not produce UnclosedAtEof diagnostics"
    );
}
