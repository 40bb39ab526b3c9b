use usfm3::diagnostics::{Diagnostic, DiagnosticCode, DiagnosticList, Severity};

#[test]
fn diagnostics_test_unknown_marker() {
    let d = Diagnostic::unknown_marker("zzz", 10..15);
    assert_eq!(d.severity, Severity::Error);
    assert_eq!(d.code, DiagnosticCode::UnknownMarker);
    assert_eq!(d.span, 10..15);
    assert!(d.message.contains("\\zzz"));
}

#[test]
fn test_deprecated_marker() {
    let d = Diagnostic::deprecated_marker(
        "addpn",
        "nested \\pn ...\\pn* within \\add ...\\add*",
        15..21,
    );
    assert_eq!(d.severity, Severity::Warning);
    assert_eq!(d.code, DiagnosticCode::DeprecatedMarker);
    assert_eq!(d.span, 15..21);
    assert!(d.message.contains("\\addpn"));
    assert!(d.message.contains("\\pn"));
    assert!(d.message.contains("\\add"));
    assert!(d.message.contains("deprecated"));
}

#[test]
fn test_implicitly_closed() {
    let d = Diagnostic::implicitly_closed("p", 0..2, "q");
    assert_eq!(d.severity, Severity::Error);
    assert_eq!(d.code, DiagnosticCode::ImplicitClose);
    assert_eq!(d.span, 0..2);
    assert!(d.message.contains("\\p"));
    assert!(d.message.contains("\\p*"));
    assert!(d.message.contains("\\q"));
    assert!(d.message.contains("missing explicit close"));
}

#[test]
fn test_misnested_close() {
    let d = Diagnostic::misnested_close("add", "nd", 20..24);
    assert_eq!(d.severity, Severity::Error);
    assert_eq!(d.code, DiagnosticCode::MisnestedMarker);
    assert_eq!(d.span, 20..24);
    assert!(d.message.contains("\\add*"));
    assert!(d.message.contains("\\nd*"));
}

#[test]
fn test_stray_close() {
    let d = Diagnostic::stray_close("nd", 30..34);
    assert_eq!(d.severity, Severity::Error);
    assert_eq!(d.code, DiagnosticCode::StrayCloseMarker);
    assert_eq!(d.span, 30..34);
    assert!(d.message.contains("\\nd*"));
    assert!(d.message.contains("no matching opener"));
}

#[test]
fn test_missing_nesting_prefix() {
    let d = Diagnostic::missing_nesting_prefix("nd", 5..8);
    assert_eq!(d.severity, Severity::Warning);
    assert_eq!(d.code, DiagnosticCode::MissingNestingPrefix);
    assert_eq!(d.span, 5..8);
    assert!(d.message.contains("\\nd"));
    assert!(d.message.contains("\\+"));
}

#[test]
fn test_unclosed_note() {
    let d = Diagnostic::unclosed_note("f", 100..105);
    assert_eq!(d.severity, Severity::Error);
    assert_eq!(d.code, DiagnosticCode::UnclosedNote);
    assert_eq!(d.span, 100..105);
    assert!(d.message.contains("\\f"));
}

#[test]
fn diagnostics_test_unclosed_at_eof() {
    let d = Diagnostic::unclosed_at_eof("add", 200..204);
    assert_eq!(d.severity, Severity::Error);
    assert_eq!(d.code, DiagnosticCode::UnclosedAtEof);
    assert_eq!(d.span, 200..204);
    assert!(d.message.contains("\\add"));
    assert!(d.message.contains("end of file"));
}

#[test]
fn test_missing_id_marker() {
    let d = Diagnostic::missing_id_marker();
    assert_eq!(d.severity, Severity::Error);
    assert_eq!(d.code, DiagnosticCode::MissingIdMarker);
    assert_eq!(d.span, 0..0);
    assert!(d.message.contains("\\id"));
}

#[test]
fn test_invalid_book_code() {
    let d = Diagnostic::invalid_book_code("XYZ", 4..7);
    assert_eq!(d.severity, Severity::Error);
    assert_eq!(d.code, DiagnosticCode::InvalidBookCode);
    assert_eq!(d.span, 4..7);
    assert!(d.message.contains("XYZ"));
}

#[test]
fn test_invalid_chapter_sequence() {
    let d = Diagnostic::invalid_chapter_sequence(2, 5, 10..12);
    assert_eq!(d.severity, Severity::Warning);
    assert_eq!(d.code, DiagnosticCode::InvalidChapterSequence);
    assert_eq!(d.span, 10..12);
    assert!(d.message.contains("2"));
    assert!(d.message.contains("5"));
}

#[test]
fn test_invalid_verse_sequence() {
    let d = Diagnostic::invalid_verse_sequence("3", "7", 20..22);
    assert_eq!(d.severity, Severity::Warning);
    assert_eq!(d.code, DiagnosticCode::InvalidVerseSequence);
    assert_eq!(d.span, 20..22);
    assert!(d.message.contains("3"));
    assert!(d.message.contains("7"));
}

#[test]
fn test_duplicate_chapter() {
    let d = Diagnostic::duplicate_chapter(3, 40..42);
    assert_eq!(d.severity, Severity::Error);
    assert_eq!(d.code, DiagnosticCode::DuplicateChapter);
    assert_eq!(d.span, 40..42);
    assert!(d.message.contains("3"));
}

#[test]
fn test_note_submarker_outside_note() {
    let d = Diagnostic::note_submarker_outside_note("ft", 60..63);
    assert_eq!(d.severity, Severity::Error);
    assert_eq!(d.code, DiagnosticCode::NoteSubmarkerOutsideNote);
    assert_eq!(d.span, 60..63);
    assert!(d.message.contains("\\ft"));
}

#[test]
fn test_text_before_id() {
    let d = Diagnostic::text_before_id(0..5);
    assert_eq!(d.severity, Severity::Error);
    assert_eq!(d.code, DiagnosticCode::TextBeforeId);
    assert_eq!(d.span, 0..5);
    assert!(d.message.contains("\\id"));
}

#[test]
fn test_header_after_body() {
    let d = Diagnostic::header_after_body("h", 80..82);
    assert_eq!(d.severity, Severity::Warning);
    assert_eq!(d.code, DiagnosticCode::HeaderAfterBody);
    assert_eq!(d.span, 80..82);
    assert!(d.message.contains("\\h"));
}

#[test]
fn test_milestone_mismatch() {
    let d = Diagnostic::milestone_mismatch("qt-s", 90..95);
    assert_eq!(d.severity, Severity::Error);
    assert_eq!(d.code, DiagnosticCode::MilestoneMismatch);
    assert_eq!(d.span, 90..95);
    assert!(d.message.contains("\\qt-s"));
}

#[test]
fn test_missing_chapter_number() {
    let d = Diagnostic::missing_chapter_number(10..12);
    assert_eq!(d.severity, Severity::Error);
    assert_eq!(d.code, DiagnosticCode::MissingChapterNumber);
    assert_eq!(d.span, 10..12);
    assert!(d.message.contains("\\c"));
}

#[test]
fn test_missing_verse_number() {
    let d = Diagnostic::missing_verse_number(14..16);
    assert_eq!(d.severity, Severity::Error);
    assert_eq!(d.code, DiagnosticCode::MissingVerseNumber);
    assert_eq!(d.span, 14..16);
    assert!(d.message.contains("\\v"));
}

#[test]
fn test_verse_outside_paragraph() {
    let d = Diagnostic::verse_outside_paragraph(16..18);
    assert_eq!(d.severity, Severity::Warning);
    assert_eq!(d.code, DiagnosticCode::VerseOutsideParagraph);
    assert_eq!(d.span, 16..18);
    assert!(d.message.contains("\\v"));
    assert!(d.message.contains("\\p"));
}

#[test]
fn test_invalid_table_column_sequence() {
    let d = Diagnostic::invalid_table_column_sequence(2, 3, 20..24);
    assert_eq!(d.severity, Severity::Error);
    assert_eq!(d.code, DiagnosticCode::InvalidTableColumnSequence);
    assert_eq!(d.span, 20..24);
    assert!(d.message.contains("column 2"));
    assert!(d.message.contains("column 3"));
}

#[test]
fn test_severity_display() {
    assert_eq!(Severity::Info.to_display_string(), "info");
    assert_eq!(Severity::Warning.to_display_string(), "warning");
    assert_eq!(Severity::Error.to_display_string(), "error");
}

#[test]
fn test_diagnostic_display_error() {
    let d = Diagnostic::unknown_marker("zzz", 0..3);
    let s = d.to_display_string();
    assert!(s.starts_with("error: "));
    assert!(s.contains("\\zzz"));
}

#[test]
fn test_diagnostic_display_warning() {
    let d = Diagnostic::invalid_chapter_sequence(1, 3, 20..22);
    let s = d.to_display_string();
    assert!(s.starts_with("warning: "));
}

#[test]
fn test_severity_ordering() {
    assert!(Severity::Info < Severity::Warning);
    assert!(Severity::Warning < Severity::Error);
}

#[test]
fn test_diagnostic_list_new_is_empty() {
    let list = DiagnosticList::new();
    assert!(list.is_empty());
    assert_eq!(list.len(), 0);
    assert!(!list.has_errors());
    assert!(DiagnosticList::default().is_empty());
}

#[test]
fn test_diagnostic_list_push_and_len() {
    let mut list = DiagnosticList::new();
    list.push(Diagnostic::unknown_marker("zzz", 0..3));
    list.push(Diagnostic::implicitly_closed("p", 0..2, "q"));
    assert!(!list.is_empty());
    assert_eq!(list.len(), 2);
}

#[test]
fn test_diagnostic_list_extend() {
    let mut list_a = DiagnosticList::new();
    list_a.push(Diagnostic::unknown_marker("zzz", 0..3));

    let mut list_b = DiagnosticList::new();
    list_b.push(Diagnostic::stray_close("nd", 10..14));
    list_b.push(Diagnostic::implicitly_closed("p", 0..2, "q"));

    list_a.extend(list_b);
    assert_eq!(list_a.len(), 3);
}

#[test]
fn test_diagnostic_list_iter() {
    let mut list = DiagnosticList::new();
    list.push(Diagnostic::unknown_marker("a", 0..1));
    list.push(Diagnostic::unknown_marker("b", 1..2));
    let codes: Vec<_> = list.iter().map(|d| d.code).collect();
    assert_eq!(
        codes,
        vec![DiagnosticCode::UnknownMarker, DiagnosticCode::UnknownMarker]
    );
}

#[test]
fn test_diagnostic_list_errors_filter() {
    let mut list = DiagnosticList::new();
    list.push(Diagnostic::unknown_marker("zzz", 0..3)); // Error
    list.push(Diagnostic::implicitly_closed("p", 0..2, "q")); // Error
    list.push(Diagnostic::stray_close("nd", 10..14)); // Error
    list.push(Diagnostic::invalid_chapter_sequence(1, 3, 20..22)); // Warning

    let errors: Vec<_> = list.errors().collect();
    assert_eq!(errors.len(), 3);
    assert!(errors.iter().all(|d| d.severity == Severity::Error));
}

#[test]
fn test_diagnostic_list_warnings_filter() {
    let mut list = DiagnosticList::new();
    list.push(Diagnostic::unknown_marker("zzz", 0..3)); // Error
    list.push(Diagnostic::implicitly_closed("p", 0..2, "q")); // Error
    list.push(Diagnostic::stray_close("nd", 10..14)); // Error
    list.push(Diagnostic::invalid_chapter_sequence(1, 3, 20..22)); // Warning
    list.push(Diagnostic::deprecated_marker(
        "addpn",
        "nested \\pn ...\\pn* within \\add ...\\add*",
        30..36,
    )); // Warning

    let warnings: Vec<_> = list.warnings().collect();
    assert_eq!(warnings.len(), 2);
    assert!(warnings.iter().all(|d| d.severity == Severity::Warning));
}

#[test]
fn test_diagnostic_list_has_errors() {
    let mut list = DiagnosticList::new();
    list.push(Diagnostic::implicitly_closed("p", 0..2, "q"));
    assert!(list.has_errors());
}

#[test]
fn test_diagnostic_list_into_inner() {
    let mut list = DiagnosticList::new();
    list.push(Diagnostic::unknown_marker("a", 0..1));
    list.push(Diagnostic::unknown_marker("b", 1..2));
    let vec = list.into_inner();
    assert_eq!(vec.len(), 2);
}

#[test]
fn test_diagnostic_list_default() {
    let list = DiagnosticList::default();
    assert!(list.is_empty());
}

#[test]
fn sort_in_document_order_keeps_ties_in_order() {
    let mut list = DiagnosticList::new();
    list.push(Diagnostic::stray_close("add", 10..16));
    list.push(Diagnostic::unknown_marker("zzz", 5..8));
    list.push(Diagnostic::stray_close("nd", 10..14));
    list.sort_in_document_order();
    let sorted = list.as_slice();
    assert_eq!(sorted.len(), 3);
    assert_eq!(sorted[0].span, 5..8);
    assert_eq!(sorted[1].span, 10..16);
    assert_eq!(sorted[2].span, 10..14);
}
