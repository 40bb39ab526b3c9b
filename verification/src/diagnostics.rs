/// Diagnostics and error reporting for the USFM 3.x parser.
///
/// This module provides structured diagnostic messages with source locations,
/// severity levels, and machine-readable codes. Diagnostics are generated both
/// during parsing (structural issues) and during validation (semantic issues).
use vstd::prelude::*;

use vstd::std_specs::iter::IteratorSpec;

use crate::text::{decimal, decimal_exec, push_chars, push_str, str_to_string};

verus! {

broadcast use vstd::std_specs::vec::axiom_spec_into_iter;

/// A byte-offset range into the source text.
pub type Span = std::ops::Range<usize>;

/// `Range::clone` (derived): clones both bounds.
pub assume_specification<Idx: Clone>[ <std::ops::Range<Idx> as Clone>::clone ](
    r: &std::ops::Range<Idx>,
) -> (res: std::ops::Range<Idx>)
    ensures
        cloned(r.start, res.start),
        cloned(r.end, res.end),
;

/// Severity level for diagnostics.
#[derive(Debug, Clone, Copy, PartialEq, Eq, PartialOrd, Ord, Structural)]
pub enum Severity {
    Info,
    Warning,
    Error,
}

impl Severity {
    /// The lower-case name of the severity, as diagnostics print it.
    pub fn as_str(&self) -> (r: &'static str)
        ensures
            r@ == severity_name(*self),
    {
        match self {
            Severity::Info => "info",
            Severity::Warning => "warning",
            Severity::Error => "error",
        }
    }

    /// The text that displaying the severity shows.
    pub fn to_display_string(&self) -> (r: String)
        ensures
            r@ == severity_name(*self),
    {
        str_to_string(self.as_str())
    }
}

pub open spec fn severity_name(s: Severity) -> Seq<char> {
    match s {
        Severity::Info => "info"@,
        Severity::Warning => "warning"@,
        Severity::Error => "error"@,
    }
}

/// Machine-readable diagnostic code.
#[derive(Debug, Clone, Copy, PartialEq, Eq, Structural)]
pub enum DiagnosticCode {
    // Parser-generated diagnostics
    UnknownMarker,
    DeprecatedMarker,
    UnclosedMarker,
    StrayCloseMarker,
    MisnestedMarker,
    MissingNestingPrefix,
    ImplicitClose,
    UnclosedNote,
    UnclosedAtEof,
    // Validation-generated diagnostics
    InvalidChapterSequence,
    InvalidVerseSequence,
    DuplicateChapter,
    DuplicateId,
    MissingIdMarker,
    InvalidBookCode,
    NoteSubmarkerOutsideNote,
    TextBeforeId,
    HeaderAfterBody,
    MilestoneMismatch,
    InvalidAttributes,
    MissingChapterNumber,
    MissingVerseNumber,
    VerseOutsideParagraph,
    MissingChapterMarker,
    CharCrossesVerseBoundary,
    EmptyFigure,
    UnquotedAttributeValue,
    MissingRequiredAttribute,
    DefaultAttributeNotDefined,
    BodyParagraphBeforeChapter,
    NonEmptyBlankLine,
    LeadingZeros,
    EmptyWordMarker,
    MissingMilestoneSelfClose,
    InvalidTableColumnSequence,
}

/// A diagnostic message with source location.
#[derive(Debug, Clone, PartialEq)]
pub struct Diagnostic {
    pub severity: Severity,
    pub span: Span,
    pub message: String,
    pub code: DiagnosticCode,
    /// Index of the CST node the diagnostic was raised on, when the parser
    /// raised it.
    pub anchor_cst: Option<usize>,
}

impl Diagnostic {
    /// The text that displaying the diagnostic shows: `severity: message`.
    pub fn to_display_string(&self) -> (r: String)
        ensures
            r@ == severity_name(self.severity) + ": "@ + self.message@,
    {
        let mut s = self.severity.to_display_string();
        push_str(&mut s, ": ");
        push_str(&mut s, self.message.as_str());
        s
    }

    /// The same diagnostic, anchored at CST node `index`.
    pub fn with_anchor_cst(self, index: usize) -> (r: Self)
        ensures
            r.severity == self.severity,
            r.span == self.span,
            r.message@ == self.message@,
            r.code == self.code,
            r.anchor_cst == Some(index),
    {
        Diagnostic { anchor_cst: Some(index), ..self }
    }

    /// Unknown/unrecognized marker encountered.
    pub fn unknown_marker(marker: &str, span: Span) -> (r: Self)
        ensures
            r.severity == Severity::Error,
            r.code == DiagnosticCode::UnknownMarker,
            r.span == span,
            r.message@ == "unknown marker \\"@ + marker@,
            r.anchor_cst is None,
    {
        let mut message = str_to_string("unknown marker \\");
        push_str(&mut message, marker);
        Diagnostic {
            severity: Severity::Error,
            span: span,
            message,
            code: DiagnosticCode::UnknownMarker,
            anchor_cst: None,
        }
    }

    /// A recognized marker is deprecated and should be replaced.
    pub fn deprecated_marker(marker: &str, replacement: &str, span: Span) -> (r: Self)
        ensures
            r.severity == Severity::Warning,
            r.code == DiagnosticCode::DeprecatedMarker,
            r.span == span,
            r.message@ == "\\"@ + marker@ + " is deprecated; prefer "@ + replacement@,
            r.anchor_cst is None,
    {
        let mut message = str_to_string("\\");
        push_str(&mut message, marker);
        push_str(&mut message, " is deprecated; prefer ");
        push_str(&mut message, replacement);
        Diagnostic {
            severity: Severity::Warning,
            span: span,
            message,
            code: DiagnosticCode::DeprecatedMarker,
            anchor_cst: None,
        }
    }

    /// A marker was implicitly closed (e.g., character marker closed by next
    /// paragraph).  In USFM 3.1, character styles must be explicitly closed,
    /// so this is an error.
    ///
    /// The diagnostic highlights the opener that remained unclosed, while the
    /// message still reports where it was opened.
    pub fn implicitly_closed(marker: &str, open_span: Span, close_marker: &str) -> (r: Self)
        ensures
            r.severity == Severity::Error,
            r.code == DiagnosticCode::ImplicitClose,
            r.span == open_span,
            r.message@ == "\\"@ + marker@ + " is missing explicit close (\\"@ + marker@ + "*). It was closed implicitly by \\"@ + close_marker@ + "."@,
            r.anchor_cst is None,
    {
        let mut message = str_to_string("\\");
        push_str(&mut message, marker);
        push_str(&mut message, " is missing explicit close (\\");
        push_str(&mut message, marker);
        push_str(&mut message, "*). It was closed implicitly by \\");
        push_str(&mut message, close_marker);
        push_str(&mut message, ".");
        Diagnostic {
            severity: Severity::Error,
            span: open_span,
            message,
            code: DiagnosticCode::ImplicitClose,
            anchor_cst: None,
        }
    }

    /// A closing marker was found that doesn't match the expected nesting.
    ///
    /// For example, `\add` was closed by `\nd*` instead of `\add*`.
    pub fn misnested_close(open_marker: &str, close_marker: &str, span: Span) -> (r: Self)
        ensures
            r.severity == Severity::Error,
            r.code == DiagnosticCode::MisnestedMarker,
            r.span == span,
            r.message@ == "expected \\"@ + open_marker@ + "* but found \\"@ + close_marker@ + "*"@,
            r.anchor_cst is None,
    {
        let mut message = str_to_string("expected \\");
        push_str(&mut message, open_marker);
        push_str(&mut message, "* but found \\");
        push_str(&mut message, close_marker);
        push_str(&mut message, "*");
        Diagnostic {
            severity: Severity::Error,
            span: span,
            message,
            code: DiagnosticCode::MisnestedMarker,
            anchor_cst: None,
        }
    }

    /// A closing marker with no matching opener (e.g., stray `\nd*` with no `\nd`).
    pub fn stray_close(marker: &str, span: Span) -> (r: Self)
        ensures
            r.severity == Severity::Error,
            r.code == DiagnosticCode::StrayCloseMarker,
            r.span == span,
            r.message@ == "closing marker \\"@ + marker@ + "* has no matching opener"@,
            r.anchor_cst is None,
    {
        let mut message = str_to_string("closing marker \\");
        push_str(&mut message, marker);
        push_str(&mut message, "* has no matching opener");
        Diagnostic {
            severity: Severity::Error,
            span: span,
            message,
            code: DiagnosticCode::StrayCloseMarker,
            anchor_cst: None,
        }
    }

    /// A character marker used inside another character context without the `\+` prefix.
    pub fn missing_nesting_prefix(marker: &str, span: Span) -> (r: Self)
        ensures
            r.severity == Severity::Warning,
            r.code == DiagnosticCode::MissingNestingPrefix,
            r.span == span,
            r.message@ == "\\"@ + marker@ + " is nested inside another character marker without \\+ prefix"@,
            r.anchor_cst is None,
    {
        let mut message = str_to_string("\\");
        push_str(&mut message, marker);
        push_str(&mut message, " is nested inside another character marker without \\+ prefix");
        Diagnostic {
            severity: Severity::Warning,
            span: span,
            message,
            code: DiagnosticCode::MissingNestingPrefix,
            anchor_cst: None,
        }
    }

    /// Malformed attribute string (e.g. unquoted values, missing `=`).
    pub fn malformed_attributes(span: Span) -> (r: Self)
        ensures
            r.severity == Severity::Error,
            r.code == DiagnosticCode::InvalidAttributes,
            r.span == span,
            r.message@ == "malformed attribute string (values must be quoted)"@,
            r.anchor_cst is None,
    {
        let mut message = str_to_string("malformed attribute string (values must be quoted)");
        Diagnostic {
            severity: Severity::Error,
            span: span,
            message,
            code: DiagnosticCode::InvalidAttributes,
            anchor_cst: None,
        }
    }

    /// Leading zeros in a chapter or verse number (e.g. `\c 091`, `\v 01`).
    pub fn leading_zeros(number: &str, span: Span) -> (r: Self)
        ensures
            r.severity == Severity::Error,
            r.code == DiagnosticCode::LeadingZeros,
            r.span == span,
            r.message@ == "leading zeros in number '"@ + number@ + "'"@,
            r.anchor_cst is None,
    {
        let mut message = str_to_string("leading zeros in number '");
        push_str(&mut message, number);
        push_str(&mut message, "'");
        Diagnostic {
            severity: Severity::Error,
            span: span,
            message,
            code: DiagnosticCode::LeadingZeros,
            anchor_cst: None,
        }
    }

    /// A note (`\f` or `\x`) was not properly closed before a paragraph/chapter boundary.
    pub fn unclosed_note(marker: &str, span: Span) -> (r: Self)
        ensures
            r.severity == Severity::Error,
            r.code == DiagnosticCode::UnclosedNote,
            r.span == span,
            r.message@ == "note \\"@ + marker@ + " was not closed before paragraph or chapter boundary"@,
            r.anchor_cst is None,
    {
        let mut message = str_to_string("note \\");
        push_str(&mut message, marker);
        push_str(&mut message, " was not closed before paragraph or chapter boundary");
        Diagnostic {
            severity: Severity::Error,
            span: span,
            message,
            code: DiagnosticCode::UnclosedNote,
            anchor_cst: None,
        }
    }

    /// A marker was still open at end of file.
    pub fn unclosed_at_eof(marker: &str, span: Span) -> (r: Self)
        ensures
            r.severity == Severity::Error,
            r.code == DiagnosticCode::UnclosedAtEof,
            r.span == span,
            r.message@ == "\\"@ + marker@ + " was still open at end of file"@,
            r.anchor_cst is None,
    {
        let mut message = str_to_string("\\");
        push_str(&mut message, marker);
        push_str(&mut message, " was still open at end of file");
        Diagnostic {
            severity: Severity::Error,
            span: span,
            message,
            code: DiagnosticCode::UnclosedAtEof,
            anchor_cst: None,
        }
    }

    /// The required `\id` marker is missing from the document.
    pub fn missing_id_marker() -> (r: Self)
        ensures
            r.severity == Severity::Error,
            r.code == DiagnosticCode::MissingIdMarker,
            r.span.start == 0 && r.span.end == 0,
            r.message@ == "document is missing required \\id marker"@,
            r.anchor_cst is None,
    {
        let mut message = str_to_string("document is missing required \\id marker");
        Diagnostic {
            severity: Severity::Error,
            span: 0..0,
            message,
            code: DiagnosticCode::MissingIdMarker,
            anchor_cst: None,
        }
    }

    /// The book code provided in the `\id` marker is invalid.
    pub fn invalid_book_code(code: &str, span: Span) -> (r: Self)
        ensures
            r.severity == Severity::Error,
            r.code == DiagnosticCode::InvalidBookCode,
            r.span == span,
            r.message@ == "invalid book code \""@ + code@ + "\""@,
            r.anchor_cst is None,
    {
        let mut message = str_to_string("invalid book code \"");
        push_str(&mut message, code);
        push_str(&mut message, "\"");
        Diagnostic {
            severity: Severity::Error,
            span: span,
            message,
            code: DiagnosticCode::InvalidBookCode,
            anchor_cst: None,
        }
    }

    /// Chapter numbers are not in the expected sequential order.
    pub fn invalid_chapter_sequence(expected: u32, got: u32, span: Span) -> (r: Self)
        ensures
            r.severity == Severity::Warning,
            r.code == DiagnosticCode::InvalidChapterSequence,
            r.span == span,
            r.message@ == "expected chapter "@ + decimal(expected as nat) + " but found chapter "@ + decimal(got as nat),
            r.anchor_cst is None,
    {
        let mut message = str_to_string("expected chapter ");
        push_chars(&mut message, &decimal_exec(expected));
        push_str(&mut message, " but found chapter ");
        push_chars(&mut message, &decimal_exec(got));
        Diagnostic {
            severity: Severity::Warning,
            span: span,
            message,
            code: DiagnosticCode::InvalidChapterSequence,
            anchor_cst: None,
        }
    }

    /// Verse numbers are not in the expected sequential order.
    pub fn invalid_verse_sequence(expected: &str, got: &str, span: Span) -> (r: Self)
        ensures
            r.severity == Severity::Warning,
            r.code == DiagnosticCode::InvalidVerseSequence,
            r.span == span,
            r.message@ == "expected verse "@ + expected@ + " but found verse "@ + got@,
            r.anchor_cst is None,
    {
        let mut message = str_to_string("expected verse ");
        push_str(&mut message, expected);
        push_str(&mut message, " but found verse ");
        push_str(&mut message, got);
        Diagnostic {
            severity: Severity::Warning,
            span: span,
            message,
            code: DiagnosticCode::InvalidVerseSequence,
            anchor_cst: None,
        }
    }

    /// A chapter number appears more than once in the document.
    pub fn duplicate_chapter(number: u32, span: Span) -> (r: Self)
        ensures
            r.severity == Severity::Error,
            r.code == DiagnosticCode::DuplicateChapter,
            r.span == span,
            r.message@ == "duplicate chapter "@ + decimal(number as nat),
            r.anchor_cst is None,
    {
        let mut message = str_to_string("duplicate chapter ");
        push_chars(&mut message, &decimal_exec(number));
        Diagnostic {
            severity: Severity::Error,
            span: span,
            message,
            code: DiagnosticCode::DuplicateChapter,
            anchor_cst: None,
        }
    }

    /// A footnote/cross-reference sub-marker appears outside of a note.
    pub fn note_submarker_outside_note(marker: &str, span: Span) -> (r: Self)
        ensures
            r.severity == Severity::Error,
            r.code == DiagnosticCode::NoteSubmarkerOutsideNote,
            r.span == span,
            r.message@ == "\\"@ + marker@ + " can only appear inside a footnote or cross-reference"@,
            r.anchor_cst is None,
    {
        let mut message = str_to_string("\\");
        push_str(&mut message, marker);
        push_str(&mut message, " can only appear inside a footnote or cross-reference");
        Diagnostic {
            severity: Severity::Error,
            span: span,
            message,
            code: DiagnosticCode::NoteSubmarkerOutsideNote,
            anchor_cst: None,
        }
    }

    /// Text content appears before the `\id` marker.
    pub fn text_before_id(span: Span) -> (r: Self)
        ensures
            r.severity == Severity::Error,
            r.code == DiagnosticCode::TextBeforeId,
            r.span == span,
            r.message@ == "text content is not allowed before \\id marker"@,
            r.anchor_cst is None,
    {
        let mut message = str_to_string("text content is not allowed before \\id marker");
        Diagnostic {
            severity: Severity::Error,
            span: span,
            message,
            code: DiagnosticCode::TextBeforeId,
            anchor_cst: None,
        }
    }

    /// A header marker appears after body content has begun.
    pub fn header_after_body(marker: &str, span: Span) -> (r: Self)
        ensures
            r.severity == Severity::Warning,
            r.code == DiagnosticCode::HeaderAfterBody,
            r.span == span,
            r.message@ == "header marker \\"@ + marker@ + " appears after body content has started"@,
            r.anchor_cst is None,
    {
        let mut message = str_to_string("header marker \\");
        push_str(&mut message, marker);
        push_str(&mut message, " appears after body content has started");
        Diagnostic {
            severity: Severity::Warning,
            span: span,
            message,
            code: DiagnosticCode::HeaderAfterBody,
            anchor_cst: None,
        }
    }

    /// A milestone marker has no matching start or end counterpart.
    pub fn milestone_mismatch(marker: &str, span: Span) -> (r: Self)
        ensures
            r.severity == Severity::Error,
            r.code == DiagnosticCode::MilestoneMismatch,
            r.span == span,
            r.message@ == "milestone \\"@ + marker@ + " has no matching counterpart"@,
            r.anchor_cst is None,
    {
        let mut message = str_to_string("milestone \\");
        push_str(&mut message, marker);
        push_str(&mut message, " has no matching counterpart");
        Diagnostic {
            severity: Severity::Error,
            span: span,
            message,
            code: DiagnosticCode::MilestoneMismatch,
            anchor_cst: None,
        }
    }

    /// A duplicate `\id` marker was found in the document.
    pub fn duplicate_id(span: Span) -> (r: Self)
        ensures
            r.severity == Severity::Error,
            r.code == DiagnosticCode::DuplicateId,
            r.span == span,
            r.message@ == "duplicate \\id marker found"@,
            r.anchor_cst is None,
    {
        let mut message = str_to_string("duplicate \\id marker found");
        Diagnostic {
            severity: Severity::Error,
            span: span,
            message,
            code: DiagnosticCode::DuplicateId,
            anchor_cst: None,
        }
    }

    /// A `\c` marker is missing its chapter number.
    pub fn missing_chapter_number(span: Span) -> (r: Self)
        ensures
            r.severity == Severity::Error,
            r.code == DiagnosticCode::MissingChapterNumber,
            r.span == span,
            r.message@ == "\\c marker is missing a chapter number"@,
            r.anchor_cst is None,
    {
        let mut message = str_to_string("\\c marker is missing a chapter number");
        Diagnostic {
            severity: Severity::Error,
            span: span,
            message,
            code: DiagnosticCode::MissingChapterNumber,
            anchor_cst: None,
        }
    }

    /// A `\v` marker is missing its verse number.
    pub fn missing_verse_number(span: Span) -> (r: Self)
        ensures
            r.severity == Severity::Error,
            r.code == DiagnosticCode::MissingVerseNumber,
            r.span == span,
            r.message@ == "\\v marker is missing a verse number"@,
            r.anchor_cst is None,
    {
        let mut message = str_to_string("\\v marker is missing a verse number");
        Diagnostic {
            severity: Severity::Error,
            span: span,
            message,
            code: DiagnosticCode::MissingVerseNumber,
            anchor_cst: None,
        }
    }

    /// A `\v` marker appeared at document root instead of inside a paragraph.
    pub fn verse_outside_paragraph(span: Span) -> (r: Self)
        ensures
            r.severity == Severity::Warning,
            r.code == DiagnosticCode::VerseOutsideParagraph,
            r.span == span,
            r.message@ == "\\v must appear inside a paragraph; inserted implicit \\p for recovery"@,
            r.anchor_cst is None,
    {
        let mut message = str_to_string("\\v must appear inside a paragraph; inserted implicit \\p for recovery");
        Diagnostic {
            severity: Severity::Warning,
            span: span,
            message,
            code: DiagnosticCode::VerseOutsideParagraph,
            anchor_cst: None,
        }
    }

    /// The document has no `\c` chapter marker.
    pub fn missing_chapter_marker() -> (r: Self)
        ensures
            r.severity == Severity::Error,
            r.code == DiagnosticCode::MissingChapterMarker,
            r.span.start == 0 && r.span.end == 0,
            r.message@ == "document has no \\c chapter marker"@,
            r.anchor_cst is None,
    {
        let mut message = str_to_string("document has no \\c chapter marker");
        Diagnostic {
            severity: Severity::Error,
            span: 0..0,
            message,
            code: DiagnosticCode::MissingChapterMarker,
            anchor_cst: None,
        }
    }

    /// A character marker spans across a verse boundary.
    pub fn char_crosses_verse(marker: &str, span: Span) -> (r: Self)
        ensures
            r.severity == Severity::Error,
            r.code == DiagnosticCode::CharCrossesVerseBoundary,
            r.span == span,
            r.message@ == "\\"@ + marker@ + " spans across a verse boundary"@,
            r.anchor_cst is None,
    {
        let mut message = str_to_string("\\");
        push_str(&mut message, marker);
        push_str(&mut message, " spans across a verse boundary");
        Diagnostic {
            severity: Severity::Error,
            span: span,
            message,
            code: DiagnosticCode::CharCrossesVerseBoundary,
            anchor_cst: None,
        }
    }

    /// A `\fig` marker has no content or attributes.
    pub fn empty_figure(span: Span) -> (r: Self)
        ensures
            r.severity == Severity::Error,
            r.code == DiagnosticCode::EmptyFigure,
            r.span == span,
            r.message@ == "\\fig has no content or attributes"@,
            r.anchor_cst is None,
    {
        let mut message = str_to_string("\\fig has no content or attributes");
        Diagnostic {
            severity: Severity::Error,
            span: span,
            message,
            code: DiagnosticCode::EmptyFigure,
            anchor_cst: None,
        }
    }

    /// An attribute value is not properly quoted.
    pub fn unquoted_attribute_value(attr: &str, span: Span) -> (r: Self)
        ensures
            r.severity == Severity::Error,
            r.code == DiagnosticCode::UnquotedAttributeValue,
            r.span == span,
            r.message@ == "attribute value for \""@ + attr@ + "\" must be quoted"@,
            r.anchor_cst is None,
    {
        let mut message = str_to_string("attribute value for \"");
        push_str(&mut message, attr);
        push_str(&mut message, "\" must be quoted");
        Diagnostic {
            severity: Severity::Error,
            span: span,
            message,
            code: DiagnosticCode::UnquotedAttributeValue,
            anchor_cst: None,
        }
    }

    /// A required attribute is missing.
    pub fn missing_required_attribute(marker: &str, attr: &str, span: Span) -> (r: Self)
        ensures
            r.severity == Severity::Error,
            r.code == DiagnosticCode::MissingRequiredAttribute,
            r.span == span,
            r.message@ == "\\"@ + marker@ + " is missing required attribute \""@ + attr@ + "\""@,
            r.anchor_cst is None,
    {
        let mut message = str_to_string("\\");
        push_str(&mut message, marker);
        push_str(&mut message, " is missing required attribute \"");
        push_str(&mut message, attr);
        push_str(&mut message, "\"");
        Diagnostic {
            severity: Severity::Error,
            span: span,
            message,
            code: DiagnosticCode::MissingRequiredAttribute,
            anchor_cst: None,
        }
    }

    /// A default attribute was used on a marker that has no default attribute defined.
    pub fn default_attribute_not_defined(marker: &str, span: Span) -> (r: Self)
        ensures
            r.severity == Severity::Error,
            r.code == DiagnosticCode::DefaultAttributeNotDefined,
            r.span == span,
            r.message@ == "\\"@ + marker@ + " does not define a default attribute; value after | is invalid"@,
            r.anchor_cst is None,
    {
        let mut message = str_to_string("\\");
        push_str(&mut message, marker);
        push_str(&mut message, " does not define a default attribute; value after | is invalid");
        Diagnostic {
            severity: Severity::Error,
            span: span,
            message,
            code: DiagnosticCode::DefaultAttributeNotDefined,
            anchor_cst: None,
        }
    }

    /// A `\b` blank line marker contains content when it should be empty.
    pub fn non_empty_blank_line(span: Span) -> (r: Self)
        ensures
            r.severity == Severity::Error,
            r.code == DiagnosticCode::NonEmptyBlankLine,
            r.span == span,
            r.message@ == "\\b marker should not contain content"@,
            r.anchor_cst is None,
    {
        let mut message = str_to_string("\\b marker should not contain content");
        Diagnostic {
            severity: Severity::Error,
            span: span,
            message,
            code: DiagnosticCode::NonEmptyBlankLine,
            anchor_cst: None,
        }
    }

    /// A body paragraph marker appears before the first chapter.
    pub fn body_paragraph_before_chapter(marker: &str, span: Span) -> (r: Self)
        ensures
            r.severity == Severity::Error,
            r.code == DiagnosticCode::BodyParagraphBeforeChapter,
            r.span == span,
            r.message@ == "body paragraph \\"@ + marker@ + " is not allowed before the first \\c marker"@,
            r.anchor_cst is None,
    {
        let mut message = str_to_string("body paragraph \\");
        push_str(&mut message, marker);
        push_str(&mut message, " is not allowed before the first \\c marker");
        Diagnostic {
            severity: Severity::Error,
            span: span,
            message,
            code: DiagnosticCode::BodyParagraphBeforeChapter,
            anchor_cst: None,
        }
    }

    /// A `\w` word marker with no content and no attributes.
    pub fn empty_word_marker(span: Span) -> (r: Self)
        ensures
            r.severity == Severity::Error,
            r.code == DiagnosticCode::EmptyWordMarker,
            r.span == span,
            r.message@ == "\\w marker has no content or attributes"@,
            r.anchor_cst is None,
    {
        let mut message = str_to_string("\\w marker has no content or attributes");
        Diagnostic {
            severity: Severity::Error,
            span: span,
            message,
            code: DiagnosticCode::EmptyWordMarker,
            anchor_cst: None,
        }
    }

    /// A milestone marker (e.g., `\k-s`) is missing its self-closing `\*`.
    pub fn missing_milestone_self_close(marker: &str, span: Span) -> (r: Self)
        ensures
            r.severity == Severity::Error,
            r.code == DiagnosticCode::MissingMilestoneSelfClose,
            r.span == span,
            r.message@ == "milestone \\"@ + marker@ + " is missing closing \\*"@,
            r.anchor_cst is None,
    {
        let mut message = str_to_string("milestone \\");
        push_str(&mut message, marker);
        push_str(&mut message, " is missing closing \\*");
        Diagnostic {
            severity: Severity::Error,
            span: span,
            message,
            code: DiagnosticCode::MissingMilestoneSelfClose,
            anchor_cst: None,
        }
    }

    /// A table row skips or reorders numbered columns.
    pub fn invalid_table_column_sequence(expected: u32, found: u32, span: Span) -> (r: Self)
        ensures
            r.severity == Severity::Error,
            r.code == DiagnosticCode::InvalidTableColumnSequence,
            r.span == span,
            r.message@ == "expected table column "@ + decimal(expected as nat) + " but found column "@ + decimal(found as nat),
            r.anchor_cst is None,
    {
        let mut message = str_to_string("expected table column ");
        push_chars(&mut message, &decimal_exec(expected));
        push_str(&mut message, " but found column ");
        push_chars(&mut message, &decimal_exec(found));
        Diagnostic {
            severity: Severity::Error,
            span: span,
            message,
            code: DiagnosticCode::InvalidTableColumnSequence,
            anchor_cst: None,
        }
    }
}

/// A collection of diagnostics produced during parsing and validation.
#[derive(Debug, Clone)]
pub struct DiagnosticList {
    diagnostics: Vec<Diagnostic>,
}

impl Default for DiagnosticList {
    /// The empty list.
    fn default() -> (r: Self)
        ensures
            r@ == Seq::<Diagnostic>::empty(),
    {
        DiagnosticList::new()
    }
}

/// `s` with `d` inserted after every diagnostic that does not start later.
pub open spec fn sorted_insert(s: Seq<Diagnostic>, d: Diagnostic) -> Seq<Diagnostic>
    decreases s.len(),
{
    if s.len() == 0 || s.last().span.start <= d.span.start {
        s.push(d)
    } else {
        sorted_insert(s.drop_last(), d).push(s.last())
    }
}

/// `s` sorted by span start, diagnostics that start together keeping
/// their order.
pub open spec fn stable_sorted(s: Seq<Diagnostic>) -> Seq<Diagnostic>
    decreases s.len(),
{
    if s.len() == 0 {
        seq![]
    } else {
        sorted_insert(stable_sorted(s.drop_last()), s.last())
    }
}

/// Inserting at the first position from the end whose predecessor does
/// not start later is the sorted insertion.
proof fn lemma_sorted_insert(s: Seq<Diagnostic>, d: Diagnostic, pos: int)
    requires
        0 <= pos <= s.len(),
        forall|k: int| pos <= k < s.len() ==> s[k].span.start > d.span.start,
        pos > 0 ==> s[pos - 1].span.start <= d.span.start,
    ensures
        s.insert(pos, d) == sorted_insert(s, d),
    decreases s.len(),
{
    if pos == s.len() {
        assert(s.insert(pos, d) =~= s.push(d));
    } else {
        let t = s.drop_last();
        lemma_sorted_insert(t, d, pos);
        assert(s.insert(pos, d) =~= t.insert(pos, d).push(s.last()));
    }
}

impl View for DiagnosticList {
    type V = Seq<Diagnostic>;

    closed spec fn view(&self) -> Seq<Diagnostic> {
        self.diagnostics@
    }
}

/// The diagnostics of `s` with severity `sev`, in order.
pub open spec fn with_severity(s: Seq<Diagnostic>, sev: Severity) -> Seq<Diagnostic>
    decreases s.len(),
{
    if s.len() == 0 {
        seq![]
    } else if s.last().severity == sev {
        with_severity(s.drop_last(), sev).push(s.last())
    } else {
        with_severity(s.drop_last(), sev)
    }
}

pub open spec fn is_error(d: Diagnostic) -> bool {
    d.severity == Severity::Error
}

/// Whether `s` is ordered by span start.
pub open spec fn in_document_order(s: Seq<Diagnostic>) -> bool {
    forall|i: int, j: int| 0 <= i < j < s.len() ==> s[i].span.start <= s[j].span.start
}

impl DiagnosticList {
    /// Create an empty diagnostic list.
    pub fn new() -> (r: Self)
        ensures
            r@ == Seq::<Diagnostic>::empty(),
    {
        DiagnosticList { diagnostics: Vec::new() }
    }

    /// Append a single diagnostic.
    pub fn push(&mut self, d: Diagnostic)
        ensures
            final(self)@ == old(self)@.push(d),
    {
        self.diagnostics.push(d);
    }

    /// Merge all diagnostics from another list into this one.
    pub fn extend(&mut self, other: DiagnosticList)
        ensures
            final(self)@ == old(self)@ + other@,
    {
        let mut other = other;
        self.diagnostics.append(&mut other.diagnostics);
    }

    /// Returns `true` if no diagnostics have been recorded.
    pub fn is_empty(&self) -> (r: bool)
        ensures
            r == (self@.len() == 0),
    {
        self.diagnostics.len() == 0
    }

    /// Returns the number of diagnostics.
    pub fn len(&self) -> (r: usize)
        ensures
            r == self@.len(),
    {
        self.diagnostics.len()
    }

    /// The diagnostics, in order.
    pub fn as_slice(&self) -> (r: &[Diagnostic])
        ensures
            r@ == self@,
    {
        self.diagnostics.as_slice()
    }

    /// Iterate over all diagnostics.
    pub fn iter(&self) -> (r: std::slice::Iter<'_, Diagnostic>)
        ensures
            r.remaining().map_values(|d: &Diagnostic| *d) == self@,
    {
        proof {
            broadcast use vstd::std_specs::slice::axiom_spec_slice_iter;
        }
        let r = self.diagnostics.as_slice().iter();
        assert(r.remaining().map_values(|d: &Diagnostic| *d) =~= self@);
        r
    }

    fn with_severity_refs(&self, sev: Severity) -> (r: Vec<&Diagnostic>)
        ensures
            r@.map_values(|d: &Diagnostic| *d) == with_severity(self@, sev),
    {
        let mut out: Vec<&Diagnostic> = Vec::new();
        let mut i: usize = 0;
        while i < self.diagnostics.len()
            invariant
                i <= self@.len(),
                self@ == self.diagnostics@,
                out@.map_values(|d: &Diagnostic| *d) == with_severity(self@.subrange(0, i as int), sev),
            decreases self@.len() - i,
        {
            let d = &self.diagnostics[i];
            let ghost prev = out@.map_values(|d: &Diagnostic| *d);
            assert(self@.subrange(0, i as int + 1).drop_last() =~= self@.subrange(0, i as int));
            if d.severity == sev {
                out.push(d);
                assert(out@.map_values(|d: &Diagnostic| *d) =~= prev.push(*d));
            }
            i += 1;
        }
        assert(self@.subrange(0, self@.len() as int) =~= self@);
        out
    }

    /// Iterate over only error-severity diagnostics.
    pub fn errors(&self) -> (r: std::vec::IntoIter<&Diagnostic>)
        ensures
            r.remaining().map_values(|d: &Diagnostic| *d) == with_severity(self@, Severity::Error),
    {
        let v = self.with_severity_refs(Severity::Error);
        v.into_iter()
    }

    /// Iterate over only warning-severity diagnostics.
    pub fn warnings(&self) -> (r: std::vec::IntoIter<&Diagnostic>)
        ensures
            r.remaining().map_values(|d: &Diagnostic| *d) == with_severity(self@, Severity::Warning),
    {
        let v = self.with_severity_refs(Severity::Warning);
        v.into_iter()
    }

    /// Returns `true` if any diagnostic has error severity.
    pub fn has_errors(&self) -> (r: bool)
        ensures
            r == exists|i: int| 0 <= i < self@.len() && is_error(#[trigger] self@[i]),
    {
        let mut i: usize = 0;
        while i < self.diagnostics.len()
            invariant
                i <= self@.len(),
                self@ == self.diagnostics@,
                forall|j: int| 0 <= j < i ==> !is_error(#[trigger] self@[j]),
            decreases self@.len() - i,
        {
            if self.diagnostics[i].severity == Severity::Error {
                assert(is_error(self@[i as int]));
                return true;
            }
            i += 1;
        }
        false
    }

    /// Orders the diagnostics by span start, keeping the relative order of
    /// diagnostics that start at the same offset.
    pub fn sort_in_document_order(&mut self)
        ensures
            final(self)@.to_multiset() == old(self)@.to_multiset(),
            in_document_order(final(self)@),
            final(self)@ == stable_sorted(old(self)@),
    {
        let mut sorted: Vec<Diagnostic> = Vec::new();
        let mut rest: Vec<Diagnostic> = Vec::new();
        std::mem::swap(&mut rest, &mut self.diagnostics);
        let ghost orig = rest@;
        proof {
            broadcast use vstd::seq_lib::group_to_multiset_ensures;
        }
        while rest.len() > 0
            invariant
                sorted@.to_multiset().add(rest@.to_multiset()) == orig.to_multiset(),
                in_document_order(sorted@),
                rest@.len() <= orig.len(),
                rest@ == orig.subrange(orig.len() - rest@.len(), orig.len() as int),
                sorted@ == stable_sorted(orig.subrange(0, orig.len() - rest@.len())),
            decreases rest@.len(),
        {
            let ghost old_rest = rest@;
            let d = rest.remove(0);
            proof {
                vstd::seq_lib::to_multiset_remove(old_rest, 0);
            }
            let ghost before = sorted@;
            // Insert after every diagnostic that does not start later.
            let mut pos = sorted.len();
            while pos > 0 && sorted[pos - 1].span.start > d.span.start
                invariant
                    0 <= pos <= sorted@.len(),
                    sorted@ == before,
                    forall|k: int| pos <= k < sorted@.len() ==> sorted@[k].span.start > d.span.start,
                decreases pos,
            {
                pos -= 1;
            }
            sorted.insert(pos, d);
            proof {
                lemma_sorted_insert(before, d, pos as int);
                let k = orig.len() - old_rest.len();
                assert(d == orig[k]);
                assert(orig.subrange(0, k + 1).drop_last() =~= orig.subrange(0, k));
                assert(rest@ =~= orig.subrange(orig.len() - rest@.len(), orig.len() as int));
                vstd::seq_lib::to_multiset_insert(before, pos as int, d);
                assert(old_rest.to_multiset().contains(d)) by {
                    vstd::seq_lib::to_multiset_contains(old_rest, d);
                }
                assert(sorted@.to_multiset().add(rest@.to_multiset()) =~= orig.to_multiset());
                assert forall|i: int, j: int| 0 <= i < j < sorted@.len() implies sorted@[i].span.start <= sorted@[j].span.start by {
                    if j < pos {
                    } else if j == pos {
                        if i < pos {
                            assert(before[i].span.start <= before[pos - 1].span.start);
                        }
                    } else if i == pos {
                        assert(sorted@[j] == before[j - 1]);
                    } else if i < pos {
                        assert(sorted@[j] == before[j - 1]);
                    } else {
                        assert(sorted@[j] == before[j - 1]);
                        assert(sorted@[i] == before[i - 1]);
                    }
                }
            }
        }
        assert(orig.subrange(0, orig.len() as int) =~= orig);
        self.diagnostics = sorted;
    }

    /// Consume the list and return the underlying `Vec<Diagnostic>`.
    pub fn into_inner(self) -> (r: Vec<Diagnostic>)
        ensures
            r@ == self@,
    {
        self.diagnostics
    }
}

} // verus!
