//! Semantic validation pass for parsed USFM documents.
use vstd::prelude::*;

use crate::ast::{Attribute, Document, Node};
use crate::diagnostics::{Diagnostic, DiagnosticCode, DiagnosticList, Severity, Span};
use crate::markers::{
    default_attr, default_attribute, last_dash, marker_info, milestone_base, milestone_base_exec, required_attributes,
    required_attrs, MarkerKind,
};
use crate::source_map::{SourceMap, SourceNode};
use crate::text::{chars_to_string, decimal, decimal_exec, is_digit, is_digit_exec, is_ws, push_chars, slice_chars,
    str_chars, str_eq, trim, trim_start, ws_prefix_len_exec, lemma_ws_prefix_len_bounds};

verus! {

/// `b` extends `a`: the diagnostics of `a` stay, in order, at the front.
pub open spec fn appends(a: Seq<Diagnostic>, b: Seq<Diagnostic>) -> bool {
    &&& a.len() <= b.len()
    &&& forall|k: int| 0 <= k < a.len() ==> b[k] == a[k]
}

// ---------------------------------------------------------------------------
// What validation reports
// ---------------------------------------------------------------------------

/// A diagnostic by its parts, the message as chars.
pub struct DiagView {
    pub severity: Severity,
    pub code: DiagnosticCode,
    pub message: Seq<char>,
    pub span: Span,
    pub anchor_cst: Option<usize>,
}

pub open spec fn diag_view(d: Diagnostic) -> DiagView {
    DiagView { severity: d.severity, code: d.code, message: d.message@, span: d.span, anchor_cst: d.anchor_cst }
}

pub open spec fn diag_views(ds: Seq<Diagnostic>) -> Seq<DiagView> {
    ds.map_values(|d: Diagnostic| diag_view(d))
}

/// A diagnostic raised by validation: it points at no CST node.
pub open spec fn dv(severity: Severity, code: DiagnosticCode, message: Seq<char>, span: Span) -> DiagView {
    DiagView { severity, code, message, span, anchor_cst: None }
}

pub open spec fn no_span() -> Span {
    Span { start: 0, end: 0 }
}

/// The node span of a source entry, or `0..0` without one.
pub open spec fn span_of_source(src: Option<SourceNode>) -> Span {
    match src {
        Some(s) => match s.spans {
            Some(sp) => sp.node,
            None => no_span(),
        },
        None => no_span(),
    }
}

/// A verse as written: its number and letter.
pub open spec fn verse_text(v: VersePart) -> Seq<char> {
    decimal(v.num as nat) + match v.suffix {
        Some(c) => seq![c],
        None => seq![],
    }
}

pub open spec fn wrapping_succ(n: u32) -> u32 {
    if n == u32::MAX {
        0
    } else {
        (n + 1) as u32
    }
}

pub open spec fn letter_after(c: char) -> char {
    ((c as u8) + 1) as char
}

/// The verse expected after `v`: the next number, or the next letter of a
/// lettered verse.
pub open spec fn next_verse(v: VersePart) -> VersePart {
    match v.suffix {
        None => VersePart { num: wrapping_succ(v.num), suffix: None },
        Some(c) => VersePart { num: v.num, suffix: Some(letter_after(c)) },
    }
}

/// Whether `actual` may follow when `expected` is due.
pub open spec fn verse_follows(expected: VersePart, actual: VersePart) -> bool {
    if actual.num != expected.num {
        expected.suffix is Some && actual.num == wrapping_succ(expected.num)
    } else {
        suffix_ge(actual.suffix, expected.suffix)
    }
}

pub open spec fn has_verse_node(ns: Seq<Node>) -> bool {
    exists|i: int| 0 <= i < ns.len() && ns[i] is Verse
}

pub open spec fn has_key(attrs: Seq<Attribute>, key: Seq<char>) -> bool {
    exists|i: int| 0 <= i < attrs.len() && attrs[i].key@ == key
}

pub open spec fn has_blank_value_spec(attrs: Seq<Attribute>) -> bool {
    exists|i: int| 0 <= i < attrs.len() && trim(attrs[i].value@).len() == 0
}

/// No content, or only blank text.
pub open spec fn blank_content(ns: Seq<Node>) -> bool {
    ns.len() == 0 || forall|i: int| 0 <= i < ns.len() ==> (#[trigger] ns[i] is Text && trim(ns[i]->Text_0@).len() == 0)
}

/// A marker name without one leading `+`.
pub open spec fn without_plus(m: Seq<char>) -> Seq<char> {
    if m.len() > 0 && m[0] == '+' {
        m.drop_first()
    } else {
        m
    }
}

/// For each required attribute in turn, a diagnostic where `attrs` lacks it.
pub open spec fn missing_required(
    marker: Seq<char>,
    reqs: Seq<Seq<char>>,
    attrs: Seq<Attribute>,
    span: Span,
) -> Seq<DiagView>
    decreases reqs.len(),
{
    if reqs.len() == 0 {
        seq![]
    } else {
        let pre = missing_required(marker, reqs.drop_last(), attrs, span);
        let req = reqs.last();
        if has_key(attrs, req) {
            pre
        } else {
            pre.push(
                dv(
                    Severity::Error,
                    DiagnosticCode::MissingRequiredAttribute,
                    "\\"@ + marker + " is missing required attribute \""@ + req + "\""@,
                    span,
                ),
            )
        }
    }
}

/// Index of the first digit of `s`, or -1.
pub open spec fn first_digit(s: Seq<char>) -> int {
    if exists|i: int| is_first_digit(s, i) {
        choose|i: int| is_first_digit(s, i)
    } else {
        -1
    }
}

pub open spec fn is_first_digit(s: Seq<char>, i: int) -> bool {
    0 <= i < s.len() && is_digit(s[i]) && forall|j: int| 0 <= j < i ==> !is_digit(s[j])
}

/// The first and last column of a table cell marker: `tc2` gives (2, 2),
/// `tcr2-4` gives (2, 4); a last column before the first counts as the
/// first.
pub open spec fn table_cell_columns(m: Seq<char>) -> Option<(u32, u32)> {
    let d = last_dash(m);
    let after = m.subrange(d + 1, m.len() as int);
    let split = d >= 0 && after.len() > 0 && all_ascii_digits(after);
    let base = if split { m.subrange(0, d) } else { m };
    let end_col = if split { u32_of(after) } else { None };
    let ds = first_digit(base);
    if ds < 0 {
        None
    } else {
        match u32_of(base.subrange(ds, base.len() as int)) {
            None => None,
            Some(start) => {
                let e = match end_col {
                    Some(e) => e,
                    None => start,
                };
                Some((start as u32, if e >= start { e as u32 } else { start as u32 }))
            },
        }
    }
}

/// Milestone spans recorded by base name, in the order names first appear.
pub open spec fn tally_index(ts: Seq<(Seq<char>, Seq<Span>)>, base: Seq<char>) -> int
    decreases ts.len(),
{
    if ts.len() == 0 {
        -1
    } else if tally_index(ts.drop_last(), base) >= 0 {
        tally_index(ts.drop_last(), base)
    } else if ts.last().0 == base {
        ts.len() - 1
    } else {
        -1
    }
}

pub open spec fn tally_add(ts: Seq<(Seq<char>, Seq<Span>)>, base: Seq<char>, span: Span) -> Seq<
    (Seq<char>, Seq<Span>),
> {
    let i = tally_index(ts, base);
    if i >= 0 {
        ts.update(i, (base, ts[i].1.push(span)))
    } else {
        ts.push((base, seq![span]))
    }
}

pub open spec fn tally_count_of(ts: Seq<(Seq<char>, Seq<Span>)>, base: Seq<char>) -> nat {
    let i = tally_index(ts, base);
    if i >= 0 {
        ts[i].1.len()
    } else {
        0
    }
}

/// What validation holds between nodes: the diagnostics so far and what
/// the next nodes are checked against.
pub struct ValidationScan {
    pub diags: Seq<DiagView>,
    pub expected_chapter: u32,
    pub seen_chapters: Seq<u32>,
    pub expected_verse: VersePart,
    pub saw_book: bool,
    pub has_chapter: bool,
    pub body_started: bool,
    pub starts: Seq<(Seq<char>, Seq<Span>)>,
    pub ends: Seq<(Seq<char>, Seq<Span>)>,
}

pub open spec fn with_diags(st: ValidationScan, diags: Seq<DiagView>) -> ValidationScan {
    ValidationScan { diags, ..st }
}

pub open spec fn push_diag(st: ValidationScan, d: DiagView) -> ValidationScan {
    with_diags(st, st.diags.push(d))
}

pub open spec fn push_if(st: ValidationScan, c: bool, d: DiagView) -> ValidationScan {
    if c {
        push_diag(st, d)
    } else {
        st
    }
}

/// A verse checked against the verse due, which then moves past it.
pub open spec fn check_verse(st: ValidationScan, number: Seq<char>, span: Span) -> ValidationScan {
    match verse_part_of(number) {
        Some(v) => {
            let st1 = push_if(
                st,
                !verse_follows(st.expected_verse, v),
                dv(
                    Severity::Warning,
                    DiagnosticCode::InvalidVerseSequence,
                    "expected verse "@ + verse_text(st.expected_verse) + " but found verse "@ + number,
                    span,
                ),
            );
            let last = match verse_range_end_of(number) {
                Some(e) => e,
                None => v,
            };
            ValidationScan { expected_verse: next_verse(last), ..st1 }
        },
        None => st,
    }
}

/// The checks of a character marker, before its children.
pub open spec fn check_char(
    st: ValidationScan,
    marker: Seq<char>,
    content: Seq<Node>,
    attrs: Seq<Attribute>,
    span: Span,
    inside_note: bool,
) -> ValidationScan {
    let clean = without_plus(marker);
    let st1 = push_if(
        st,
        !inside_note && is_note_only_marker(marker),
        dv(
            Severity::Error,
            DiagnosticCode::NoteSubmarkerOutsideNote,
            "\\"@ + marker + " can only appear inside a footnote or cross-reference"@,
            span,
        ),
    );
    let st2 = push_if(
        st1,
        has_verse_node(content),
        dv(Severity::Error, DiagnosticCode::CharCrossesVerseBoundary, "\\"@ + marker + " spans across a verse boundary"@, span),
    );
    let st3 = with_diags(st2, st2.diags + missing_required(clean, required_attrs(clean), attrs, span));
    let st4 = push_if(
        st3,
        has_key(attrs, "default"@) && default_attr(clean) is None,
        dv(
            Severity::Error,
            DiagnosticCode::DefaultAttributeNotDefined,
            "\\"@ + clean + " does not define a default attribute; value after | is invalid"@,
            span,
        ),
    );
    let st5 = push_if(
        st4,
        has_blank_value_spec(attrs),
        dv(
            Severity::Error,
            DiagnosticCode::InvalidAttributes,
            "malformed attribute string (values must be quoted)"@,
            span,
        ),
    );
    push_if(
        st5,
        clean == "w"@ && content.len() == 0 && attrs.len() == 0,
        dv(Severity::Error, DiagnosticCode::EmptyWordMarker, "\\w marker has no content or attributes"@, span),
    )
}

/// A milestone recorded under its base name as a start or an end.
pub open spec fn record_milestone(st: ValidationScan, m: Seq<char>, span: Span) -> ValidationScan {
    match milestone_base(m) {
        Some(base) => if m.last() == 's' {
            ValidationScan { starts: tally_add(st.starts, base, span), ..st }
        } else if m.last() == 'e' {
            ValidationScan { ends: tally_add(st.ends, base, span), ..st }
        } else {
            st
        },
        None => st,
    }
}

/// The cells of a table row, checked for consecutive columns.
pub open spec fn row_columns(
    diags: Seq<DiagView>,
    expected: u32,
    cells: Seq<Node>,
    srcs: Seq<SourceNode>,
) -> (Seq<DiagView>, u32)
    decreases cells.len(),
{
    if cells.len() == 0 {
        (diags, expected)
    } else if cells.len() > srcs.len() {
        row_columns(diags, expected, cells.drop_last(), srcs)
    } else {
        let (d, e) = row_columns(diags, expected, cells.drop_last(), srcs);
        let src = srcs[cells.len() - 1];
        match cells.last() {
            Node::TableCell { marker, .. } => match table_cell_columns(marker@) {
                Some((a, b)) => (
                    if a != e {
                        d.push(
                            dv(
                                Severity::Error,
                                DiagnosticCode::InvalidTableColumnSequence,
                                "expected table column "@ + decimal(e as nat) + " but found column "@
                                    + decimal(a as nat),
                                span_of_source(Some(src)),
                            ),
                        )
                    } else {
                        d
                    },
                    wrapping_succ(b),
                ),
                None => (d, e),
            },
            _ => (d, e),
        }
    }
}

/// A node and everything under it walked: verses, character markers,
/// notes, figures, milestones, blank lines and table rows checked.
pub open spec fn walk_node(st: ValidationScan, n: Node, src: SourceNode, inside_note: bool) -> ValidationScan
    decreases n, 1int,
{
    let span = span_of_source(Some(src));
    match n {
        Node::Verse(d) => check_verse(st, d.number@, span),
        Node::Char(d) => walk_all(
            check_char(st, d.marker@, d.content@, d.attributes@, span, inside_note),
            d.content@,
            src.children@,
            inside_note,
        ),
        Node::Note { content, .. } => walk_all(st, content@, src.children@, true),
        Node::Figure { content, .. } => walk_all(
            push_if(
                st,
                blank_content(content@),
                dv(Severity::Error, DiagnosticCode::EmptyFigure, "\\fig has no content or attributes"@, span),
            ),
            content@,
            src.children@,
            inside_note,
        ),
        Node::Milestone { marker, .. } => record_milestone(st, marker@, span),
        Node::Para { marker, content } => walk_all(
            push_if(
                st,
                marker@ == "b"@ && content@.len() > 0,
                dv(Severity::Error, DiagnosticCode::NonEmptyBlankLine, "\\b marker should not contain content"@, span),
            ),
            content@,
            src.children@,
            inside_note,
        ),
        Node::TableRow { content, .. } => {
            let st1 = walk_all(st, content@, src.children@, inside_note);
            with_diags(st1, row_columns(st1.diags, 1, content@, src.children@).0)
        },
        Node::Table { content } | Node::Book { content, .. } | Node::Sidebar { content, .. }
        | Node::Periph { content, .. } | Node::Ref { content, .. } | Node::Unknown { content, .. } => walk_all(
            st,
            content@,
            src.children@,
            inside_note,
        ),
        _ => st,
    }
}

/// The nodes walked in order, each beside its source entry; nodes past
/// the end of the source entries are not walked.
pub open spec fn walk_all(st: ValidationScan, ns: Seq<Node>, srcs: Seq<SourceNode>, inside_note: bool) -> ValidationScan
    decreases ns, 0int,
{
    if ns.len() == 0 {
        st
    } else if ns.len() > srcs.len() {
        walk_all(st, ns.drop_last(), srcs, inside_note)
    } else {
        walk_node(walk_all(st, ns.drop_last(), srcs, inside_note), ns.last(), srcs[ns.len() - 1], inside_note)
    }
}

/// A chapter checked against those seen and the chapter due.
pub open spec fn check_chapter(st: ValidationScan, number: Seq<char>, span: Span) -> ValidationScan {
    match u32_of(number) {
        Some(n) => {
            let num = n as u32;
            let seen = st.seen_chapters.contains(num);
            let st1 = push_if(
                st,
                seen,
                dv(Severity::Error, DiagnosticCode::DuplicateChapter, "duplicate chapter "@ + decimal(num as nat), span),
            );
            let st2 = ValidationScan {
                seen_chapters: if seen {
                    st1.seen_chapters
                } else {
                    st1.seen_chapters.push(num)
                },
                ..st1
            };
            let st3 = push_if(
                st2,
                num != st2.expected_chapter,
                dv(
                    Severity::Warning,
                    DiagnosticCode::InvalidChapterSequence,
                    "expected chapter "@ + decimal(st2.expected_chapter as nat) + " but found chapter "@
                        + decimal(num as nat),
                    span,
                ),
            );
            ValidationScan { expected_chapter: wrapping_succ(num), ..st3 }
        },
        None => st,
    }
}

/// One top-level node: book, chapter and paragraph placement checked,
/// then everything but a chapter walked.
pub open spec fn root_step(st: ValidationScan, n: Node, src: SourceNode) -> ValidationScan {
    let span = span_of_source(Some(src));
    match n {
        Node::Book { .. } => {
            let st1 = push_if(
                st,
                st.saw_book,
                dv(Severity::Error, DiagnosticCode::DuplicateId, "duplicate \\id marker found"@, span),
            );
            walk_node(ValidationScan { saw_book: true, ..st1 }, n, src, false)
        },
        Node::Chapter(d) => check_chapter(
            ValidationScan {
                body_started: true,
                has_chapter: true,
                expected_verse: VersePart { num: 1, suffix: None },
                ..st
            },
            d.number@,
            span,
        ),
        Node::Para { marker, .. } => {
            let kind = marker_info(marker@).kind;
            let st1 = push_if(
                st,
                kind == MarkerKind::Header && st.body_started && !is_body_header_marker(marker@),
                dv(
                    Severity::Warning,
                    DiagnosticCode::HeaderAfterBody,
                    "header marker \\"@ + marker@ + " appears after body content has started"@,
                    span,
                ),
            );
            let st2 = push_if(
                st1,
                !st1.has_chapter && kind == MarkerKind::Paragraph && !is_introduction_marker(marker@),
                dv(
                    Severity::Error,
                    DiagnosticCode::BodyParagraphBeforeChapter,
                    "body paragraph \\"@ + marker@ + " is not allowed before the first \\c marker"@,
                    span,
                ),
            );
            walk_node(st2, n, src, false)
        },
        _ => walk_node(st, n, src, false),
    }
}

pub open spec fn root_all(st: ValidationScan, ns: Seq<Node>, srcs: Seq<SourceNode>) -> ValidationScan
    decreases ns.len(),
{
    if ns.len() == 0 {
        st
    } else if ns.len() > srcs.len() {
        root_all(st, ns.drop_last(), srcs)
    } else {
        root_step(root_all(st, ns.drop_last(), srcs), ns.last(), srcs[ns.len() - 1])
    }
}

/// For each base name recorded in `mine`, in order, the spans beyond the
/// count of its counterparts in `theirs`, each reported as unmatched.
pub open spec fn unpaired(
    mine: Seq<(Seq<char>, Seq<Span>)>,
    theirs: Seq<(Seq<char>, Seq<Span>)>,
    suffix: Seq<char>,
) -> Seq<DiagView>
    decreases mine.len(),
{
    if mine.len() == 0 {
        seq![]
    } else {
        let (base, spans) = mine.last();
        let other = tally_count_of(theirs, base);
        unpaired(mine.drop_last(), theirs, suffix) + Seq::new(
            (if spans.len() > other { spans.len() - other } else { 0 }) as nat,
            |k: int|
                dv(
                    Severity::Error,
                    DiagnosticCode::MilestoneMismatch,
                    "milestone \\"@ + base + suffix + " has no matching counterpart"@,
                    spans[other + k],
                ),
        )
    }
}

/// The diagnostics about the document's first node.
pub open spec fn head_diags(content: Seq<Node>, srcs: Seq<SourceNode>) -> Seq<DiagView> {
    let first_src = if srcs.len() > 0 {
        Some(srcs[0])
    } else {
        None
    };
    let missing_id = dv(
        Severity::Error,
        DiagnosticCode::MissingIdMarker,
        "document is missing required \\id marker"@,
        no_span(),
    );
    if content.len() > 0 {
        match content[0] {
            Node::Book { code, .. } => if is_valid_book_code(code@) {
                seq![]
            } else {
                seq![
                    dv(
                        Severity::Error,
                        DiagnosticCode::InvalidBookCode,
                        "invalid book code \""@ + code@ + "\""@,
                        span_of_source(first_src),
                    ),
                ]
            },
            Node::Text(_) => seq![
                dv(
                    Severity::Error,
                    DiagnosticCode::TextBeforeId,
                    "text content is not allowed before \\id marker"@,
                    span_of_source(first_src),
                ),
                missing_id,
            ],
            _ => seq![missing_id],
        }
    } else {
        seq![missing_id]
    }
}

/// Everything validation reports on a document, in order.
pub open spec fn validation_report(content: Seq<Node>, srcs: Seq<SourceNode>) -> Seq<DiagView> {
    let start = ValidationScan {
        diags: head_diags(content, srcs),
        expected_chapter: 1,
        seen_chapters: seq![],
        expected_verse: VersePart { num: 1, suffix: None },
        saw_book: false,
        has_chapter: false,
        body_started: false,
        starts: seq![],
        ends: seq![],
    };
    let st = root_all(start, content, srcs);
    let ds = if st.saw_book && !st.has_chapter {
        st.diags.push(
            dv(Severity::Error, DiagnosticCode::MissingChapterMarker, "document has no \\c chapter marker"@, no_span()),
        )
    } else {
        st.diags
    };
    ds + unpaired(st.starts, st.ends, "-s"@) + unpaired(st.ends, st.starts, "-e"@)
}

/// Checks a document against the rules of USFM that the tree does not
/// enforce by itself: book code, chapter and verse order, placement of
/// markers, attributes and milestone pairs.
pub fn validate(doc: &Document, source_map: &SourceMap) -> (r: DiagnosticList)
    ensures
        diag_views(r@) == validation_report(doc.content@, source_map.content@),
{
    let mut validator = Validator::new();
    validator.validate(doc, source_map);
    validator.diagnostics
}

/// The decimal value of the digits `s`.
pub open spec fn digits_value(s: Seq<char>) -> nat
    decreases s.len(),
{
    if s.len() == 0 {
        0
    } else {
        digits_value(s.drop_last()) * 10 + (s.last() as nat - '0' as nat) as nat
    }
}

pub open spec fn all_ascii_digits(s: Seq<char>) -> bool {
    forall|i: int| 0 <= i < s.len() ==> is_digit(#[trigger] s[i])
}

/// What `str::parse::<u32>` gives for `s`: an optional `+`, then one or
/// more digits whose value fits in a `u32`.
pub open spec fn u32_of(s: Seq<char>) -> Option<nat> {
    let body = if s.len() > 0 && s[0] == '+' {
        s.drop_first()
    } else {
        s
    };
    if body.len() > 0 && all_ascii_digits(body) && digits_value(body) <= u32::MAX {
        Some(digits_value(body))
    } else {
        None
    }
}

proof fn lemma_digits_value_grows(s: Seq<char>, i: int)
    requires
        0 <= i <= s.len(),
        all_ascii_digits(s),
    ensures
        digits_value(s.subrange(0, i)) <= digits_value(s),
    decreases s.len() - i,
{
    if i < s.len() {
        lemma_digits_value_grows(s, i + 1);
        assert(s.subrange(0, i + 1).drop_last() =~= s.subrange(0, i));
        assert(is_digit(s[i]));
    } else {
        assert(s.subrange(0, i) =~= s);
    }
}

/// Parses a `u32` as `str::parse::<u32>` does.
fn parse_u32(s: &[char]) -> (r: Option<u32>)
    ensures
        match r {
            Some(v) => u32_of(s@) == Some(v as nat),
            None => u32_of(s@) is None,
        },
{
    let start: usize = if s.len() > 0 && s[0] == '+' { 1 } else { 0 };
    let b = slice_chars(s, start, s.len());
    proof {
        if start == 1 {
            assert(b@ =~= s@.drop_first());
        } else {
            assert(b@ =~= s@);
        }
    }
    digits_u32(&b)
}

/// The value of the digits `b`, when there are some, all digits, and the
/// value fits.
fn digits_u32(b: &[char]) -> (r: Option<u32>)
    ensures
        match r {
            Some(v) => b@.len() > 0 && all_ascii_digits(b@) && digits_value(b@) == v,
            None => !(b@.len() > 0 && all_ascii_digits(b@) && digits_value(b@) <= u32::MAX),
        },
{
    if b.len() == 0 {
        return None;
    }
    let mut value: u64 = 0;
    let mut i: usize = 0;
    assert(b@.subrange(0, 0) =~= Seq::<char>::empty());
    while i < b.len()
        invariant
            i <= b@.len(),
            all_ascii_digits(b@.subrange(0, i as int)),
            value == digits_value(b@.subrange(0, i as int)),
            value <= u32::MAX,
        decreases b@.len() - i,
    {
        if !is_digit_exec(b[i]) {
            assert(!is_digit(b@[i as int]));
            return None;
        }
        let d = (b[i] as u32 - '0' as u32) as u64;
        proof {
            let p = b@.subrange(0, i + 1);
            assert(p.drop_last() =~= b@.subrange(0, i as int));
            assert(p.last() == b@[i as int]);
            assert(all_ascii_digits(p));
        }
        value = value * 10 + d;
        i += 1;
        if value > 0xffff_ffff {
            proof {
                if all_ascii_digits(b@) {
                    lemma_digits_value_grows(b@, i as int);
                }
            }
            return None;
        }
    }
    assert(b@.subrange(0, i as int) =~= b@);
    Some(value as u32)
}

/// A verse number with an optional alphabetic suffix, e.g. `3` or `3b`.
#[derive(Debug, Clone, Copy, PartialEq, Eq)]
pub struct VersePart {
    pub num: u32,
    /// Letter suffix such as `'a'` or `'b'`; `None` for plain integers.
    pub suffix: Option<char>,
}

impl VersePart {
    /// The verse that should come next: the next number, or the next
    /// letter of a lettered sequence.
    fn next_expected(self) -> (r: Self)
        requires
            self.suffix matches Some(c) ==> 'a' <= c <= 'z',
        ensures
            r == next_verse(self),
    {
        match self.suffix {
            None => VersePart { num: self.num.wrapping_add(1), suffix: None },
            Some(c) => VersePart { num: self.num, suffix: Some(next_letter(c)) },
        }
    }

    /// The verse as written, such as `3` or `3b`.
    fn to_display_string(&self) -> (r: String)
        ensures
            r@ == verse_text(*self),
    {
        let mut s = chars_to_string(&decimal_exec(self.num));
        match self.suffix {
            Some(c) => {
                let mut v = Vec::new();
                v.push(c);
                assert(v@ =~= seq![c]);
                push_chars(&mut s, &v);
            },
            None => {
                assert(s@ + Seq::<char>::empty() =~= s@);
            },
        }
        s
    }
}

/// The letter after `c`.
fn next_letter(c: char) -> (r: char)
    requires
        'a' <= c <= 'z',
    ensures
        r == letter_after(c),
{
    ((c as u8) + 1) as char
}

fn is_ascii_lower(c: char) -> (r: bool)
    ensures
        r == ('a' <= c <= 'z'),
{
    'a' <= c && c <= 'z'
}

/// Number of leading ASCII digits of `t`.
pub open spec fn lead_digits(t: Seq<char>) -> int
    decreases t.len(),
{
    if t.len() > 0 && is_digit(t[0]) {
        1 + lead_digits(t.drop_first())
    } else {
        0
    }
}

/// The verse number at the start of `s` (after leading whitespace), with
/// the lower-case letter right after its digits as suffix; `None` where
/// no digits start it or they do not fit a `u32`.
pub open spec fn verse_part_of(s: Seq<char>) -> Option<VersePart> {
    let t = trim_start(s);
    let n = lead_digits(t);
    if n == 0 {
        None
    } else {
        match u32_of(t.subrange(0, n)) {
            Some(num) => Some(
                VersePart {
                    num: num as u32,
                    suffix: if n < t.len() && 'a' <= t[n] <= 'z' {
                        Some(t[n])
                    } else {
                        None
                    },
                },
            ),
            None => None,
        }
    }
}

/// The verse part after the first `-` of `s`, or of all of `s` where it
/// has none.
pub open spec fn verse_range_end_of(s: Seq<char>) -> Option<VersePart> {
    let d = first_dash(s);
    if d >= 0 {
        verse_part_of(s.subrange(d + 1, s.len() as int))
    } else {
        verse_part_of(s)
    }
}

/// Index of the first `-` in `s`, or -1.
pub open spec fn first_dash(s: Seq<char>) -> int
    decreases s.len(),
{
    if s.len() == 0 {
        -1
    } else if s[0] == '-' {
        0
    } else if first_dash(s.drop_first()) >= 0 {
        1 + first_dash(s.drop_first())
    } else {
        -1
    }
}

fn parse_verse_part_chars(s: &[char]) -> (r: Option<VersePart>)
    ensures
        r == verse_part_of(s@),
        r matches Some(v) ==> (v.suffix matches Some(c) ==> 'a' <= c <= 'z'),
{
    let a = ws_prefix_len_exec(s);
    proof {
        lemma_ws_prefix_len_bounds(s@);
    }
    let t = slice_chars(s, a, s.len());
    assert(t@ == trim_start(s@));
    let mut end: usize = 0;
    assert(t@.subrange(0, t@.len() as int) =~= t@);
    while end < t.len() && is_digit_exec(t[end])
        invariant
            end <= t@.len(),
            lead_digits(t@) == end + lead_digits(t@.subrange(end as int, t@.len() as int)),
        decreases t@.len() - end,
    {
        assert(t@.subrange(end as int, t@.len() as int).drop_first() =~= t@.subrange(
            end + 1,
            t@.len() as int,
        ));
        end += 1;
    }
    assert(lead_digits(t@) == end) by {
        assert(t@.subrange(0, t@.len() as int) =~= t@);
    }
    if end == 0 {
        return None;
    }
    let digits = slice_chars(&t, 0, end);
    let num = match parse_u32(&digits) {
        Some(n) => n,
        None => return None,
    };
    let suffix = if end < t.len() && is_ascii_lower(t[end]) {
        Some(t[end])
    } else {
        None
    };
    Some(VersePart { num, suffix })
}

fn parse_verse_range_end_chars(s: &[char]) -> (r: Option<VersePart>)
    ensures
        r == verse_range_end_of(s@),
        r matches Some(v) ==> (v.suffix matches Some(c) ==> 'a' <= c <= 'z'),
{
    let mut i: usize = 0;
    assert(s@.subrange(0, s@.len() as int) =~= s@);
    while i < s.len()
        invariant
            i <= s@.len(),
            forall|k: int| 0 <= k < i ==> s@[k] != '-',
            first_dash(s@) == (if first_dash(s@.subrange(i as int, s@.len() as int)) >= 0 {
                i + first_dash(s@.subrange(i as int, s@.len() as int))
            } else {
                -1
            }),
        decreases s@.len() - i,
    {
        assert(s@.subrange(i as int, s@.len() as int).drop_first() =~= s@.subrange(
            i + 1,
            s@.len() as int,
        ));
        if s[i] == '-' {
            return parse_verse_part_chars(&slice_chars(s, i + 1, s.len()));
        }
        i += 1;
    }
    parse_verse_part_chars(s)
}

/// The verse number (and letter) that `s` starts with.
pub fn parse_verse_part(s: &str) -> (r: Option<VersePart>)
    ensures
        r == verse_part_of(s@),
        r matches Some(v) ==> (v.suffix matches Some(c) ==> 'a' <= c <= 'z'),
{
    parse_verse_part_chars(&str_chars(s))
}

/// The verse a verse number or range ends with.
pub fn parse_verse_range_end(s: &str) -> (r: Option<VersePart>)
    ensures
        r == verse_range_end_of(s@),
        r matches Some(v) ==> (v.suffix matches Some(c) ==> 'a' <= c <= 'z'),
{
    parse_verse_range_end_chars(&str_chars(s))
}

/// `a >= b` for optional letters, with no letter lowest.
pub open spec fn suffix_ge(a: Option<char>, b: Option<char>) -> bool {
    match (a, b) {
        (_, None) => true,
        (None, Some(_)) => false,
        (Some(x), Some(y)) => x >= y,
    }
}

/// Returns `true` if `actual` is a valid next verse given `expected`.
///
/// Allows:
/// - Same integer, suffix advances (or no suffix expected yet): `3` → `3`, `3` → `3a`, `3a` → `3b`
/// - Next integer after a suffix sequence: `3a` or `3b` → `4`
/// - Standard integer increment: `3` → `4`
fn is_valid_verse_sequence(expected: VersePart, actual: VersePart) -> (r: bool)
    ensures
        r == (if actual.num != expected.num {
            expected.suffix is Some && actual.num == (if expected.num == u32::MAX {
                0
            } else {
                expected.num + 1
            })
        } else {
            suffix_ge(actual.suffix, expected.suffix)
        }),
{
    if actual.num != expected.num {
        expected.suffix.is_some() && actual.num == expected.num.wrapping_add(1)
    } else {
        match (actual.suffix, expected.suffix) {
            (_, None) => true,
            (None, Some(_)) => false,
            (Some(x), Some(y)) => x >= y,
        }
    }
}

/// Index of the last `c` in `s`.
fn rfind_char(s: &[char], c: char) -> (r: Option<usize>)
    ensures
        r matches Some(i) ==> i < s@.len() && s@[i as int] == c && forall|j: int| i < j < s@.len() ==> s@[j] != c,
        r is None ==> forall|j: int| 0 <= j < s@.len() ==> s@[j] != c,
{
    let mut i = s.len();
    while i > 0
        invariant
            i <= s@.len(),
            forall|j: int| i <= j < s@.len() ==> s@[j] != c,
        decreases i,
    {
        if s[i - 1] == c {
            return Some(i - 1);
        }
        i -= 1;
    }
    None
}

proof fn lemma_last_dash_at(s: Seq<char>, i: int)
    requires
        -1 <= i < s.len(),
        i >= 0 ==> s[i] == '-',
        forall|j: int| i < j < s.len() ==> s[j] != '-',
    ensures
        last_dash(s) == i,
    decreases s.len(),
{
    if s.len() > 0 && s.last() != '-' {
        lemma_last_dash_at(s.drop_last(), i);
    }
}

/// The first and last column of a table cell marker such as `tc2` or
/// `tcr2-4`.
fn parse_table_cell_columns(marker: &[char]) -> (r: Option<(u32, u32)>)
    ensures
        r == table_cell_columns(marker@),
        r matches Some((a, b)) ==> a <= b,
{
    let dash = rfind_char(marker, '-');
    let ghost d: int = match dash {
        Some(x) => x as int,
        None => -1,
    };
    proof {
        lemma_last_dash_at(marker@, d);
    }
    let (base, end_col): (Vec<char>, Option<u32>) = match dash {
        Some(d) => {
            let mlen = marker.len();
            assert(d < mlen);
            let after = slice_chars(marker, d + 1, mlen);
            let mut all = after.len() > 0;
            let mut j: usize = 0;
            while j < after.len()
                invariant
                    j <= after@.len(),
                    all == (after@.len() > 0 && forall|k: int| 0 <= k < j ==> is_digit(#[trigger] after@[k])),
                decreases after@.len() - j,
            {
                if !is_digit_exec(after[j]) {
                    all = false;
                }
                j += 1;
            }
            if all {
                (slice_chars(marker, 0, d), parse_u32(&after))
            } else {
                (slice_chars(marker, 0, marker.len()), None)
            }
        },
        None => (slice_chars(marker, 0, marker.len()), None),
    };
    assert(marker@.subrange(0, marker@.len() as int) =~= marker@);
    let mut digit_start: usize = 0;
    while digit_start < base.len() && !is_digit_exec(base[digit_start])
        invariant
            digit_start <= base@.len(),
            forall|k: int| 0 <= k < digit_start ==> !is_digit(#[trigger] base@[k]),
        decreases base@.len() - digit_start,
    {
        digit_start += 1;
    }
    if digit_start == base.len() {
        assert(first_digit(base@) == -1) by {
            if exists|k: int| is_first_digit(base@, k) {
                let c = choose|k: int| is_first_digit(base@, k);
                assert(is_digit(base@[c]));
            }
        }
        return None;
    }
    assert(is_first_digit(base@, digit_start as int));
    assert(first_digit(base@) == digit_start) by {
        let c = choose|k: int| is_first_digit(base@, k);
        if c < digit_start {
        } else if c > digit_start {
        }
    }
    let start_col = match parse_u32(&slice_chars(&base, digit_start, base.len())) {
        Some(v) => v,
        None => return None,
    };
    let end_col = match end_col {
        Some(e) => e,
        None => start_col,
    };
    Some((start_col, if end_col >= start_col { end_col } else { start_col }))
}

/// Whether `s` is one of the book codes of USFM 3.
pub open spec fn is_valid_book_code(s: Seq<char>) -> bool {
    s == "GEN"@
    || s == "EXO"@
    || s == "LEV"@
    || s == "NUM"@
    || s == "DEU"@
    || s == "JOS"@
    || s == "JDG"@
    || s == "RUT"@
    || s == "1SA"@
    || s == "2SA"@
    || s == "1KI"@
    || s == "2KI"@
    || s == "1CH"@
    || s == "2CH"@
    || s == "EZR"@
    || s == "NEH"@
    || s == "EST"@
    || s == "JOB"@
    || s == "PSA"@
    || s == "PRO"@
    || s == "ECC"@
    || s == "SNG"@
    || s == "ISA"@
    || s == "JER"@
    || s == "LAM"@
    || s == "EZK"@
    || s == "DAN"@
    || s == "HOS"@
    || s == "JOL"@
    || s == "AMO"@
    || s == "OBA"@
    || s == "JON"@
    || s == "MIC"@
    || s == "NAM"@
    || s == "HAB"@
    || s == "ZEP"@
    || s == "HAG"@
    || s == "ZEC"@
    || s == "MAL"@
    || s == "MAT"@
    || s == "MRK"@
    || s == "LUK"@
    || s == "JHN"@
    || s == "ACT"@
    || s == "ROM"@
    || s == "1CO"@
    || s == "2CO"@
    || s == "GAL"@
    || s == "EPH"@
    || s == "PHP"@
    || s == "COL"@
    || s == "1TH"@
    || s == "2TH"@
    || s == "1TI"@
    || s == "2TI"@
    || s == "TIT"@
    || s == "PHM"@
    || s == "HEB"@
    || s == "JAS"@
    || s == "1PE"@
    || s == "2PE"@
    || s == "1JN"@
    || s == "2JN"@
    || s == "3JN"@
    || s == "JUD"@
    || s == "REV"@
    || s == "TOB"@
    || s == "JDT"@
    || s == "ESG"@
    || s == "WIS"@
    || s == "SIR"@
    || s == "BAR"@
    || s == "LJE"@
    || s == "S3Y"@
    || s == "SUS"@
    || s == "BEL"@
    || s == "1MA"@
    || s == "2MA"@
    || s == "3MA"@
    || s == "4MA"@
    || s == "1ES"@
    || s == "2ES"@
    || s == "MAN"@
    || s == "PS2"@
    || s == "ODA"@
    || s == "PSS"@
    || s == "EZA"@
    || s == "5EZ"@
    || s == "6EZ"@
    || s == "DAG"@
    || s == "PS3"@
    || s == "2BA"@
    || s == "LBA"@
    || s == "JUB"@
    || s == "ENO"@
    || s == "1MQ"@
    || s == "2MQ"@
    || s == "3MQ"@
    || s == "REP"@
    || s == "4BA"@
    || s == "LAO"@
    || s == "FRT"@
    || s == "BAK"@
    || s == "OTH"@
    || s == "INT"@
    || s == "CNC"@
    || s == "GLO"@
    || s == "TDX"@
    || s == "NDX"@
}

fn is_valid_book_code_exec(s: &str) -> (r: bool)
    ensures
        r == is_valid_book_code(s@),
{
    str_eq(s, "GEN")
    || str_eq(s, "EXO")
    || str_eq(s, "LEV")
    || str_eq(s, "NUM")
    || str_eq(s, "DEU")
    || str_eq(s, "JOS")
    || str_eq(s, "JDG")
    || str_eq(s, "RUT")
    || str_eq(s, "1SA")
    || str_eq(s, "2SA")
    || str_eq(s, "1KI")
    || str_eq(s, "2KI")
    || str_eq(s, "1CH")
    || str_eq(s, "2CH")
    || str_eq(s, "EZR")
    || str_eq(s, "NEH")
    || str_eq(s, "EST")
    || str_eq(s, "JOB")
    || str_eq(s, "PSA")
    || str_eq(s, "PRO")
    || str_eq(s, "ECC")
    || str_eq(s, "SNG")
    || str_eq(s, "ISA")
    || str_eq(s, "JER")
    || str_eq(s, "LAM")
    || str_eq(s, "EZK")
    || str_eq(s, "DAN")
    || str_eq(s, "HOS")
    || str_eq(s, "JOL")
    || str_eq(s, "AMO")
    || str_eq(s, "OBA")
    || str_eq(s, "JON")
    || str_eq(s, "MIC")
    || str_eq(s, "NAM")
    || str_eq(s, "HAB")
    || str_eq(s, "ZEP")
    || str_eq(s, "HAG")
    || str_eq(s, "ZEC")
    || str_eq(s, "MAL")
    || str_eq(s, "MAT")
    || str_eq(s, "MRK")
    || str_eq(s, "LUK")
    || str_eq(s, "JHN")
    || str_eq(s, "ACT")
    || str_eq(s, "ROM")
    || str_eq(s, "1CO")
    || str_eq(s, "2CO")
    || str_eq(s, "GAL")
    || str_eq(s, "EPH")
    || str_eq(s, "PHP")
    || str_eq(s, "COL")
    || str_eq(s, "1TH")
    || str_eq(s, "2TH")
    || str_eq(s, "1TI")
    || str_eq(s, "2TI")
    || str_eq(s, "TIT")
    || str_eq(s, "PHM")
    || str_eq(s, "HEB")
    || str_eq(s, "JAS")
    || str_eq(s, "1PE")
    || str_eq(s, "2PE")
    || str_eq(s, "1JN")
    || str_eq(s, "2JN")
    || str_eq(s, "3JN")
    || str_eq(s, "JUD")
    || str_eq(s, "REV")
    || str_eq(s, "TOB")
    || str_eq(s, "JDT")
    || str_eq(s, "ESG")
    || str_eq(s, "WIS")
    || str_eq(s, "SIR")
    || str_eq(s, "BAR")
    || str_eq(s, "LJE")
    || str_eq(s, "S3Y")
    || str_eq(s, "SUS")
    || str_eq(s, "BEL")
    || str_eq(s, "1MA")
    || str_eq(s, "2MA")
    || str_eq(s, "3MA")
    || str_eq(s, "4MA")
    || str_eq(s, "1ES")
    || str_eq(s, "2ES")
    || str_eq(s, "MAN")
    || str_eq(s, "PS2")
    || str_eq(s, "ODA")
    || str_eq(s, "PSS")
    || str_eq(s, "EZA")
    || str_eq(s, "5EZ")
    || str_eq(s, "6EZ")
    || str_eq(s, "DAG")
    || str_eq(s, "PS3")
    || str_eq(s, "2BA")
    || str_eq(s, "LBA")
    || str_eq(s, "JUB")
    || str_eq(s, "ENO")
    || str_eq(s, "1MQ")
    || str_eq(s, "2MQ")
    || str_eq(s, "3MQ")
    || str_eq(s, "REP")
    || str_eq(s, "4BA")
    || str_eq(s, "LAO")
    || str_eq(s, "FRT")
    || str_eq(s, "BAK")
    || str_eq(s, "OTH")
    || str_eq(s, "INT")
    || str_eq(s, "CNC")
    || str_eq(s, "GLO")
    || str_eq(s, "TDX")
    || str_eq(s, "NDX")
}

/// Whether `s` is a marker that belongs inside notes only.
pub open spec fn is_note_only_marker(s: Seq<char>) -> bool {
    s == "fr"@
    || s == "ft"@
    || s == "fk"@
    || s == "fq"@
    || s == "fqa"@
    || s == "fl"@
    || s == "fw"@
    || s == "fp"@
    || s == "fv"@
    || s == "fdc"@
    || s == "xop"@
    || s == "xot"@
    || s == "xnt"@
    || s == "xdc"@
}

fn is_note_only_marker_exec(s: &str) -> (r: bool)
    ensures
        r == is_note_only_marker(s@),
{
    str_eq(s, "fr")
    || str_eq(s, "ft")
    || str_eq(s, "fk")
    || str_eq(s, "fq")
    || str_eq(s, "fqa")
    || str_eq(s, "fl")
    || str_eq(s, "fw")
    || str_eq(s, "fp")
    || str_eq(s, "fv")
    || str_eq(s, "fdc")
    || str_eq(s, "xop")
    || str_eq(s, "xot")
    || str_eq(s, "xnt")
    || str_eq(s, "xdc")
}

/// Whether `s` is an introduction marker.
pub open spec fn is_introduction_marker(s: Seq<char>) -> bool {
    s == "imt"@
    || s == "imt1"@
    || s == "imt2"@
    || s == "imt3"@
    || s == "imt4"@
    || s == "imte"@
    || s == "imte1"@
    || s == "imte2"@
    || s == "is"@
    || s == "is1"@
    || s == "is2"@
    || s == "is3"@
    || s == "ip"@
    || s == "ipi"@
    || s == "im"@
    || s == "imi"@
    || s == "ipq"@
    || s == "imq"@
    || s == "ipr"@
    || s == "ib"@
    || s == "iq"@
    || s == "iq1"@
    || s == "iq2"@
    || s == "iq3"@
    || s == "iex"@
    || s == "iot"@
    || s == "io"@
    || s == "io1"@
    || s == "io2"@
    || s == "io3"@
    || s == "io4"@
    || s == "ili"@
    || s == "ili1"@
    || s == "ili2"@
    || s == "ie"@
}

fn is_introduction_marker_exec(s: &str) -> (r: bool)
    ensures
        r == is_introduction_marker(s@),
{
    str_eq(s, "imt")
    || str_eq(s, "imt1")
    || str_eq(s, "imt2")
    || str_eq(s, "imt3")
    || str_eq(s, "imt4")
    || str_eq(s, "imte")
    || str_eq(s, "imte1")
    || str_eq(s, "imte2")
    || str_eq(s, "is")
    || str_eq(s, "is1")
    || str_eq(s, "is2")
    || str_eq(s, "is3")
    || str_eq(s, "ip")
    || str_eq(s, "ipi")
    || str_eq(s, "im")
    || str_eq(s, "imi")
    || str_eq(s, "ipq")
    || str_eq(s, "imq")
    || str_eq(s, "ipr")
    || str_eq(s, "ib")
    || str_eq(s, "iq")
    || str_eq(s, "iq1")
    || str_eq(s, "iq2")
    || str_eq(s, "iq3")
    || str_eq(s, "iex")
    || str_eq(s, "iot")
    || str_eq(s, "io")
    || str_eq(s, "io1")
    || str_eq(s, "io2")
    || str_eq(s, "io3")
    || str_eq(s, "io4")
    || str_eq(s, "ili")
    || str_eq(s, "ili1")
    || str_eq(s, "ili2")
    || str_eq(s, "ie")
}

/// Whether `s` is a header marker that may follow the body.
pub open spec fn is_body_header_marker(s: Seq<char>) -> bool {
    s == "cl"@
    || s == "cp"@
    || s == "cd"@
}

fn is_body_header_marker_exec(s: &str) -> (r: bool)
    ensures
        r == is_body_header_marker(s@),
{
    str_eq(s, "cl")
    || str_eq(s, "cp")
    || str_eq(s, "cd")
}

/// The spans recorded for one milestone base name.
struct Tally {
    base: String,
    spans: Vec<Span>,
}

spec fn tally_views(ts: Seq<Tally>) -> Seq<(Seq<char>, Seq<Span>)> {
    ts.map_values(|t: Tally| (t.base@, t.spans@))
}

proof fn lemma_tally_index(ts: Seq<(Seq<char>, Seq<Span>)>, base: Seq<char>, i: int)
    requires
        -1 <= i <= ts.len(),
        i < ts.len() ==> i >= 0 && ts[i].0 == base,
        forall|j: int| 0 <= j < i ==> ts[j].0 != base,
        i == ts.len() ==> forall|j: int| 0 <= j < ts.len() ==> ts[j].0 != base,
    ensures
        tally_index(ts, base) == (if i < ts.len() {
            i
        } else {
            -1
        }),
    decreases ts.len(),
{
    if ts.len() > 0 {
        let t = ts.drop_last();
        if i < ts.len() - 1 {
            lemma_tally_index(t, base, i);
        } else {
            lemma_tally_index(t, base, t.len() as int);
        }
    }
}

/// Records `span` under `base`, keeping one entry per base name.
fn tally_push(tallies: &mut Vec<Tally>, base: &[char], span: Span)
    ensures
        tally_views(final(tallies)@) == tally_add(tally_views(old(tallies)@), base@, span),
{
    let ghost old_v = tally_views(tallies@);
    let key = chars_to_string(base);
    let mut i: usize = 0;
    while i < tallies.len()
        invariant
            i <= tallies@.len(),
            tallies@ == old(tallies)@,
            old_v == tally_views(tallies@),
            key@ == base@,
            forall|j: int| 0 <= j < i ==> old_v[j].0 != base@,
        decreases tallies@.len() - i,
    {
        if str_eq(tallies[i].base.as_str(), key.as_str()) {
            proof {
                lemma_tally_index(old_v, base@, i as int);
            }
            let mut t = tallies.remove(i);
            t.spans.push(span);
            tallies.insert(i, t);
            assert(tally_views(tallies@) =~= old_v.update(i as int, (base@, old_v[i as int].1.push(span))));
            return;
        }
        i += 1;
    }
    proof {
        lemma_tally_index(old_v, base@, old_v.len() as int);
    }
    let mut spans = Vec::new();
    spans.push(span);
    assert(spans@ =~= seq![span]);
    tallies.push(Tally { base: key, spans });
    assert(tally_views(tallies@) =~= old_v.push((base@, seq![span])));
}

/// How many spans `tallies` holds under `base`.
fn tally_count(tallies: &Vec<Tally>, base: &str) -> (r: usize)
    ensures
        r == tally_count_of(tally_views(tallies@), base@),
{
    let ghost v = tally_views(tallies@);
    let mut i: usize = 0;
    while i < tallies.len()
        invariant
            i <= tallies@.len(),
            v == tally_views(tallies@),
            forall|j: int| 0 <= j < i ==> v[j].0 != base@,
        decreases tallies@.len() - i,
    {
        if str_eq(tallies[i].base.as_str(), base) {
            proof {
                lemma_tally_index(v, base@, i as int);
            }
            return tallies[i].spans.len();
        }
        i += 1;
    }
    proof {
        lemma_tally_index(v, base@, v.len() as int);
    }
    0
}

struct Validator {
    diagnostics: DiagnosticList,
    expected_chapter: u32,
    seen_chapters: Vec<u32>,
    expected_verse: VersePart,
    saw_book: bool,
    has_chapter: bool,
    body_started: bool,
    milestone_starts: Vec<Tally>,
    milestone_ends: Vec<Tally>,
}

impl Validator {
    spec fn scan(&self) -> ValidationScan {
        ValidationScan {
            diags: diag_views(self.diagnostics@),
            expected_chapter: self.expected_chapter,
            seen_chapters: self.seen_chapters@,
            expected_verse: self.expected_verse,
            saw_book: self.saw_book,
            has_chapter: self.has_chapter,
            body_started: self.body_started,
            starts: tally_views(self.milestone_starts@),
            ends: tally_views(self.milestone_ends@),
        }
    }

    fn new() -> (r: Self)
        ensures
            r.diagnostics@.len() == 0,
            r.scan() == (ValidationScan {
                diags: seq![],
                expected_chapter: 1,
                seen_chapters: seq![],
                expected_verse: VersePart { num: 1, suffix: None },
                saw_book: false,
                has_chapter: false,
                body_started: false,
                starts: seq![],
                ends: seq![],
            }),
    {
        let r = Validator {
            diagnostics: DiagnosticList::new(),
            expected_chapter: 1,
            seen_chapters: Vec::new(),
            expected_verse: VersePart { num: 1, suffix: None },
            saw_book: false,
            has_chapter: false,
            body_started: false,
            milestone_starts: Vec::new(),
            milestone_ends: Vec::new(),
        };
        assert(r.scan().diags =~= seq![]);
        assert(r.scan().seen_chapters =~= seq![]);
        assert(r.scan().starts =~= seq![]);
        assert(r.scan().ends =~= seq![]);
        r
    }

    fn push(&mut self, d: Diagnostic)
        ensures
            final(self).scan() == push_diag(old(self).scan(), diag_view(d)),
            final(self).diagnostics@ == old(self).diagnostics@.push(d),
            final(self).milestone_starts@ == old(self).milestone_starts@,
            final(self).milestone_ends@ == old(self).milestone_ends@,
    {
        self.diagnostics.push(d);
        assert(diag_views(self.diagnostics@) =~= diag_views(old(self).diagnostics@).push(diag_view(d)));
    }

    fn validate(&mut self, doc: &Document, source_map: &SourceMap)
        requires
            old(self).scan() == (ValidationScan {
                diags: seq![],
                expected_chapter: 1,
                seen_chapters: seq![],
                expected_verse: VersePart { num: 1, suffix: None },
                saw_book: false,
                has_chapter: false,
                body_started: false,
                starts: seq![],
                ends: seq![],
            }),
        ensures
            final(self).scan().diags == validation_report(doc.content@, source_map.content@),
    {
        let first_source = if source_map.content.len() > 0 {
            Some(&source_map.content[0])
        } else {
            None
        };
        let ghost first_src: Option<SourceNode> = if source_map.content@.len() > 0 {
            Some(source_map.content@[0])
        } else {
            None
        };
        assert(match first_source {
            Some(s) => Some(*s),
            None => None,
        } == first_src);
        if doc.content.len() > 0 {
            match &doc.content[0] {
                Node::Book { code, .. } => {
                    if !is_valid_book_code_exec(code.as_str()) {
                        self.push(Diagnostic::invalid_book_code(code.as_str(), span_of(first_source)));
                    }
                },
                Node::Text(_) => {
                    self.push(Diagnostic::text_before_id(span_of(first_source)));
                    self.push(Diagnostic::missing_id_marker());
                },
                _ => {
                    self.push(Diagnostic::missing_id_marker());
                },
            }
        } else {
            self.push(Diagnostic::missing_id_marker());
        }
        assert(self.scan().diags =~= head_diags(doc.content@, source_map.content@));
        let ghost start = self.scan();
        let n = if doc.content.len() < source_map.content.len() {
            doc.content.len()
        } else {
            source_map.content.len()
        };
        let mut i: usize = 0;
        proof {
            lemma_root_all_prefix(start, doc.content@, source_map.content@, 0);
        }
        while i < n
            invariant
                i <= n <= doc.content@.len(),
                n <= source_map.content@.len(),
                n == doc.content@.len() || n == source_map.content@.len(),
                self.scan() == root_all(start, doc.content@.subrange(0, i as int), source_map.content@),
            decreases n - i,
        {
            let node = &doc.content[i];
            let source = &source_map.content[i];
            let ghost before = self.scan();
            proof {
                let sub = doc.content@.subrange(0, i + 1);
                assert(sub.drop_last() =~= doc.content@.subrange(0, i as int));
                assert(sub.last() == doc.content@[i as int]);
            }
            match node {
                Node::Book { .. } => {
                    if self.saw_book {
                        self.push(Diagnostic::duplicate_id(span_of(Some(source))));
                    }
                    self.saw_book = true;
                },
                Node::Chapter(_) => {
                    self.body_started = true;
                    self.has_chapter = true;
                    self.expected_verse = VersePart { num: 1, suffix: None };
                    self.handle_chapter_sequence(node, source);
                },
                Node::Para { marker, .. } => {
                    let kind = marker.kind();
                    if kind == MarkerKind::Header && self.body_started && !is_body_header_marker_exec(marker.as_str()) {
                        self.push(Diagnostic::header_after_body(marker.as_str(), span_of(Some(source))));
                    }
                    if !self.has_chapter && kind == MarkerKind::Paragraph && !is_introduction_marker_exec(
                        marker.as_str(),
                    ) {
                        self.push(Diagnostic::body_paragraph_before_chapter(marker.as_str(), span_of(Some(source))));
                    }
                },
                _ => {},
            }
            if !matches!(node, Node::Chapter(_)) {
                self.walk(node, source, false);
            }
            i += 1;
        }
        proof {
            lemma_root_all_prefix(start, doc.content@, source_map.content@, n as int);
        }
        if self.saw_book && !self.has_chapter {
            self.push(Diagnostic::missing_chapter_marker());
        }
        let ghost before_pairs = self.scan();
        self.finish_milestone_pairs();
        assert(self.scan().diags =~= before_pairs.diags + unpaired(before_pairs.starts, before_pairs.ends, "-s"@)
            + unpaired(before_pairs.ends, before_pairs.starts, "-e"@));
    }

    fn handle_chapter_sequence(&mut self, node: &Node, source: &SourceNode)
        ensures
            final(self).scan() == (match *node {
                Node::Chapter(d) => check_chapter(old(self).scan(), d.number@, span_of_source(Some(*source))),
                _ => old(self).scan(),
            }),
    {
        let data = match node {
            Node::Chapter(data) => data,
            _ => return,
        };
        let num = match parse_u32(&str_chars(data.number.as_str())) {
            Some(n) => n,
            None => return,
        };
        let mut seen = false;
        let mut i: usize = 0;
        while i < self.seen_chapters.len()
            invariant
                i <= self.seen_chapters@.len(),
                seen == exists|j: int| 0 <= j < i && self.seen_chapters@[j] == num,
            decreases self.seen_chapters@.len() - i,
        {
            if self.seen_chapters[i] == num {
                seen = true;
            }
            i += 1;
        }
        assert(seen == self.seen_chapters@.contains(num));
        if seen {
            self.push(Diagnostic::duplicate_chapter(num, span_of(Some(source))));
        } else {
            self.seen_chapters.push(num);
        }
        if num != self.expected_chapter {
            let expected = self.expected_chapter;
            self.push(Diagnostic::invalid_chapter_sequence(expected, num, span_of(Some(source))));
        }
        self.expected_chapter = num.wrapping_add(1);
    }

    fn walk(&mut self, node: &Node, source: &SourceNode, inside_note: bool)
        ensures
            final(self).scan() == walk_node(old(self).scan(), *node, *source, inside_note),
        decreases *node, 1int,
    {
        let ghost span = span_of_source(Some(*source));
        match node {
            Node::Verse(data) => {
                let number = str_chars(data.number.as_str());
                match parse_verse_part_chars(&number) {
                    Some(v_start) => {
                        if !is_valid_verse_sequence(self.expected_verse, v_start) {
                            let expected = self.expected_verse.to_display_string();
                            self.push(
                                Diagnostic::invalid_verse_sequence(
                                    expected.as_str(),
                                    data.number.as_str(),
                                    span_of(Some(source)),
                                ),
                            );
                        }
                        let last = match parse_verse_range_end_chars(&number) {
                            Some(v) => v,
                            None => v_start,
                        };
                        self.expected_verse = last.next_expected();
                    },
                    None => {},
                }
            },
            Node::Char(data) => {
                let ghost st0 = self.scan();
                if !inside_note && is_note_only_marker_exec(data.marker.as_str()) {
                    self.push(Diagnostic::note_submarker_outside_note(data.marker.as_str(), span_of(Some(source))));
                }
                if has_verse(&data.content) {
                    self.push(Diagnostic::char_crosses_verse(data.marker.as_str(), span_of(Some(source))));
                }
                let ghost st2 = self.scan();
                let clean_marker = strip_one_plus(data.marker.as_str());
                let required = required_attributes(clean_marker);
                let ghost reqs = required_attrs(clean_marker@);
                let mut k: usize = 0;
                assert(reqs.subrange(0, 0) =~= Seq::<Seq<char>>::empty());
                assert(st2.diags + Seq::<DiagView>::empty() =~= st2.diags);
                while k < required.len()
                    invariant
                        k <= required@.len(),
                        required@.map_values(|s: &str| s@) == reqs,
                        reqs == required_attrs(clean_marker@),
                        self.scan() == with_diags(
                            st2,
                            st2.diags + missing_required(clean_marker@, reqs.subrange(0, k as int), data.attributes@, span),
                        ),
                        span == span_of_source(Some(*source)),
                    decreases required@.len() - k,
                {
                    let req = required[k];
                    assert(req@ == reqs[k as int]);
                    assert(reqs.subrange(0, k + 1).drop_last() =~= reqs.subrange(0, k as int));
                    let ghost pre = self.scan();
                    if !has_attr_key(&data.attributes, req) {
                        self.push(Diagnostic::missing_required_attribute(clean_marker, req, span_of(Some(source))));
                        assert(self.scan().diags =~= st2.diags + missing_required(
                            clean_marker@,
                            reqs.subrange(0, k + 1),
                            data.attributes@,
                            span,
                        ));
                    } else {
                        assert(self.scan().diags =~= st2.diags + missing_required(
                            clean_marker@,
                            reqs.subrange(0, k + 1),
                            data.attributes@,
                            span,
                        ));
                    }
                    k += 1;
                }
                assert(reqs.subrange(0, required@.len() as int) =~= reqs);
                proof {
                    reveal_strlit("default");
                    reveal_strlit("w");
                }
                if has_attr_key(&data.attributes, "default") && default_attribute(clean_marker).is_none() {
                    self.push(Diagnostic::default_attribute_not_defined(clean_marker, span_of(Some(source))));
                }
                if has_blank_value(&data.attributes) {
                    self.push(Diagnostic::malformed_attributes(span_of(Some(source))));
                }
                if str_eq(clean_marker, "w") && data.content.len() == 0 && data.attributes.len() == 0 {
                    self.push(Diagnostic::empty_word_marker(span_of(Some(source))));
                }
                assert(self.scan() == check_char(
                    st0,
                    data.marker@,
                    data.content@,
                    data.attributes@,
                    span,
                    inside_note,
                ));
                assert(decreases_to!(*node => data.content@));
                self.walk_children(&data.content, source, inside_note);
            },
            Node::Note { content, .. } => {
                assert(decreases_to!(*node => content@));
                self.walk_children(content, source, true);
            },
            Node::Figure { content, .. } => {
                if content_is_blank(content) {
                    self.push(Diagnostic::empty_figure(span_of(Some(source))));
                }
                assert(decreases_to!(*node => content@));
                self.walk_children(content, source, inside_note);
            },
            Node::Milestone { marker, .. } => {
                let m = str_chars(marker.as_str());
                match milestone_base_exec(&m) {
                    Some(base) => {
                        let n = m.len();
                        if m[n - 1] == 's' {
                            tally_push(&mut self.milestone_starts, &base, span_of(Some(source)));
                        } else if m[n - 1] == 'e' {
                            tally_push(&mut self.milestone_ends, &base, span_of(Some(source)));
                        }
                    },
                    None => {},
                }
            },
            Node::Para { marker, content } => {
                if *marker == "b" && content.len() > 0 {
                    self.push(Diagnostic::non_empty_blank_line(span_of(Some(source))));
                }
                assert(decreases_to!(*node => content@));
                self.walk_children(content, source, inside_note);
            },
            Node::Table { content } => {
                assert(decreases_to!(*node => content@));
                self.walk_children(content, source, inside_note);
            },
            Node::TableRow { content, .. } => {
                assert(decreases_to!(*node => content@));
                self.walk_children(content, source, inside_note);
                self.validate_table_row(content, source);
            },
            Node::Book { content, .. } | Node::Sidebar { content, .. } | Node::Periph { content, .. }
            | Node::Ref { content, .. } | Node::Unknown { content, .. } => {
                assert(decreases_to!(*node => content@));
                self.walk_children(content, source, inside_note);
            },
            _ => {},
        }
    }

    fn walk_children(&mut self, content: &Vec<Node>, source: &SourceNode, inside_note: bool)
        ensures
            final(self).scan() == walk_all(old(self).scan(), content@, source.children@, inside_note),
        decreases content@, 0int,
    {
        let n = if content.len() < source.children.len() {
            content.len()
        } else {
            source.children.len()
        };
        let ghost st0 = self.scan();
        proof {
            lemma_walk_all_prefix(st0, content@, source.children@, inside_note, 0);
        }
        let mut i: usize = 0;
        while i < n
            invariant
                i <= n <= content@.len(),
                n <= source.children@.len(),
                n == content@.len() || n == source.children@.len(),
                self.scan() == walk_all(st0, content@.subrange(0, i as int), source.children@, inside_note),
            decreases n - i,
        {
            assert(decreases_to!(content@ => content@[i as int]));
            proof {
                let sub = content@.subrange(0, i + 1);
                assert(sub.drop_last() =~= content@.subrange(0, i as int));
            }
            self.walk(&content[i], &source.children[i], inside_note);
            i += 1;
        }
        proof {
            lemma_walk_all_prefix(st0, content@, source.children@, inside_note, n as int);
        }
    }

    fn validate_table_row(&mut self, content: &Vec<Node>, source: &SourceNode)
        ensures
            final(self).scan() == with_diags(
                old(self).scan(),
                row_columns(old(self).scan().diags, 1, content@, source.children@).0,
            ),
    {
        let mut expected: u32 = 1;
        let n = if content.len() < source.children.len() {
            content.len()
        } else {
            source.children.len()
        };
        let ghost st0 = self.scan();
        proof {
            lemma_row_columns_prefix(st0.diags, 1, content@, source.children@, 0);
        }
        let mut i: usize = 0;
        while i < n
            invariant
                i <= n <= content@.len(),
                n <= source.children@.len(),
                n == content@.len() || n == source.children@.len(),
                (self.scan().diags, expected) == row_columns(
                    st0.diags,
                    1,
                    content@.subrange(0, i as int),
                    source.children@,
                ),
                self.scan() == with_diags(st0, self.scan().diags),
            decreases n - i,
        {
            proof {
                let sub = content@.subrange(0, i + 1);
                assert(sub.drop_last() =~= content@.subrange(0, i as int));
            }
            match &content[i] {
                Node::TableCell { marker, .. } => {
                    match parse_table_cell_columns(&marker.to_chars()) {
                        Some((start_col, end_col)) => {
                            if start_col != expected {
                                self.push(
                                    Diagnostic::invalid_table_column_sequence(
                                        expected,
                                        start_col,
                                        span_of(Some(&source.children[i])),
                                    ),
                                );
                            }
                            expected = end_col.wrapping_add(1);
                        },
                        None => {},
                    }
                },
                _ => {},
            }
            i += 1;
        }
        proof {
            lemma_row_columns_prefix(st0.diags, 1, content@, source.children@, n as int);
        }
    }

    /// Milestone starts and ends pair up by base name; the ones left over
    /// on either side are reported.
    fn finish_milestone_pairs(&mut self)
        ensures
            final(self).scan() == with_diags(
                old(self).scan(),
                old(self).scan().diags + unpaired(old(self).scan().starts, old(self).scan().ends, "-s"@)
                    + unpaired(old(self).scan().ends, old(self).scan().starts, "-e"@),
            ),
    {
        self.report_unpaired(true);
        self.report_unpaired(false);
    }

    fn report_unpaired(&mut self, starts: bool)
        ensures
            final(self).scan() == with_diags(
                old(self).scan(),
                old(self).scan().diags + if starts {
                    unpaired(old(self).scan().starts, old(self).scan().ends, "-s"@)
                } else {
                    unpaired(old(self).scan().ends, old(self).scan().starts, "-e"@)
                },
            ),
    {
        let ghost st0 = self.scan();
        let ghost mine_v = if starts { st0.starts } else { st0.ends };
        let ghost theirs_v = if starts { st0.ends } else { st0.starts };
        let ghost sfx = if starts { "-s"@ } else { "-e"@ };
        let len = if starts { self.milestone_starts.len() } else { self.milestone_ends.len() };
        let mut i: usize = 0;
        assert(mine_v.subrange(0, 0) =~= Seq::<(Seq<char>, Seq<Span>)>::empty());
        assert(st0.diags + Seq::<DiagView>::empty() =~= st0.diags);
        while i < len
            invariant
                len == mine_v.len(),
                i <= len,
                mine_v == (if starts { st0.starts } else { st0.ends }),
                theirs_v == (if starts { st0.ends } else { st0.starts }),
                sfx == (if starts { "-s"@ } else { "-e"@ }),
                self.milestone_starts@ == old(self).milestone_starts@,
                self.milestone_ends@ == old(self).milestone_ends@,
                st0 == old(self).scan(),
                self.scan() == with_diags(st0, st0.diags + unpaired(mine_v.subrange(0, i as int), theirs_v, sfx)),
            decreases len - i,
        {
            let (mine, theirs) = if starts {
                (&self.milestone_starts, &self.milestone_ends)
            } else {
                (&self.milestone_ends, &self.milestone_starts)
            };
            let tally = &mine[i];
            assert(mine_v[i as int] == (tally.base@, tally.spans@));
            assert(theirs@ == (if starts { self.milestone_ends@ } else { self.milestone_starts@ }));
            let other = tally_count(theirs, tally.base.as_str());
            let mut name = chars_to_string(&str_chars(tally.base.as_str()));
            proof {
                reveal_strlit("-s");
                reveal_strlit("-e");
            }
            crate::text::push_str(&mut name, if starts { "-s" } else { "-e" });
            assert(name@ == tally.base@ + sfx);
            let ghost spans_v = tally.spans@;
            let ghost base_v = tally.base@;
            let slen = tally.spans.len();
            let mut reports: Vec<Span> = Vec::new();
            if other < slen {
                let mut k = other;
                assert(reports@ =~= spans_v.subrange(other as int, k as int));
                while k < slen
                    invariant
                        other <= k <= slen,
                        slen == spans_v.len(),
                        spans_v == tally.spans@,
                        reports@ =~= spans_v.subrange(other as int, k as int),
                    decreases slen - k,
                {
                    reports.push(tally.spans[k].clone());
                    k += 1;
                }
            }
            let ghost cnt: nat = (if spans_v.len() > other { spans_v.len() - other } else { 0 }) as nat;
            assert(reports@.len() == cnt);
            let ghost before = self.scan().diags;
            let mut j: usize = 0;
            assert(before + Seq::new(0, |q: int| dv(
                Severity::Error,
                DiagnosticCode::MilestoneMismatch,
                "milestone \\"@ + base_v + sfx + " has no matching counterpart"@,
                spans_v[other + q],
            )) =~= before);
            while j < reports.len()
                invariant
                    j <= reports@.len(),
                    reports@.len() == cnt,
                    cnt > 0 ==> other + cnt == spans_v.len(),
                    forall|q: int| 0 <= q < cnt ==> reports@[q] == spans_v[other + q],
                    self.milestone_starts@ == old(self).milestone_starts@,
                    self.milestone_ends@ == old(self).milestone_ends@,
                    self.scan() == with_diags(st0, before + Seq::new(
                        j as nat,
                        |q: int|
                            dv(
                                Severity::Error,
                                DiagnosticCode::MilestoneMismatch,
                                "milestone \\"@ + base_v + sfx + " has no matching counterpart"@,
                                spans_v[other + q],
                            ),
                    )),
                    name@ == base_v + sfx,
                    before == st0.diags + unpaired(mine_v.subrange(0, i as int), theirs_v, sfx),
                    mine_v[i as int] == (base_v, spans_v),
                    other == tally_count_of(theirs_v, base_v),
                decreases reports@.len() - j,
            {
                let ghost prev = self.scan().diags;
                assert(reports@[j as int] == spans_v[other + j]);
                let d = Diagnostic::milestone_mismatch(name.as_str(), reports[j].clone());
                assert(d.message@ =~= "milestone \\"@ + base_v + sfx + " has no matching counterpart"@);
                assert(diag_view(d) == dv(
                    Severity::Error,
                    DiagnosticCode::MilestoneMismatch,
                    "milestone \\"@ + base_v + sfx + " has no matching counterpart"@,
                    spans_v[other + j],
                ));
                self.push(d);
                assert(self.scan().diags =~= before + Seq::new(
                    (j + 1) as nat,
                    |q: int|
                        dv(
                            Severity::Error,
                            DiagnosticCode::MilestoneMismatch,
                            "milestone \\"@ + base_v + sfx + " has no matching counterpart"@,
                            spans_v[other + q],
                        ),
                ));
                j += 1;
            }
            proof {
                let sub = mine_v.subrange(0, i + 1);
                assert(sub.drop_last() =~= mine_v.subrange(0, i as int));
                assert(sub.last() == mine_v[i as int]);
                assert(self.scan().diags =~= st0.diags + unpaired(sub, theirs_v, sfx));
            }
            i += 1;
        }
        assert(mine_v.subrange(0, len as int) =~= mine_v);
    }
}

proof fn lemma_root_all_prefix(st: ValidationScan, ns: Seq<Node>, srcs: Seq<SourceNode>, i: int)
    requires
        0 <= i <= ns.len(),
        i <= srcs.len() || i == ns.len(),
        i == ns.len() || i == srcs.len() || i < (if ns.len() < srcs.len() { ns.len() } else { srcs.len() }),
    ensures
        i == (if ns.len() < srcs.len() { ns.len() } else { srcs.len() }) ==> root_all(st, ns.subrange(0, i), srcs)
            == root_all(st, ns, srcs),
        i == 0 ==> root_all(st, ns.subrange(0, i), srcs) == st,
    decreases ns.len(),
{
    if i == 0 {
        assert(ns.subrange(0, 0).len() == 0);
    }
    if i == (if ns.len() < srcs.len() { ns.len() } else { srcs.len() }) && ns.len() > i {
        lemma_root_all_prefix(st, ns.drop_last(), srcs, i);
        assert(ns.drop_last().subrange(0, i) =~= ns.subrange(0, i));
    }
    if i == ns.len() {
        assert(ns.subrange(0, i) =~= ns);
    }
}

proof fn lemma_walk_all_prefix(st: ValidationScan, ns: Seq<Node>, srcs: Seq<SourceNode>, inside_note: bool, i: int)
    requires
        0 <= i <= ns.len(),
    ensures
        i == (if ns.len() < srcs.len() { ns.len() } else { srcs.len() }) ==> walk_all(st, ns.subrange(0, i), srcs, inside_note)
            == walk_all(st, ns, srcs, inside_note),
        i == 0 ==> walk_all(st, ns.subrange(0, i), srcs, inside_note) == st,
    decreases ns.len(),
{
    if i == (if ns.len() < srcs.len() { ns.len() } else { srcs.len() }) && ns.len() > i {
        lemma_walk_all_prefix(st, ns.drop_last(), srcs, inside_note, i);
        assert(ns.drop_last().subrange(0, i) =~= ns.subrange(0, i));
    }
    if i == ns.len() {
        assert(ns.subrange(0, i) =~= ns);
    }
}

proof fn lemma_row_columns_prefix(diags: Seq<DiagView>, e: u32, ns: Seq<Node>, srcs: Seq<SourceNode>, i: int)
    requires
        0 <= i <= ns.len(),
    ensures
        i == (if ns.len() < srcs.len() { ns.len() } else { srcs.len() }) ==> row_columns(diags, e, ns.subrange(0, i), srcs)
            == row_columns(diags, e, ns, srcs),
        i == 0 ==> row_columns(diags, e, ns.subrange(0, i), srcs) == (diags, e),
    decreases ns.len(),
{
    if i == (if ns.len() < srcs.len() { ns.len() } else { srcs.len() }) && ns.len() > i {
        lemma_row_columns_prefix(diags, e, ns.drop_last(), srcs, i);
        assert(ns.drop_last().subrange(0, i) =~= ns.subrange(0, i));
    }
    if i == ns.len() {
        assert(ns.subrange(0, i) =~= ns);
    }
}

/// `s` without one leading `+`.
fn strip_one_plus(s: &str) -> (r: &str)
    ensures
        r@ == without_plus(s@),
{
    let n = s.unicode_len();
    if n > 0 && s.get_char(0) == '+' {
        s.substring_char(1, n)
    } else {
        s
    }
}

fn has_verse(content: &Vec<Node>) -> (r: bool)
    ensures
        r == has_verse_node(content@),
{
    let mut i: usize = 0;
    while i < content.len()
        invariant
            i <= content@.len(),
            forall|j: int| 0 <= j < i ==> !(content@[j] is Verse),
        decreases content@.len() - i,
    {
        if matches!(content[i], Node::Verse(_)) {
            return true;
        }
        i += 1;
    }
    false
}

fn has_attr_key(attrs: &Vec<Attribute>, key: &str) -> (r: bool)
    ensures
        r == has_key(attrs@, key@),
{
    let mut i: usize = 0;
    while i < attrs.len()
        invariant
            i <= attrs@.len(),
            forall|j: int| 0 <= j < i ==> attrs@[j].key@ != key@,
        decreases attrs@.len() - i,
    {
        if str_eq(attrs[i].key.as_str(), key) {
            return true;
        }
        i += 1;
    }
    false
}

fn is_blank(s: &str) -> (r: bool)
    ensures
        r == (trim(s@).len() == 0),
{
    let v = str_chars(s);
    let a = ws_prefix_len_exec(&v);
    proof {
        lemma_ws_prefix_len_bounds(v@);
        crate::text::lemma_trimmed_end_len_bounds(trim_start(v@));
        if a < v@.len() {
            assert(!is_ws(v@[a as int]));
            assert(trim_start(v@)[0] == v@[a as int]);
        }
    }
    a == v.len()
}

fn has_blank_value(attrs: &Vec<Attribute>) -> (r: bool)
    ensures
        r == has_blank_value_spec(attrs@),
{
    let mut i: usize = 0;
    while i < attrs.len()
        invariant
            i <= attrs@.len(),
            forall|j: int| 0 <= j < i ==> trim(attrs@[j].value@).len() != 0,
        decreases attrs@.len() - i,
    {
        if is_blank(attrs[i].value.as_str()) {
            return true;
        }
        i += 1;
    }
    false
}

fn span_of(source: Option<&SourceNode>) -> (r: Span)
    ensures
        r == span_of_source(match source {
            Some(s) => Some(*s),
            None => None,
        }),
{
    match source {
        Some(s) => match &s.spans {
            Some(spans) => spans.node.clone(),
            None => 0..0,
        },
        None => 0..0,
    }
}

fn content_is_blank(content: &Vec<Node>) -> (r: bool)
    ensures
        r == blank_content(content@),
{
    if content.len() == 0 {
        return true;
    }
    let mut i: usize = 0;
    while i < content.len()
        invariant
            i <= content@.len(),
            forall|j: int| 0 <= j < i ==> (#[trigger] content@[j] is Text && trim(content@[j]->Text_0@).len() == 0),
        decreases content@.len() - i,
    {
        let blank = match &content[i] {
            Node::Text(text) => is_blank(text.as_str()),
            _ => false,
        };
        if !blank {
            return false;
        }
        i += 1;
    }
    true
}

} // verus!
