//! The USFM 3.x tokenizer.
//!
//! Tokens are recognised by longest match; among candidates of the same
//! length the fixed keywords (`\c`, `\v`) win over the generic marker.  Any
//! char that starts no token becomes a one-char text token, so tokenizing
//! never fails and every char of the input belongs to exactly one token.
use vstd::prelude::*;

use crate::diagnostics::Span;
use crate::text::{byte_len, byte_offset, byte_offsets, is_digit, is_digit_exec, is_lower,
    is_lower_exec, str_chars};
use vstd::string::StrSliceExecFns;

verus! {

/// The kind of a token.
#[derive(Clone, Copy, PartialEq, Eq, Debug, Structural)]
pub enum TokenKind {
    Whitespace,
    Chapter,
    Verse,
    Milestone,
    NestedMarker,
    NestedClosingMarker,
    MilestoneEnd,
    ClosingMarker,
    Marker,
    Attributes,
    Text,
    Newline,
}

/// A token located by char indices into the source chars.
#[derive(Clone, Copy, Debug)]
pub struct RawToken {
    pub kind: TokenKind,
    /// Index of the first char of the token.
    pub start: usize,
    /// Index one past the last char of the token.
    pub end: usize,
}

/// USFM 3.x token with the source text it was read from.
#[derive(Debug, Clone, PartialEq)]
pub enum Token<'a> {
    /// Runs of spaces and tabs.
    Whitespace(&'a str),
    /// `\c` -- chapter marker (takes a numeric argument as the next token).
    Chapter,
    /// `\v` -- verse marker (takes a numeric or range argument as the next token).
    Verse,
    /// Milestone markers such as `\qt1-s`, `\qt-e`, `\ts-s`, etc.
    Milestone(&'a str),
    /// `\+marker` -- nested character opening marker.
    NestedMarker(&'a str),
    /// `\+marker*` -- nested character closing marker.
    NestedClosingMarker(&'a str),
    /// `\*` -- milestone attribute block terminator.
    MilestoneEnd,
    /// `\marker*` -- character / note closing marker.
    ClosingMarker(&'a str),
    /// `\marker` -- paragraph or character opening marker; an optional
    /// `-[0-9]+` suffix marks column-spanning table markers like `\tcr1-2`.
    Marker(&'a str),
    /// Attribute block starting with `|`, e.g. `|lemma="grace" strong="H1234"`.
    Attributes(&'a str),
    /// Any run of text that is not a backslash, newline, or pipe.
    Text(&'a str),
    /// A newline (`\n` or `\r\n`).
    Newline,
}

pub open spec fn is_blank(c: char) -> bool {
    c == ' ' || c == '\t'
}

pub open spec fn is_text_char(c: char) -> bool {
    c != '\\' && c != '\r' && c != '\n' && c != '|'
}

/// Length of the run of lowercase ASCII letters starting at `i`.
pub open spec fn lower_run(s: Seq<char>, i: int) -> nat
    decreases s.len() - i,
{
    if 0 <= i < s.len() && is_lower(s[i]) {
        1 + lower_run(s, i + 1)
    } else {
        0
    }
}

/// Length of the run of ASCII digits starting at `i`.
pub open spec fn digit_run(s: Seq<char>, i: int) -> nat
    decreases s.len() - i,
{
    if 0 <= i < s.len() && is_digit(s[i]) {
        1 + digit_run(s, i + 1)
    } else {
        0
    }
}

/// Length of the run of spaces and tabs starting at `i`.
pub open spec fn blank_run(s: Seq<char>, i: int) -> nat
    decreases s.len() - i,
{
    if 0 <= i < s.len() && is_blank(s[i]) {
        1 + blank_run(s, i + 1)
    } else {
        0
    }
}

/// Length of the run of text chars starting at `i`.
pub open spec fn text_run(s: Seq<char>, i: int) -> nat
    decreases s.len() - i,
{
    if 0 <= i < s.len() && is_text_char(s[i]) {
        1 + text_run(s, i + 1)
    } else {
        0
    }
}

/// Length of an attribute body starting at `i`: chars other than backslash and
/// newline, and escaped quotes `\"`.
pub open spec fn attr_run(s: Seq<char>, i: int) -> nat
    decreases s.len() - i,
{
    if 0 <= i < s.len() && s[i] != '\\' && s[i] != '\n' {
        1 + attr_run(s, i + 1)
    } else if 0 <= i && i + 1 < s.len() && s[i] == '\\' && s[i + 1] == '"' {
        2 + attr_run(s, i + 2)
    } else {
        0
    }
}

/// The token that a backslash at `i` starts, with its length.
pub open spec fn backslash_token(s: Seq<char>, i: int) -> (TokenKind, int) {
    if i + 1 >= s.len() {
        (TokenKind::Text, 1)
    } else if s[i + 1] == '*' {
        (TokenKind::MilestoneEnd, 2)
    } else if s[i + 1] == '+' {
        let l = lower_run(s, i + 2);
        if l == 0 {
            (TokenKind::Text, 1)
        } else {
            let e = i + 2 + l + digit_run(s, i + 2 + l);
            if e < s.len() && s[e] == '*' {
                (TokenKind::NestedClosingMarker, e + 1 - i)
            } else {
                (TokenKind::NestedMarker, e - i)
            }
        }
    } else {
        let l = lower_run(s, i + 1);
        if l == 0 {
            (TokenKind::Text, 1)
        } else {
            let g = digit_run(s, i + 1 + l);
            let e = i + 1 + l + g;
            if e + 1 < s.len() && s[e] == '-' && (s[e + 1] == 's' || s[e + 1] == 'e') {
                (TokenKind::Milestone, e + 2 - i)
            } else {
                let sp: int = if e < s.len() && s[e] == '-' {
                    digit_run(s, e + 1) as int
                } else {
                    0
                };
                let e2 = if sp > 0 {
                    e + 1 + sp
                } else {
                    e
                };
                if e2 < s.len() && s[e2] == '*' {
                    (TokenKind::ClosingMarker, e2 + 1 - i)
                } else if sp == 0 && l == 1 && g == 0 && s[i + 1] == 'c' {
                    (TokenKind::Chapter, 2)
                } else if sp == 0 && l == 1 && g == 0 && s[i + 1] == 'v' {
                    (TokenKind::Verse, 2)
                } else {
                    (TokenKind::Marker, e2 - i)
                }
            }
        }
    }
}

/// The token that starts at index `i` of `s`, with its length in chars.
pub open spec fn next_token(s: Seq<char>, i: int) -> (TokenKind, int) {
    let c = s[i];
    if is_blank(c) {
        (TokenKind::Whitespace, blank_run(s, i) as int)
    } else if c == '\n' {
        (TokenKind::Newline, 1)
    } else if c == '\r' {
        if i + 1 < s.len() && s[i + 1] == '\n' {
            (TokenKind::Newline, 2)
        } else {
            (TokenKind::Text, 1)
        }
    } else if c == '|' {
        let a = attr_run(s, i + 1);
        if a > 0 {
            (TokenKind::Attributes, 1 + a as int)
        } else {
            (TokenKind::Text, 1)
        }
    } else if c == '\\' {
        backslash_token(s, i)
    } else {
        (TokenKind::Text, 1 + text_run(s, i + 1) as int)
    }
}

/// The tokens of `s` from index `i` on, as (kind, start, end) char positions.
pub open spec fn lex_from(s: Seq<char>, i: int) -> Seq<(TokenKind, int, int)>
    decreases s.len() - i,
{
    if i < 0 || i >= s.len() {
        seq![]
    } else {
        let (k, l) = next_token(s, i);
        let step = if l >= 1 {
            l
        } else {
            1
        };
        let next = if i + step <= s.len() {
            i + step
        } else {
            s.len() as int
        };
        seq![(k, i, next)] + lex_from(s, next)
    }
}

/// The tokens of `s`.
pub open spec fn lex(s: Seq<char>) -> Seq<(TokenKind, int, int)> {
    lex_from(s, 0)
}

pub open spec fn raw_view(t: RawToken) -> (TokenKind, int, int) {
    (t.kind, t.start as int, t.end as int)
}

// ---------------------------------------------------------------------------
// Run scanners
// ---------------------------------------------------------------------------

fn lower_run_exec(s: &[char], i: usize) -> (r: usize)
    requires
        i <= s@.len(),
    ensures
        r == lower_run(s@, i as int),
        i + r <= s@.len(),
{
    let mut j = i;
    while j < s.len() && is_lower_exec(s[j])
        invariant
            i <= j <= s@.len(),
            lower_run(s@, i as int) == (j - i) + lower_run(s@, j as int),
        decreases s@.len() - j,
    {
        j += 1;
    }
    j - i
}

fn digit_run_exec(s: &[char], i: usize) -> (r: usize)
    requires
        i <= s@.len(),
    ensures
        r == digit_run(s@, i as int),
        i + r <= s@.len(),
{
    let mut j = i;
    while j < s.len() && is_digit_exec(s[j])
        invariant
            i <= j <= s@.len(),
            digit_run(s@, i as int) == (j - i) + digit_run(s@, j as int),
        decreases s@.len() - j,
    {
        j += 1;
    }
    j - i
}

fn blank_run_exec(s: &[char], i: usize) -> (r: usize)
    requires
        i <= s@.len(),
    ensures
        r == blank_run(s@, i as int),
        i + r <= s@.len(),
{
    let mut j = i;
    while j < s.len() && (s[j] == ' ' || s[j] == '\t')
        invariant
            i <= j <= s@.len(),
            blank_run(s@, i as int) == (j - i) + blank_run(s@, j as int),
        decreases s@.len() - j,
    {
        j += 1;
    }
    j - i
}

fn text_run_exec(s: &[char], i: usize) -> (r: usize)
    requires
        i <= s@.len(),
    ensures
        r == text_run(s@, i as int),
        i + r <= s@.len(),
{
    let mut j = i;
    while j < s.len() && s[j] != '\\' && s[j] != '\r' && s[j] != '\n' && s[j] != '|'
        invariant
            i <= j <= s@.len(),
            text_run(s@, i as int) == (j - i) + text_run(s@, j as int),
        decreases s@.len() - j,
    {
        j += 1;
    }
    j - i
}

fn attr_run_exec(s: &[char], i: usize) -> (r: usize)
    requires
        i <= s@.len(),
    ensures
        r == attr_run(s@, i as int),
        i + r <= s@.len(),
{
    let mut j = i;
    loop
        invariant
            i <= j <= s@.len(),
            attr_run(s@, i as int) == (j - i) + attr_run(s@, j as int),
        decreases s@.len() - j,
    {
        if j < s.len() && s[j] != '\\' && s[j] != '\n' {
            j += 1;
        } else if j < s.len() && s[j] == '\\' && j + 1 < s.len() && s[j + 1] == '"' {
            j += 2;
        } else {
            return j - i;
        }
    }
}

fn backslash_token_exec(s: &[char], i: usize) -> (r: (TokenKind, usize))
    requires
        i < s@.len(),
        s@[i as int] == '\\',
    ensures
        (r.0, r.1 as int) == backslash_token(s@, i as int),
        1 <= r.1,
        i + r.1 <= s@.len(),
{
    let n = s.len();
    if i + 1 >= n {
        return (TokenKind::Text, 1);
    }
    if s[i + 1] == '*' {
        return (TokenKind::MilestoneEnd, 2);
    }
    if s[i + 1] == '+' {
        let l = lower_run_exec(s, i + 2);
        if l == 0 {
            return (TokenKind::Text, 1);
        }
        let e = i + 2 + l + digit_run_exec(s, i + 2 + l);
        if e < n && s[e] == '*' {
            return (TokenKind::NestedClosingMarker, e + 1 - i);
        } else {
            return (TokenKind::NestedMarker, e - i);
        }
    }
    let l = lower_run_exec(s, i + 1);
    if l == 0 {
        return (TokenKind::Text, 1);
    }
    let g = digit_run_exec(s, i + 1 + l);
    let e = i + 1 + l + g;
    if e < n && s[e] == '-' && e + 1 < n && (s[e + 1] == 's' || s[e + 1] == 'e') {
        return (TokenKind::Milestone, e + 2 - i);
    }
    let sp = if e < n && s[e] == '-' {
        digit_run_exec(s, e + 1)
    } else {
        0
    };
    let e2 = if sp > 0 {
        e + 1 + sp
    } else {
        e
    };
    if e2 < n && s[e2] == '*' {
        (TokenKind::ClosingMarker, e2 + 1 - i)
    } else if sp == 0 && l == 1 && g == 0 && s[i + 1] == 'c' {
        (TokenKind::Chapter, 2)
    } else if sp == 0 && l == 1 && g == 0 && s[i + 1] == 'v' {
        (TokenKind::Verse, 2)
    } else {
        (TokenKind::Marker, e2 - i)
    }
}

/// The token that starts at index `i` of `s`, with its length in chars.
pub fn next_token_exec(s: &[char], i: usize) -> (r: (TokenKind, usize))
    requires
        i < s@.len(),
    ensures
        (r.0, r.1 as int) == next_token(s@, i as int),
        1 <= r.1,
        i + r.1 <= s@.len(),
{
    let c = s[i];
    if c == ' ' || c == '\t' {
        let l = blank_run_exec(s, i);
        (TokenKind::Whitespace, l)
    } else if c == '\n' {
        (TokenKind::Newline, 1)
    } else if c == '\r' {
        if i + 1 < s.len() && s[i + 1] == '\n' {
            (TokenKind::Newline, 2)
        } else {
            (TokenKind::Text, 1)
        }
    } else if c == '|' {
        let a = attr_run_exec(s, i + 1);
        if a > 0 {
            (TokenKind::Attributes, 1 + a)
        } else {
            (TokenKind::Text, 1)
        }
    } else if c == '\\' {
        backslash_token_exec(s, i)
    } else {
        let t = text_run_exec(s, i + 1);
        (TokenKind::Text, 1 + t)
    }
}

/// Every token has positive length and stays within `s`.
pub proof fn lemma_next_token_len(s: Seq<char>, i: int)
    requires
        0 <= i < s.len(),
    ensures
        1 <= next_token(s, i).1,
        i + next_token(s, i).1 <= s.len(),
{
    lemma_runs_bounded(s, i);
}

proof fn lemma_runs_bounded(s: Seq<char>, i: int)
    requires
        0 <= i < s.len(),
    ensures
        i + next_token(s, i).1 <= s.len(),
        1 <= next_token(s, i).1,
{
    lemma_lower_run_bound(s, i + 1);
    lemma_lower_run_bound(s, i + 2);
    lemma_blank_run_bound(s, i);
    lemma_text_run_bound(s, i + 1);
    lemma_attr_run_bound(s, i + 1);
    let l1 = lower_run(s, i + 1);
    let l2 = lower_run(s, i + 2);
    lemma_digit_run_bound(s, i + 2 + l2);
    lemma_digit_run_bound(s, i + 1 + l1);
    let e = i + 1 + l1 + digit_run(s, i + 1 + l1);
    lemma_digit_run_bound(s, e + 1);
}

proof fn lemma_lower_run_bound(s: Seq<char>, i: int)
    ensures
        i >= 0 ==> i + lower_run(s, i) <= s.len() || lower_run(s, i) == 0,
        i > s.len() ==> lower_run(s, i) == 0,
    decreases s.len() - i,
{
    if 0 <= i < s.len() && is_lower(s[i]) {
        lemma_lower_run_bound(s, i + 1);
    }
}

proof fn lemma_digit_run_bound(s: Seq<char>, i: int)
    ensures
        i >= 0 ==> i + digit_run(s, i) <= s.len() || digit_run(s, i) == 0,
    decreases s.len() - i,
{
    if 0 <= i < s.len() && is_digit(s[i]) {
        lemma_digit_run_bound(s, i + 1);
    }
}

proof fn lemma_blank_run_bound(s: Seq<char>, i: int)
    ensures
        i >= 0 ==> i + blank_run(s, i) <= s.len() || blank_run(s, i) == 0,
        0 <= i < s.len() && is_blank(s[i]) ==> blank_run(s, i) >= 1,
    decreases s.len() - i,
{
    if 0 <= i < s.len() && is_blank(s[i]) {
        lemma_blank_run_bound(s, i + 1);
    }
}

proof fn lemma_text_run_bound(s: Seq<char>, i: int)
    ensures
        i >= 0 ==> i + text_run(s, i) <= s.len() || text_run(s, i) == 0,
    decreases s.len() - i,
{
    if 0 <= i < s.len() && is_text_char(s[i]) {
        lemma_text_run_bound(s, i + 1);
    }
}

proof fn lemma_attr_run_bound(s: Seq<char>, i: int)
    ensures
        i >= 0 ==> i + attr_run(s, i) <= s.len() || attr_run(s, i) == 0,
    decreases s.len() - i,
{
    if 0 <= i < s.len() && s[i] != '\\' && s[i] != '\n' {
        lemma_attr_run_bound(s, i + 1);
    } else if 0 <= i && i + 1 < s.len() && s[i] == '\\' && s[i + 1] == '"' {
        lemma_attr_run_bound(s, i + 2);
    }
}

/// The tokens of `s` partition it: they are non-empty, contiguous, and
/// together cover every char from `i` to the end.
pub proof fn lemma_lex_partition(s: Seq<char>, i: int)
    requires
        0 <= i <= s.len(),
    ensures
        lex_from(s, i).len() == 0 <==> i == s.len(),
        lex_from(s, i).len() > 0 ==> lex_from(s, i)[0].1 == i,
        lex_from(s, i).len() > 0 ==> lex_from(s, i).last().2 == s.len(),
        forall|k: int|
            0 <= k < lex_from(s, i).len() ==> i <= (#[trigger] lex_from(s, i)[k]).1 < lex_from(
                s,
                i,
            )[k].2 <= s.len(),
        forall|k: int|
            0 <= k < lex_from(s, i).len() - 1 ==> (#[trigger] lex_from(s, i)[k]).2 == lex_from(
                s,
                i,
            )[k + 1].1,
    decreases s.len() - i,
{
    if i < s.len() {
        lemma_next_token_len(s, i);
        let l = next_token(s, i).1;
        lemma_lex_partition(s, i + l);
        let rest = lex_from(s, i + l);
        let t = lex_from(s, i);
        assert(t == seq![(next_token(s, i).0, i, i + l)] + rest);
        assert forall|k: int| 0 <= k < t.len() implies i <= (#[trigger] t[k]).1 < t[k].2 <= s.len() by {
            if k > 0 {
                assert(t[k] == rest[k - 1]);
            }
        }
        assert forall|k: int| 0 <= k < t.len() - 1 implies (#[trigger] t[k]).2 == t[k + 1].1 by {
            if k > 0 {
                assert(t[k] == rest[k - 1]);
                assert(t[k + 1] == rest[k]);
            }
        }
    }
}

/// Tokenizes `s` into char-positioned tokens.
pub fn lex_chars(s: &[char]) -> (r: Vec<RawToken>)
    ensures
        r@.map_values(|t: RawToken| raw_view(t)) == lex(s@),
{
    let mut out: Vec<RawToken> = Vec::new();
    let mut i: usize = 0;
    while i < s.len()
        invariant
            i <= s@.len(),
            out@.map_values(|t: RawToken| raw_view(t)) + lex_from(s@, i as int) == lex(s@),
        decreases s@.len() - i,
    {
        let (kind, len) = next_token_exec(s, i);
        let ghost before = out@.map_values(|t: RawToken| raw_view(t));
        let tok = RawToken { kind, start: i, end: i + len };
        out.push(tok);
        proof {
            assert(lex_from(s@, i as int) == seq![(kind, i as int, (i + len) as int)] + lex_from(
                s@,
                (i + len) as int,
            ));
            assert(out@.map_values(|t: RawToken| raw_view(t)) =~= before.push(raw_view(tok)));
            assert(before + lex_from(s@, i as int) =~= before.push(raw_view(tok)) + lex_from(
                s@,
                (i + len) as int,
            ));
        }
        i = i + len;
    }
    proof {
        assert(lex_from(s@, i as int) =~= Seq::<(TokenKind, int, int)>::empty());
        assert(out@.map_values(|t: RawToken| raw_view(t)) + lex_from(s@, i as int) =~= out@.map_values(
            |t: RawToken| raw_view(t),
        ));
    }
    out
}

/// Whether `tok` is the token `(kind, start, end)` of `source`: same kind and,
/// for tokens that carry text, that text.
pub open spec fn token_matches(tok: Token, t: (TokenKind, int, int), source: Seq<char>) -> bool {
    let text = source.subrange(t.1, t.2);
    match tok {
        Token::Whitespace(x) => t.0 == TokenKind::Whitespace && x@ == text,
        Token::Chapter => t.0 == TokenKind::Chapter,
        Token::Verse => t.0 == TokenKind::Verse,
        Token::Milestone(x) => t.0 == TokenKind::Milestone && x@ == text,
        Token::NestedMarker(x) => t.0 == TokenKind::NestedMarker && x@ == text,
        Token::NestedClosingMarker(x) => t.0 == TokenKind::NestedClosingMarker && x@ == text,
        Token::MilestoneEnd => t.0 == TokenKind::MilestoneEnd,
        Token::ClosingMarker(x) => t.0 == TokenKind::ClosingMarker && x@ == text,
        Token::Marker(x) => t.0 == TokenKind::Marker && x@ == text,
        Token::Attributes(x) => t.0 == TokenKind::Attributes && x@ == text,
        Token::Text(x) => t.0 == TokenKind::Text && x@ == text,
        Token::Newline => t.0 == TokenKind::Newline,
    }
}

fn make_token<'a>(input: &'a str, kind: TokenKind, start: usize, end: usize) -> (r: Token<'a>)
    requires
        start <= end <= input@.len(),
    ensures
        token_matches(r, (kind, start as int, end as int), input@),
{
    match kind {
        TokenKind::Whitespace => Token::Whitespace(input.substring_char(start, end)),
        TokenKind::Chapter => Token::Chapter,
        TokenKind::Verse => Token::Verse,
        TokenKind::Milestone => Token::Milestone(input.substring_char(start, end)),
        TokenKind::NestedMarker => Token::NestedMarker(input.substring_char(start, end)),
        TokenKind::NestedClosingMarker => Token::NestedClosingMarker(
            input.substring_char(start, end),
        ),
        TokenKind::MilestoneEnd => Token::MilestoneEnd,
        TokenKind::ClosingMarker => Token::ClosingMarker(input.substring_char(start, end)),
        TokenKind::Marker => Token::Marker(input.substring_char(start, end)),
        TokenKind::Attributes => Token::Attributes(input.substring_char(start, end)),
        TokenKind::Text => Token::Text(input.substring_char(start, end)),
        TokenKind::Newline => Token::Newline,
    }
}

/// Tokenize a USFM source string.
///
/// Chars that start no token are folded into [`Token::Text`] so that the
/// function never fails: every char of the input belongs to exactly one
/// token, and spans are byte ranges into `input`.
pub fn tokenize(input: &str) -> (r: Vec<(Token<'_>, Span)>)
    requires
        byte_len(input@) <= usize::MAX,
    ensures
        r@.len() == lex(input@).len(),
        forall|k: int|
            0 <= k < r@.len() ==> token_matches(#[trigger] r@[k].0, lex(input@)[k], input@)
                && r@[k].1.start == byte_offset(input@, lex(input@)[k].1) && r@[k].1.end
                == byte_offset(input@, lex(input@)[k].2),
{
    let chars = str_chars(input);
    let raw = lex_chars(&chars);
    let offsets = byte_offsets(&chars);
    proof {
        lemma_lex_partition(chars@, 0);
        assert(forall|k: int| 0 <= k < raw@.len() ==> raw_view(raw@[k]) == #[trigger] lex(chars@)[k]);
    }
    let mut out: Vec<(Token<'_>, Span)> = Vec::new();
    let mut k: usize = 0;
    while k < raw.len()
        invariant
            k <= raw@.len(),
            chars@ == input@,
            raw@.len() == lex(input@).len(),
            offsets@.len() == input@.len() + 1,
            forall|j: int| 0 <= j <= input@.len() ==> offsets@[j] == byte_offset(input@, j),
            forall|j: int| 0 <= j < raw@.len() ==> raw_view(raw@[j]) == #[trigger] lex(input@)[j],
            forall|j: int|
                0 <= j < lex(input@).len() ==> 0 <= (#[trigger] lex(input@)[j]).1 < lex(
                    input@,
                )[j].2 <= input@.len(),
            out@.len() == k,
            forall|j: int|
                0 <= j < k ==> token_matches(#[trigger] out@[j].0, lex(input@)[j], input@)
                    && out@[j].1.start == byte_offset(input@, lex(input@)[j].1) && out@[j].1.end
                    == byte_offset(input@, lex(input@)[j].2),
        decreases raw@.len() - k,
    {
        let t = raw[k];
        assert(raw_view(raw@[k as int]) == lex(input@)[k as int]);
        let tok = make_token(input, t.kind, t.start, t.end);
        let span = offsets[t.start]..offsets[t.end];
        out.push((tok, span));
        k += 1;
    }
    out
}

/// Strip the leading backslash from a marker string.
///
/// ```text
/// \p   -> p
/// \+nd -> +nd
/// \c   -> c
/// ```
///
/// If the input does not start with `\`, the string is returned unchanged.
pub fn strip_marker_backslash(marker: &str) -> (r: &str)
    ensures
        r@ == (if marker@.len() > 0 && marker@[0] == '\\' {
            marker@.drop_first()
        } else {
            marker@
        }),
{
    let n = marker.unicode_len();
    if n > 0 && marker.get_char(0) == '\\' {
        let r = marker.substring_char(1, n);
        assert(r@ =~= marker@.drop_first());
        r
    } else {
        marker
    }
}

/// Strip the leading backslash **and** trailing `*` from a closing marker string.
///
/// ```text
/// \nd*  -> nd
/// \+nd* -> +nd
/// ```
///
/// The function strips a leading `\` and a trailing `*` independently;
/// if either is absent the rest of the transformation still applies.
pub fn strip_closing_star(marker: &str) -> (r: &str)
    ensures
        ({
            let s = if marker@.len() > 0 && marker@[0] == '\\' {
                marker@.drop_first()
            } else {
                marker@
            };
            r@ == (if s.len() > 0 && s.last() == '*' {
                s.drop_last()
            } else {
                s
            })
        }),
{
    let s = strip_marker_backslash(marker);
    let n = s.unicode_len();
    if n > 0 && s.get_char(n - 1) == '*' {
        let r = s.substring_char(0, n - 1);
        assert(r@ =~= s@.drop_last());
        r
    } else {
        s
    }
}

} // verus!
