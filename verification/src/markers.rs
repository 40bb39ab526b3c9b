//! The USFM marker catalogue: classification of marker names.
use vstd::prelude::*;

use crate::text::{
    chars_eq, chars_to_string, ends_with, is_digit, is_digit_exec, is_single, is_suffix, slice_chars,
    str_chars, str_eq, str_to_string,
};

verus! {

/// Classification of USFM markers by structural role.
#[derive(Clone, Copy, PartialEq, Eq, Debug, Hash, Structural)]
pub enum MarkerKind {
    /// \p, \q1, \m, \li1, \b, \nb, \pi1, etc.
    /// Implicitly closed by the next paragraph marker.
    Paragraph,
    /// \f, \x -- footnote / cross-reference.
    /// Explicitly closed by \f*, \x*. Contains sub-markers.
    Note,
    /// \nd, \bk, \add, \it, \bd, \sc, etc.
    /// Explicitly closed by \nd*, \bk*, etc.
    Character,
    /// \id, \usfm, \ide, \h, \toc1, \toc2, \toc3, \mt1, etc.
    /// Header/identification markers.
    Header,
    /// \c -- chapter milestone.
    Chapter,
    /// \v -- verse milestone.
    Verse,
    /// Milestone start markers: \qt1-s, \ts-s, etc.
    MilestoneStart,
    /// Milestone end markers: \qt1-e, \ts-e, etc.
    MilestoneEnd,
    /// \esb -- sidebar opening.
    SidebarStart,
    /// \esbe -- sidebar closing.
    SidebarEnd,
    /// \fig -- figure.
    Figure,
    /// \rem, \sts, \restore -- metadata markers.
    Meta,
    /// \periph -- peripheral content section container.
    Periph,
    /// \tr -- table row.
    /// Implicitly closed by the next \tr or paragraph marker.
    TableRow,
    /// \th1, \tc1, \thr1, \tcr1 -- table cells within \tr rows.
    /// Implicitly closed by the next table cell marker within the same row.
    TableCell,
    /// Anything in the \z namespace or unrecognized.
    Unknown,
}

/// Metadata about a single USFM marker.
#[derive(Clone, Copy, PartialEq, Eq, Debug, Hash, Structural)]
pub struct MarkerInfo {
    /// The structural classification of the marker.
    pub kind: MarkerKind,
    /// Is this marker valid as a sub-marker inside a \f or \x note?
    pub valid_in_note: bool,
}

impl MarkerInfo {
    fn new(kind: MarkerKind) -> (r: Self)
        ensures
            r == (MarkerInfo { kind, valid_in_note: false }),
    {
        MarkerInfo { kind, valid_in_note: false }
    }
}

pub open spec fn info_of(kind: MarkerKind) -> MarkerInfo {
    MarkerInfo { kind, valid_in_note: false }
}

/// Names listed in the marker table as Header markers.
pub open spec fn is_header_name(n: Seq<char>) -> bool {
    n == seq!['i', 'd']
    || n == seq!['u', 's', 'f', 'm']
    || n == seq!['i', 'd', 'e']
    || n == seq!['h']
    || n == seq!['h', '1']
    || n == seq!['h', '2']
    || n == seq!['h', '3']
    || n == seq!['t', 'o', 'c', '1']
    || n == seq!['t', 'o', 'c', '2']
    || n == seq!['t', 'o', 'c', '3']
    || n == seq!['t', 'o', 'c', 'a', '1']
    || n == seq!['t', 'o', 'c', 'a', '2']
    || n == seq!['t', 'o', 'c', 'a', '3']
    || n == seq!['m', 't']
    || n == seq!['m', 't', '1']
    || n == seq!['m', 't', '2']
    || n == seq!['m', 't', '3']
    || n == seq!['m', 't', '4']
    || n == seq!['m', 't', 'e']
    || n == seq!['m', 't', 'e', '1']
    || n == seq!['m', 't', 'e', '2']
    || n == seq!['i', 'm', 't']
    || n == seq!['i', 'm', 't', '1']
    || n == seq!['i', 'm', 't', '2']
    || n == seq!['i', 'm', 't', '3']
    || n == seq!['i', 'm', 't', '4']
    || n == seq!['i', 'm', 't', 'e']
    || n == seq!['i', 'm', 't', 'e', '1']
    || n == seq!['i', 'm', 't', 'e', '2']
    || n == seq!['i', 's']
    || n == seq!['i', 's', '1']
    || n == seq!['i', 's', '2']
    || n == seq!['i', 's', '3']
    || n == seq!['c', 'l']
    || n == seq!['c', 'p']
    || n == seq!['c', 'd']
}

fn is_header_name_exec(n: &[char]) -> (r: bool)
    ensures
        r == is_header_name(n@),
{
    chars_eq(n, &['i', 'd'])
        || chars_eq(n, &['u', 's', 'f', 'm'])
        || chars_eq(n, &['i', 'd', 'e'])
        || is_single(n, 'h')
        || chars_eq(n, &['h', '1'])
        || chars_eq(n, &['h', '2'])
        || chars_eq(n, &['h', '3'])
        || chars_eq(n, &['t', 'o', 'c', '1'])
        || chars_eq(n, &['t', 'o', 'c', '2'])
        || chars_eq(n, &['t', 'o', 'c', '3'])
        || chars_eq(n, &['t', 'o', 'c', 'a', '1'])
        || chars_eq(n, &['t', 'o', 'c', 'a', '2'])
        || chars_eq(n, &['t', 'o', 'c', 'a', '3'])
        || chars_eq(n, &['m', 't'])
        || chars_eq(n, &['m', 't', '1'])
        || chars_eq(n, &['m', 't', '2'])
        || chars_eq(n, &['m', 't', '3'])
        || chars_eq(n, &['m', 't', '4'])
        || chars_eq(n, &['m', 't', 'e'])
        || chars_eq(n, &['m', 't', 'e', '1'])
        || chars_eq(n, &['m', 't', 'e', '2'])
        || chars_eq(n, &['i', 'm', 't'])
        || chars_eq(n, &['i', 'm', 't', '1'])
        || chars_eq(n, &['i', 'm', 't', '2'])
        || chars_eq(n, &['i', 'm', 't', '3'])
        || chars_eq(n, &['i', 'm', 't', '4'])
        || chars_eq(n, &['i', 'm', 't', 'e'])
        || chars_eq(n, &['i', 'm', 't', 'e', '1'])
        || chars_eq(n, &['i', 'm', 't', 'e', '2'])
        || chars_eq(n, &['i', 's'])
        || chars_eq(n, &['i', 's', '1'])
        || chars_eq(n, &['i', 's', '2'])
        || chars_eq(n, &['i', 's', '3'])
        || chars_eq(n, &['c', 'l'])
        || chars_eq(n, &['c', 'p'])
        || chars_eq(n, &['c', 'd'])
}

/// Names listed in the marker table as Paragraph markers.
pub open spec fn is_paragraph_name(n: Seq<char>) -> bool {
    n == seq!['p']
    || n == seq!['m']
    || n == seq!['p', 'o']
    || n == seq!['p', 'r']
    || n == seq!['c', 'l', 's']
    || n == seq!['p', 'm', 'o']
    || n == seq!['p', 'm']
    || n == seq!['p', 'm', 'c']
    || n == seq!['p', 'm', 'r']
    || n == seq!['p', 'i']
    || n == seq!['p', 'i', '1']
    || n == seq!['p', 'i', '2']
    || n == seq!['p', 'i', '3']
    || n == seq!['m', 'i']
    || n == seq!['n', 'b']
    || n == seq!['p', 'c']
    || n == seq!['p', 'h']
    || n == seq!['p', 'h', '1']
    || n == seq!['p', 'h', '2']
    || n == seq!['p', 'h', '3']
    || n == seq!['b']
    || n == seq!['p', 'b']
    || n == seq!['q']
    || n == seq!['q', '1']
    || n == seq!['q', '2']
    || n == seq!['q', '3']
    || n == seq!['q', '4']
    || n == seq!['q', 'r']
    || n == seq!['q', 'c']
    || n == seq!['q', 'a']
    || n == seq!['q', 'm']
    || n == seq!['q', 'm', '1']
    || n == seq!['q', 'm', '2']
    || n == seq!['q', 'm', '3']
    || n == seq!['q', 'd']
    || n == seq!['l', 'h']
    || n == seq!['l', 'i']
    || n == seq!['l', 'i', '1']
    || n == seq!['l', 'i', '2']
    || n == seq!['l', 'i', '3']
    || n == seq!['l', 'i', '4']
    || n == seq!['l', 'f']
    || n == seq!['l', 'i', 'm']
    || n == seq!['l', 'i', 'm', '1']
    || n == seq!['l', 'i', 'm', '2']
    || n == seq!['l', 'i', 'm', '3']
    || n == seq!['m', 's']
    || n == seq!['m', 's', '1']
    || n == seq!['m', 's', '2']
    || n == seq!['m', 's', '3']
    || n == seq!['m', 'r']
    || n == seq!['s']
    || n == seq!['s', '1']
    || n == seq!['s', '2']
    || n == seq!['s', '3']
    || n == seq!['s', '4']
    || n == seq!['s', 'r']
    || n == seq!['r']
    || n == seq!['s', 'p']
    || n == seq!['s', 'd']
    || n == seq!['s', 'd', '1']
    || n == seq!['s', 'd', '2']
    || n == seq!['s', 'd', '3']
    || n == seq!['s', 'd', '4']
    || n == seq!['d']
    || n == seq!['i', 'p']
    || n == seq!['i', 'p', 'i']
    || n == seq!['i', 'm']
    || n == seq!['i', 'm', 'i']
    || n == seq!['i', 'p', 'q']
    || n == seq!['i', 'm', 'q']
    || n == seq!['i', 'p', 'r']
    || n == seq!['i', 'b']
    || n == seq!['i', 'q']
    || n == seq!['i', 'q', '1']
    || n == seq!['i', 'q', '2']
    || n == seq!['i', 'q', '3']
    || n == seq!['i', 'e', 'x']
    || n == seq!['i', 'o', 't']
    || n == seq!['i', 'o']
    || n == seq!['i', 'o', '1']
    || n == seq!['i', 'o', '2']
    || n == seq!['i', 'o', '3']
    || n == seq!['i', 'o', '4']
    || n == seq!['i', 'l', 'i']
    || n == seq!['i', 'l', 'i', '1']
    || n == seq!['i', 'l', 'i', '2']
    || n == seq!['i', 'e']
    || n == seq!['l', 'i', 't']
}

fn is_paragraph_name_exec(n: &[char]) -> (r: bool)
    ensures
        r == is_paragraph_name(n@),
{
    is_single(n, 'p')
        || is_single(n, 'm')
        || chars_eq(n, &['p', 'o'])
        || chars_eq(n, &['p', 'r'])
        || chars_eq(n, &['c', 'l', 's'])
        || chars_eq(n, &['p', 'm', 'o'])
        || chars_eq(n, &['p', 'm'])
        || chars_eq(n, &['p', 'm', 'c'])
        || chars_eq(n, &['p', 'm', 'r'])
        || chars_eq(n, &['p', 'i'])
        || chars_eq(n, &['p', 'i', '1'])
        || chars_eq(n, &['p', 'i', '2'])
        || chars_eq(n, &['p', 'i', '3'])
        || chars_eq(n, &['m', 'i'])
        || chars_eq(n, &['n', 'b'])
        || chars_eq(n, &['p', 'c'])
        || chars_eq(n, &['p', 'h'])
        || chars_eq(n, &['p', 'h', '1'])
        || chars_eq(n, &['p', 'h', '2'])
        || chars_eq(n, &['p', 'h', '3'])
        || is_single(n, 'b')
        || chars_eq(n, &['p', 'b'])
        || is_single(n, 'q')
        || chars_eq(n, &['q', '1'])
        || chars_eq(n, &['q', '2'])
        || chars_eq(n, &['q', '3'])
        || chars_eq(n, &['q', '4'])
        || chars_eq(n, &['q', 'r'])
        || chars_eq(n, &['q', 'c'])
        || chars_eq(n, &['q', 'a'])
        || chars_eq(n, &['q', 'm'])
        || chars_eq(n, &['q', 'm', '1'])
        || chars_eq(n, &['q', 'm', '2'])
        || chars_eq(n, &['q', 'm', '3'])
        || chars_eq(n, &['q', 'd'])
        || chars_eq(n, &['l', 'h'])
        || chars_eq(n, &['l', 'i'])
        || chars_eq(n, &['l', 'i', '1'])
        || chars_eq(n, &['l', 'i', '2'])
        || chars_eq(n, &['l', 'i', '3'])
        || chars_eq(n, &['l', 'i', '4'])
        || chars_eq(n, &['l', 'f'])
        || chars_eq(n, &['l', 'i', 'm'])
        || chars_eq(n, &['l', 'i', 'm', '1'])
        || chars_eq(n, &['l', 'i', 'm', '2'])
        || chars_eq(n, &['l', 'i', 'm', '3'])
        || chars_eq(n, &['m', 's'])
        || chars_eq(n, &['m', 's', '1'])
        || chars_eq(n, &['m', 's', '2'])
        || chars_eq(n, &['m', 's', '3'])
        || chars_eq(n, &['m', 'r'])
        || is_single(n, 's')
        || chars_eq(n, &['s', '1'])
        || chars_eq(n, &['s', '2'])
        || chars_eq(n, &['s', '3'])
        || chars_eq(n, &['s', '4'])
        || chars_eq(n, &['s', 'r'])
        || is_single(n, 'r')
        || chars_eq(n, &['s', 'p'])
        || chars_eq(n, &['s', 'd'])
        || chars_eq(n, &['s', 'd', '1'])
        || chars_eq(n, &['s', 'd', '2'])
        || chars_eq(n, &['s', 'd', '3'])
        || chars_eq(n, &['s', 'd', '4'])
        || is_single(n, 'd')
        || chars_eq(n, &['i', 'p'])
        || chars_eq(n, &['i', 'p', 'i'])
        || chars_eq(n, &['i', 'm'])
        || chars_eq(n, &['i', 'm', 'i'])
        || chars_eq(n, &['i', 'p', 'q'])
        || chars_eq(n, &['i', 'm', 'q'])
        || chars_eq(n, &['i', 'p', 'r'])
        || chars_eq(n, &['i', 'b'])
        || chars_eq(n, &['i', 'q'])
        || chars_eq(n, &['i', 'q', '1'])
        || chars_eq(n, &['i', 'q', '2'])
        || chars_eq(n, &['i', 'q', '3'])
        || chars_eq(n, &['i', 'e', 'x'])
        || chars_eq(n, &['i', 'o', 't'])
        || chars_eq(n, &['i', 'o'])
        || chars_eq(n, &['i', 'o', '1'])
        || chars_eq(n, &['i', 'o', '2'])
        || chars_eq(n, &['i', 'o', '3'])
        || chars_eq(n, &['i', 'o', '4'])
        || chars_eq(n, &['i', 'l', 'i'])
        || chars_eq(n, &['i', 'l', 'i', '1'])
        || chars_eq(n, &['i', 'l', 'i', '2'])
        || chars_eq(n, &['i', 'e'])
        || chars_eq(n, &['l', 'i', 't'])
}

/// Names listed in the marker table as Periph markers.
pub open spec fn is_periph_name(n: Seq<char>) -> bool {
    n == seq!['p', 'e', 'r', 'i', 'p', 'h']
}

fn is_periph_name_exec(n: &[char]) -> (r: bool)
    ensures
        r == is_periph_name(n@),
{
    chars_eq(n, &['p', 'e', 'r', 'i', 'p', 'h'])
}

/// Names listed in the marker table as TableRow markers.
pub open spec fn is_table_row_name(n: Seq<char>) -> bool {
    n == seq!['t', 'r']
}

fn is_table_row_name_exec(n: &[char]) -> (r: bool)
    ensures
        r == is_table_row_name(n@),
{
    chars_eq(n, &['t', 'r'])
}

/// Names listed in the marker table as Note markers.
pub open spec fn is_note_name(n: Seq<char>) -> bool {
    n == seq!['f']
    || n == seq!['f', 'e']
    || n == seq!['x']
    || n == seq!['e', 'f']
    || n == seq!['e', 'x']
    || n == seq!['e', 'f', 'e']
}

fn is_note_name_exec(n: &[char]) -> (r: bool)
    ensures
        r == is_note_name(n@),
{
    is_single(n, 'f')
        || chars_eq(n, &['f', 'e'])
        || is_single(n, 'x')
        || chars_eq(n, &['e', 'f'])
        || chars_eq(n, &['e', 'x'])
        || chars_eq(n, &['e', 'f', 'e'])
}

/// Names listed in the marker table as Character (note sub-marker) markers.
pub open spec fn is_character_note_sub_name(n: Seq<char>) -> bool {
    n == seq!['f', 'r']
    || n == seq!['f', 't']
    || n == seq!['f', 'k']
    || n == seq!['f', 'q']
    || n == seq!['f', 'q', 'a']
    || n == seq!['f', 'l']
    || n == seq!['f', 'w']
    || n == seq!['f', 'p']
    || n == seq!['f', 'v']
    || n == seq!['f', 'd', 'c']
    || n == seq!['x', 'o', 'p']
    || n == seq!['x', 'o', 't']
    || n == seq!['x', 'n', 't']
    || n == seq!['x', 'd', 'c']
    || n == seq!['x', 'o']
    || n == seq!['x', 't']
    || n == seq!['x', 't', 'a']
    || n == seq!['x', 'k']
    || n == seq!['x', 'q']
}

fn is_character_note_sub_name_exec(n: &[char]) -> (r: bool)
    ensures
        r == is_character_note_sub_name(n@),
{
    chars_eq(n, &['f', 'r'])
        || chars_eq(n, &['f', 't'])
        || chars_eq(n, &['f', 'k'])
        || chars_eq(n, &['f', 'q'])
        || chars_eq(n, &['f', 'q', 'a'])
        || chars_eq(n, &['f', 'l'])
        || chars_eq(n, &['f', 'w'])
        || chars_eq(n, &['f', 'p'])
        || chars_eq(n, &['f', 'v'])
        || chars_eq(n, &['f', 'd', 'c'])
        || chars_eq(n, &['x', 'o', 'p'])
        || chars_eq(n, &['x', 'o', 't'])
        || chars_eq(n, &['x', 'n', 't'])
        || chars_eq(n, &['x', 'd', 'c'])
        || chars_eq(n, &['x', 'o'])
        || chars_eq(n, &['x', 't'])
        || chars_eq(n, &['x', 't', 'a'])
        || chars_eq(n, &['x', 'k'])
        || chars_eq(n, &['x', 'q'])
}

/// Names listed in the marker table as Character markers.
pub open spec fn is_character_name(n: Seq<char>) -> bool {
    n == seq!['n', 'd', 'x']
    || n == seq!['a', 'd', 'd']
    || n == seq!['a', 'd', 'd', 'p', 'n']
    || n == seq!['b', 'k']
    || n == seq!['d', 'c']
    || n == seq!['i', 'o', 'r']
    || n == seq!['i', 'q', 't']
    || n == seq!['k']
    || n == seq!['l', 'i', 't', 'l']
    || n == seq!['n', 'd']
    || n == seq!['o', 'r', 'd']
    || n == seq!['p', 'n']
    || n == seq!['p', 'n', 'g']
    || n == seq!['q', 's']
    || n == seq!['q', 't']
    || n == seq!['s', 'i', 'g']
    || n == seq!['s', 'l', 's']
    || n == seq!['t', 'l']
    || n == seq!['w', 'j']
    || n == seq!['e', 'm']
    || n == seq!['b', 'd']
    || n == seq!['b', 'd', 'i', 't']
    || n == seq!['i', 't']
    || n == seq!['n', 'o']
    || n == seq!['s', 'c']
    || n == seq!['s', 'u', 'p']
    || n == seq!['r', 'b']
    || n == seq!['p', 'r', 'o']
    || n == seq!['w']
    || n == seq!['w', 'g']
    || n == seq!['w', 'h']
    || n == seq!['w', 'a']
    || n == seq!['r', 'q']
    || n == seq!['c', 'a']
    || n == seq!['v', 'a']
    || n == seq!['v', 'p']
    || n == seq!['f', 'm']
    || n == seq!['j', 'm', 'p']
    || n == seq!['r', 'e', 'f']
    || n == seq!['q', 'a', 'c']
    || n == seq!['l', 'i', 'k']
    || n == seq!['l', 'i', 'v']
}

fn is_character_name_exec(n: &[char]) -> (r: bool)
    ensures
        r == is_character_name(n@),
{
    chars_eq(n, &['n', 'd', 'x'])
        || chars_eq(n, &['a', 'd', 'd'])
        || chars_eq(n, &['a', 'd', 'd', 'p', 'n'])
        || chars_eq(n, &['b', 'k'])
        || chars_eq(n, &['d', 'c'])
        || chars_eq(n, &['i', 'o', 'r'])
        || chars_eq(n, &['i', 'q', 't'])
        || is_single(n, 'k')
        || chars_eq(n, &['l', 'i', 't', 'l'])
        || chars_eq(n, &['n', 'd'])
        || chars_eq(n, &['o', 'r', 'd'])
        || chars_eq(n, &['p', 'n'])
        || chars_eq(n, &['p', 'n', 'g'])
        || chars_eq(n, &['q', 's'])
        || chars_eq(n, &['q', 't'])
        || chars_eq(n, &['s', 'i', 'g'])
        || chars_eq(n, &['s', 'l', 's'])
        || chars_eq(n, &['t', 'l'])
        || chars_eq(n, &['w', 'j'])
        || chars_eq(n, &['e', 'm'])
        || chars_eq(n, &['b', 'd'])
        || chars_eq(n, &['b', 'd', 'i', 't'])
        || chars_eq(n, &['i', 't'])
        || chars_eq(n, &['n', 'o'])
        || chars_eq(n, &['s', 'c'])
        || chars_eq(n, &['s', 'u', 'p'])
        || chars_eq(n, &['r', 'b'])
        || chars_eq(n, &['p', 'r', 'o'])
        || is_single(n, 'w')
        || chars_eq(n, &['w', 'g'])
        || chars_eq(n, &['w', 'h'])
        || chars_eq(n, &['w', 'a'])
        || chars_eq(n, &['r', 'q'])
        || chars_eq(n, &['c', 'a'])
        || chars_eq(n, &['v', 'a'])
        || chars_eq(n, &['v', 'p'])
        || chars_eq(n, &['f', 'm'])
        || chars_eq(n, &['j', 'm', 'p'])
        || chars_eq(n, &['r', 'e', 'f'])
        || chars_eq(n, &['q', 'a', 'c'])
        || chars_eq(n, &['l', 'i', 'k'])
        || chars_eq(n, &['l', 'i', 'v'])
}

/// Names listed in the marker table as TableCell markers.
pub open spec fn is_table_cell_name(n: Seq<char>) -> bool {
    n == seq!['t', 'h']
    || n == seq!['t', 'h', '1']
    || n == seq!['t', 'h', '2']
    || n == seq!['t', 'h', '3']
    || n == seq!['t', 'c']
    || n == seq!['t', 'c', '1']
    || n == seq!['t', 'c', '2']
    || n == seq!['t', 'c', '3']
    || n == seq!['t', 'h', 'r']
    || n == seq!['t', 'h', 'r', '1']
    || n == seq!['t', 'h', 'r', '2']
    || n == seq!['t', 'h', 'r', '3']
    || n == seq!['t', 'c', 'r']
    || n == seq!['t', 'c', 'r', '1']
    || n == seq!['t', 'c', 'r', '2']
    || n == seq!['t', 'c', 'r', '3']
    || n == seq!['t', 'h', 'c']
    || n == seq!['t', 'h', 'c', '1']
    || n == seq!['t', 'h', 'c', '2']
    || n == seq!['t', 'h', 'c', '3']
    || n == seq!['t', 'c', 'c']
    || n == seq!['t', 'c', 'c', '1']
    || n == seq!['t', 'c', 'c', '2']
    || n == seq!['t', 'c', 'c', '3']
}

fn is_table_cell_name_exec(n: &[char]) -> (r: bool)
    ensures
        r == is_table_cell_name(n@),
{
    chars_eq(n, &['t', 'h'])
        || chars_eq(n, &['t', 'h', '1'])
        || chars_eq(n, &['t', 'h', '2'])
        || chars_eq(n, &['t', 'h', '3'])
        || chars_eq(n, &['t', 'c'])
        || chars_eq(n, &['t', 'c', '1'])
        || chars_eq(n, &['t', 'c', '2'])
        || chars_eq(n, &['t', 'c', '3'])
        || chars_eq(n, &['t', 'h', 'r'])
        || chars_eq(n, &['t', 'h', 'r', '1'])
        || chars_eq(n, &['t', 'h', 'r', '2'])
        || chars_eq(n, &['t', 'h', 'r', '3'])
        || chars_eq(n, &['t', 'c', 'r'])
        || chars_eq(n, &['t', 'c', 'r', '1'])
        || chars_eq(n, &['t', 'c', 'r', '2'])
        || chars_eq(n, &['t', 'c', 'r', '3'])
        || chars_eq(n, &['t', 'h', 'c'])
        || chars_eq(n, &['t', 'h', 'c', '1'])
        || chars_eq(n, &['t', 'h', 'c', '2'])
        || chars_eq(n, &['t', 'h', 'c', '3'])
        || chars_eq(n, &['t', 'c', 'c'])
        || chars_eq(n, &['t', 'c', 'c', '1'])
        || chars_eq(n, &['t', 'c', 'c', '2'])
        || chars_eq(n, &['t', 'c', 'c', '3'])
}

/// Names listed in the marker table as Chapter markers.
pub open spec fn is_chapter_name(n: Seq<char>) -> bool {
    n == seq!['c']
}

fn is_chapter_name_exec(n: &[char]) -> (r: bool)
    ensures
        r == is_chapter_name(n@),
{
    is_single(n, 'c')
}

/// Names listed in the marker table as Verse markers.
pub open spec fn is_verse_name(n: Seq<char>) -> bool {
    n == seq!['v']
}

fn is_verse_name_exec(n: &[char]) -> (r: bool)
    ensures
        r == is_verse_name(n@),
{
    is_single(n, 'v')
}

/// Names listed in the marker table as Figure markers.
pub open spec fn is_figure_name(n: Seq<char>) -> bool {
    n == seq!['f', 'i', 'g']
}

fn is_figure_name_exec(n: &[char]) -> (r: bool)
    ensures
        r == is_figure_name(n@),
{
    chars_eq(n, &['f', 'i', 'g'])
}

/// Names listed in the marker table as SidebarStart markers.
pub open spec fn is_sidebar_start_name(n: Seq<char>) -> bool {
    n == seq!['e', 's', 'b']
}

fn is_sidebar_start_name_exec(n: &[char]) -> (r: bool)
    ensures
        r == is_sidebar_start_name(n@),
{
    chars_eq(n, &['e', 's', 'b'])
}

/// Names listed in the marker table as SidebarEnd markers.
pub open spec fn is_sidebar_end_name(n: Seq<char>) -> bool {
    n == seq!['e', 's', 'b', 'e']
}

fn is_sidebar_end_name_exec(n: &[char]) -> (r: bool)
    ensures
        r == is_sidebar_end_name(n@),
{
    chars_eq(n, &['e', 's', 'b', 'e'])
}

/// Names listed in the marker table as Meta markers.
pub open spec fn is_meta_name(n: Seq<char>) -> bool {
    n == seq!['r', 'e', 'm']
    || n == seq!['s', 't', 's']
    || n == seq!['r', 'e', 's', 't', 'o', 'r', 'e']
    || n == seq!['c', 'a', 't']
}

fn is_meta_name_exec(n: &[char]) -> (r: bool)
    ensures
        r == is_meta_name(n@),
{
    chars_eq(n, &['r', 'e', 'm'])
        || chars_eq(n, &['s', 't', 's'])
        || chars_eq(n, &['r', 'e', 's', 't', 'o', 'r', 'e'])
        || chars_eq(n, &['c', 'a', 't'])
}

/// Names listed in the marker table as MilestoneStart markers.
pub open spec fn is_milestone_start_name(n: Seq<char>) -> bool {
    n == seq!['t', 's']
}

fn is_milestone_start_name_exec(n: &[char]) -> (r: bool)
    ensures
        r == is_milestone_start_name(n@),
{
    chars_eq(n, &['t', 's'])
}

/// The marker table: the classification of every listed marker name.
pub open spec fn marker_table(n: Seq<char>) -> Option<MarkerInfo> {
    if is_header_name(n) {
        Some(MarkerInfo { kind: MarkerKind::Header, valid_in_note: false })
    }     else if is_paragraph_name(n) {
        Some(MarkerInfo { kind: MarkerKind::Paragraph, valid_in_note: false })
    }     else if is_periph_name(n) {
        Some(MarkerInfo { kind: MarkerKind::Periph, valid_in_note: false })
    }     else if is_table_row_name(n) {
        Some(MarkerInfo { kind: MarkerKind::TableRow, valid_in_note: false })
    }     else if is_note_name(n) {
        Some(MarkerInfo { kind: MarkerKind::Note, valid_in_note: false })
    }     else if is_character_note_sub_name(n) {
        Some(MarkerInfo { kind: MarkerKind::Character, valid_in_note: true })
    }     else if is_character_name(n) {
        Some(MarkerInfo { kind: MarkerKind::Character, valid_in_note: false })
    }     else if is_table_cell_name(n) {
        Some(MarkerInfo { kind: MarkerKind::TableCell, valid_in_note: false })
    }     else if is_chapter_name(n) {
        Some(MarkerInfo { kind: MarkerKind::Chapter, valid_in_note: false })
    }     else if is_verse_name(n) {
        Some(MarkerInfo { kind: MarkerKind::Verse, valid_in_note: false })
    }     else if is_figure_name(n) {
        Some(MarkerInfo { kind: MarkerKind::Figure, valid_in_note: false })
    }     else if is_sidebar_start_name(n) {
        Some(MarkerInfo { kind: MarkerKind::SidebarStart, valid_in_note: false })
    }     else if is_sidebar_end_name(n) {
        Some(MarkerInfo { kind: MarkerKind::SidebarEnd, valid_in_note: false })
    }     else if is_meta_name(n) {
        Some(MarkerInfo { kind: MarkerKind::Meta, valid_in_note: false })
    }     else if is_milestone_start_name(n) {
        Some(MarkerInfo { kind: MarkerKind::MilestoneStart, valid_in_note: false })
    } else {
        None
    }
}

fn marker_table_exec(n: &[char]) -> (r: Option<MarkerInfo>)
    ensures
        r == marker_table(n@),
{
    if is_header_name_exec(n) {
        Some(MarkerInfo { kind: MarkerKind::Header, valid_in_note: false })
    }     else if is_paragraph_name_exec(n) {
        Some(MarkerInfo { kind: MarkerKind::Paragraph, valid_in_note: false })
    }     else if is_periph_name_exec(n) {
        Some(MarkerInfo { kind: MarkerKind::Periph, valid_in_note: false })
    }     else if is_table_row_name_exec(n) {
        Some(MarkerInfo { kind: MarkerKind::TableRow, valid_in_note: false })
    }     else if is_note_name_exec(n) {
        Some(MarkerInfo { kind: MarkerKind::Note, valid_in_note: false })
    }     else if is_character_note_sub_name_exec(n) {
        Some(MarkerInfo { kind: MarkerKind::Character, valid_in_note: true })
    }     else if is_character_name_exec(n) {
        Some(MarkerInfo { kind: MarkerKind::Character, valid_in_note: false })
    }     else if is_table_cell_name_exec(n) {
        Some(MarkerInfo { kind: MarkerKind::TableCell, valid_in_note: false })
    }     else if is_chapter_name_exec(n) {
        Some(MarkerInfo { kind: MarkerKind::Chapter, valid_in_note: false })
    }     else if is_verse_name_exec(n) {
        Some(MarkerInfo { kind: MarkerKind::Verse, valid_in_note: false })
    }     else if is_figure_name_exec(n) {
        Some(MarkerInfo { kind: MarkerKind::Figure, valid_in_note: false })
    }     else if is_sidebar_start_name_exec(n) {
        Some(MarkerInfo { kind: MarkerKind::SidebarStart, valid_in_note: false })
    }     else if is_sidebar_end_name_exec(n) {
        Some(MarkerInfo { kind: MarkerKind::SidebarEnd, valid_in_note: false })
    }     else if is_meta_name_exec(n) {
        Some(MarkerInfo { kind: MarkerKind::Meta, valid_in_note: false })
    }     else if is_milestone_start_name_exec(n) {
        Some(MarkerInfo { kind: MarkerKind::MilestoneStart, valid_in_note: false })
    } else {
        None
    }
}


pub open spec fn default_attr(m: Seq<char>) -> Option<Seq<char>> {
    if m == seq!['w'] {
        Some(seq!['l', 'e', 'm', 'm', 'a'])
    }     else if m == seq!['r', 'b'] {
        Some(seq!['g', 'l', 'o', 's', 's'])
    }     else if m == seq!['j', 'm', 'p'] {
        Some(seq!['l', 'i', 'n', 'k', '-', 'h', 'r', 'e', 'f'])
    }     else if m == seq!['x', 't'] {
        Some(seq!['l', 'i', 'n', 'k', '-', 'h', 'r', 'e', 'f'])
    }     else if m == seq!['r', 'e', 'f'] {
        Some(seq!['l', 'o', 'c'])
    }     else if m == seq!['f', 'i', 'g'] {
        Some(seq!['s', 'r', 'c'])
    } else {
        match milestone_base(m) {
            Some(b) => if strip_trailing_digits(b) == seq!['q', 't'] {
                Some(seq!['w', 'h', 'o'])
            } else {
                None
            },
            None => None,
        }
    }
}

/// Index of the last `-` in `n`, or -1.
pub open spec fn last_dash(n: Seq<char>) -> int
    decreases n.len(),
{
    if n.len() == 0 {
        -1
    } else if n.last() == '-' {
        n.len() - 1
    } else {
        last_dash(n.drop_last())
    }
}

pub open spec fn all_digits(s: Seq<char>) -> bool {
    forall|i: int| 0 <= i < s.len() ==> is_digit(#[trigger] s[i])
}

/// Drops a column-spanning suffix such as the `-2` of `tcr1-2`.
pub open spec fn strip_column_span(n: Seq<char>) -> Seq<char> {
    let d = last_dash(n);
    if d >= 0 && d + 1 < n.len() && all_digits(n.subrange(d + 1, n.len() as int)) {
        n.subrange(0, d)
    } else {
        n
    }
}

/// Start index of the run of digits that ends `s`.
pub open spec fn trailing_digits_start(s: Seq<char>) -> int
    decreases s.len(),
{
    if s.len() > 0 && is_digit(s.last()) {
        trailing_digits_start(s.drop_last())
    } else {
        s.len() as int
    }
}

/// `s` without its trailing digits.
pub open spec fn strip_trailing_digits(s: Seq<char>) -> Seq<char> {
    s.subrange(0, trailing_digits_start(s))
}

/// The base name of a numbered marker variant (`tcr1-2` and `tcr12` give `tcr`).
pub open spec fn numbered_base(n: Seq<char>) -> Seq<char> {
    strip_trailing_digits(strip_column_span(n))
}

pub open spec fn milestone_start_suffix() -> Seq<char> {
    seq!['-', 's']
}

pub open spec fn milestone_end_suffix() -> Seq<char> {
    seq!['-', 'e']
}

/// The classification of a marker name, as `lookup_marker` computes it.
pub open spec fn marker_info(n: Seq<char>) -> MarkerInfo
    decreases n.len(),
{
    if n.len() > 0 && n[0] == 'z' {
        info_of(MarkerKind::Unknown)
    } else if is_suffix(milestone_start_suffix(), n) {
        info_of(MarkerKind::MilestoneStart)
    } else if is_suffix(milestone_end_suffix(), n) {
        info_of(MarkerKind::MilestoneEnd)
    } else if marker_table(n) is Some {
        marker_table(n).unwrap()
    } else {
        let base = numbered_base(n);
        if 0 < base.len() < n.len() && marker_info(base).kind != MarkerKind::Unknown {
            marker_info(base)
        } else {
            info_of(MarkerKind::Unknown)
        }
    }
}

pub proof fn lemma_trailing_digits_start_bounds(s: Seq<char>)
    ensures
        0 <= trailing_digits_start(s) <= s.len(),
        forall|i: int| trailing_digits_start(s) <= i < s.len() ==> is_digit(#[trigger] s[i]),
    decreases s.len(),
{
    if s.len() > 0 && is_digit(s.last()) {
        let t = s.drop_last();
        lemma_trailing_digits_start_bounds(t);
        assert forall|i: int| trailing_digits_start(s) <= i < s.len() implies is_digit(
            #[trigger] s[i],
        ) by {
            if i < s.len() - 1 {
                assert(s[i] == t[i]);
            }
        }
    }
}

pub proof fn lemma_last_dash_bounds(n: Seq<char>)
    ensures
        -1 <= last_dash(n) < n.len(),
        last_dash(n) >= 0 ==> n[last_dash(n)] == '-',
    decreases n.len(),
{
    if n.len() > 0 && n.last() != '-' {
        lemma_last_dash_bounds(n.drop_last());
    }
}

fn last_dash_exec(n: &[char]) -> (r: Option<usize>)
    ensures
        r matches Some(d) ==> last_dash(n@) == d as int,
        r is None ==> last_dash(n@) == -1,
{
    let mut i = n.len();
    assert(n@.subrange(0, n@.len() as int) =~= n@);
    while i > 0
        invariant
            i <= n@.len(),
            last_dash(n@) == last_dash(n@.subrange(0, i as int)),
        decreases i,
    {
        assert(n@.subrange(0, i as int).drop_last() =~= n@.subrange(0, i as int - 1));
        if n[i - 1] == '-' {
            return Some(i - 1);
        }
        i -= 1;
    }
    None
}

fn all_digits_exec(s: &[char], from: usize) -> (r: bool)
    requires
        from <= s@.len(),
    ensures
        r == all_digits(s@.subrange(from as int, s@.len() as int)),
{
    let mut i = from;
    while i < s.len()
        invariant
            from <= i <= s@.len(),
            forall|k: int| from <= k < i ==> is_digit(#[trigger] s@[k]),
        decreases s@.len() - i,
    {
        if !is_digit_exec(s[i]) {
            assert(s@.subrange(from as int, s@.len() as int)[i - from] == s@[i as int]);
            return false;
        }
        i += 1;
    }
    assert forall|k: int| 0 <= k < s@.len() - from implies is_digit(
        #[trigger] s@.subrange(from as int, s@.len() as int)[k],
    ) by {
        assert(s@.subrange(from as int, s@.len() as int)[k] == s@[from + k]);
    }
    true
}

fn trailing_digits_start_exec(s: &[char], len: usize) -> (r: usize)
    requires
        len <= s@.len(),
    ensures
        r == trailing_digits_start(s@.subrange(0, len as int)),
{
    let mut i = len;
    while i > 0 && is_digit_exec(s[i - 1])
        invariant
            i <= len <= s@.len(),
            trailing_digits_start(s@.subrange(0, len as int)) == trailing_digits_start(
                s@.subrange(0, i as int),
            ),
        decreases i,
    {
        assert(s@.subrange(0, i as int).drop_last() =~= s@.subrange(0, i as int - 1));
        i -= 1;
    }
    i
}

/// The base name of a numbered marker variant.
pub(crate) fn numbered_base_exec(n: &[char]) -> (r: Vec<char>)
    ensures
        r@ == numbered_base(n@),
{
    proof {
        lemma_last_dash_bounds(n@);
    }
    let without_span_len = match last_dash_exec(n) {
        Some(d) => {
            let len = n.len();
            if d + 1 < len && all_digits_exec(n, d + 1) {
                d
            } else {
                n.len()
            }
        },
        None => n.len(),
    };
    proof {
        assert(strip_column_span(n@) =~= n@.subrange(0, without_span_len as int));
    }
    let end = trailing_digits_start_exec(n, without_span_len);
    proof {
        lemma_trailing_digits_start_bounds(n@.subrange(0, without_span_len as int));
        assert(numbered_base(n@) =~= n@.subrange(0, end as int));
    }
    slice_chars(n, 0, end)
}

/// Looks up the classification of a marker name given as chars.
pub fn lookup_marker_chars(name: &[char]) -> (r: MarkerInfo)
    ensures
        r == marker_info(name@),
    decreases name@.len(),
{
    if name.len() > 0 && name[0] == 'z' {
        return MarkerInfo::new(MarkerKind::Unknown);
    }
    if ends_with(name, &['-', 's']) {
        return MarkerInfo::new(MarkerKind::MilestoneStart);
    }
    if ends_with(name, &['-', 'e']) {
        return MarkerInfo::new(MarkerKind::MilestoneEnd);
    }
    match marker_table_exec(name) {
        Some(info) => info,
        None => {
            let base = numbered_base_exec(name);
            if 0 < base.len() && base.len() < name.len() {
                let base_info = lookup_marker_chars(&base);
                if base_info.kind != MarkerKind::Unknown {
                    return base_info;
                }
            }
            MarkerInfo::new(MarkerKind::Unknown)
        },
    }
}

/// Look up the metadata for a USFM marker by name.
///
/// The `name` parameter is the marker WITHOUT the leading backslash
/// (e.g., `"p"`, `"nd"`, `"mt1"`, `"fr"`).
///
/// Returns a [`MarkerInfo`] describing the marker's kind and whether it is
/// valid inside a note span.
pub fn lookup_marker(name: &str) -> (r: MarkerInfo)
    ensures
        r == marker_info(name@),
{
    let chars = str_chars(name);
    lookup_marker_chars(&chars)
}

/// The view of an optional string slice.
pub open spec fn opt_str_view(o: Option<&str>) -> Option<Seq<char>> {
    match o {
        Some(s) => Some(s@),
        None => None,
    }
}

/// Milestone base of a marker: the name without its `-s` or `-e` suffix.
pub open spec fn milestone_base(m: Seq<char>) -> Option<Seq<char>> {
    if is_suffix(milestone_start_suffix(), m) || is_suffix(milestone_end_suffix(), m) {
        Some(m.subrange(0, m.len() - 2))
    } else {
        None
    }
}

pub(crate) fn milestone_base_exec(m: &[char]) -> (r: Option<Vec<char>>)
    ensures
        match (r, milestone_base(m@)) {
            (Some(a), Some(b)) => a@ == b,
            (None, None) => true,
            _ => false,
        },
{
    if ends_with(m, &['-', 's']) || ends_with(m, &['-', 'e']) {
        Some(slice_chars(m, 0, m.len() - 2))
    } else {
        None
    }
}

pub fn default_attribute_chars(marker: &[char]) -> (r: Option<&'static str>)
    ensures
        opt_str_view(r) == default_attr(marker@),
{
    if is_single(marker, 'w') {
        proof {
            reveal_strlit("lemma");
        }
        let r = "lemma";
        assert(r@ =~= seq!['l', 'e', 'm', 'm', 'a']);
        return Some(r);
    }
    if chars_eq(marker, &['r', 'b']) {
        proof {
            reveal_strlit("gloss");
        }
        let r = "gloss";
        assert(r@ =~= seq!['g', 'l', 'o', 's', 's']);
        return Some(r);
    }
    if chars_eq(marker, &['j', 'm', 'p']) {
        proof {
            reveal_strlit("link-href");
        }
        let r = "link-href";
        assert(r@ =~= seq!['l', 'i', 'n', 'k', '-', 'h', 'r', 'e', 'f']);
        return Some(r);
    }
    if chars_eq(marker, &['x', 't']) {
        proof {
            reveal_strlit("link-href");
        }
        let r = "link-href";
        assert(r@ =~= seq!['l', 'i', 'n', 'k', '-', 'h', 'r', 'e', 'f']);
        return Some(r);
    }
    if chars_eq(marker, &['r', 'e', 'f']) {
        proof {
            reveal_strlit("loc");
        }
        let r = "loc";
        assert(r@ =~= seq!['l', 'o', 'c']);
        return Some(r);
    }
    if chars_eq(marker, &['f', 'i', 'g']) {
        proof {
            reveal_strlit("src");
        }
        let r = "src";
        assert(r@ =~= seq!['s', 'r', 'c']);
        return Some(r);
    }
    match milestone_base_exec(marker) {
        Some(b) => {
            let end = trailing_digits_start_exec(&b, b.len());
            proof {
                assert(b@.subrange(0, b@.len() as int) =~= b@);
                lemma_trailing_digits_start_bounds(b@);
            }
            let stripped = slice_chars(&b, 0, end);
            assert(b@.subrange(0, b@.len() as int) =~= b@);
            if chars_eq(&stripped, &['q', 't']) {
                proof {
                    reveal_strlit("who");
                }
                let r = "who";
                assert(r@ =~= seq!['w', 'h', 'o']);
                Some(r)
            } else {
                None
            }
        },
        None => None,
    }
}

/// Return the default attribute key for a marker, if any.
///
/// When the USFM pipe syntax uses a bare value (e.g. `\w word|grace\w*`),
/// this value is treated as the marker's default attribute. For example,
/// `\w` uses `"lemma"`, so `|grace` becomes `lemma="grace"`.
pub fn default_attribute(marker: &str) -> (r: Option<&'static str>)
    ensures
        opt_str_view(r) == default_attr(marker@),
{
    let chars = str_chars(marker);
    default_attribute_chars(&chars)
}

/// The required attribute names of a marker: `\rb` requires `gloss`.
pub open spec fn required_attrs(m: Seq<char>) -> Seq<Seq<char>> {
    if m == seq!['r', 'b'] {
        seq![seq!['g', 'l', 'o', 's', 's']]
    } else {
        seq![]
    }
}

pub fn required_attributes_chars(marker: &[char]) -> (r: &'static [&'static str])
    ensures
        r@.map_values(|s: &str| s@) == required_attrs(marker@),
{
    if chars_eq(marker, &['r', 'b']) {
        proof {
            reveal_strlit("gloss");
        }
        let r: &'static [&'static str] = &["gloss"];
        assert(r@.len() == 1);
        assert(r@[0] == "gloss");
        assert("gloss"@ =~= seq!['g', 'l', 'o', 's', 's']);
        assert(r@.map_values(|s: &str| s@) =~= required_attrs(marker@));
        r
    } else {
        let r: &'static [&'static str] = &[];
        assert(r@.map_values(|s: &str| s@) =~= required_attrs(marker@));
        r
    }
}

/// Returns the list of required attribute names for a given marker.
///
/// Most markers have no required attributes; `\rb` requires `"gloss"`.
pub fn required_attributes(marker: &str) -> (r: &'static [&'static str])
    ensures
        r@.map_values(|s: &str| s@) == required_attrs(marker@),
{
    let chars = str_chars(marker);
    required_attributes_chars(&chars)
}

/// The interned classification of a known marker name.
pub open spec fn known_marker_info(n: Seq<char>) -> Option<MarkerInfo> {
    marker_table(n)
}

fn lookup_known_marker_exact_info(name: &[char]) -> (r: Option<MarkerInfo>)
    ensures
        r == known_marker_info(name@),
{
    marker_table_exec(name)
}

/// Table names hold no `z` prefix and no milestone suffix, so the full lookup
/// agrees with the table on them.
pub proof fn lemma_known_marker_lookup(n: Seq<char>)
    requires
        marker_table(n) is Some,
    ensures
        marker_info(n) == marker_table(n).unwrap(),
{
    assert(!(n.len() > 0 && n[0] == 'z'));
    assert(!is_suffix(milestone_start_suffix(), n));
    assert(!is_suffix(milestone_end_suffix(), n));
}

/// An interned, exact known marker definition.
#[derive(PartialEq, Eq, Debug, Hash)]
pub struct KnownMarker {
    name: String,
    info: MarkerInfo,
}

impl View for KnownMarker {
    type V = Seq<char>;

    closed spec fn view(&self) -> Seq<char> {
        self.name@
    }
}

impl Clone for KnownMarker {
    fn clone(&self) -> (r: Self)
        ensures
            r == *self,
    {
        proof {
            use_type_invariant(self);
        }
        KnownMarker { name: self.name.clone(), info: self.info }
    }
}

impl KnownMarker {
    #[verifier::type_invariant]
    closed spec fn wf(self) -> bool {
        known_marker_info(self.name@) == Some(self.info)
    }

    pub fn as_str(&self) -> (r: &str)
        ensures
            r@ == self@,
    {
        self.name.as_str()
    }

    pub fn kind(&self) -> (r: MarkerKind)
        ensures
            r == marker_info(self@).kind,
    {
        proof {
            use_type_invariant(self);
            lemma_known_marker_lookup(self@);
        }
        self.info.kind
    }

    pub fn valid_in_note(&self) -> (r: bool)
        ensures
            r == marker_info(self@).valid_in_note,
    {
        proof {
            use_type_invariant(self);
            lemma_known_marker_lookup(self@);
        }
        self.info.valid_in_note
    }

    pub fn info(&self) -> (r: MarkerInfo)
        ensures
            known_marker_info(self@) == Some(r),
            r == marker_info(self@),
    {
        proof {
            use_type_invariant(self);
            lemma_known_marker_lookup(self@);
        }
        self.info
    }
}

/// Marker names stored in hot-path CST/AST nodes.
#[derive(PartialEq, Eq, Debug, Hash)]
pub enum MarkerName {
    Known(KnownMarker),
    Custom(String),
}

impl Clone for MarkerName {
    fn clone(&self) -> (r: Self)
        ensures
            r == *self,
    {
        match self {
            MarkerName::Known(k) => MarkerName::Known(k.clone()),
            MarkerName::Custom(s) => MarkerName::Custom(s.clone()),
        }
    }
}

impl View for MarkerName {
    type V = Seq<char>;

    open spec fn view(&self) -> Seq<char> {
        match self {
            MarkerName::Known(k) => k@,
            MarkerName::Custom(s) => s@,
        }
    }
}

impl MarkerName {
    /// Interns a marker name given as chars.
    pub fn from_chars(name: &[char]) -> (r: Self)
        ensures
            r@ == name@,
            r is Known <==> known_marker_info(name@) is Some,
    {
        let s = chars_to_string(name);
        match lookup_known_marker_exact_info(name) {
            Some(info) => MarkerName::Known(KnownMarker { name: s, info }),
            None => MarkerName::Custom(s),
        }
    }

    pub fn parse(name: &str) -> (r: Self)
        ensures
            r@ == name@,
            r is Known <==> known_marker_info(name@) is Some,
    {
        let chars = str_chars(name);
        let s = str_to_string(name);
        match lookup_known_marker_exact_info(&chars) {
            Some(info) => MarkerName::Known(KnownMarker { name: s, info }),
            None => MarkerName::Custom(s),
        }
    }

    pub fn as_str(&self) -> (r: &str)
        ensures
            r@ == self@,
    {
        match self {
            MarkerName::Known(marker) => marker.as_str(),
            MarkerName::Custom(marker) => marker.as_str(),
        }
    }

    /// The chars of the name.
    pub fn to_chars(&self) -> (r: Vec<char>)
        ensures
            r@ == self@,
    {
        str_chars(self.as_str())
    }

    pub fn kind(&self) -> (r: MarkerKind)
        ensures
            r == marker_info(self@).kind,
    {
        match self {
            MarkerName::Known(marker) => marker.kind(),
            MarkerName::Custom(marker) => lookup_marker(marker.as_str()).kind,
        }
    }

    pub fn valid_in_note(&self) -> (r: bool)
        ensures
            r == marker_info(self@).valid_in_note,
    {
        match self {
            MarkerName::Known(marker) => marker.valid_in_note(),
            MarkerName::Custom(marker) => lookup_marker(marker.as_str()).valid_in_note,
        }
    }

    pub fn default_attribute(&self) -> (r: Option<&'static str>)
        ensures
            opt_str_view(r) == default_attr(self@),
    {
        default_attribute(self.as_str())
    }

    pub fn required_attributes(&self) -> (r: &'static [&'static str])
        ensures
            r@.map_values(|s: &str| s@) == required_attrs(self@),
    {
        required_attributes(self.as_str())
    }

    /// Whether the name equals `lit`.
    pub fn is(&self, lit: &[char]) -> (r: bool)
        ensures
            r == (self@ == lit@),
    {
        let c = self.to_chars();
        chars_eq(&c, lit)
    }
}

impl core::ops::Deref for MarkerName {
    type Target = str;

    fn deref(&self) -> (r: &str) {
        self.as_str()
    }
}

impl AsRef<str> for MarkerName {
    fn as_ref(&self) -> (r: &str) {
        self.as_str()
    }
}

impl From<&str> for MarkerName {
    fn from(value: &str) -> (r: Self)
        ensures
            r@ == value@,
            r is Known <==> known_marker_info(value@) is Some,
    {
        Self::parse(value)
    }
}

impl From<String> for MarkerName {
    fn from(value: String) -> (r: Self)
        ensures
            r@ == value@,
            r is Known <==> known_marker_info(value@) is Some,
    {
        Self::parse(value.as_str())
    }
}

impl vstd::std_specs::convert::FromSpecImpl<String> for MarkerName {
    open spec fn obeys_from_spec() -> bool {
        false
    }

    open spec fn from_spec(v: String) -> Self {
        arbitrary()
    }
}

impl vstd::std_specs::convert::FromSpecImpl<&str> for MarkerName {
    open spec fn obeys_from_spec() -> bool {
        false
    }

    open spec fn from_spec(v: &str) -> Self {
        arbitrary()
    }
}

impl PartialEq<str> for MarkerName {
    fn eq(&self, other: &str) -> (r: bool) {
        str_eq(self.as_str(), other)
    }
}

impl vstd::std_specs::cmp::PartialEqSpecImpl<str> for MarkerName {
    open spec fn obeys_eq_spec() -> bool {
        true
    }

    open spec fn eq_spec(&self, other: &str) -> bool {
        self@ == other@
    }
}

impl PartialEq<&str> for MarkerName {
    fn eq(&self, other: &&str) -> (r: bool) {
        str_eq(self.as_str(), *other)
    }
}

impl vstd::std_specs::cmp::PartialEqSpecImpl<&str> for MarkerName {
    open spec fn obeys_eq_spec() -> bool {
        true
    }

    open spec fn eq_spec(&self, other: &&str) -> bool {
        self@ == (*other)@
    }
}

} // verus!
