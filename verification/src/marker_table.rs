//! A flat table classifying USFM markers by structural role, with the
//! default and required attributes of the markers that have them.
use vstd::prelude::*;

use crate::markers::{
    milestone_base, milestone_end_suffix,
    milestone_start_suffix, opt_str_view, strip_trailing_digits, trailing_digits_start,
};
use crate::text::{chars_eq, chars_to_string, ends_with, is_digit_exec, is_suffix, slice_chars, str_chars, str_eq};

verus! {

/// Classification of USFM markers by structural role.
#[derive(Clone, Copy, PartialEq, Eq, Debug, Structural)]
pub enum MarkerKind {
    /// `\p`, `\q1`, `\m`, `\li1`, `\b`, `\nb`, `\pi1`, etc.; implicitly
    /// closed by the next paragraph marker.
    Paragraph,
    /// `\f`, `\x` -- footnote / cross-reference, closed by `\f*`, `\x*`.
    Note,
    /// `\nd`, `\bk`, `\add`, `\it`, `\bd`, `\sc`, etc.
    Character,
    /// `\id`, `\usfm`, `\ide`, `\h`, `\toc1`, `\mt1`, etc.
    Header,
    /// `\c` -- chapter milestone.
    Chapter,
    /// `\v` -- verse milestone.
    Verse,
    /// Milestone start markers: `\qt1-s`, `\ts-s`, etc.
    MilestoneStart,
    /// Milestone end markers: `\qt1-e`, `\ts-e`, etc.
    MilestoneEnd,
    /// `\esb` -- sidebar opening.
    SidebarStart,
    /// `\esbe` -- sidebar closing.
    SidebarEnd,
    /// `\fig` -- figure.
    Figure,
    /// `\rem`, `\sts`, `\restore` -- metadata markers.
    Meta,
    /// `\periph` -- peripheral content section container.
    Periph,
    /// `\tr` -- table row.
    TableRow,
    /// `\th1`, `\tc1`, `\thr1`, `\tcr1` -- table cells within `\tr` rows.
    TableCell,
    /// Anything in the `\z` namespace or unrecognized.
    Unknown,
}

/// Metadata about a single USFM marker.
#[derive(Clone, Copy, PartialEq, Eq, Debug, Structural)]
pub struct MarkerInfo {
    /// The structural classification of the marker.
    pub kind: MarkerKind,
    /// Whether the marker is valid as a sub-marker inside a `\f` or `\x` note.
    pub valid_in_note: bool,
}

impl MarkerInfo {
    fn new(kind: MarkerKind) -> (r: Self)
        ensures
            r == (MarkerInfo { kind, valid_in_note: false }),
    {
        MarkerInfo { kind, valid_in_note: false }
    }
}

pub open spec fn in_group_0(n: Seq<char>) -> bool {
    n == "id"@
        || n == "usfm"@
        || n == "ide"@
        || n == "h"@
        || n == "h1"@
        || n == "h2"@
        || n == "h3"@
        || n == "toc1"@
        || n == "toc2"@
        || n == "toc3"@
        || n == "toca1"@
        || n == "toca2"@
        || n == "toca3"@
        || n == "mt"@
        || n == "mt1"@
        || n == "mt2"@
        || n == "mt3"@
        || n == "mt4"@
        || n == "mte"@
        || n == "mte1"@
        || n == "mte2"@
        || n == "imt"@
        || n == "imt1"@
        || n == "imt2"@
        || n == "imt3"@
        || n == "imt4"@
        || n == "imte"@
        || n == "imte1"@
        || n == "imte2"@
        || n == "is"@
        || n == "is1"@
        || n == "is2"@
        || n == "is3"@
        || n == "cl"@
        || n == "cp"@
        || n == "cd"@
}

fn in_group_0_exec(n: &str) -> (r: bool)
    ensures
        r == in_group_0(n@),
{
    str_eq(n, "id")
        || str_eq(n, "usfm")
        || str_eq(n, "ide")
        || str_eq(n, "h")
        || str_eq(n, "h1")
        || str_eq(n, "h2")
        || str_eq(n, "h3")
        || str_eq(n, "toc1")
        || str_eq(n, "toc2")
        || str_eq(n, "toc3")
        || str_eq(n, "toca1")
        || str_eq(n, "toca2")
        || str_eq(n, "toca3")
        || str_eq(n, "mt")
        || str_eq(n, "mt1")
        || str_eq(n, "mt2")
        || str_eq(n, "mt3")
        || str_eq(n, "mt4")
        || str_eq(n, "mte")
        || str_eq(n, "mte1")
        || str_eq(n, "mte2")
        || str_eq(n, "imt")
        || str_eq(n, "imt1")
        || str_eq(n, "imt2")
        || str_eq(n, "imt3")
        || str_eq(n, "imt4")
        || str_eq(n, "imte")
        || str_eq(n, "imte1")
        || str_eq(n, "imte2")
        || str_eq(n, "is")
        || str_eq(n, "is1")
        || str_eq(n, "is2")
        || str_eq(n, "is3")
        || str_eq(n, "cl")
        || str_eq(n, "cp")
        || str_eq(n, "cd")
}

pub open spec fn in_group_1(n: Seq<char>) -> bool {
    n == "p"@
        || n == "m"@
        || n == "po"@
        || n == "pr"@
        || n == "cls"@
        || n == "pmo"@
        || n == "pm"@
        || n == "pmc"@
        || n == "pmr"@
        || n == "pi"@
        || n == "pi1"@
        || n == "pi2"@
        || n == "pi3"@
        || n == "mi"@
        || n == "nb"@
        || n == "pc"@
        || n == "ph"@
        || n == "ph1"@
        || n == "ph2"@
        || n == "ph3"@
        || n == "b"@
        || n == "pb"@
        || n == "q"@
        || n == "q1"@
        || n == "q2"@
        || n == "q3"@
        || n == "q4"@
        || n == "qr"@
        || n == "qc"@
        || n == "qa"@
        || n == "qm"@
        || n == "qm1"@
        || n == "qm2"@
        || n == "qm3"@
        || n == "qd"@
        || n == "lh"@
        || n == "li"@
        || n == "li1"@
        || n == "li2"@
        || n == "li3"@
        || n == "li4"@
        || n == "lf"@
        || n == "lim"@
        || n == "lim1"@
        || n == "lim2"@
        || n == "lim3"@
        || n == "ms"@
        || n == "ms1"@
        || n == "ms2"@
        || n == "ms3"@
        || n == "mr"@
        || n == "s"@
        || n == "s1"@
        || n == "s2"@
        || n == "s3"@
        || n == "s4"@
        || n == "sr"@
        || n == "r"@
        || n == "sp"@
        || n == "sd"@
        || n == "sd1"@
        || n == "sd2"@
        || n == "sd3"@
        || n == "sd4"@
        || n == "d"@
        || n == "ip"@
        || n == "ipi"@
        || n == "im"@
        || n == "imi"@
        || n == "ipq"@
        || n == "imq"@
        || n == "ipr"@
        || n == "ib"@
        || n == "iq"@
        || n == "iq1"@
        || n == "iq2"@
        || n == "iq3"@
        || n == "iex"@
        || n == "iot"@
        || n == "io"@
        || n == "io1"@
        || n == "io2"@
        || n == "io3"@
        || n == "io4"@
        || n == "ili"@
        || n == "ili1"@
        || n == "ili2"@
        || n == "ie"@
}

fn in_group_1_exec(n: &str) -> (r: bool)
    ensures
        r == in_group_1(n@),
{
    str_eq(n, "p")
        || str_eq(n, "m")
        || str_eq(n, "po")
        || str_eq(n, "pr")
        || str_eq(n, "cls")
        || str_eq(n, "pmo")
        || str_eq(n, "pm")
        || str_eq(n, "pmc")
        || str_eq(n, "pmr")
        || str_eq(n, "pi")
        || str_eq(n, "pi1")
        || str_eq(n, "pi2")
        || str_eq(n, "pi3")
        || str_eq(n, "mi")
        || str_eq(n, "nb")
        || str_eq(n, "pc")
        || str_eq(n, "ph")
        || str_eq(n, "ph1")
        || str_eq(n, "ph2")
        || str_eq(n, "ph3")
        || str_eq(n, "b")
        || str_eq(n, "pb")
        || str_eq(n, "q")
        || str_eq(n, "q1")
        || str_eq(n, "q2")
        || str_eq(n, "q3")
        || str_eq(n, "q4")
        || str_eq(n, "qr")
        || str_eq(n, "qc")
        || str_eq(n, "qa")
        || str_eq(n, "qm")
        || str_eq(n, "qm1")
        || str_eq(n, "qm2")
        || str_eq(n, "qm3")
        || str_eq(n, "qd")
        || str_eq(n, "lh")
        || str_eq(n, "li")
        || str_eq(n, "li1")
        || str_eq(n, "li2")
        || str_eq(n, "li3")
        || str_eq(n, "li4")
        || str_eq(n, "lf")
        || str_eq(n, "lim")
        || str_eq(n, "lim1")
        || str_eq(n, "lim2")
        || str_eq(n, "lim3")
        || str_eq(n, "ms")
        || str_eq(n, "ms1")
        || str_eq(n, "ms2")
        || str_eq(n, "ms3")
        || str_eq(n, "mr")
        || str_eq(n, "s")
        || str_eq(n, "s1")
        || str_eq(n, "s2")
        || str_eq(n, "s3")
        || str_eq(n, "s4")
        || str_eq(n, "sr")
        || str_eq(n, "r")
        || str_eq(n, "sp")
        || str_eq(n, "sd")
        || str_eq(n, "sd1")
        || str_eq(n, "sd2")
        || str_eq(n, "sd3")
        || str_eq(n, "sd4")
        || str_eq(n, "d")
        || str_eq(n, "ip")
        || str_eq(n, "ipi")
        || str_eq(n, "im")
        || str_eq(n, "imi")
        || str_eq(n, "ipq")
        || str_eq(n, "imq")
        || str_eq(n, "ipr")
        || str_eq(n, "ib")
        || str_eq(n, "iq")
        || str_eq(n, "iq1")
        || str_eq(n, "iq2")
        || str_eq(n, "iq3")
        || str_eq(n, "iex")
        || str_eq(n, "iot")
        || str_eq(n, "io")
        || str_eq(n, "io1")
        || str_eq(n, "io2")
        || str_eq(n, "io3")
        || str_eq(n, "io4")
        || str_eq(n, "ili")
        || str_eq(n, "ili1")
        || str_eq(n, "ili2")
        || str_eq(n, "ie")
}

pub open spec fn in_group_2(n: Seq<char>) -> bool {
    n == "periph"@
}

fn in_group_2_exec(n: &str) -> (r: bool)
    ensures
        r == in_group_2(n@),
{
    str_eq(n, "periph")
}

pub open spec fn in_group_3(n: Seq<char>) -> bool {
    n == "tr"@
}

fn in_group_3_exec(n: &str) -> (r: bool)
    ensures
        r == in_group_3(n@),
{
    str_eq(n, "tr")
}

pub open spec fn in_group_4(n: Seq<char>) -> bool {
    n == "f"@
        || n == "fe"@
        || n == "x"@
        || n == "ef"@
        || n == "ex"@
}

fn in_group_4_exec(n: &str) -> (r: bool)
    ensures
        r == in_group_4(n@),
{
    str_eq(n, "f")
        || str_eq(n, "fe")
        || str_eq(n, "x")
        || str_eq(n, "ef")
        || str_eq(n, "ex")
}

pub open spec fn in_group_5(n: Seq<char>) -> bool {
    n == "fr"@
        || n == "ft"@
        || n == "fk"@
        || n == "fq"@
        || n == "fqa"@
        || n == "fl"@
        || n == "fw"@
        || n == "fp"@
        || n == "fv"@
        || n == "fdc"@
        || n == "xop"@
        || n == "xot"@
        || n == "xnt"@
        || n == "xdc"@
        || n == "xo"@
        || n == "xt"@
        || n == "xta"@
        || n == "xk"@
        || n == "xq"@
}

fn in_group_5_exec(n: &str) -> (r: bool)
    ensures
        r == in_group_5(n@),
{
    str_eq(n, "fr")
        || str_eq(n, "ft")
        || str_eq(n, "fk")
        || str_eq(n, "fq")
        || str_eq(n, "fqa")
        || str_eq(n, "fl")
        || str_eq(n, "fw")
        || str_eq(n, "fp")
        || str_eq(n, "fv")
        || str_eq(n, "fdc")
        || str_eq(n, "xop")
        || str_eq(n, "xot")
        || str_eq(n, "xnt")
        || str_eq(n, "xdc")
        || str_eq(n, "xo")
        || str_eq(n, "xt")
        || str_eq(n, "xta")
        || str_eq(n, "xk")
        || str_eq(n, "xq")
}

pub open spec fn in_group_6(n: Seq<char>) -> bool {
    n == "add"@
        || n == "bk"@
        || n == "dc"@
        || n == "ior"@
        || n == "iqt"@
        || n == "k"@
        || n == "litl"@
        || n == "nd"@
        || n == "ord"@
        || n == "pn"@
        || n == "png"@
        || n == "qs"@
        || n == "qt"@
        || n == "sig"@
        || n == "sls"@
        || n == "tl"@
        || n == "wj"@
        || n == "em"@
        || n == "bd"@
        || n == "bdit"@
        || n == "it"@
        || n == "no"@
        || n == "sc"@
        || n == "sup"@
        || n == "rb"@
        || n == "pro"@
        || n == "w"@
        || n == "wg"@
        || n == "wh"@
        || n == "wa"@
        || n == "rq"@
        || n == "ca"@
        || n == "va"@
        || n == "vp"@
        || n == "jmp"@
        || n == "qac"@
        || n == "lik"@
        || n == "liv"@
}

fn in_group_6_exec(n: &str) -> (r: bool)
    ensures
        r == in_group_6(n@),
{
    str_eq(n, "add")
        || str_eq(n, "bk")
        || str_eq(n, "dc")
        || str_eq(n, "ior")
        || str_eq(n, "iqt")
        || str_eq(n, "k")
        || str_eq(n, "litl")
        || str_eq(n, "nd")
        || str_eq(n, "ord")
        || str_eq(n, "pn")
        || str_eq(n, "png")
        || str_eq(n, "qs")
        || str_eq(n, "qt")
        || str_eq(n, "sig")
        || str_eq(n, "sls")
        || str_eq(n, "tl")
        || str_eq(n, "wj")
        || str_eq(n, "em")
        || str_eq(n, "bd")
        || str_eq(n, "bdit")
        || str_eq(n, "it")
        || str_eq(n, "no")
        || str_eq(n, "sc")
        || str_eq(n, "sup")
        || str_eq(n, "rb")
        || str_eq(n, "pro")
        || str_eq(n, "w")
        || str_eq(n, "wg")
        || str_eq(n, "wh")
        || str_eq(n, "wa")
        || str_eq(n, "rq")
        || str_eq(n, "ca")
        || str_eq(n, "va")
        || str_eq(n, "vp")
        || str_eq(n, "jmp")
        || str_eq(n, "qac")
        || str_eq(n, "lik")
        || str_eq(n, "liv")
}

pub open spec fn in_group_7(n: Seq<char>) -> bool {
    n == "th"@
        || n == "th1"@
        || n == "th2"@
        || n == "th3"@
        || n == "tc"@
        || n == "tc1"@
        || n == "tc2"@
        || n == "tc3"@
        || n == "thr"@
        || n == "thr1"@
        || n == "thr2"@
        || n == "thr3"@
        || n == "tcr"@
        || n == "tcr1"@
        || n == "tcr2"@
        || n == "tcr3"@
}

fn in_group_7_exec(n: &str) -> (r: bool)
    ensures
        r == in_group_7(n@),
{
    str_eq(n, "th")
        || str_eq(n, "th1")
        || str_eq(n, "th2")
        || str_eq(n, "th3")
        || str_eq(n, "tc")
        || str_eq(n, "tc1")
        || str_eq(n, "tc2")
        || str_eq(n, "tc3")
        || str_eq(n, "thr")
        || str_eq(n, "thr1")
        || str_eq(n, "thr2")
        || str_eq(n, "thr3")
        || str_eq(n, "tcr")
        || str_eq(n, "tcr1")
        || str_eq(n, "tcr2")
        || str_eq(n, "tcr3")
}

pub open spec fn in_group_8(n: Seq<char>) -> bool {
    n == "c"@
}

fn in_group_8_exec(n: &str) -> (r: bool)
    ensures
        r == in_group_8(n@),
{
    str_eq(n, "c")
}

pub open spec fn in_group_9(n: Seq<char>) -> bool {
    n == "v"@
}

fn in_group_9_exec(n: &str) -> (r: bool)
    ensures
        r == in_group_9(n@),
{
    str_eq(n, "v")
}

pub open spec fn in_group_10(n: Seq<char>) -> bool {
    n == "fig"@
}

fn in_group_10_exec(n: &str) -> (r: bool)
    ensures
        r == in_group_10(n@),
{
    str_eq(n, "fig")
}

pub open spec fn in_group_11(n: Seq<char>) -> bool {
    n == "esb"@
}

fn in_group_11_exec(n: &str) -> (r: bool)
    ensures
        r == in_group_11(n@),
{
    str_eq(n, "esb")
}

pub open spec fn in_group_12(n: Seq<char>) -> bool {
    n == "esbe"@
}

fn in_group_12_exec(n: &str) -> (r: bool)
    ensures
        r == in_group_12(n@),
{
    str_eq(n, "esbe")
}

pub open spec fn in_group_13(n: Seq<char>) -> bool {
    n == "rem"@
        || n == "sts"@
        || n == "restore"@
        || n == "lit"@
        || n == "cat"@
}

fn in_group_13_exec(n: &str) -> (r: bool)
    ensures
        r == in_group_13(n@),
{
    str_eq(n, "rem")
        || str_eq(n, "sts")
        || str_eq(n, "restore")
        || str_eq(n, "lit")
        || str_eq(n, "cat")
}

pub open spec fn in_group_14(n: Seq<char>) -> bool {
    n == "ts"@
}

fn in_group_14_exec(n: &str) -> (r: bool)
    ensures
        r == in_group_14(n@),
{
    str_eq(n, "ts")
}

/// The marker's entry in the table of named markers, if it has one.
pub open spec fn listed_marker(n: Seq<char>) -> Option<MarkerInfo> {
    if in_group_0(n) {
        Some(MarkerInfo { kind: MarkerKind::Header, valid_in_note: false })
    } else if in_group_1(n) {
        Some(MarkerInfo { kind: MarkerKind::Paragraph, valid_in_note: false })
    } else if in_group_2(n) {
        Some(MarkerInfo { kind: MarkerKind::Periph, valid_in_note: false })
    } else if in_group_3(n) {
        Some(MarkerInfo { kind: MarkerKind::TableRow, valid_in_note: false })
    } else if in_group_4(n) {
        Some(MarkerInfo { kind: MarkerKind::Note, valid_in_note: false })
    } else if in_group_5(n) {
        Some(MarkerInfo { kind: MarkerKind::Character, valid_in_note: true })
    } else if in_group_6(n) {
        Some(MarkerInfo { kind: MarkerKind::Character, valid_in_note: false })
    } else if in_group_7(n) {
        Some(MarkerInfo { kind: MarkerKind::TableCell, valid_in_note: false })
    } else if in_group_8(n) {
        Some(MarkerInfo { kind: MarkerKind::Chapter, valid_in_note: false })
    } else if in_group_9(n) {
        Some(MarkerInfo { kind: MarkerKind::Verse, valid_in_note: false })
    } else if in_group_10(n) {
        Some(MarkerInfo { kind: MarkerKind::Figure, valid_in_note: false })
    } else if in_group_11(n) {
        Some(MarkerInfo { kind: MarkerKind::SidebarStart, valid_in_note: false })
    } else if in_group_12(n) {
        Some(MarkerInfo { kind: MarkerKind::SidebarEnd, valid_in_note: false })
    } else if in_group_13(n) {
        Some(MarkerInfo { kind: MarkerKind::Meta, valid_in_note: false })
    } else if in_group_14(n) {
        Some(MarkerInfo { kind: MarkerKind::MilestoneStart, valid_in_note: false })
    } else {
        None
    }
}

fn listed_marker_exec(n: &str) -> (r: Option<MarkerInfo>)
    ensures
        r == listed_marker(n@),
{
    if in_group_0_exec(n) {
        Some(MarkerInfo { kind: MarkerKind::Header, valid_in_note: false })
    } else if in_group_1_exec(n) {
        Some(MarkerInfo { kind: MarkerKind::Paragraph, valid_in_note: false })
    } else if in_group_2_exec(n) {
        Some(MarkerInfo { kind: MarkerKind::Periph, valid_in_note: false })
    } else if in_group_3_exec(n) {
        Some(MarkerInfo { kind: MarkerKind::TableRow, valid_in_note: false })
    } else if in_group_4_exec(n) {
        Some(MarkerInfo { kind: MarkerKind::Note, valid_in_note: false })
    } else if in_group_5_exec(n) {
        Some(MarkerInfo { kind: MarkerKind::Character, valid_in_note: true })
    } else if in_group_6_exec(n) {
        Some(MarkerInfo { kind: MarkerKind::Character, valid_in_note: false })
    } else if in_group_7_exec(n) {
        Some(MarkerInfo { kind: MarkerKind::TableCell, valid_in_note: false })
    } else if in_group_8_exec(n) {
        Some(MarkerInfo { kind: MarkerKind::Chapter, valid_in_note: false })
    } else if in_group_9_exec(n) {
        Some(MarkerInfo { kind: MarkerKind::Verse, valid_in_note: false })
    } else if in_group_10_exec(n) {
        Some(MarkerInfo { kind: MarkerKind::Figure, valid_in_note: false })
    } else if in_group_11_exec(n) {
        Some(MarkerInfo { kind: MarkerKind::SidebarStart, valid_in_note: false })
    } else if in_group_12_exec(n) {
        Some(MarkerInfo { kind: MarkerKind::SidebarEnd, valid_in_note: false })
    } else if in_group_13_exec(n) {
        Some(MarkerInfo { kind: MarkerKind::Meta, valid_in_note: false })
    } else if in_group_14_exec(n) {
        Some(MarkerInfo { kind: MarkerKind::MilestoneStart, valid_in_note: false })
    } else {
        None
    }
}

/// The metadata of a marker: names in `z` are unknown, names ending in `-s`
/// or `-e` are milestone starts and ends, listed names have their entry,
/// and a name with trailing digits not listed takes its base name's entry
/// where that base is known (`ms5` as `ms`, `tc4` as `tc`).
pub open spec fn table_marker_info(n: Seq<char>) -> MarkerInfo
    decreases n.len(),
{
    let unknown = MarkerInfo { kind: MarkerKind::Unknown, valid_in_note: false };
    if n.len() > 0 && n[0] == 'z' {
        unknown
    } else if is_suffix(milestone_start_suffix(), n) {
        MarkerInfo { kind: MarkerKind::MilestoneStart, valid_in_note: false }
    } else if is_suffix(milestone_end_suffix(), n) {
        MarkerInfo { kind: MarkerKind::MilestoneEnd, valid_in_note: false }
    } else {
        match listed_marker(n) {
            Some(info) => info,
            None => {
                let base = strip_trailing_digits(n);
                if 0 < base.len() < n.len() && table_marker_info(base).kind != MarkerKind::Unknown {
                    table_marker_info(base)
                } else {
                    unknown
                }
            },
        }
    }
}

/// Look up the metadata for a USFM marker by name, given without the
/// leading backslash (`"p"`, `"nd"`, `"mt1"`, `"fr"`).
pub fn lookup_marker(name: &str) -> (r: MarkerInfo)
    ensures
        r == table_marker_info(name@),
    decreases name@.len(),
{
    let chars = str_chars(name);
    if chars.len() > 0 && chars[0] == 'z' {
        return MarkerInfo::new(MarkerKind::Unknown);
    }
    if ends_with(&chars, &['-', 's']) {
        assert(['-', 's']@ =~= milestone_start_suffix());
        return MarkerInfo::new(MarkerKind::MilestoneStart);
    }
    assert(['-', 's']@ =~= milestone_start_suffix());
    if ends_with(&chars, &['-', 'e']) {
        assert(['-', 'e']@ =~= milestone_end_suffix());
        return MarkerInfo::new(MarkerKind::MilestoneEnd);
    }
    assert(['-', 'e']@ =~= milestone_end_suffix());
    match listed_marker_exec(name) {
        Some(info) => {
            return info;
        },
        None => {},
    }
    let mut end = chars.len();
    assert(chars@.subrange(0, chars@.len() as int) =~= chars@);
    while end > 0 && is_digit_exec(chars[end - 1])
        invariant
            end <= chars@.len(),
            trailing_digits_start(chars@) == trailing_digits_start(chars@.subrange(0, end as int)),
        decreases end,
    {
        assert(chars@.subrange(0, end as int).drop_last() =~= chars@.subrange(0, end - 1));
        end -= 1;
    }
    let base = slice_chars(&chars, 0, end);
    proof {
        assert(trailing_digits_start(chars@.subrange(0, end as int)) == end);
        assert(strip_trailing_digits(chars@) =~= base@);
    }
    if base.len() > 0 && base.len() < chars.len() {
        let b = chars_to_string(&base);
        let info = lookup_marker(b.as_str());
        if info.kind != MarkerKind::Unknown {
            return info;
        }
    }
    MarkerInfo::new(MarkerKind::Unknown)
}

/// The default attribute key of a marker: `lemma` for `\w`, `gloss` for
/// `\rb`, `link-href` for `\jmp`, `href` for `\xt`, `src` for `\fig`, and
/// `who` for the `\qt` milestones (`\qt-s`, `\qt1-e`, ...).
pub open spec fn table_default_attr(m: Seq<char>) -> Option<Seq<char>> {
    if m == "w"@ {
        Some("lemma"@)
    } else if m == "rb"@ {
        Some("gloss"@)
    } else if m == "jmp"@ {
        Some("link-href"@)
    } else if m == "xt"@ {
        Some("href"@)
    } else if m == "fig"@ {
        Some("src"@)
    } else {
        match milestone_base(m) {
            Some(b) => if strip_trailing_digits(b) == seq!['q', 't'] {
                Some("who"@)
            } else {
                None
            },
            None => None,
        }
    }
}

/// Return the default attribute key for a marker, if any: the key that a
/// bare attribute value (`\w word|grace\w*`) is filed under.
pub fn default_attribute(marker: &str) -> (r: Option<&'static str>)
    ensures
        opt_str_view(r) == table_default_attr(marker@),
{
    if str_eq(marker, "w") {
        return Some("lemma");
    }
    if str_eq(marker, "rb") {
        return Some("gloss");
    }
    if str_eq(marker, "jmp") {
        return Some("link-href");
    }
    if str_eq(marker, "xt") {
        return Some("href");
    }
    if str_eq(marker, "fig") {
        return Some("src");
    }
    let chars = str_chars(marker);
    match crate::markers::milestone_base_exec(&chars) {
        Some(b) => {
            let mut end = b.len();
            assert(b@.subrange(0, b@.len() as int) =~= b@);
            while end > 0 && is_digit_exec(b[end - 1])
                invariant
                    end <= b@.len(),
                    trailing_digits_start(b@) == trailing_digits_start(b@.subrange(0, end as int)),
                decreases end,
            {
                assert(b@.subrange(0, end as int).drop_last() =~= b@.subrange(0, end - 1));
                end -= 1;
            }
            let stripped = slice_chars(&b, 0, end);
            proof {
                assert(trailing_digits_start(b@.subrange(0, end as int)) == end);
                assert(strip_trailing_digits(b@) =~= stripped@);
            }
            if chars_eq(&stripped, &['q', 't']) {
                assert(['q', 't']@ =~= seq!['q', 't']);
                Some("who")
            } else {
                assert(['q', 't']@ =~= seq!['q', 't']);
                None
            }
        },
        None => None,
    }
}

/// The attribute names a marker requires: `gloss` for `\rb`, none for
/// any other marker.
pub fn required_attributes(marker: &str) -> (r: &'static [&'static str])
    ensures
        marker@ == "rb"@ ==> r@.len() == 1 && r@[0]@ == "gloss"@,
        marker@ != "rb"@ ==> r@.len() == 0,
{
    if str_eq(marker, "rb") {
        let r: &'static [&'static str] = &["gloss"];
        r
    } else {
        &[]
    }
}

} // verus!
