//! Plain verse text keyed by verse reference.
use vstd::prelude::*;

use crate::ast::{Document, Node};
use crate::json::{Json, JsonValue, Member, entry_views as member_views, pretty, to_pretty_string};
use crate::markers::strip_trailing_digits;
use crate::text::{chars_to_string, is_ws, is_ws_exec, push_chars, push_str, str_chars, str_eq, trim,
    ws_prefix_len_exec, trimmed_end_len_exec, lemma_ws_prefix_len_bounds, lemma_trimmed_end_len_bounds,
    slice_chars};

verus! {

/// What `char::is_alphanumeric` answers for `c`.
pub uninterp spec fn alphanumeric(c: char) -> bool;

/// `char::is_alphanumeric`: whether `c` is alphabetic or numeric in the
/// Unicode sense.  Its result is a fixed function of `c`, named
/// `alphanumeric`; the Unicode tables behind it are not restated here.
#[verifier::external_body]
fn is_alphanumeric(c: char) -> (r: bool)
    ensures
        r == alphanumeric(c),
{
    c.is_alphanumeric()
}

/// Whether `s` is listed as a paragraph marker of verse text.
pub open spec fn is_listed_verse_paragraph(s: Seq<char>) -> bool {
    s == "p"@
    || s == "m"@
    || s == "po"@
    || s == "pr"@
    || s == "cls"@
    || s == "pmo"@
    || s == "pm"@
    || s == "pmc"@
    || s == "pmr"@
    || s == "pi"@
    || s == "pi1"@
    || s == "pi2"@
    || s == "pi3"@
    || s == "mi"@
    || s == "nb"@
    || s == "pc"@
    || s == "ph"@
    || s == "ph1"@
    || s == "ph2"@
    || s == "ph3"@
    || s == "pb"@
    || s == "q"@
    || s == "q1"@
    || s == "q2"@
    || s == "q3"@
    || s == "q4"@
    || s == "qr"@
    || s == "qc"@
    || s == "qa"@
    || s == "qm"@
    || s == "qm1"@
    || s == "qm2"@
    || s == "qm3"@
    || s == "qd"@
    || s == "lh"@
    || s == "li"@
    || s == "li1"@
    || s == "li2"@
    || s == "li3"@
    || s == "li4"@
    || s == "lf"@
    || s == "lim"@
    || s == "lim1"@
    || s == "lim2"@
    || s == "lim3"@
}

fn is_listed_verse_paragraph_exec(s: &str) -> (r: bool)
    ensures
        r == is_listed_verse_paragraph(s@),
{
    str_eq(s, "p")
    || str_eq(s, "m")
    || str_eq(s, "po")
    || str_eq(s, "pr")
    || str_eq(s, "cls")
    || str_eq(s, "pmo")
    || str_eq(s, "pm")
    || str_eq(s, "pmc")
    || str_eq(s, "pmr")
    || str_eq(s, "pi")
    || str_eq(s, "pi1")
    || str_eq(s, "pi2")
    || str_eq(s, "pi3")
    || str_eq(s, "mi")
    || str_eq(s, "nb")
    || str_eq(s, "pc")
    || str_eq(s, "ph")
    || str_eq(s, "ph1")
    || str_eq(s, "ph2")
    || str_eq(s, "ph3")
    || str_eq(s, "pb")
    || str_eq(s, "q")
    || str_eq(s, "q1")
    || str_eq(s, "q2")
    || str_eq(s, "q3")
    || str_eq(s, "q4")
    || str_eq(s, "qr")
    || str_eq(s, "qc")
    || str_eq(s, "qa")
    || str_eq(s, "qm")
    || str_eq(s, "qm1")
    || str_eq(s, "qm2")
    || str_eq(s, "qm3")
    || str_eq(s, "qd")
    || str_eq(s, "lh")
    || str_eq(s, "li")
    || str_eq(s, "li1")
    || str_eq(s, "li2")
    || str_eq(s, "li3")
    || str_eq(s, "li4")
    || str_eq(s, "lf")
    || str_eq(s, "lim")
    || str_eq(s, "lim1")
    || str_eq(s, "lim2")
    || str_eq(s, "lim3")
}

/// Returns true for paragraph markers that carry verse-level body text
/// (as opposed to section headings, introductions, etc.); higher-numbered
/// variants such as `q5` count through their base.
pub open spec fn is_verse_paragraph(m: Seq<char>) -> bool {
    is_listed_verse_paragraph(m) || ({
        let base = strip_trailing_digits(m);
        base.len() > 0 && base != m && is_listed_verse_paragraph(base)
    })
}

fn is_verse_paragraph_exec(marker: &str) -> (r: bool)
    ensures
        r == is_verse_paragraph(marker@),
{
    if is_listed_verse_paragraph_exec(marker) {
        return true;
    }
    let v = str_chars(marker);
    let mut end = v.len();
    assert(v@.subrange(0, v@.len() as int) =~= v@);
    while end > 0 && crate::text::is_digit_exec(v[end - 1])
        invariant
            end <= v@.len(),
            crate::markers::trailing_digits_start(v@) == crate::markers::trailing_digits_start(
                v@.subrange(0, end as int),
            ),
        decreases end,
    {
        assert(v@.subrange(0, end as int).drop_last() =~= v@.subrange(0, end - 1));
        end -= 1;
    }
    proof {
        assert(v@.subrange(0, v@.len() as int) =~= v@);
    }
    let base = slice_chars(&v, 0, end);
    proof {
        assert(crate::markers::trailing_digits_start(v@.subrange(0, end as int)) == end);
        assert(strip_trailing_digits(v@) =~= base@);
    }
    if base.len() > 0 && base.len() != v.len() {
        let b = chars_to_string(&base);
        return is_listed_verse_paragraph_exec(b.as_str());
    }
    proof {
        if base@.len() == v@.len() {
            assert(base@ =~= v@);
        }
    }
    false
}

/// The plain text of a node: text, and the text inside character
/// markers, references and unknown markers; notes and everything else
/// contribute nothing.
pub open spec fn plain_text_of(n: Node) -> Seq<char>
    decreases n, 1int,
{
    match n {
        Node::Text(s) => s@,
        Node::Char(data) => plain_text_of_all(data.content@),
        Node::Ref { content, .. } | Node::Unknown { content, .. } => plain_text_of_all(content@),
        _ => seq![],
    }
}

pub open spec fn plain_text_of_all(ns: Seq<Node>) -> Seq<char>
    decreases ns, 0int,
{
    if ns.len() == 0 {
        seq![]
    } else {
        plain_text_of_all(ns.drop_last()) + plain_text_of(ns.last())
    }
}

/// Recursively collect plain text from a node, skipping notes and milestones.
fn collect_text(node: &Node, buf: &mut Vec<char>)
    ensures
        final(buf)@ == old(buf)@ + plain_text_of(*node),
    decreases *node, 1int,
{
    match node {
        Node::Text(s) => {
            let v = str_chars(s.as_str());
            append(buf, &v);
        },
        Node::Char(data) => {
            assert(decreases_to!(*node => data.content@));
            collect_all(&data.content, buf);
        },
        Node::Ref { content, .. } | Node::Unknown { content, .. } => {
            assert(decreases_to!(*node => content@));
            collect_all(content, buf);
        },
        _ => {},
    }
}

fn collect_all(content: &Vec<Node>, buf: &mut Vec<char>)
    ensures
        final(buf)@ == old(buf)@ + plain_text_of_all(content@),
    decreases content@, 0int,
{
    let mut i: usize = 0;
    assert(content@.subrange(0, 0) =~= Seq::<Node>::empty());
    while i < content.len()
        invariant
            i <= content@.len(),
            buf@ == old(buf)@ + plain_text_of_all(content@.subrange(0, i as int)),
        decreases content@.len() - i,
    {
        assert(decreases_to!(content@ => content@[i as int]));
        assert(content@.subrange(0, i + 1).drop_last() =~= content@.subrange(0, i as int));
        collect_text(&content[i], buf);
        i += 1;
    }
    assert(content@.subrange(0, content@.len() as int) =~= content@);
}

fn append(buf: &mut Vec<char>, v: &[char])
    ensures
        final(buf)@ == old(buf)@ + v@,
{
    let mut i: usize = 0;
    while i < v.len()
        invariant
            i <= v@.len(),
            buf@ == old(buf)@ + v@.subrange(0, i as int),
        decreases v@.len() - i,
    {
        buf.push(v[i]);
        assert(v@.subrange(0, i + 1) =~= v@.subrange(0, i as int).push(v@[i as int]));
        i += 1;
    }
    assert(v@.subrange(0, v@.len() as int) =~= v@);
}

pub open spec fn is_opening_punctuation(ch: char) -> bool {
    ch == '"' || ch == '\'' || ch == '(' || ch == '[' || ch == '{' || ch == '<' || ch == '\u{201c}'
        || ch == '\u{2018}' || ch == '\u{ab}' || ch == '\u{2039}'
}

fn is_opening_punctuation_exec(ch: char) -> (r: bool)
    ensures
        r == is_opening_punctuation(ch),
{
    ch == '"' || ch == '\'' || ch == '(' || ch == '[' || ch == '{' || ch == '<' || ch == '\u{201c}'
        || ch == '\u{2018}' || ch == '\u{ab}' || ch == '\u{2039}'
}

/// Index of the first char of `s` that is neither whitespace nor opening
/// punctuation, or its length.
pub open spec fn content_start(s: Seq<char>) -> int
    decreases s.len(),
{
    if s.len() > 0 && (is_ws(s[0]) || is_opening_punctuation(s[0])) {
        1 + content_start(s.drop_first())
    } else {
        0
    }
}

/// Whether `text`, past its leading whitespace and opening punctuation,
/// starts with a letter or digit.
pub open spec fn starts_boundary_separated(s: Seq<char>) -> bool {
    let i = content_start(s);
    0 <= i < s.len() && alphanumeric(s[i])
}

fn starts_boundary_separated_content(text: &[char]) -> (r: bool)
    ensures
        r == starts_boundary_separated(text@),
{
    let mut i: usize = 0;
    assert(text@.subrange(0, text@.len() as int) =~= text@);
    while i < text.len() && (is_ws_exec(text[i]) || is_opening_punctuation_exec(text[i]))
        invariant
            i <= text@.len(),
            content_start(text@) == i + content_start(text@.subrange(i as int, text@.len() as int)),
        decreases text@.len() - i,
    {
        assert(text@.subrange(i as int, text@.len() as int).drop_first() =~= text@.subrange(
            i + 1,
            text@.len() as int,
        ));
        i += 1;
    }
    proof {
        assert(text@.subrange(0, text@.len() as int) =~= text@);
    }
    i < text.len() && is_alphanumeric(text[i])
}

pub open spec fn is_joiner(c: char) -> bool {
    c == '-' || c == '\u{2010}' || c == '\u{2011}' || c == '\u{2012}' || c == '\u{2013}' || c
        == '\u{2014}' || c == '\u{2015}'
}

/// Whether `text`, without its trailing whitespace, ends in a dash that
/// follows a non-space char.
pub open spec fn ends_with_tight_joiner(s: Seq<char>) -> bool {
    let t = crate::text::trim_end(s);
    t.len() >= 2 && is_joiner(t.last()) && !is_ws(t[t.len() - 2])
}

fn ends_with_tight_joiner_exec(text: &[char]) -> (r: bool)
    ensures
        r == ends_with_tight_joiner(text@),
{
    let n = trimmed_end_len_exec(text);
    proof {
        lemma_trimmed_end_len_bounds(text@);
    }
    n >= 2 && (text[n - 1] == '-' || text[n - 1] == '\u{2010}' || text[n - 1] == '\u{2011}'
        || text[n - 1] == '\u{2012}' || text[n - 1] == '\u{2013}' || text[n - 1] == '\u{2014}'
        || text[n - 1] == '\u{2015}') && !is_ws_exec(text[n - 2])
}

/// `buf` followed by `text`, with a space between them when a boundary
/// space is needed and neither side has whitespace there.
pub open spec fn vref_join(buf: Seq<char>, text: Seq<char>, needs_boundary_space: bool) -> Seq<char> {
    if text.len() == 0 {
        buf
    } else if needs_boundary_space && buf.len() > 0 && !is_ws(buf.last()) && !is_ws(text[0]) {
        buf.push(' ') + text
    } else {
        buf + text
    }
}

fn append_vref_text(buf: &mut Vec<char>, text: &[char], needs_boundary_space: bool)
    ensures
        final(buf)@ == vref_join(old(buf)@, text@, needs_boundary_space),
{
    if text.len() == 0 {
        return;
    }
    if needs_boundary_space && buf.len() > 0 && !is_ws_exec(buf[buf.len() - 1]) && !is_ws_exec(
        text[0],
    ) {
        buf.push(' ');
    }
    append(buf, text);
}

/// The entries of a verse map, each key and value by its chars.
pub open spec fn entries_view(m: Seq<(String, String)>) -> Seq<(Seq<char>, Seq<char>)> {
    m.map_values(|e: (String, String)| (e.0@, e.1@))
}

/// No two entries share a key, and every value is non-empty trimmed text.
pub open spec fn vref_entries_ok(m: Seq<(Seq<char>, Seq<char>)>) -> bool {
    &&& forall|i: int, j: int| 0 <= i < j < m.len() ==> m[i].0 != m[j].0
    &&& forall|i: int| 0 <= i < m.len() ==> (#[trigger] m[i]).1.len() > 0 && m[i].1 == trim(m[i].1)
}

/// Index of the last entry filed under `k`, or -1 when there is none.
pub open spec fn key_index(m: Seq<(Seq<char>, Seq<char>)>, k: Seq<char>) -> int
    decreases m.len(),
{
    if m.len() == 0 {
        -1
    } else if m.last().0 == k {
        m.len() - 1
    } else {
        key_index(m.drop_last(), k)
    }
}

/// `m` with `k` set to `v`: in place where `k` is present, else at the end.
pub open spec fn map_insert(m: Seq<(Seq<char>, Seq<char>)>, k: Seq<char>, v: Seq<char>) -> Seq<
    (Seq<char>, Seq<char>),
> {
    let i = key_index(m, k);
    if i >= 0 {
        m.update(i, (k, v))
    } else {
        m.push((k, v))
    }
}

pub proof fn lemma_key_index(m: Seq<(Seq<char>, Seq<char>)>, k: Seq<char>)
    ensures
        -1 <= key_index(m, k) < m.len(),
        key_index(m, k) >= 0 ==> m[key_index(m, k)].0 == k,
        key_index(m, k) == -1 <==> forall|j: int| 0 <= j < m.len() ==> m[j].0 != k,
        forall|j: int|
            0 <= j < m.len() && m[j].0 == k && key_index(m, k) != j ==> j < key_index(m, k),
    decreases m.len(),
{
    if m.len() > 0 {
        lemma_key_index(m.drop_last(), k);
        assert forall|j: int| 0 <= j < m.len() - 1 implies m.drop_last()[j] == m[j] by {}
    }
}

/// The text gathered for `verse_ref` filed under it, when there is a
/// reference and the text is not blank.
pub open spec fn flush_entries(m: Seq<(Seq<char>, Seq<char>)>, verse_ref: Seq<char>, text: Seq<char>) -> Seq<
    (Seq<char>, Seq<char>),
> {
    if verse_ref.len() > 0 && trim(text).len() > 0 {
        map_insert(m, verse_ref, trim(text))
    } else {
        m
    }
}

/// What the scan of a document holds between two nodes.
pub struct VrefScan {
    pub entries: Seq<(Seq<char>, Seq<char>)>,
    pub book: Seq<char>,
    pub chapter: Seq<char>,
    pub verse_ref: Seq<char>,
    pub text: Seq<char>,
}

/// The scan once a verse numbered `number` opens: the previous verse is
/// filed and the new one starts empty.
pub open spec fn open_verse(s: VrefScan, number: Seq<char>) -> VrefScan {
    VrefScan {
        entries: flush_entries(s.entries, s.verse_ref, s.text),
        book: s.book,
        chapter: s.chapter,
        verse_ref: s.book + " "@ + s.chapter + ":"@ + number,
        text: seq![],
    }
}

pub open spec fn with_text(s: VrefScan, text: Seq<char>) -> VrefScan {
    VrefScan { entries: s.entries, book: s.book, chapter: s.chapter, verse_ref: s.verse_ref, text }
}

/// One child of a verse paragraph; the flags say whether a verse opened in
/// this paragraph and whether visible text has been added since.
pub open spec fn para_step(p: (VrefScan, bool, bool), child: Node) -> (VrefScan, bool, bool) {
    let s = p.0;
    match child {
        Node::Verse(d) => (open_verse(s, d.number@), true, false),
        _ => {
            let frag = plain_text_of(child);
            if s.verse_ref.len() > 0 && frag.len() > 0 {
                let nbs = !p.1 && !p.2 && starts_boundary_separated(frag) && !ends_with_tight_joiner(
                    s.text,
                );
                (with_text(s, vref_join(s.text, frag, nbs)), p.1, true)
            } else {
                p
            }
        },
    }
}

pub open spec fn scan_para(p: (VrefScan, bool, bool), children: Seq<Node>) -> (VrefScan, bool, bool)
    decreases children.len(),
{
    if children.len() == 0 {
        p
    } else {
        para_step(scan_para(p, children.drop_last()), children.last())
    }
}

/// One top-level node of the document.
pub open spec fn root_step(s: VrefScan, node: Node) -> VrefScan {
    match node {
        Node::Book { code, .. } => VrefScan {
            entries: s.entries,
            book: code@,
            chapter: s.chapter,
            verse_ref: s.verse_ref,
            text: s.text,
        },
        Node::Chapter(d) => VrefScan {
            entries: s.entries,
            book: s.book,
            chapter: d.number@,
            verse_ref: s.verse_ref,
            text: s.text,
        },
        Node::Para { marker, content } => if is_verse_paragraph(marker@) {
            scan_para((s, false, false), content@).0
        } else {
            s
        },
        Node::Verse(d) => open_verse(s, d.number@),
        _ => if s.verse_ref.len() > 0 {
            with_text(s, s.text + plain_text_of(node))
        } else {
            s
        },
    }
}

pub open spec fn scan_root(nodes: Seq<Node>) -> VrefScan
    decreases nodes.len(),
{
    if nodes.len() == 0 {
        VrefScan { entries: seq![], book: seq![], chapter: seq![], verse_ref: seq![], text: seq![] }
    } else {
        root_step(scan_root(nodes.drop_last()), nodes.last())
    }
}

/// The verse map of a document: each verse reference with the running
/// body text of that verse, in the order the verses are first filed.
pub open spec fn vref_entries(doc: Document) -> Seq<(Seq<char>, Seq<char>)> {
    let s = scan_root(doc.content@);
    flush_entries(s.entries, s.verse_ref, s.text)
}

/// A numbered variant of a body paragraph marker (`q5`, `li7`) carries
/// verse text too.
pub proof fn law_verse_paragraph_numbered(b: Seq<char>, d: Seq<char>)
    requires
        d.len() > 0,
        forall|i: int| 0 <= i < d.len() ==> '0' <= #[trigger] d[i] <= '9',
        b == "p"@
            || b == "m"@
            || b == "po"@
            || b == "pr"@
            || b == "cls"@
            || b == "pmo"@
            || b == "pm"@
            || b == "pmc"@
            || b == "pmr"@
            || b == "pi"@
            || b == "mi"@
            || b == "nb"@
            || b == "pc"@
            || b == "ph"@
            || b == "pb"@
            || b == "q"@
            || b == "qr"@
            || b == "qc"@
            || b == "qa"@
            || b == "qm"@
            || b == "qd"@
            || b == "lh"@
            || b == "li"@
            || b == "lf"@
            || b == "lim"@,
    ensures
        is_verse_paragraph(b + d),
{
    reveal_strlit("p");
    reveal_strlit("p");
    reveal_strlit("m");
    reveal_strlit("po");
    reveal_strlit("pr");
    reveal_strlit("cls");
    reveal_strlit("pmo");
    reveal_strlit("pm");
    reveal_strlit("pmc");
    reveal_strlit("pmr");
    reveal_strlit("pi");
    reveal_strlit("mi");
    reveal_strlit("nb");
    reveal_strlit("pc");
    reveal_strlit("ph");
    reveal_strlit("pb");
    reveal_strlit("q");
    reveal_strlit("qr");
    reveal_strlit("qc");
    reveal_strlit("qa");
    reveal_strlit("qm");
    reveal_strlit("qd");
    reveal_strlit("lh");
    reveal_strlit("li");
    reveal_strlit("lf");
    reveal_strlit("lim");
    assert(b.len() > 0 && !crate::text::is_digit(b.last()));
    lemma_strip_numbered(b, d);
    assert(strip_trailing_digits(b + d) =~= b);
    assert(b + d != b) by {
        assert((b + d).len() != b.len());
    }
}

/// Stripping the digits of `b + d`, with `b` not ending in a digit,
/// leaves `b`.
proof fn lemma_strip_numbered(b: Seq<char>, d: Seq<char>)
    requires
        forall|i: int| 0 <= i < d.len() ==> '0' <= #[trigger] d[i] <= '9',
        b.len() == 0 || !crate::text::is_digit(b.last()),
    ensures
        crate::markers::trailing_digits_start(b + d) == b.len(),
    decreases d.len(),
{
    if d.len() == 0 {
        assert(b + d =~= b);
    } else {
        assert((b + d).drop_last() =~= b + d.drop_last());
        lemma_strip_numbered(b, d.drop_last());
    }
}

/// A body paragraph (`\\p`, `\\m`, the `\\pi`, `\\q` and `\\li` families and the
/// other paragraph markers of verse text) holding a verse and its text,
/// after a book and a chapter, files that text under the verse's
/// reference `BOOK C:N`.
pub proof fn law_vref_body_paragraph(doc: Document, m: Seq<char>)
    requires
        doc.content@.len() == 3,
        doc.content@[0] is Book,
        doc.content@[1] is Chapter,
        doc.content@[2] matches Node::Para { marker, content } && marker@ == m && content@.len() == 2
            && content@[0] is Verse && content@[1] is Text && trim(content@[1]->Text_0@).len() > 0,
        m == "p"@
            || m == "m"@
            || m == "po"@
            || m == "pr"@
            || m == "cls"@
            || m == "pmo"@
            || m == "pm"@
            || m == "pmc"@
            || m == "pmr"@
            || m == "pi"@
            || m == "pi1"@
            || m == "pi2"@
            || m == "pi3"@
            || m == "mi"@
            || m == "nb"@
            || m == "pc"@
            || m == "ph"@
            || m == "ph1"@
            || m == "ph2"@
            || m == "ph3"@
            || m == "pb"@
            || m == "q"@
            || m == "q1"@
            || m == "q2"@
            || m == "q3"@
            || m == "q4"@
            || m == "qr"@
            || m == "qc"@
            || m == "qa"@
            || m == "qm"@
            || m == "qm1"@
            || m == "qm2"@
            || m == "qm3"@
            || m == "qd"@
            || m == "lh"@
            || m == "li"@
            || m == "li1"@
            || m == "li2"@
            || m == "li3"@
            || m == "li4"@
            || m == "lf"@
            || m == "lim"@
            || m == "lim1"@
            || m == "lim2"@
            || m == "lim3"@,
    ensures
        ({
            let code = doc.content@[0]->Book_code;
            let c = doc.content@[1]->Chapter_0;
            let content = doc.content@[2]->Para_content;
            let v = content@[0]->Verse_0;
            let t = content@[1]->Text_0;
            vref_entries(doc) == seq![(code@ + " "@ + c.number@ + ":"@ + v.number@, trim(t@))]
        }),
{
    let nodes = doc.content@;
    let content = nodes[2]->Para_content@;
    assert(is_verse_paragraph(m));
    let s0 = scan_root(nodes.drop_last().drop_last().drop_last());
    assert(nodes.drop_last().drop_last().drop_last() =~= Seq::<Node>::empty());
    assert(nodes.drop_last().drop_last().last() == nodes[0]);
    assert(nodes.drop_last().last() == nodes[1]);
    let s1 = scan_root(nodes.drop_last().drop_last());
    assert(s1 == root_step(s0, nodes[0]));
    let s2 = scan_root(nodes.drop_last());
    assert(s2 == root_step(s1, nodes[1]));
    assert(scan_root(nodes) == root_step(s2, nodes[2]));
    assert(content.drop_last().drop_last() =~= Seq::<Node>::empty());
    assert(scan_para((s2, false, false), content.drop_last().drop_last()) == (s2, false, false));
    assert(content.drop_last().last() == content[0]);
    let p1 = scan_para((s2, false, false), content.drop_last());
    assert(p1 == para_step((s2, false, false), content[0]));
    assert(scan_para((s2, false, false), content) == para_step(p1, content[1]));
    let key = nodes[0]->Book_code@ + " "@ + nodes[1]->Chapter_0.number@ + ":"@ + content[0]->Verse_0.number@;
    let t = content[1]->Text_0@;
    assert(plain_text_of(content[1]) == t);
    assert(vref_join(seq![], t, false) == t);
    crate::text::lemma_ws_prefix_len_bounds(t);
    crate::text::lemma_trimmed_end_len_bounds(crate::text::trim_start(t));
    assert(t.len() > 0);
    reveal_strlit(" ");
    reveal_strlit(":");
    assert(key.len() > 0);
    let sv = open_verse(s2, content[0]->Verse_0.number@);
    assert(sv.verse_ref == key);
    assert(sv.entries == Seq::<(Seq<char>, Seq<char>)>::empty());
    assert(p1 == (sv, true, false));
    let fin = scan_root(nodes);
    assert(fin == with_text(sv, t));
    assert(map_insert(seq![], key, trim(t)) =~= seq![(key, trim(t))]);
    assert(vref_entries(doc) == flush_entries(fin.entries, fin.verse_ref, fin.text));
}

pub open spec fn scan_of(
    map: Seq<(String, String)>,
    book: Seq<char>,
    chapter: Seq<char>,
    verse_ref: Seq<char>,
    text: Seq<char>,
) -> VrefScan {
    VrefScan { entries: entries_view(map), book, chapter, verse_ref, text }
}

/// Sets `key` to `value`: in place where the key is present, else at the
/// end.
fn insert_entry(map: &mut Vec<(String, String)>, key: String, value: String)
    requires
        vref_entries_ok(entries_view(old(map)@)),
        value@.len() > 0,
        value@ == trim(value@),
    ensures
        vref_entries_ok(entries_view(final(map)@)),
        entries_view(final(map)@) == map_insert(entries_view(old(map)@), key@, value@),
{
    let ghost old_v = entries_view(map@);
    proof {
        lemma_key_index(old_v, key@);
    }
    let mut i: usize = 0;
    while i < map.len()
        invariant
            i <= map@.len(),
            map@ == old(map)@,
            old_v == entries_view(map@),
            vref_entries_ok(old_v),
            -1 <= key_index(old_v, key@) < old_v.len(),
            key_index(old_v, key@) >= 0 ==> old_v[key_index(old_v, key@)].0 == key@,
            key_index(old_v, key@) == -1 <==> forall|j: int| 0 <= j < old_v.len() ==> old_v[j].0 != key@,
            forall|j: int|
                0 <= j < old_v.len() && old_v[j].0 == key@ && key_index(old_v, key@) != j ==> j
                    < key_index(old_v, key@),
            forall|j: int| 0 <= j < i ==> old_v[j].0 != key@,
            value@.len() > 0,
            value@ == trim(value@),
        decreases map@.len() - i,
    {
        assert(old_v[i as int] == (map@[i as int].0@, map@[i as int].1@));
        if str_eq(map[i].0.as_str(), key.as_str()) {
            let ghost idx = key_index(old_v, key@);
            assert(idx == i) by {
                if idx != i {
                    assert(i < idx);
                    assert(old_v[i as int].0 != old_v[idx].0);
                }
            }
            map.set(i, (key, value));
            let ghost nv = entries_view(map@);
            assert(nv =~= old_v.update(i as int, (key@, value@)));
            assert forall|a: int, b: int| 0 <= a < b < nv.len() implies nv[a].0 != nv[b].0 by {
                if a != i && b != i {
                    assert(nv[a] == old_v[a] && nv[b] == old_v[b]);
                } else if a == i {
                    assert(nv[b] == old_v[b] && old_v[a].0 != old_v[b].0);
                } else {
                    assert(nv[a] == old_v[a] && old_v[a].0 != old_v[b].0);
                }
            }
            assert forall|j: int| 0 <= j < nv.len() implies (#[trigger] nv[j]).1.len() > 0 && nv[j].1
                == trim(nv[j].1) by {
                if j != i {
                    assert(nv[j] == old_v[j]);
                } else {
                    assert(nv[j] == (key@, value@));
                }
            }
            return;
        }
        i += 1;
    }
    assert(key_index(old_v, key@) == -1);
    map.push((key, value));
    assert(entries_view(map@) =~= old_v.push((key@, value@)));
}

/// Files the text gathered for `current_ref` under it, when there is a
/// reference and the text is not blank.
fn flush(map: &mut Vec<(String, String)>, current_ref: &Vec<char>, current_text: &Vec<char>)
    requires
        vref_entries_ok(entries_view(old(map)@)),
    ensures
        vref_entries_ok(entries_view(final(map)@)),
        entries_view(final(map)@) == flush_entries(entries_view(old(map)@), current_ref@, current_text@),
{
    let a = ws_prefix_len_exec(current_text);
    proof {
        lemma_ws_prefix_len_bounds(current_text@);
    }
    let rest = slice_chars(current_text, a, current_text.len());
    let b = trimmed_end_len_exec(&rest);
    proof {
        lemma_trimmed_end_len_bounds(rest@);
    }
    let trimmed = slice_chars(&rest, 0, b);
    assert(trimmed@ == trim(current_text@));
    if current_ref.len() > 0 && b > 0 {
        proof {
            crate::text::lemma_trim_idempotent(current_text@);
        }
        insert_entry(map, chars_to_string(current_ref), chars_to_string(&trimmed));
    }
}

/// `BOOK CHAPTER:VERSE`.
fn verse_ref(book: &Vec<char>, chapter: &Vec<char>, number: &str) -> (r: Vec<char>)
    ensures
        r@ == book@ + " "@ + chapter@ + ":"@ + number@,
{
    let mut r: Vec<char> = Vec::new();
    append(&mut r, book);
    append(&mut r, &str_chars(" "));
    append(&mut r, chapter);
    append(&mut r, &str_chars(":"));
    append(&mut r, &str_chars(number));
    r
}

/// The running body text of each verse, keyed by its reference
/// (`"GEN 1:1"`), in the order the verses are first filed.  Footnotes,
/// cross-references, headings, and all formatting are stripped; only the
/// running body text of each verse is kept.
pub fn to_vref_map(doc: &Document) -> (r: Vec<(String, String)>)
    ensures
        entries_view(r@) == vref_entries(*doc),
        vref_entries_ok(entries_view(r@)),
{
    let mut map: Vec<(String, String)> = Vec::new();
    let mut book: Vec<char> = Vec::new();
    let mut chapter: Vec<char> = Vec::new();
    let mut current_ref: Vec<char> = Vec::new();
    let mut current_text: Vec<char> = Vec::new();
    let mut i: usize = 0;
    assert(entries_view(map@) =~= seq![]);
    assert(doc.content@.subrange(0, 0) =~= Seq::<Node>::empty());
    while i < doc.content.len()
        invariant
            i <= doc.content@.len(),
            vref_entries_ok(entries_view(map@)),
            scan_of(map@, book@, chapter@, current_ref@, current_text@) == scan_root(
                doc.content@.subrange(0, i as int),
            ),
        decreases doc.content@.len() - i,
    {
        let ghost before = scan_of(map@, book@, chapter@, current_ref@, current_text@);
        assert(doc.content@.subrange(0, i + 1).drop_last() =~= doc.content@.subrange(0, i as int));
        match &doc.content[i] {
            Node::Book { code, .. } => {
                book = str_chars(code.as_str());
            },
            Node::Chapter(data) => {
                chapter = str_chars(data.number.as_str());
            },
            Node::Para { marker, content } => {
                if is_verse_paragraph_exec(marker.as_str()) {
                    let mut verse_opened_in_para = false;
                    let mut appended_visible_text = false;
                    let mut k: usize = 0;
                    assert(content@.subrange(0, 0) =~= Seq::<Node>::empty());
                    while k < content.len()
                        invariant
                            k <= content@.len(),
                            vref_entries_ok(entries_view(map@)),
                            (
                                scan_of(map@, book@, chapter@, current_ref@, current_text@),
                                verse_opened_in_para,
                                appended_visible_text,
                            ) == scan_para((before, false, false), content@.subrange(0, k as int)),
                        decreases content@.len() - k,
                    {
                        assert(content@.subrange(0, k + 1).drop_last() =~= content@.subrange(
                            0,
                            k as int,
                        ));
                        match &content[k] {
                            Node::Verse(data) => {
                                // Flush the previous verse.
                                flush(&mut map, &current_ref, &current_text);
                                current_ref = verse_ref(&book, &chapter, data.number.as_str());
                                current_text = Vec::new();
                                verse_opened_in_para = true;
                                appended_visible_text = false;
                                assert(current_text@ =~= seq![]);
                            },
                            child => {
                                if current_ref.len() > 0 {
                                    let mut fragment: Vec<char> = Vec::new();
                                    collect_text(child, &mut fragment);
                                    assert(fragment@ =~= plain_text_of(*child));
                                    if fragment.len() > 0 {
                                        let needs_boundary_space = !verse_opened_in_para
                                            && !appended_visible_text
                                            && starts_boundary_separated_content(&fragment)
                                            && !ends_with_tight_joiner_exec(&current_text);
                                        append_vref_text(&mut current_text, &fragment, needs_boundary_space);
                                        appended_visible_text = true;
                                    }
                                }
                            },
                        }
                        k += 1;
                    }
                    assert(content@.subrange(0, content@.len() as int) =~= content@);
                }
            },
            // Handle root-level verses (valid per USFM 3.1 — verses can be
            // siblings of paragraphs in chapter content).
            Node::Verse(data) => {
                flush(&mut map, &current_ref, &current_text);
                current_ref = verse_ref(&book, &chapter, data.number.as_str());
                current_text = Vec::new();
                assert(current_text@ =~= seq![]);
            },
            // Collect root-level text into the current verse.
            node => {
                if current_ref.len() > 0 {
                    collect_text(node, &mut current_text);
                }
            },
        }
        i += 1;
    }
    assert(doc.content@.subrange(0, doc.content@.len() as int) =~= doc.content@);
    // Flush the last verse.
    flush(&mut map, &current_ref, &current_text);
    map
}

/// The verse map as a JSON object from reference to text.
pub open spec fn vref_json(es: Seq<(Seq<char>, Seq<char>)>) -> Json {
    Json::Object(Seq::new(es.len(), |i: int| (es[i].0, Json::String(es[i].1))))
}

/// The verse map of `doc` as indented JSON text, `{ "GEN 1:1": "In the
/// beginning ...", ... }`; the string encoder never fails here.
pub fn to_vref_json_string(doc: &Document) -> (r: Result<String, serde_json::Error>)
    ensures
        r matches Ok(t) && t@ == pretty(vref_json(vref_entries(*doc)), seq![]),
{
    let map = to_vref_map(doc);
    let mut members: Vec<Member> = Vec::new();
    let mut i: usize = 0;
    while i < map.len()
        invariant
            i <= map@.len(),
            member_views(members@) =~= Seq::new(
                i as nat,
                |k: int| (entries_view(map@)[k].0, Json::String(entries_view(map@)[k].1)),
            ),
        decreases map@.len() - i,
    {
        let m = Member { key: crate::text::str_to_string(map[i].0.as_str()), value: JsonValue::string(map[i].1.as_str()) };
        assert(members@.push(m).drop_last() =~= members@);
        members.push(m);
        i += 1;
    }
    to_pretty_string(&JsonValue::Object(members))
}

} // verus!
