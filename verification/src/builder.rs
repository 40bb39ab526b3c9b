//! Tree-walk CST→AST lowering for USFM 3.x.
//!
//! Walks the CST tree structure directly to produce an AST
//! ([`crate::ast::Document`]) together with a parallel source map and a
//! list of diagnostics.
use vstd::prelude::*;

use crate::ast::{children_of, marker_of, Attribute, ChapterData, CharData, Document, Node, VerseData};
use crate::cst::{is_leaf_kind, node_ok, CstDocument, CstKind, CstNode, CstNodeId, MarkerTokenKind};
use crate::diagnostics::{Diagnostic, DiagnosticList, Span};
use crate::markers::{default_attr, default_attribute, marker_info, opt_str_view, MarkerKind, MarkerName};
use crate::source_map::{aligned, aligned_all, SourceMap, SourceNode, SourceSpans};
use crate::{AstDocument, ParseOptions};
use crate::text::{chars_eq, chars_to_string, is_digit, is_digit_exec, is_ws, is_ws_exec, push_chars, push_str, slice_chars,
    str_chars, str_to_string, trim, trim_end, trim_start, ws_prefix_len, ws_prefix_len_exec,
    trimmed_end_len, trimmed_end_len_exec, lemma_ws_prefix_len_bounds, lemma_trimmed_end_len_bounds};

verus! {

/// An AST node together with its source-map entry.
struct SpannedNode {
    node: Node,
    source: SourceNode,
}

spec fn sn_ok(x: SpannedNode) -> bool {
    aligned(x.node, x.source)
}

spec fn all_ok(v: Seq<SpannedNode>) -> bool {
    forall|k: int| 0 <= k < v.len() ==> #[trigger] sn_ok(v[k])
}

impl SpannedNode {
    fn text(s: String) -> (r: Self)
        ensures
            r.node == Node::Text(s),
            r.source.children@.len() == 0,
            sn_ok(r),
    {
        SpannedNode { node: Node::Text(s), source: SourceNode::leaf() }
    }

    fn optbreak() -> (r: Self)
        ensures
            r.node == Node::OptBreak,
            sn_ok(r),
    {
        SpannedNode { node: Node::OptBreak, source: SourceNode::leaf() }
    }
}

/// Splits spanned nodes into the AST nodes and their source-map entries.
fn split_nodes(nodes: Vec<SpannedNode>) -> (r: (Vec<Node>, Vec<SourceNode>))
    ensures
        r.0@.len() == nodes@.len(),
        r.1@.len() == nodes@.len(),
        forall|k: int| 0 <= k < nodes@.len() ==> r.0@[k] == (#[trigger] nodes@[k]).node && r.1@[k] == nodes@[k].source,
        all_ok(nodes@) ==> aligned_all(r.0@, r.1@),
{
    let ghost orig = nodes@;
    let mut nodes = nodes;
    let mut rev_nodes: Vec<Node> = Vec::new();
    let mut rev_sources: Vec<SourceNode> = Vec::new();
    while nodes.len() > 0
        invariant
            nodes@.len() + rev_nodes@.len() == orig.len(),
            rev_nodes@.len() == rev_sources@.len(),
            forall|k: int| 0 <= k < nodes@.len() ==> nodes@[k] == orig[k],
            forall|k: int|
                0 <= k < rev_nodes@.len() ==> rev_nodes@[k] == orig[orig.len() - 1 - k].node
                    && rev_sources@[k] == orig[orig.len() - 1 - k].source,
        decreases nodes@.len(),
    {
        let x = nodes.pop().unwrap();
        rev_nodes.push(x.node);
        rev_sources.push(x.source);
    }
    let mut out_nodes: Vec<Node> = Vec::new();
    let mut out_sources: Vec<SourceNode> = Vec::new();
    while rev_nodes.len() > 0
        invariant
            rev_nodes@.len() == rev_sources@.len(),
            out_nodes@.len() == out_sources@.len(),
            rev_nodes@.len() + out_nodes@.len() == orig.len(),
            forall|k: int|
                0 <= k < rev_nodes@.len() ==> rev_nodes@[k] == orig[orig.len() - 1 - k].node
                    && rev_sources@[k] == orig[orig.len() - 1 - k].source,
            forall|k: int|
                0 <= k < out_nodes@.len() ==> out_nodes@[k] == orig[k].node && out_sources@[k]
                    == orig[k].source,
        decreases rev_nodes@.len(),
    {
        let n = rev_nodes.pop().unwrap();
        let s = rev_sources.pop().unwrap();
        out_nodes.push(n);
        out_sources.push(s);
    }
    proof {
        if all_ok(orig) {
            assert forall|k: int| 0 <= k < orig.len() implies aligned(
                #[trigger] out_nodes@[k],
                out_sources@[k],
            ) by {
                assert(sn_ok(orig[k]));
            }
        }
    }
    (out_nodes, out_sources)
}

/// Text and optional breaks: what text tokens turn into.
pub open spec fn textual(n: Node) -> bool {
    n is Text || n is OptBreak
}

/// `b` keeps the nodes of `a` that are not textual where they were, keeps
/// the textual ones textual, and adds textual nodes only.
spec fn keeps_nodes(a: Seq<SpannedNode>, b: Seq<SpannedNode>) -> bool {
    &&& a.len() <= b.len()
    &&& forall|k: int| 0 <= k < a.len() && !textual(a[k].node) ==> #[trigger] b[k].node == a[k].node
    &&& forall|k: int| 0 <= k < a.len() && textual(a[k].node) ==> textual(#[trigger] b[k].node)
    &&& forall|k: int| a.len() <= k < b.len() ==> textual(#[trigger] b[k].node)
}

/// The item form of `keeps_nodes`.
spec fn ext_items(a: Seq<Item>, b: Seq<Item>) -> bool {
    &&& a.len() <= b.len()
    &&& forall|k: int| 0 <= k < a.len() && a[k] is Other ==> #[trigger] b[k] == a[k]
    &&& forall|k: int| 0 <= k < a.len() && a[k] is Txt ==> (#[trigger] b[k]) is Txt
    &&& forall|k: int| a.len() <= k < b.len() ==> (#[trigger] b[k]) is Txt || b[k] == Item::Other(Node::OptBreak)
}

proof fn lemma_ext_trans(a: Seq<Item>, b: Seq<Item>, c: Seq<Item>)
    requires
        ext_items(a, b),
        ext_items(b, c),
    ensures
        ext_items(a, c),
{
    assert forall|k: int| a.len() <= k < c.len() implies (#[trigger] c[k]) is Txt || c[k] == Item::Other(Node::OptBreak) by {
        if k < b.len() {
            assert(b[k] is Txt || b[k] == Item::Other(Node::OptBreak));
        }
    }
}

proof fn lemma_text_appended_ext(its: Seq<Item>, t: Seq<char>)
    ensures
        ext_items(its, text_appended(its, t)),
        ext_items(its, flushed(its, t)),
{
}

/// Normalizing text only merges into a last text and adds texts and
/// optional breaks.
proof fn lemma_normalized_ext(its: Seq<Item>, scratch: Seq<char>, prev_space: bool, text: Seq<char>, i: int)
    ensures
        ext_items(its, normalized_from(its, scratch, prev_space, text, i)),
    decreases text.len() - i,
{
    if i >= text.len() || i < 0 {
        lemma_text_appended_ext(its, scratch);
    } else {
        let ch = text[i];
        if ch == '\r' {
            lemma_normalized_ext(its, scratch, prev_space, text, i + 1);
        } else if ch == '~' {
            lemma_normalized_ext(its, scratch.push('\u{00a0}'), false, text, i + 1);
        } else if ch == ' ' {
            lemma_normalized_ext(its, if prev_space {
                scratch
            } else {
                scratch.push(' ')
            }, true, text, i + 1);
        } else if ch == '/' && i + 1 < text.len() && text[i + 1] == '/' {
            let mid = flushed(its, scratch).push(Item::Other(Node::OptBreak));
            lemma_text_appended_ext(its, scratch);
            lemma_ext_trans(its, flushed(its, scratch), mid);
            lemma_normalized_ext(mid, seq![], false, text, i + 2);
            lemma_ext_trans(its, mid, normalized_from(mid, seq![], false, text, i + 2));
        } else {
            lemma_normalized_ext(its, scratch.push(ch), false, text, i + 1);
        }
    }
}

proof fn lemma_keeps_from_items(a: Seq<SpannedNode>, b: Seq<SpannedNode>)
    requires
        ext_items(items(a), items(b)),
    ensures
        keeps_nodes(a, b),
{
    assert(items(a).len() == a.len());
    assert(items(b).len() == b.len());
    assert forall|k: int| 0 <= k < a.len() && !textual(a[k].node) implies #[trigger] b[k].node == a[k].node by {
        assert(items(a)[k] == item_of(a[k].node));
        assert(items(b)[k] == item_of(b[k].node));
    }
    assert forall|k: int| 0 <= k < a.len() && textual(a[k].node) implies textual(#[trigger] b[k].node) by {
        assert(items(a)[k] == item_of(a[k].node));
        assert(items(b)[k] == item_of(b[k].node));
    }
    assert forall|k: int| a.len() <= k < b.len() implies textual(#[trigger] b[k].node) by {
        assert(items(b)[k] == item_of(b[k].node));
    }
}

/// Append text to a children vec, merging with previous Text node.
fn append_text_to(children: &mut Vec<SpannedNode>, text: &[char])
    requires
        all_ok(old(children)@),
    ensures
        all_ok(final(children)@),
        final(children)@.len() == (if old(children)@.len() > 0 && old(children)@.last().node is Text {
            old(children)@.len()
        } else {
            old(children)@.len() + 1
        }),
        final(children)@.last().node matches Node::Text(t) && t@ == (if old(children)@.len() > 0
            && old(children)@.last().node is Text {
            old(children)@.last().node->Text_0@ + text@
        } else {
            text@
        }),
        forall|k: int|
            0 <= k < old(children)@.len() - 1 ==> final(children)@[k] == old(children)@[k],
        old(children)@.len() > 0 && !(old(children)@.last().node is Text) ==> final(children)@[old(
            children,
        )@.len() - 1] == old(children)@.last(),
        items(final(children)@) == text_appended(items(old(children)@), text@),
        keeps_nodes(old(children)@, final(children)@),
{
    let ghost before = children@;
    if children.len() > 0 {
        assert(sn_ok(before[before.len() - 1]));
    }
    match children.pop() {
        Some(last) => {
            match last.node {
                Node::Text(prev) => {
                    let mut s = prev;
                    push_chars(&mut s, text);
                    children.push(SpannedNode { node: Node::Text(s), source: last.source });
                },
                other => {
                    children.push(SpannedNode { node: other, source: last.source });
                    assert(children@.last() == before.last());
                    children.push(SpannedNode::text(chars_to_string(text)));
                },
            }
        },
        None => {
            children.push(SpannedNode::text(chars_to_string(text)));
        },
    }
    proof {
        assert forall|k: int| 0 <= k < children@.len() implies #[trigger] sn_ok(children@[k]) by {
            if k < before.len() - 1 {
                assert(children@[k] == before[k]);
                assert(sn_ok(before[k]));
            } else if k < before.len() && !(before.last().node is Text) {
                assert(sn_ok(before[k]));
            }
        }
        assert(items(children@) =~= text_appended(items(before), text@));
        lemma_text_appended_ext(items(before), text@);
        lemma_keeps_from_items(before, children@);
    }
}

/// A node seen as text or as something else.
enum Item {
    Txt(Seq<char>),
    Other(Node),
}

spec fn item_of(n: Node) -> Item {
    match n {
        Node::Text(s) => Item::Txt(s@),
        other => Item::Other(other),
    }
}

/// The nodes of `v`, texts by their chars.
spec fn items(v: Seq<SpannedNode>) -> Seq<Item> {
    v.map_values(|x: SpannedNode| item_of(x.node))
}

/// `t` appended to the items: merged into a last text, else a new text.
spec fn text_appended(its: Seq<Item>, t: Seq<char>) -> Seq<Item> {
    if its.len() > 0 && its.last() is Txt {
        its.drop_last().push(Item::Txt(its.last()->Txt_0 + t))
    } else {
        its.push(Item::Txt(t))
    }
}

/// The pending text `scratch` appended where there is any.
spec fn flushed(its: Seq<Item>, scratch: Seq<char>) -> Seq<Item> {
    if scratch.len() > 0 {
        text_appended(its, scratch)
    } else {
        its
    }
}

/// Normalizing `text` from `i` on, with `scratch` pending and `prev_space`
/// telling whether the last char kept was a space: `\r` is dropped, `~`
/// becomes a no-break space, a space after a space is dropped, `//`
/// becomes an optional break.
spec fn normalized_from(its: Seq<Item>, scratch: Seq<char>, prev_space: bool, text: Seq<char>, i: int) -> Seq<Item>
    decreases text.len() - i,
{
    if i >= text.len() || i < 0 {
        flushed(its, scratch)
    } else {
        let ch = text[i];
        if ch == '\r' {
            normalized_from(its, scratch, prev_space, text, i + 1)
        } else if ch == '~' {
            normalized_from(its, scratch.push('\u{00a0}'), false, text, i + 1)
        } else if ch == ' ' {
            normalized_from(
                its,
                if prev_space {
                    scratch
                } else {
                    scratch.push(' ')
                },
                true,
                text,
                i + 1,
            )
        } else if ch == '/' && i + 1 < text.len() && text[i + 1] == '/' {
            normalized_from(flushed(its, scratch).push(Item::Other(Node::OptBreak)), seq![], false, text, i + 2)
        } else {
            normalized_from(its, scratch.push(ch), false, text, i + 1)
        }
    }
}

/// Whether char `j` of `text` is one that normalization changes.
spec fn needs_norm_at(text: Seq<char>, j: int) -> bool {
    text[j] == '\r' || text[j] == '~' || (text[j] == ' ' && j > 0 && text[j - 1] == ' ') || (text[j] == '/'
        && j > 0 && text[j - 1] == '/')
}

/// Text with nothing to normalize normalizes to itself.
proof fn lemma_normalized_plain(its: Seq<Item>, text: Seq<char>, i: int)
    requires
        0 < i <= text.len(),
        forall|j: int| 0 <= j < text.len() ==> !needs_norm_at(text, j),
    ensures
        normalized_from(its, text.subrange(0, i), text[i - 1] == ' ', text, i) == text_appended(its, text),
    decreases text.len() - i,
{
    if i == text.len() {
        assert(text.subrange(0, i) =~= text);
    } else {
        assert(!needs_norm_at(text, i));
        if text[i] == '/' {
            assert(!needs_norm_at(text, i + 1) || i + 1 >= text.len());
        }
        assert(text.subrange(0, i).push(text[i]) =~= text.subrange(0, i + 1));
        lemma_normalized_plain(its, text, i + 1);
    }
}

/// Normalize and append text: `~` becomes a no-break space, `\r` is
/// dropped, runs of spaces collapse to one, and `//` becomes an optional
/// line break.
fn append_normalized_text(children: &mut Vec<SpannedNode>, text: &[char])
    requires
        all_ok(old(children)@),
    ensures
        all_ok(final(children)@),
        items(final(children)@) == (if text@.len() == 0 {
            items(old(children)@)
        } else {
            normalized_from(items(old(children)@), seq![], false, text@, 0)
        }),
{
    if text.len() == 0 {
        return;
    }
    let ghost goal = normalized_from(items(children@), seq![], false, text@, 0);
    let mut prev_space = false;
    let mut prev_slash = false;
    let mut needs_normalization = false;
    let mut i: usize = 0;
    while i < text.len()
        invariant_except_break
            !needs_normalization,
        invariant
            i <= text@.len(),
            forall|j: int| 0 <= j < i ==> !needs_norm_at(text@, j),
            prev_space == (i > 0 && text@[i - 1] == ' '),
            prev_slash == (i > 0 && text@[i - 1] == '/'),
        ensures
            !needs_normalization ==> forall|j: int| 0 <= j < text@.len() ==> !needs_norm_at(text@, j),
        decreases text@.len() - i,
    {
        let ch = text[i];
        if ch == '\r' || ch == '~' || (ch == ' ' && prev_space) || (ch == '/' && prev_slash) {
            needs_normalization = true;
            break;
        }
        prev_space = ch == ' ';
        prev_slash = ch == '/';
        i += 1;
    }
    if !needs_normalization {
        proof {
            let t = text@;
            assert(!needs_norm_at(t, 0));
            if t.len() > 1 {
                assert(!needs_norm_at(t, 1));
            }
            assert(seq![].push(t[0]) =~= t.subrange(0, 1));
            lemma_normalized_plain(items(children@), t, 1);
        }
        append_text_to(children, text);
        return;
    }
    let mut scratch: Vec<char> = Vec::new();
    let mut prev_space = false;
    let mut i: usize = 0;
    while i < text.len()
        invariant
            i <= text@.len(),
            all_ok(children@),
            normalized_from(items(children@), scratch@, prev_space, text@, i as int) == goal,
        decreases text@.len() - i,
    {
        let ch = text[i];
        let ghost i0 = i as int;
        let ghost its0 = items(children@);
        i += 1;
        if ch == '\r' {
        } else if ch == '~' {
            scratch.push('\u{00a0}');
            prev_space = false;
        } else if ch == ' ' {
            if !prev_space {
                scratch.push(' ');
            }
            prev_space = true;
        } else if ch == '/' && i < text.len() && text[i] == '/' {
            let ghost sc = scratch@;
            if scratch.len() > 0 {
                append_text_to(children, &scratch);
                scratch = Vec::new();
            }
            assert(items(children@) == flushed(its0, sc));
            assert(scratch@ =~= seq![]);
            i += 1;
            let ghost its1 = items(children@);
            children.push(SpannedNode::optbreak());
            assert(items(children@) =~= its1.push(Item::Other(Node::OptBreak)));
            prev_space = false;
        } else {
            scratch.push(ch);
            prev_space = false;
        }
        proof {
            assert forall|k: int| 0 <= k < children@.len() implies #[trigger] sn_ok(children@[k]) by {
            }
        }
    }
    if scratch.len() > 0 {
        append_text_to(children, &scratch);
    }
}

/// Trim trailing whitespace from the last text child of a node list.
/// This removes spurious trailing spaces produced by newline-to-space
/// conversion at block boundaries.
fn trim_trailing_text(children: &mut Vec<SpannedNode>)
    requires
        all_ok(old(children)@),
    ensures
        all_ok(final(children)@),
        old(children)@.len() > 0 && old(children)@.last().node is Text ==> ({
            let t = trim_end(old(children)@.last().node->Text_0@);
            if t.len() == 0 {
                final(children)@ == old(children)@.drop_last()
            } else {
                final(children)@.len() == old(children)@.len() && final(children)@.drop_last()
                    == old(children)@.drop_last() && (final(children)@.last().node matches Node::Text(
                    s,
                ) && s@ == t)
            }
        }),
        !(old(children)@.len() > 0 && old(children)@.last().node is Text) ==> final(children)@
            == old(children)@,
{
    let ghost before = children@;
    match children.pop() {
        Some(last) => {
            match last.node {
                Node::Text(s) => {
                    let v = str_chars(s.as_str());
                    let n = trimmed_end_len_exec(&v);
                    proof {
                        lemma_trimmed_end_len_bounds(v@);
                    }
                    if n > 0 {
                        let t = slice_chars(&v, 0, n);
                        children.push(SpannedNode { node: Node::Text(chars_to_string(&t)), source: last.source });
                        assert(children@.drop_last() =~= before.drop_last());
                        proof {
                            assert(sn_ok(before.last()));
                        }
                    } else {
                        assert(children@ =~= before.drop_last());
                    }
                },
                other => {
                    children.push(SpannedNode { node: other, source: last.source });
                    assert(children@ =~= before);
                },
            }
        },
        None => {},
    }
    proof {
        assert forall|k: int| 0 <= k < children@.len() implies #[trigger] sn_ok(children@[k]) by {
            if k < before.len() - 1 {
                assert(children@[k] == before[k]);
                assert(sn_ok(before[k]));
            }
        }
    }
}

/// Index of the first whitespace char of `s`, or its length.
pub open spec fn first_ws(s: Seq<char>) -> int
    decreases s.len(),
{
    if s.len() == 0 || is_ws(s[0]) {
        0
    } else {
        1 + first_ws(s.drop_first())
    }
}

proof fn lemma_first_ws(s: Seq<char>)
    ensures
        0 <= first_ws(s) <= s.len(),
        first_ws(s) < s.len() ==> is_ws(s[first_ws(s)]),
        forall|j: int| 0 <= j < first_ws(s) ==> !is_ws(#[trigger] s[j]),
    decreases s.len(),
{
    if s.len() > 0 && !is_ws(s[0]) {
        lemma_first_ws(s.drop_first());
        assert forall|j: int| 0 <= j < first_ws(s) implies !is_ws(#[trigger] s[j]) by {
            if j > 0 {
                assert(s[j] == s.drop_first()[j - 1]);
            }
        }
    }
}

fn first_ws_exec(s: &[char]) -> (r: usize)
    ensures
        r == first_ws(s@),
{
    proof {
        lemma_first_ws(s@);
    }
    let mut i: usize = 0;
    while i < s.len() && !is_ws_exec(s[i])
        invariant
            i <= s@.len(),
            forall|j: int| 0 <= j < i ==> !is_ws(#[trigger] s@[j]),
            0 <= first_ws(s@) <= s@.len(),
            first_ws(s@) < s@.len() ==> is_ws(s@[first_ws(s@)]),
            forall|j: int| 0 <= j < first_ws(s@) ==> !is_ws(#[trigger] s@[j]),
        decreases s@.len() - i,
    {
        i += 1;
    }
    i
}

/// The first whitespace-delimited word of `s` and the rest after the
/// whitespace that follows it.
pub open spec fn first_word(s: Seq<char>) -> (Seq<char>, Seq<char>) {
    let t = trim_start(s);
    let i = first_ws(t);
    (t.subrange(0, i), trim_start(t.subrange(i, t.len() as int)))
}

/// Split a string into the first whitespace-delimited word and the remainder.
fn split_first_word_chars(s: &[char]) -> (r: (Vec<char>, Vec<char>))
    ensures
        (r.0@, r.1@) == first_word(s@),
{
    let a = ws_prefix_len_exec(s);
    proof {
        lemma_ws_prefix_len_bounds(s@);
    }
    let t = slice_chars(s, a, s.len());
    let i = first_ws_exec(&t);
    proof {
        lemma_first_ws(t@);
    }
    let word = slice_chars(&t, 0, i);
    let tail = slice_chars(&t, i, t.len());
    let b = ws_prefix_len_exec(&tail);
    proof {
        lemma_ws_prefix_len_bounds(tail@);
    }
    let rest = slice_chars(&tail, b, tail.len());
    (word, rest)
}

/// Split a string into the first whitespace-delimited word and the remainder.
pub fn split_first_word(s: &str) -> (r: (String, String))
    ensures
        (r.0@, r.1@) == first_word(s@),
{
    let (a, b) = split_first_word_chars(&str_chars(s));
    (chars_to_string(&a), chars_to_string(&b))
}

/// `s` without its leading zeros, or `"0"` when nothing else is left.
pub open spec fn without_leading_zeros(s: Seq<char>) -> Seq<char>
    decreases s.len(),
{
    if s.len() > 0 && s[0] == '0' {
        without_leading_zeros(s.drop_first())
    } else if s.len() == 0 {
        seq!['0']
    } else {
        s
    }
}

/// A chapter or verse number as it stands in an SID: a number of digits
/// only loses its leading zeros; ranges like "03-04" and non-numeric
/// strings like "1a" stay as they are.
pub open spec fn sid_number(s: Seq<char>) -> Seq<char> {
    if forall|j: int| 0 <= j < s.len() ==> is_digit(#[trigger] s[j]) {
        without_leading_zeros(s)
    } else {
        s
    }
}

/// Strip leading zeros from a numeric string for SID generation.
/// Ranges like "03-04" and non-numeric strings like "1a" are preserved
/// as-is.
fn strip_leading_zeros(s: &[char]) -> (r: Vec<char>)
    ensures
        r@ == sid_number(s@),
{
    let mut k: usize = 0;
    while k < s.len()
        invariant
            k <= s@.len(),
            forall|j: int| 0 <= j < k ==> is_digit(#[trigger] s@[j]),
        decreases s@.len() - k,
    {
        if !is_digit_exec(s[k]) {
            let r = slice_chars(s, 0, s.len());
            assert(r@ =~= s@);
            return r;
        }
        k += 1;
    }
    let mut i: usize = 0;
    assert(s@.subrange(0, s@.len() as int) =~= s@);
    while i < s.len() && s[i] == '0'
        invariant
            i <= s@.len(),
            without_leading_zeros(s@) == without_leading_zeros(s@.subrange(i as int, s@.len() as int)),
        decreases s@.len() - i,
    {
        assert(s@.subrange(i as int, s@.len() as int).drop_first() =~= s@.subrange(
            i + 1,
            s@.len() as int,
        ));
        i += 1;
    }
    if i == s.len() {
        assert(s@.subrange(i as int, s@.len() as int) =~= Seq::<char>::empty());
        let mut r = Vec::new();
        r.push('0');
        assert(r@ =~= seq!['0']);
        r
    } else {
        slice_chars(s, i, s.len())
    }
}

/// Index of the first `"` of `s` that has no backslash right before it.
pub open spec fn is_unescaped_quote(s: Seq<char>, i: int) -> bool {
    0 <= i < s.len() && s[i] == '"' && (i == 0 || s[i - 1] != '\\')
}

/// Find the first unescaped double-quote in a string.
/// A quote preceded by `\\` is considered escaped and skipped.
fn find_unescaped_quote(s: &[char]) -> (r: Option<usize>)
    ensures
        r matches Some(i) ==> is_unescaped_quote(s@, i as int) && forall|j: int|
            0 <= j < i ==> !is_unescaped_quote(s@, j),
        r is None ==> forall|j: int| 0 <= j < s@.len() ==> !is_unescaped_quote(s@, j),
{
    let mut i: usize = 0;
    while i < s.len()
        invariant
            i <= s@.len(),
            forall|j: int| 0 <= j < i ==> !is_unescaped_quote(s@, j),
        decreases s@.len() - i,
    {
        if s[i] == '"' && (i == 0 || s[i - 1] != '\\') {
            return Some(i);
        }
        i += 1;
    }
    None
}

/// `s` with every `\\"` replaced by `"`, left to right.
pub open spec fn unescape_quotes(s: Seq<char>) -> Seq<char>
    decreases s.len(),
{
    if s.len() >= 2 && s[0] == '\\' && s[1] == '"' {
        seq!['"'] + unescape_quotes(s.subrange(2, s.len() as int))
    } else if s.len() == 0 {
        seq![]
    } else {
        seq![s[0]] + unescape_quotes(s.drop_first())
    }
}

fn unescape_quotes_exec(s: &[char]) -> (r: Vec<char>)
    ensures
        r@ == unescape_quotes(s@),
{
    let mut out: Vec<char> = Vec::new();
    let mut i: usize = 0;
    assert(s@.subrange(0, s@.len() as int) =~= s@);
    assert(out@ + unescape_quotes(s@) =~= unescape_quotes(s@));
    while i < s.len()
        invariant
            i <= s@.len(),
            out@ + unescape_quotes(s@.subrange(i as int, s@.len() as int)) == unescape_quotes(s@),
        decreases s@.len() - i,
    {
        let ghost rest = s@.subrange(i as int, s@.len() as int);
        if i + 1 < s.len() && s[i] == '\\' && s[i + 1] == '"' {
            assert(rest.subrange(2, rest.len() as int) =~= s@.subrange(i + 2, s@.len() as int));
            out.push('"');
            assert(out@ + unescape_quotes(s@.subrange(i + 2, s@.len() as int)) =~= (out@.drop_last()
                + (seq!['"'] + unescape_quotes(rest.subrange(2, rest.len() as int)))));
            i += 2;
        } else {
            assert(rest.drop_first() =~= s@.subrange(i + 1, s@.len() as int));
            out.push(s[i]);
            assert(out@ + unescape_quotes(s@.subrange(i + 1, s@.len() as int)) =~= (out@.drop_last()
                + (seq![s@[i as int]] + unescape_quotes(rest.drop_first()))));
            i += 1;
        }
    }
    assert(s@.subrange(i as int, s@.len() as int) =~= Seq::<char>::empty());
    assert(out@ + Seq::<char>::empty() =~= out@);
    out
}

fn attribute(key: &[char], value: &[char]) -> (r: Attribute)
    ensures
        r.key@ == key@,
        r.value@ == value@,
{
    Attribute { key: chars_to_string(key), value: chars_to_string(value) }
}

fn contains_char(s: &[char], c: char) -> (r: bool)
    ensures
        r == s@.contains(c),
{
    let mut i: usize = 0;
    while i < s.len()
        invariant
            i <= s@.len(),
            forall|j: int| 0 <= j < i ==> s@[j] != c,
        decreases s@.len() - i,
    {
        if s[i] == c {
            assert(s@[i as int] == c);
            return true;
        }
        i += 1;
    }
    false
}

fn index_of_char(s: &[char], c: char) -> (r: Option<usize>)
    ensures
        r matches Some(i) ==> i < s@.len() && s@[i as int] == c && forall|j: int| 0 <= j < i ==> s@[j]
            != c,
        r is None ==> !s@.contains(c),
{
    let mut i: usize = 0;
    while i < s.len()
        invariant
            i <= s@.len(),
            forall|j: int| 0 <= j < i ==> s@[j] != c,
        decreases s@.len() - i,
    {
        if s[i] == c {
            return Some(i);
        }
        i += 1;
    }
    None
}

/// `s` without a leading `|`.
pub open spec fn attr_body(s: Seq<char>) -> Seq<char> {
    if s.len() > 0 && s[0] == '|' {
        s.drop_first()
    } else {
        s
    }
}

/// `i` is the index of the first `c` in `s`.
pub open spec fn is_first_of(s: Seq<char>, c: char, i: int) -> bool {
    0 <= i < s.len() && s[i] == c && forall|j: int| 0 <= j < i ==> s[j] != c
}

/// Index of the first `c` in `s`, or -1.
pub open spec fn first_of(s: Seq<char>, c: char) -> int {
    if exists|i: int| is_first_of(s, c, i) {
        choose|i: int| is_first_of(s, c, i)
    } else {
        -1
    }
}

/// `i` is the index of the first unescaped quote of `s`.
pub open spec fn is_first_quote(s: Seq<char>, i: int) -> bool {
    is_unescaped_quote(s, i) && forall|j: int| 0 <= j < i ==> !is_unescaped_quote(s, j)
}

/// Index of the first unescaped quote of `s`, or -1.
pub open spec fn first_quote(s: Seq<char>) -> int {
    if exists|i: int| is_first_quote(s, i) {
        choose|i: int| is_first_quote(s, i)
    } else {
        -1
    }
}

/// The `key="value"` pairs of `rem`, read left to right: each key is the
/// trimmed text before the next `=` (which must hold no space or quote),
/// each value the quoted text after it with `\"` unescaped, a value with
/// no closing quote running to the end; `None` where a pair is malformed.
pub open spec fn key_value_pairs(rem: Seq<char>) -> Option<Seq<(Seq<char>, Seq<char>)>>
    decreases rem.len(),
{
    proof {
        lemma_ws_prefix_len_bounds(rem);
    }
    let r = trim_start(rem);
    let eq = first_of(r, '=');
    if r.len() == 0 {
        Some(seq![])
    } else if eq < 0 {
        None
    } else {
        let before = r.subrange(0, eq);
        let after = r.subrange(eq + 1, r.len() as int);
        if before.contains(' ') || before.contains('"') || !(after.len() > 0 && after[0] == '"') {
            None
        } else {
            let key = trim(before);
            let body = after.drop_first();
            let q = first_quote(body);
            if q < 0 {
                Some(seq![(key, unescape_quotes(body))])
            } else {
                match key_value_pairs(body.subrange(q + 1, body.len() as int)) {
                    Some(rest) => Some(seq![(key, unescape_quotes(body.subrange(0, q)))] + rest),
                    None => None,
                }
            }
        }
    }
}

/// The attributes of an attribute string: none for an empty one, a bare
/// value as `default`, otherwise its `key="value"` pairs.
pub open spec fn attributes_of(s: Seq<char>) -> Option<Seq<(Seq<char>, Seq<char>)>> {
    let b = attr_body(s);
    if b.len() == 0 {
        Some(seq![])
    } else if !b.contains('=') {
        Some(seq![("default"@, b)])
    } else {
        key_value_pairs(b)
    }
}

pub open spec fn attribute_views(v: Seq<Attribute>) -> Seq<(Seq<char>, Seq<char>)> {
    v.map_values(|a: Attribute| (a.key@, a.value@))
}

pub open spec fn prepend_pairs(
    a: Seq<(Seq<char>, Seq<char>)>,
    o: Option<Seq<(Seq<char>, Seq<char>)>>,
) -> Option<Seq<(Seq<char>, Seq<char>)>> {
    match o {
        Some(rest) => Some(a + rest),
        None => None,
    }
}

proof fn lemma_trim_start_idempotent(s: Seq<char>)
    ensures
        trim_start(trim_start(s)) == trim_start(s),
{
    lemma_ws_prefix_len_bounds(s);
    let u = trim_start(s);
    lemma_ws_prefix_len_bounds(u);
    if u.len() > 0 {
        assert(u[0] == s[ws_prefix_len(s)]);
    }
    assert(ws_prefix_len(u) == 0);
    assert(trim_start(u) =~= u);
}

proof fn lemma_key_value_pairs_trim(rem: Seq<char>)
    ensures
        key_value_pairs(trim_start(rem)) == key_value_pairs(rem),
{
    lemma_trim_start_idempotent(rem);
}

/// Parse an attribute string like `|key="value" key2="value2"` or `|default`
/// into a vector of [`Attribute`]s.
///
/// Leading `|` is stripped. A bare value without `key=` is stored with key
/// `"default"`.
///
/// Returns `None` when the attribute string is malformed (e.g. unquoted
/// values in `key=value` pairs). The caller should treat the raw string
/// as text content in that case.
pub fn parse_attributes(attr_str: &str) -> (r: Option<Vec<Attribute>>)
    ensures
        r matches Some(v) ==> attributes_of(attr_str@) == Some(attribute_views(v@)),
        r is None ==> attributes_of(attr_str@) is None,
{
    let all = str_chars(attr_str);
    let s = if all.len() > 0 && all[0] == '|' {
        slice_chars(&all, 1, all.len())
    } else {
        all
    };
    assert(s@ == attr_body(attr_str@)) by {
        if attr_str@.len() > 0 && attr_str@[0] == '|' {
            assert(attr_str@.subrange(1, attr_str@.len() as int) =~= attr_str@.drop_first());
        }
    }
    if s.len() == 0 {
        let v: Vec<Attribute> = Vec::new();
        assert(attribute_views(v@) =~= seq![]);
        return Some(v);
    }
    if !contains_char(&s, '=') {
        let mut v = Vec::new();
        let d = str_chars("default");
        v.push(attribute(&d, &s));
        assert(attribute_views(v@) =~= seq![("default"@, s@)]);
        return Some(v);
    }
    let mut attrs: Vec<Attribute> = Vec::new();
    let mut remaining = s;
    assert(attribute_views(attrs@) + Seq::<(Seq<char>, Seq<char>)>::empty() =~= Seq::<(Seq<char>, Seq<char>)>::empty());
    loop
        invariant
            s@ == attr_body(attr_str@),
            s@.len() > 0,
            s@.contains('='),
            key_value_pairs(s@) == prepend_pairs(attribute_views(attrs@), key_value_pairs(remaining@)),
        decreases remaining@.len(),
    {
        let ghost prev = remaining@;
        let b = ws_prefix_len_exec(&remaining);
        proof {
            lemma_ws_prefix_len_bounds(remaining@);
            lemma_key_value_pairs_trim(remaining@);
        }
        remaining = slice_chars(&remaining, b, remaining.len());
        let ghost r0 = remaining@;
        assert(r0 == trim_start(prev));
        proof {
            lemma_ws_prefix_len_bounds(r0);
            lemma_trim_start_idempotent(prev);
        }
        assert(trim_start(r0) == r0);
        if remaining.len() == 0 {
            assert(attribute_views(attrs@) + Seq::<(Seq<char>, Seq<char>)>::empty() =~= attribute_views(attrs@));
            return Some(attrs);
        }
        let eq_opt = index_of_char(&remaining, '=');
        match eq_opt {
            Some(eq_pos) => {
                assert(is_first_of(r0, '=', eq_pos as int));
                assert(first_of(r0, '=') == eq_pos) by {
                    let c = choose|i: int| is_first_of(r0, '=', i);
                    if c < eq_pos {
                    } else if c > eq_pos {
                    }
                }
                let before_eq = slice_chars(&remaining, 0, eq_pos);
                if !contains_char(&before_eq, ' ') && !contains_char(&before_eq, '"') {
                    let kb = ws_prefix_len_exec(&before_eq);
                    proof {
                        lemma_ws_prefix_len_bounds(before_eq@);
                    }
                    let k1 = slice_chars(&before_eq, kb, before_eq.len());
                    let ke = trimmed_end_len_exec(&k1);
                    proof {
                        lemma_trimmed_end_len_bounds(k1@);
                    }
                    let key = slice_chars(&k1, 0, ke);
                    assert(key@ == trim(before_eq@));
                    remaining = slice_chars(&remaining, eq_pos + 1, remaining.len());
                    if remaining.len() > 0 && remaining[0] == '"' {
                        remaining = slice_chars(&remaining, 1, remaining.len());
                        let ghost body = remaining@;
                        assert(body == r0.subrange(eq_pos + 1, r0.len() as int).drop_first());
                        match find_unescaped_quote(&remaining) {
                            Some(end_quote) => {
                                assert(is_first_quote(body, end_quote as int));
                                assert(first_quote(body) == end_quote) by {
                                    let c = choose|i: int| is_first_quote(body, i);
                                    if c < end_quote {
                                    } else if c > end_quote {
                                    }
                                }
                                let raw = slice_chars(&remaining, 0, end_quote);
                                let value = unescape_quotes_exec(&raw);
                                let ghost before_attrs = attribute_views(attrs@);
                                let attr = attribute(&key, &value);
                                attrs.push(attr);
                                assert(attribute_views(attrs@) =~= before_attrs.push((key@, value@)));
                                remaining = slice_chars(&remaining, end_quote + 1, remaining.len());
                                assert(remaining@ == body.subrange(end_quote + 1, body.len() as int));
                                proof {
                                    match key_value_pairs(remaining@) {
                                        Some(rest) => {
                                            assert(before_attrs + (seq![(key@, value@)] + rest) =~= before_attrs.push(
                                                (key@, value@),
                                            ) + rest);
                                        },
                                        None => {},
                                    }
                                }
                            },
                            None => {
                                assert(first_quote(body) == -1) by {
                                    if exists|i: int| is_first_quote(body, i) {
                                        let c = choose|i: int| is_first_quote(body, i);
                                        assert(is_unescaped_quote(body, c));
                                    }
                                }
                                let value = unescape_quotes_exec(&remaining);
                                let ghost before_attrs = attribute_views(attrs@);
                                attrs.push(attribute(&key, &value));
                                assert(attribute_views(attrs@) =~= before_attrs + seq![(key@, value@)]);
                                return Some(attrs);
                            },
                        }
                    } else {
                        return None;
                    }
                } else {
                    assert(before_eq@.contains(' ') || before_eq@.contains('"'));
                    return None;
                }
            },
            None => {
                assert(first_of(r0, '=') == -1) by {
                    if exists|i: int| is_first_of(r0, '=', i) {
                        let c = choose|i: int| is_first_of(r0, '=', i);
                        assert(r0.contains('=')) by {
                            assert(r0[c] == '=');
                        }
                    }
                }
                return None;
            },
        }
    }
}

/// The attribute key after resolving: a bare `default` key takes the
/// marker's default attribute name, and `\fig`'s `src` becomes `file`.
pub open spec fn resolved_key(marker: Seq<char>, key: Seq<char>) -> Seq<char> {
    if key == "default"@ && default_attr(marker) is Some {
        default_attr(marker).unwrap()
    } else if marker == "fig"@ && key == "src"@ {
        "file"@
    } else {
        key
    }
}

/// Replace any `"default"` attribute keys with the marker-specific default
/// attribute name (e.g. `"lemma"` for `\w`, `"gloss"` for `\rb`).
/// Also applies marker-specific key renaming (e.g. `src` → `file` for `\fig`).
fn resolve_default_attr_keys(marker: &str, attrs: Vec<Attribute>) -> (r: Vec<Attribute>)
    ensures
        r@.len() == attrs@.len(),
        forall|k: int|
            0 <= k < attrs@.len() ==> (#[trigger] r@[k]).key@ == resolved_key(marker@, attrs@[k].key@)
                && r@[k].value@ == attrs@[k].value@,
{
    let default_key = default_attribute(marker);
    let is_fig = str_eq_lit(marker, "fig");
    let ghost orig = attrs@;
    let mut rest = attrs;
    let mut rev: Vec<Attribute> = Vec::new();
    while rest.len() > 0
        invariant
            rest@.len() + rev@.len() == orig.len(),
            forall|k: int| 0 <= k < rest@.len() ==> rest@[k] == orig[k],
            forall|k: int|
                0 <= k < rev@.len() ==> (#[trigger] rev@[k]).key@ == resolved_key(
                    marker@,
                    orig[orig.len() - 1 - k].key@,
                ) && rev@[k].value@ == orig[orig.len() - 1 - k].value@,
            opt_str_view(default_key) == default_attr(marker@),
            is_fig == (marker@ == "fig"@),
        decreases rest@.len(),
    {
        let a = rest.pop().unwrap();
        let is_default = str_eq_lit(a.key.as_str(), "default");
        let key = if is_default && default_key.is_some() {
            str_to_string(default_key.unwrap())
        } else if is_fig && str_eq_lit(a.key.as_str(), "src") {
            str_to_string("file")
        } else {
            a.key
        };
        rev.push(Attribute { key, value: a.value });
    }
    let mut out: Vec<Attribute> = Vec::new();
    while rev.len() > 0
        invariant
            rev@.len() + out@.len() == orig.len(),
            forall|k: int|
                0 <= k < rev@.len() ==> (#[trigger] rev@[k]).key@ == resolved_key(
                    marker@,
                    orig[orig.len() - 1 - k].key@,
                ) && rev@[k].value@ == orig[orig.len() - 1 - k].value@,
            forall|k: int|
                0 <= k < out@.len() ==> (#[trigger] out@[k]).key@ == resolved_key(marker@, orig[k].key@)
                    && out@[k].value@ == orig[k].value@,
        decreases rev@.len(),
    {
        let a = rev.pop().unwrap();
        out.push(a);
    }
    out
}

/// Whether `s` is the literal `lit`.
fn str_eq_lit(s: &str, lit: &str) -> (r: bool)
    ensures
        r == (s@ == lit@),
{
    crate::text::str_eq(s, lit)
}

/// The concatenated text of `content` when it holds only text nodes,
/// trimmed, if anything is left.
pub open spec fn plain_text(content: Seq<Node>) -> Option<Seq<char>> {
    if forall|k: int| 0 <= k < content.len() ==> #[trigger] content[k] is Text {
        let t = trim(concat_texts(content));
        if t.len() > 0 {
            Some(t)
        } else {
            None
        }
    } else {
        None
    }
}

/// The texts of the text nodes of `content`, concatenated.
pub open spec fn concat_texts(content: Seq<Node>) -> Seq<char>
    decreases content.len(),
{
    if content.len() == 0 {
        seq![]
    } else {
        concat_texts(content.drop_last()) + match content.last() {
            Node::Text(s) => s@,
            _ => seq![],
        }
    }
}

fn trimmed_nonempty(s: &[char]) -> (r: Option<String>)
    ensures
        opt_string(r) == (if trim(s@).len() > 0 {
            Some(trim(s@))
        } else {
            None
        }),
{
    let a = ws_prefix_len_exec(s);
    proof {
        lemma_ws_prefix_len_bounds(s@);
    }
    let rest = slice_chars(s, a, s.len());
    let b = trimmed_end_len_exec(&rest);
    proof {
        lemma_trimmed_end_len_bounds(rest@);
    }
    if b == 0 {
        None
    } else {
        Some(chars_to_string(&slice_chars(&rest, 0, b)))
    }
}

pub open spec fn opt_string(o: Option<String>) -> Option<Seq<char>> {
    match o {
        Some(s) => Some(s@),
        None => None,
    }
}

fn extract_plain_text_nodes(content: &[Node]) -> (r: Option<String>)
    ensures
        opt_string(r) == plain_text(content@),
{
    let mut text: Vec<char> = Vec::new();
    let mut i: usize = 0;
    while i < content.len()
        invariant
            i <= content@.len(),
            forall|k: int| 0 <= k < i ==> #[trigger] content@[k] is Text,
            text@ == concat_texts(content@.subrange(0, i as int)),
        decreases content@.len() - i,
    {
        assert(content@.subrange(0, i + 1).drop_last() =~= content@.subrange(0, i as int));
        match &content[i] {
            Node::Text(s) => {
                let v = str_chars(s.as_str());
                let mut j: usize = 0;
                let ghost t0 = text@;
                while j < v.len()
                    invariant
                        j <= v@.len(),
                        text@ == t0 + v@.subrange(0, j as int),
                    decreases v@.len() - j,
                {
                    text.push(v[j]);
                    assert(v@.subrange(0, j + 1) =~= v@.subrange(0, j as int).push(v@[j as int]));
                    j += 1;
                }
                assert(v@.subrange(0, v@.len() as int) =~= v@);
            },
            _ => {
                return None;
            },
        }
        i += 1;
    }
    assert(content@.subrange(0, content@.len() as int) =~= content@);
    trimmed_nonempty(&text)
}

/// The text a `\\ca`, `\\cp`, `\\va`, `\\vp` or `\\cat` node carries.
pub open spec fn node_text(n: Node) -> Option<Seq<char>> {
    match n {
        Node::Text(s) => if trim(s@).len() > 0 {
            Some(trim(s@))
        } else {
            None
        },
        _ => plain_text(children_of(n)),
    }
}

fn extract_node_text(node: &Node) -> (r: Option<String>)
    ensures
        opt_string(r) == node_text(*node),
{
    match node {
        Node::Text(text) => trimmed_nonempty(&str_chars(text.as_str())),
        other => extract_plain_text_nodes(other.children()),
    }
}

/// The index of the first `\\cat` node of `v`, character or paragraph.
pub open spec fn is_cat(n: Node) -> bool {
    match n {
        Node::Char(data) => data.marker@ == "cat"@,
        Node::Para { marker, .. } => marker@ == "cat"@,
        _ => false,
    }
}

/// Index of the first `\cat` node of `v`, or its length.
fn find_cat(v: &Vec<SpannedNode>) -> (r: usize)
    ensures
        r <= v@.len(),
        forall|j: int| 0 <= j < r ==> !is_cat(#[trigger] v@[j].node),
        r < v@.len() ==> is_cat(v@[r as int].node),
{
    let mut idx: usize = 0;
    while idx < v.len()
        invariant
            idx <= v@.len(),
            forall|j: int| 0 <= j < idx ==> !is_cat(#[trigger] v@[j].node),
        decreases v@.len() - idx,
    {
        let hit = match &v[idx].node {
            Node::Char(data) => data.marker == "cat",
            Node::Para { marker, .. } => *marker == "cat",
            _ => false,
        };
        if hit {
            return idx;
        }
        idx += 1;
    }
    idx
}

/// Extract a `\cat` child from a list of nodes, returning (category,
/// remaining children).  The `\cat` node (and any whitespace-only text
/// right before it) is removed from the children list.
fn extract_category(children: Vec<SpannedNode>) -> (r: (Option<String>, Vec<SpannedNode>))
    requires
        all_ok(children@),
    ensures
        all_ok(r.1@),
        (forall|k: int| 0 <= k < children@.len() ==> !is_cat(#[trigger] children@[k].node)) ==> r.0
            is None && r.1@ == children@,
        (exists|k: int| 0 <= k < children@.len() && is_cat(#[trigger] children@[k].node)) ==> ({
            let idx = choose|k: int|
                0 <= k < children@.len() && is_cat(#[trigger] children@[k].node) && forall|j: int|
                    0 <= j < k ==> !is_cat(children@[j].node);
            opt_string(r.0) == node_text(children@[idx].node)
        }),
        (exists|k: int| 0 <= k < children@.len() && is_cat(#[trigger] children@[k].node)) ==> exists|i: int|
            0 <= i < children@.len() && is_cat(children@[i].node) && (r.1@ == children@.remove(i) || (i > 0
                && children@[i - 1].node is Text && r.1@ == children@.remove(i).remove(i - 1))),
{
    let mut children = children;
    let idx = find_cat(&children);
    if idx == children.len() {
        return (None, children);
    }
    let ghost before = children@;
    proof {
        let w = choose|k: int|
            0 <= k < before.len() && is_cat(#[trigger] before[k].node) && forall|j: int|
                0 <= j < k ==> !is_cat(before[j].node);
        assert(is_cat(before[idx as int].node));
        if w < idx {
        } else if w > idx {
            assert(!is_cat(before[idx as int].node));
        }
        assert(w == idx);
    }
    let cat_node = children.remove(idx);
    let text = extract_node_text(&cat_node.node);
    if idx > 0 {
        let blank = match &children[idx - 1].node {
            Node::Text(t) => trimmed_nonempty(&str_chars(t.as_str())).is_none(),
            _ => false,
        };
        if blank {
            children.remove(idx - 1);
        }
    }
    proof {
        assert forall|k: int| 0 <= k < children@.len() implies #[trigger] sn_ok(children@[k]) by {
            let mid = before.remove(idx as int);
            assert(forall|q: int| 0 <= q < mid.len() ==> sn_ok(#[trigger] mid[q])) by {
                assert forall|q: int| 0 <= q < mid.len() implies sn_ok(#[trigger] mid[q]) by {
                    if q < idx {
                        assert(mid[q] == before[q]);
                    } else {
                        assert(mid[q] == before[q + 1]);
                    }
                    assert(sn_ok(before[if q < idx { q } else { q + 1 }]));
                }
            }
            if children@.len() == mid.len() {
                assert(children@ == mid);
            } else {
                let q = if k < idx - 1 { k } else { k + 1 };
                assert(children@[k] == mid[q]);
            }
        }
        let mid = before.remove(idx as int);
        if children@.len() == mid.len() {
            assert(children@ =~= mid);
        } else {
            assert(children@ =~= mid.remove(idx - 1));
            assert(mid[idx - 1] == before[idx - 1]);
        }
    }
    (text, children)
}

} // verus!

verus! {

proof fn lemma_aligned_push(ns: Seq<Node>, ss: Seq<SourceNode>, n: Node, s: SourceNode)
    requires
        aligned_all(ns, ss),
        aligned(n, s),
    ensures
        aligned_all(ns.push(n), ss.push(s)),
{
    assert forall|k: int| 0 <= k < ns.push(n).len() implies aligned(
        #[trigger] ns.push(n)[k],
        ss.push(s)[k],
    ) by {
        if k < ns.len() {
            assert(ns.push(n)[k] == ns[k]);
            assert(ss.push(s)[k] == ss[k]);
        }
    }
}

/// Whether `n` is a chapter (`chapter`) or a verse (otherwise).
spec fn number_target(n: Node, chapter: bool) -> bool {
    if chapter {
        n is Chapter
    } else {
        n is Verse
    }
}

/// `i` is the last chapter (or verse) of `v`.
spec fn is_last_target(v: Seq<SpannedNode>, i: int, chapter: bool) -> bool {
    &&& 0 <= i < v.len()
    &&& number_target(v[i].node, chapter)
    &&& forall|j: int| i < j < v.len() ==> !number_target(#[trigger] v[j].node, chapter)
}

/// `n` with its alternate (`alt`) or published number set to `value`.
spec fn with_number(n: Node, value: String, alt: bool) -> Node {
    match n {
        Node::Chapter(d) => Node::Chapter(
            Box::new(
                ChapterData {
                    marker: d.marker,
                    number: d.number,
                    sid: d.sid,
                    altnumber: if alt {
                        Some(value)
                    } else {
                        d.altnumber
                    },
                    pubnumber: if alt {
                        d.pubnumber
                    } else {
                        Some(value)
                    },
                },
            ),
        ),
        Node::Verse(d) => Node::Verse(
            Box::new(
                VerseData {
                    marker: d.marker,
                    number: d.number,
                    sid: d.sid,
                    altnumber: if alt {
                        Some(value)
                    } else {
                        d.altnumber
                    },
                    pubnumber: if alt {
                        d.pubnumber
                    } else {
                        Some(value)
                    },
                },
            ),
        ),
        other => other,
    }
}

/// `v` with the number of its last chapter (or verse) set; `v` itself
/// where it has none.
spec fn last_number_set(v: Seq<SpannedNode>, value: String, chapter: bool, alt: bool) -> Seq<SpannedNode> {
    if exists|i: int| is_last_target(v, i, chapter) {
        let i = choose|i: int| is_last_target(v, i, chapter);
        v.update(i, SpannedNode { node: with_number(v[i].node, value, alt), source: v[i].source })
    } else {
        v
    }
}

/// Sets the alternate or published number of the last chapter (or verse)
/// among `children`.
fn set_last_number(children: &mut Vec<SpannedNode>, value: String, chapter: bool, alt: bool)
    requires
        all_ok(old(children)@),
    ensures
        all_ok(final(children)@),
        final(children)@.len() == old(children)@.len(),
        final(children)@ == last_number_set(old(children)@, value, chapter, alt),
{
    let mut i = children.len();
    while i > 0
        invariant
            i <= children@.len(),
            all_ok(children@),
            children@.len() == old(children)@.len(),
            children@ == old(children)@,
            forall|j: int| i <= j < children@.len() ==> !number_target(#[trigger] children@[j].node, chapter),
        decreases i,
    {
        let hit = match &children[i - 1].node {
            Node::Chapter(_) => chapter,
            Node::Verse(_) => !chapter,
            _ => false,
        };
        if hit {
            let ghost before = children@;
            let sn = children.remove(i - 1);
            assert(sn_ok(before[i - 1]));
            let node = match sn.node {
                Node::Chapter(data) => {
                    let mut d = *data;
                    if alt {
                        d.altnumber = Some(value);
                    } else {
                        d.pubnumber = Some(value);
                    }
                    Node::Chapter(Box::new(d))
                },
                Node::Verse(data) => {
                    let mut d = *data;
                    if alt {
                        d.altnumber = Some(value);
                    } else {
                        d.pubnumber = Some(value);
                    }
                    Node::Verse(Box::new(d))
                },
                other => other,
            };
            children.insert(i - 1, SpannedNode { node, source: sn.source });
            proof {
                assert forall|k: int| 0 <= k < children@.len() implies #[trigger] sn_ok(children@[k]) by {
                    if k != i - 1 {
                        assert(children@[k] == before[k]);
                        assert(sn_ok(before[k]));
                    }
                }
                let t = (i - 1) as int;
                assert(is_last_target(before, t, chapter));
                let c = choose|c: int| is_last_target(before, c, chapter);
                if c < t {
                    assert(!number_target(before[t].node, chapter));
                } else if t < c {
                    assert(!number_target(before[c].node, chapter));
                }
                assert(children@ =~= before.update(
                    t,
                    SpannedNode { node: with_number(before[t].node, value, alt), source: before[t].source },
                ));
            }
            return;
        }
        i -= 1;
    }
    proof {
        assert forall|c: int| !is_last_target(children@, c, chapter) by {
            if 0 <= c < children@.len() {
                assert(!number_target(children@[c].node, chapter));
            }
        }
    }
}

/// `\\ca`, `\\cp`, `\\va` and `\\vp` with text are folded into the last
/// chapter or verse as its alternate or published number; the text node of
/// blanks right before them goes too.  Tells whether `node` was absorbed.
fn absorb_number(children: &mut Vec<SpannedNode>, node: &SpannedNode) -> (absorbed: bool)
    requires
        all_ok(old(children)@),
    ensures
        all_ok(final(children)@),
        !absorbed ==> final(children)@ == old(children)@,
        absorbed == (number_marker(node.node) && node_text(node.node) is Some),
        absorbed ==> exists|v: String|
            #![trigger v@]
            v@ == node_text(node.node).unwrap() && final(children)@ == last_number_set(
                without_blank_last(old(children)@),
                v,
                marker_of(node.node).unwrap()@ == "ca"@ || marker_of(node.node).unwrap()@ == "cp"@,
                marker_of(node.node).unwrap()@ == "ca"@ || marker_of(node.node).unwrap()@ == "va"@,
            ),
{
    let m = match node.node.marker() {
        Some(m) => m,
        None => return false,
    };
    let is_ca = m == "ca";
    let is_cp = m == "cp";
    let is_va = m == "va";
    let is_vp = m == "vp";
    if !(is_ca || is_cp || is_va || is_vp) {
        return false;
    }
    let text = match extract_node_text(&node.node) {
        Some(t) => t,
        None => return false,
    };
    let blank_last = match children.last() {
        Some(last) => match &last.node {
            Node::Text(t) => trimmed_nonempty(&str_chars(t.as_str())).is_none(),
            _ => false,
        },
        None => false,
    };
    if blank_last {
        let ghost before = children@;
        children.pop();
        assert forall|k: int| 0 <= k < children@.len() implies #[trigger] sn_ok(children@[k]) by {
            assert(children@[k] == before[k]);
            assert(sn_ok(before[k]));
        }
    }
    assert(children@ == without_blank_last(old(children)@));
    let ghost tv = text;
    set_last_number(children, text, is_ca || is_cp, is_ca || is_va);
    true
}

/// Whether `n` is one of `\ca`, `\cp`, `\va`, `\vp`.
spec fn number_marker(n: Node) -> bool {
    marker_of(n) matches Some(m) && (m@ == "ca"@ || m@ == "cp"@ || m@ == "va"@ || m@ == "vp"@)
}

/// `v` without its last node where that is a text of blanks only.
spec fn without_blank_last(v: Seq<SpannedNode>) -> Seq<SpannedNode> {
    if v.len() > 0 && (v.last().node matches Node::Text(t) && trim(t@).len() == 0) {
        v.drop_last()
    } else {
        v
    }
}

/// Table rows gather in a table: the last child if it is one, else a new
/// table around the row.
fn push_table_row(children: &mut Vec<SpannedNode>, row: SpannedNode)
    requires
        all_ok(old(children)@),
        sn_ok(row),
    ensures
        all_ok(final(children)@),
        last_is_table(old(children)@) ==> {
            let n = old(children)@.len() - 1;
            let last = old(children)@[n];
            &&& final(children)@.len() == old(children)@.len()
            &&& final(children)@.subrange(0, n) == old(children)@.subrange(0, n)
            &&& final(children)@[n].node matches Node::Table { content } && content@ == children_of(
                last.node,
            ).push(row.node)
            &&& final(children)@[n].source.children@ == last.source.children@.push(row.source)
            &&& final(children)@[n].source.spans == last.source.spans
            &&& final(children)@[n].source.anchor_cst == last.source.anchor_cst
        },
        !last_is_table(old(children)@) ==> {
            let n = old(children)@.len() as int;
            &&& final(children)@.len() == n + 1
            &&& final(children)@.subrange(0, n) == old(children)@
            &&& final(children)@[n].node matches Node::Table { content } && content@ == seq![row.node]
            &&& final(children)@[n].source.children@ == seq![row.source]
            &&& final(children)@[n].source.spans matches Some(sp) && sp.node == row_span(row) && sp.code is None
                && sp.number is None && sp.close is None
            &&& final(children)@[n].source.anchor_cst is None
        },
{
    let ghost before = children@;
    let last_is_table = match children.last() {
        Some(last) => matches!(last.node, Node::Table { .. }),
        None => false,
    };
    if last_is_table {
        assert(sn_ok(before[before.len() - 1]));
        let last = children.pop().unwrap();
        let source = last.source;
        match last.node {
            Node::Table { content } => {
                let mut content = content;
                let mut kids = source.children;
                proof {
                    lemma_aligned_push(content@, kids@, row.node, row.source);
                }
                content.push(row.node);
                kids.push(row.source);
                let source = SourceNode { spans: source.spans, children: kids, anchor_cst: source.anchor_cst };
                children.push(SpannedNode { node: Node::Table { content }, source });
            },
            other => {
                children.push(SpannedNode { node: other, source });
            },
        }
    } else {
        let span = match &row.source.spans {
            Some(spans) => spans.node.clone(),
            None => 0..0,
        };
        let mut content = Vec::new();
        let mut kids = Vec::new();
        proof {
            lemma_aligned_push(content@, kids@, row.node, row.source);
        }
        content.push(row.node);
        kids.push(row.source);
        children.push(SpannedNode {
            node: Node::Table { content },
            source: SourceNode::structural(SourceSpans::node(span), kids, None),
        });
    }
    proof {
        assert forall|k: int| 0 <= k < children@.len() implies #[trigger] sn_ok(children@[k]) by {
            if k < before.len() - 1 || (!last_is_table && k < before.len()) {
                assert(children@[k] == before[k]);
                assert(sn_ok(before[k]));
            }
        }
    }
}

/// Whether the last of `v` is a table.
spec fn last_is_table(v: Seq<SpannedNode>) -> bool {
    v.len() > 0 && v.last().node is Table
}

/// The span of a table row: its node span, or empty where it has none.
spec fn row_span(row: SpannedNode) -> Span {
    match row.source.spans {
        Some(sp) => sp.node,
        None => 0..0,
    }
}

/// Whether `s` ends in neither a space nor a no-break space.
fn text_needs_space(s: &str) -> (r: bool)
    ensures
        r == !(s@.len() > 0 && (s@.last() == ' ' || s@.last() == '\u{00a0}')),
{
    let v = str_chars(s);
    !(v.len() > 0 && (v[v.len() - 1] == ' ' || v[v.len() - 1] == '\u{00a0}'))
}

/// `v` with every `~` turned into a no-break space.
fn replace_tilde(v: &[char]) -> (r: Vec<char>)
    ensures
        r@.len() == v@.len(),
        forall|k: int|
            0 <= k < v@.len() ==> (#[trigger] r@[k]) == (if v@[k] == '~' {
                '\u{00a0}'
            } else {
                v@[k]
            }),
{
    let mut out: Vec<char> = Vec::new();
    let mut i: usize = 0;
    while i < v.len()
        invariant
            i <= v@.len(),
            out@.len() == i,
            forall|k: int|
                0 <= k < i ==> (#[trigger] out@[k]) == (if v@[k] == '~' {
                    '\u{00a0}'
                } else {
                    v@[k]
                }),
        decreases v@.len() - i,
    {
        out.push(if v[i] == '~' { '\u{00a0}' } else { v[i] });
        i += 1;
    }
    out
}

fn space() -> (r: Vec<char>)
    ensures
        r@ == seq![' '],
{
    let mut v = Vec::new();
    v.push(' ');
    assert(v@ =~= seq![' ']);
    v
}

} // verus!

verus! {

/// `id` names a node of the well-formed tree `doc`.
pub open spec fn valid_id(doc: &CstDocument, id: CstNodeId) -> bool {
    doc.wf() && 0 <= id@ < doc.nodes_view().len()
}

/// A child cursor below `id`: nothing, or a later node of the tree.
spec fn cursor_ok(doc: &CstDocument, id: CstNodeId, c: Option<CstNodeId>) -> bool {
    c matches Some(x) ==> id@ < x@ < doc.nodes_view().len()
}

spec fn cursor_measure(doc: &CstDocument, c: Option<CstNodeId>) -> int {
    match c {
        Some(x) => doc.nodes_view().len() - x@,
        None => 0,
    }
}

/// Whether a child kind is what `pick` looks for: 0 a milestone end, 1
/// anything but markers, whitespace, attributes and milestone ends, -1 a
/// text token, any other a marker token.
pub open spec fn pick_kind(k: CstKind, pick: int) -> bool {
    if pick == 0 {
        k is MilestoneEndToken
    } else if pick == 1 {
        !(k is MarkerToken || k is WhitespaceToken || k is NewlineToken || k is AttributesToken
            || k is MilestoneEndToken)
    } else if pick == -1 {
        k is TextToken
    } else if pick == -3 {
        k is Chapter || k is Verse
    } else {
        k is MarkerToken
    }
}

/// The first node of the sibling chain from `c` on whose kind `pick` looks
/// for.
pub open spec fn first_sibling_where(nodes: Seq<CstNode>, c: Option<CstNodeId>, pick: int) -> Option<int>
    decreases (match c {
        Some(x) => nodes.len() - x@,
        None => 0,
    }),
{
    match c {
        None => None,
        Some(x) => if !(0 <= x@ < nodes.len()) {
            None
        } else if pick_kind(nodes[x@].kind, pick) {
            Some(x@)
        } else {
            match nodes[x@].next_sibling {
                Some(n) => if x@ < n@ < nodes.len() {
                    first_sibling_where(nodes, Some(n), pick)
                } else {
                    None
                },
                None => None,
            }
        },
    }
}

/// The first child of `id` whose kind `pick` looks for.
spec fn first_child_pick(doc: &CstDocument, id: CstNodeId, pick: int) -> Option<int> {
    first_sibling_where(doc.nodes_view(), doc.nodes_view()[id@].first_child, pick)
}

/// What a chapter (`chapter`) or verse number raises: a missing number,
/// or leading zeros, each pointing at the marker.
pub open spec fn number_diag_views(number: Seq<char>, span: Span, anchor: usize, chapter: bool) -> Seq<
    crate::validation::DiagView,
> {
    (if number.len() == 0 {
        seq![
            crate::validation::DiagView {
                severity: crate::diagnostics::Severity::Error,
                code: if chapter {
                    crate::diagnostics::DiagnosticCode::MissingChapterNumber
                } else {
                    crate::diagnostics::DiagnosticCode::MissingVerseNumber
                },
                message: if chapter {
                    "\\c marker is missing a chapter number"@
                } else {
                    "\\v marker is missing a verse number"@
                },
                span,
                anchor_cst: Some(anchor),
            },
        ]
    } else {
        seq![]
    }) + (if number.len() > 1 && number[0] == '0' {
        seq![
            crate::validation::DiagView {
                severity: crate::diagnostics::Severity::Error,
                code: crate::diagnostics::DiagnosticCode::LeadingZeros,
                message: "leading zeros in number '"@ + number + "'"@,
                span,
                anchor_cst: Some(anchor),
            },
        ]
    } else {
        seq![]
    })
}

/// The marker that a following sibling of this kind closes an open
/// inline node with: a paragraph, book, sidebar or periph its own marker,
/// a chapter `c`, a table or row `tr`.
spec fn sibling_closer(k: CstKind) -> Option<Seq<char>> {
    match k {
        CstKind::Para { marker } => Some(marker@),
        CstKind::Book { marker } => Some(marker@),
        CstKind::Sidebar { marker } => Some(marker@),
        CstKind::Periph { marker } => Some(marker@),
        CstKind::Chapter { .. } => Some("c"@),
        CstKind::Table => Some("tr"@),
        CstKind::TableRow { .. } => Some("tr"@),
        _ => None,
    }
}

/// The first closer among the siblings from `c` on.
spec fn closer_from(nodes: Seq<CstNode>, c: Option<CstNodeId>) -> Option<Seq<char>>
    decreases (match c {
        Some(x) => nodes.len() - x@,
        None => 0,
    }),
{
    match c {
        None => None,
        Some(x) => if !(0 <= x@ < nodes.len()) {
            None
        } else if sibling_closer(nodes[x@].kind) is Some {
            sibling_closer(nodes[x@].kind)
        } else {
            match nodes[x@].next_sibling {
                Some(n) => if x@ < n@ < nodes.len() {
                    closer_from(nodes, Some(n))
                } else {
                    None
                },
                None => None,
            }
        },
    }
}

/// The marker that closed node `id` implicitly: the first closer among its
/// later siblings, else a paragraph or chapter right after its parent,
/// else the end of the file.
spec fn implicit_closer(nodes: Seq<CstNode>, id: int) -> Seq<char> {
    match closer_from(nodes, nodes[id].next_sibling) {
        Some(m) => m,
        None => match nodes[id].parent {
            Some(p) => match nodes[p@].next_sibling {
                Some(ps) => match nodes[ps@].kind {
                    CstKind::Para { marker } => marker@,
                    CstKind::Chapter { .. } => "c"@,
                    _ => "EOF"@,
                },
                None => "EOF"@,
            },
            None => "EOF"@,
        },
    }
}

/// An error raised while lowering node `anchor`.
spec fn lowering_error(code: crate::diagnostics::DiagnosticCode, message: Seq<char>, span: Span, anchor: usize) -> crate::validation::DiagView {
    crate::validation::DiagView {
        severity: crate::diagnostics::Severity::Error,
        code,
        message,
        span,
        anchor_cst: Some(anchor),
    }
}

/// `\m was still open at end of file`, on node `id`.
spec fn unclosed_eof_view(marker: Seq<char>, doc: &CstDocument, id: int) -> crate::validation::DiagView {
    lowering_error(
        crate::diagnostics::DiagnosticCode::UnclosedAtEof,
        "\\"@ + marker + " was still open at end of file"@,
        doc.nodes_view()[id].span,
        id as usize,
    )
}

/// What an inline node `id` with marker `marker` raises when no closing
/// marker closed it (`closed` tells whether one did): none for `\z…`
/// markers; for character and unknown markers, an implicit close or an
/// open one at the end of the file below a block, a misnested closer
/// elsewhere; for figures, one left open at the end.
spec fn close_diag_views(doc: &CstDocument, id: int, marker: Seq<char>, closed: bool) -> Seq<
    crate::validation::DiagView,
> {
    let nodes = doc.nodes_view();
    let node = nodes[id];
    let eof = node.span.end >= doc.byte_len_view();
    if closed || (marker.len() > 0 && marker[0] == 'z') {
        seq![]
    } else {
        match marker_info(marker).kind {
            MarkerKind::Character | MarkerKind::Unknown => match node.parent {
                Some(p) => if nodes[p@].kind is Document || nodes[p@].kind is Para || nodes[p@].kind is Book {
                    if !eof {
                        seq![
                            lowering_error(
                                crate::diagnostics::DiagnosticCode::ImplicitClose,
                                "\\"@ + marker + " is missing explicit close (\\"@ + marker
                                    + "*). It was closed implicitly by \\"@ + implicit_closer(nodes, id) + "."@,
                                node.span,
                                id as usize,
                            ),
                        ]
                    } else {
                        seq![unclosed_eof_view(marker, doc, id)]
                    }
                } else {
                    match node.next_sibling {
                        Some(ns) => match nodes[ns@].kind {
                            CstKind::ClosingMarkerToken { normalized, .. } => if normalized@ != marker && !(
                            nodes[p@].kind matches CstKind::Note { marker: pm } && plus_stripped(normalized@)
                                == plus_stripped(pm@)) {
                                seq![
                                    lowering_error(
                                        crate::diagnostics::DiagnosticCode::MisnestedMarker,
                                        "expected \\"@ + marker + "* but found \\"@ + normalized@ + "*"@,
                                        nodes[ns@].span,
                                        id as usize,
                                    ),
                                ]
                            } else {
                                seq![]
                            },
                            _ => seq![],
                        },
                        None => if eof {
                            seq![unclosed_eof_view(marker, doc, id)]
                        } else {
                            seq![]
                        },
                    }
                },
                None => seq![unclosed_eof_view(marker, doc, id)],
            },
            MarkerKind::Figure => seq![unclosed_eof_view(marker, doc, id)],
            _ => seq![],
        }
    }
}

/// Attribute pairs with their keys resolved for `marker`.
spec fn resolved_pairs(marker: Seq<char>, ps: Seq<(Seq<char>, Seq<char>)>) -> Seq<(Seq<char>, Seq<char>)> {
    ps.map_values(|p: (Seq<char>, Seq<char>)| (resolved_key(marker, p.0), p.1))
}

/// The attributes of one node: those of an attribute token, keys resolved
/// for `marker`; none for other nodes or unreadable attributes.
spec fn node_attrs(doc: &CstDocument, x: int, marker: Seq<char>) -> Seq<(Seq<char>, Seq<char>)> {
    if doc.nodes_view()[x].kind is AttributesToken {
        match attributes_of(
            doc.source_view().subrange(doc.char_spans_view()[x].0, doc.char_spans_view()[x].1),
        ) {
            Some(ps) => resolved_pairs(marker, ps),
            None => seq![],
        }
    } else {
        seq![]
    }
}

/// The attributes of the sibling chain from `c` on, in order.
spec fn chain_attrs(doc: &CstDocument, c: Option<CstNodeId>, marker: Seq<char>) -> Seq<(Seq<char>, Seq<char>)>
    decreases (match c {
        Some(x) => doc.nodes_view().len() - x@,
        None => 0,
    }),
{
    match c {
        None => seq![],
        Some(x) => if !(0 <= x@ < doc.nodes_view().len()) {
            seq![]
        } else {
            node_attrs(doc, x@, marker) + match doc.nodes_view()[x@].next_sibling {
                Some(n) => if x@ < n@ < doc.nodes_view().len() {
                    chain_attrs(doc, Some(n), marker)
                } else {
                    seq![]
                },
                None => seq![],
            }
        },
    }
}

/// The code of a book node: the first word of its first text child, or
/// nothing.
spec fn book_code(doc: &CstDocument, id: CstNodeId) -> Seq<char> {
    match first_child_pick(doc, id, -1) {
        Some(c) => first_word(
            doc.source_view().subrange(doc.char_spans_view()[c].0, doc.char_spans_view()[c].1),
        ).0,
        None => seq![],
    }
}

/// Whether a node of this kind lowers to nothing: a second `\id` book,
/// a `\usfm` paragraph, and anything that is not a structural node.
/// Node `c` is a child of node `id`.
pub open spec fn child_of(doc: &CstDocument, id: int, c: int) -> bool {
    &&& id < c < doc.nodes_view().len()
    &&& crate::cst::opt_index(doc.nodes_view()[c].parent) == Some(id)
}

/// An AST node that a child of kind `k` gives its parent's content: the
/// variant it lowers to, the paragraph that a verse opens straight under
/// the document (`root`), or the table that gathers a row.
pub open spec fn child_lowers(k: CstKind, n: Node, root: bool) -> bool {
    ||| lowered_variant(k, n)
    ||| root && k is Verse && n is Para
    ||| k is TableRow && n is Table
}

/// Each of the lowered nodes `r` comes from its own child `srcs[k]` of
/// node `id`, in document order.
spec fn traced_to_children(doc: &CstDocument, id: int, r: Seq<SpannedNode>, srcs: Seq<int>) -> bool {
    &&& srcs.len() == r.len()
    &&& forall|k: int|
        #![trigger srcs[k]]
        0 <= k < r.len() ==> child_of(doc, id, srcs[k]) && child_lowers(
            doc.nodes_view()[srcs[k]].kind,
            r[k].node,
            doc.nodes_view()[id].kind is Document,
        ) && deep_lowers(doc, srcs[k], r[k].node)
    &&& forall|j: int, k: int| 0 <= j < k < r.len() ==> srcs[j] < srcs[k]
}

/// Each node of `nodes` comes from its own child `srcs[k]` of node `id`,
/// in document order, and is of a variant that child lowers to.
pub open spec fn traced_nodes(doc: &CstDocument, id: int, nodes: Seq<Node>, srcs: Seq<int>) -> bool {
    &&& srcs.len() == nodes.len()
    &&& forall|k: int|
        #![trigger srcs[k]]
        0 <= k < nodes.len() ==> child_of(doc, id, srcs[k]) && child_lowers(
            doc.nodes_view()[srcs[k]].kind,
            nodes[k],
            doc.nodes_view()[id].kind is Document,
        ) && deep_lowers(doc, srcs[k], nodes[k])
    &&& forall|j: int, k: int| 0 <= j < k < nodes.len() ==> srcs[j] < srcs[k]
}

/// Node `x` is on the sibling chain that starts at `c`.
pub open spec fn in_chain(nodes: Seq<CstNode>, c: Option<CstNodeId>, x: int) -> bool
    decreases (match c {
        Some(y) => nodes.len() - y@,
        None => 0,
    }),
{
    match c {
        None => false,
        Some(y) => if !(0 <= y@ < nodes.len()) {
            false
        } else if y@ == x {
            true
        } else {
            match nodes[y@].next_sibling {
                Some(n) => if y@ < n@ < nodes.len() {
                    in_chain(nodes, Some(n), x)
                } else {
                    false
                },
                None => false,
            }
        },
    }
}

/// `m` is one of the number markers that fold into the chapter or verse
/// before them.
pub open spec fn number_marker_name(m: Seq<char>) -> bool {
    m == "ca"@ || m == "cp"@ || m == "va"@ || m == "vp"@
}

/// A child of kind `k` always yields a node of its own in its parent's
/// content (`root`: the parent is the document): chapters, verses inside
/// a block, paragraphs other than `\usfm`, character, note, milestone,
/// figure and sidebar nodes other than number markers, peripherals and
/// references.
pub open spec fn kept_child(k: CstKind, root: bool) -> bool {
    match k {
        CstKind::Chapter { .. } | CstKind::Periph { .. } | CstKind::Ref => true,
        CstKind::Verse { .. } => !root,
        CstKind::Para { marker } => marker@ != "usfm"@ && marker@ != "cat"@ && !number_marker_name(marker@),
        CstKind::Char { marker } => marker@ != "cat"@ && !number_marker_name(marker@),
        CstKind::Note { marker } | CstKind::Milestone { marker } | CstKind::Figure { marker } | CstKind::Sidebar {
            marker,
        } => !number_marker_name(marker@),
        _ => false,
    }
}

/// Every child of `id` of a kind that always yields a node is among
/// `srcs`.
pub open spec fn covers(doc: &CstDocument, id: int, srcs: Seq<int>) -> bool {
    forall|x: int|
        #[trigger] in_chain(doc.nodes_view(), doc.nodes_view()[id].first_child, x) && kept_child(
            doc.nodes_view()[x].kind,
            doc.nodes_view()[id].kind is Document,
        ) ==> srcs.contains(x)
}

/// The children between cursors `a` and `b`, `b` excluded, that yield a
/// node of their own are among `srcs`.
spec fn covered_between(doc: &CstDocument, id: int, a: Option<CstNodeId>, b: Option<CstNodeId>, srcs: Seq<int>) -> bool {
    forall|x: int|
        #[trigger] in_chain(doc.nodes_view(), a, x) && !in_chain(doc.nodes_view(), b, x) && kept_child(
            doc.nodes_view()[x].kind,
            doc.nodes_view()[id].kind is Document,
        ) ==> srcs.contains(x)
}

/// The chain from a node is the node and the chain from its next sibling.
proof fn lemma_chain_step(doc: &CstDocument, c: CstNodeId, x: int)
    requires
        doc.wf(),
        0 <= c@ < doc.nodes_view().len(),
    ensures
        in_chain(doc.nodes_view(), Some(c), x) == (x == c@ || in_chain(
            doc.nodes_view(),
            doc.nodes_view()[c@].next_sibling,
            x,
        )),
{
    doc.lemma_node(c@);
}

/// Passing child `cid`, which is among `new` where it yields a node of its
/// own, keeps every passed child that does so among the lowered ones.
proof fn lemma_cover_step(
    doc: &CstDocument,
    id: int,
    first: Option<CstNodeId>,
    cid: CstNodeId,
    old_srcs: Seq<int>,
    new_srcs: Seq<int>,
)
    requires
        doc.wf(),
        0 <= id < doc.nodes_view().len(),
        0 <= cid@ < doc.nodes_view().len(),
        covered_between(doc, id, first, Some(cid), old_srcs),
        old_srcs.is_prefix_of(new_srcs),
        kept_child(doc.nodes_view()[cid@].kind, doc.nodes_view()[id].kind is Document) ==> new_srcs.contains(cid@),
    ensures
        covered_between(doc, id, first, doc.nodes_view()[cid@].next_sibling, new_srcs),
{
    let nodes = doc.nodes_view();
    assert forall|x: int|
        #[trigger] in_chain(nodes, first, x) && !in_chain(nodes, nodes[cid@].next_sibling, x) && kept_child(
            nodes[x].kind,
            nodes[id].kind is Document,
        ) implies new_srcs.contains(x) by {
        lemma_chain_step(doc, cid, x);
        if x != cid@ {
            assert(old_srcs.contains(x));
            let i = choose|i: int| 0 <= i < old_srcs.len() && old_srcs[i] == x;
            assert(new_srcs[i] == x);
        }
    }
}

/// Skipping from cursor `a` to cursor `b` over verses and leaves only, below
/// the document, passes no child that yields a node of its own.
proof fn lemma_cover_skip(doc: &CstDocument, id: int, first: Option<CstNodeId>, a: Option<CstNodeId>, b: Option<CstNodeId>, srcs: Seq<int>)
    requires
        doc.wf(),
        0 <= id < doc.nodes_view().len(),
        doc.nodes_view()[id].kind is Document,
        covered_between(doc, id, first, a, srcs),
        forall|x: int|
            #[trigger] in_chain(doc.nodes_view(), a, x) && !in_chain(doc.nodes_view(), b, x) ==> (doc.nodes_view()[x].kind is Verse
                || is_leaf_kind(doc.nodes_view()[x].kind)),
    ensures
        covered_between(doc, id, first, b, srcs),
{
    let nodes = doc.nodes_view();
    assert forall|x: int|
        #[trigger] in_chain(nodes, first, x) && !in_chain(nodes, b, x) && kept_child(
            nodes[x].kind,
            nodes[id].kind is Document,
        ) implies srcs.contains(x) by {
        if in_chain(nodes, a, x) {
            assert(nodes[x].kind is Verse || is_leaf_kind(nodes[x].kind));
        }
    }
}

/// Each node of the content `r` that is not textual comes from its own
/// child `srcs[k]` of node `id`, in document order, and is of a variant
/// that child lowers to; textual nodes come from text and have `-1`.
spec fn traced_content(doc: &CstDocument, id: int, r: Seq<SpannedNode>, srcs: Seq<int>) -> bool {
    &&& srcs.len() == r.len()
    &&& forall|k: int|
        #![trigger srcs[k]]
        0 <= k < r.len() ==> (textual(r[k].node) ==> srcs[k] == -1) && (!textual(r[k].node) ==> child_of(
            doc,
            id,
            srcs[k],
        ) && child_lowers(doc.nodes_view()[srcs[k]].kind, r[k].node, doc.nodes_view()[id].kind is Document)
            && deep_lowers(doc, srcs[k], r[k].node))
    &&& forall|j: int, k: int| 0 <= j < k < r.len() && srcs[j] != -1 && srcs[k] != -1 ==> srcs[j] < srcs[k]
}

/// Each node of `content` that is not textual comes from its own child
/// `srcs[k]` of node `id`, in document order, and is of a variant that
/// child lowers to; textual nodes come from text and have `-1`.
pub open spec fn traced_node_content(doc: &CstDocument, id: int, content: Seq<Node>, srcs: Seq<int>) -> bool
    decreases doc.nodes_view().len() - id, 0int,
{
    &&& srcs.len() == content.len()
    &&& forall|k: int|
        #![trigger srcs[k]]
        0 <= k < content.len() ==> (textual(content[k]) ==> srcs[k] == -1) && (!textual(content[k]) ==> child_of(
            doc,
            id,
            srcs[k],
        ) && child_lowers(doc.nodes_view()[srcs[k]].kind, content[k], doc.nodes_view()[id].kind is Document)
            && deep_lowers(doc, srcs[k], content[k]))
    &&& forall|j: int, k: int| 0 <= j < k < content.len() && srcs[j] != -1 && srcs[k] != -1 ==> srcs[j] < srcs[k]
}

/// The text of the first text token among the children of node `x`, or
/// nothing: the number of a chapter or a verse.
pub open spec fn number_text(doc: &CstDocument, x: int) -> Seq<char> {
    match first_sibling_where(doc.nodes_view(), doc.nodes_view()[x].first_child, -1) {
        Some(c) => doc.source_view().subrange(doc.char_spans_view()[c].0, doc.char_spans_view()[c].1),
        None => seq![],
    }
}

/// The book code of node `x`: the first word of the first text token
/// among its children, or nothing.
pub open spec fn book_code_at(doc: &CstDocument, x: int) -> Seq<char> {
    match first_sibling_where(doc.nodes_view(), doc.nodes_view()[x].first_child, -1) {
        Some(c) => first_word(doc.source_view().subrange(doc.char_spans_view()[c].0, doc.char_spans_view()[c].1)).0,
        None => seq![],
    }
}

/// The attributes that the children of node `x` give a marker `marker`:
/// those written after `|`, with a default key for a bare value.
pub closed spec fn attributes_at(doc: &CstDocument, x: int, marker: Seq<char>) -> Seq<(Seq<char>, Seq<char>)> {
    chain_attrs(doc, doc.nodes_view()[x].first_child, marker)
}

/// The caller of a note node `x`: the first word of its first text token
/// that is not blank, or nothing.
pub closed spec fn note_caller_at(doc: &CstDocument, x: int) -> Seq<char> {
    match caller_from(doc, doc.nodes_view()[x].first_child) {
        Some(c) => c,
        None => Seq::<char>::empty(),
    }
}

/// The fields that node `n` takes from the tree node `x` it is lowered
/// from: the number of a chapter or a verse, the code of a book, the
/// caller of a note, and the attributes of a character, milestone or
/// figure node.
#[verifier::opaque]
pub open spec fn fields_lowered(doc: &CstDocument, x: int, n: Node) -> bool {
    match doc.nodes_view()[x].kind {
        CstKind::Chapter { .. } => n matches Node::Chapter(d) ==> d.number@ == number_text(doc, x),
        CstKind::Verse { .. } => n matches Node::Verse(d) ==> d.number@ == number_text(doc, x),
        CstKind::Book { .. } => n matches Node::Book { code, .. } ==> code@ == book_code_at(doc, x),
        CstKind::Note { .. } => n matches Node::Note { caller, .. } ==> caller@ == note_caller_at(doc, x),
        CstKind::Char { marker } => (n matches Node::Char(d) ==> attribute_views(d.attributes@) == attributes_at(
            doc,
            x,
            marker@,
        )) && (n matches Node::Ref { attributes, .. } ==> attribute_views(attributes@) == attributes_at(
            doc,
            x,
            marker@,
        )),
        CstKind::Milestone { marker } => n matches Node::Milestone { attributes, .. } ==> attribute_views(
            attributes@,
        ) == attributes_at(doc, x, marker@),
        CstKind::Figure { marker } => n matches Node::Figure { attributes, .. } ==> attribute_views(attributes@)
            == attributes_at(doc, x, marker@),
        CstKind::TableCell { marker } => n matches Node::TableCell { align, .. } ==> align@ == cell_align(marker@),
        _ => true,
    }
}

/// The span of the marker token of node `x`, or of `x` where it has none.
pub open spec fn marker_span_at(doc: &CstDocument, x: int) -> Span {
    match first_sibling_where(doc.nodes_view(), doc.nodes_view()[x].first_child, 2) {
        Some(c) => doc.nodes_view()[c].span,
        None => doc.nodes_view()[x].span,
    }
}

/// What a chapter (`chapter`) or verse node `x` reports of its number: a
/// missing number, or leading zeros, at its marker.
pub open spec fn number_reports(doc: &CstDocument, x: int, chapter: bool) -> Seq<crate::validation::DiagView> {
    number_diag_views(number_text(doc, x), marker_span_at(doc, x), x as usize, chapter)
}

/// Each of `vs` is among the views of `ds`.
pub open spec fn reported(ds: Seq<Diagnostic>, vs: Seq<crate::validation::DiagView>) -> bool {
    forall|j: int| 0 <= j < vs.len() ==> crate::validation::diag_views(ds).contains(#[trigger] vs[j])
}

/// Every chapter among the top-level nodes of the tree has what it
/// reports of its number among `ds`.
pub open spec fn chapter_numbers_reported(doc: &CstDocument, ds: Seq<Diagnostic>) -> bool {
    forall|x: int|
        #[trigger] in_chain(doc.nodes_view(), doc.nodes_view()[0].first_child, x) && doc.nodes_view()[x].kind is Chapter
            ==> reported(ds, number_reports(doc, x, true))
}

/// The chapters between cursors `a` and `b`, `b` excluded, below node `id`
/// have what they report of their numbers among `ds`.
spec fn chapters_reported_between(doc: &CstDocument, a: Option<CstNodeId>, b: Option<CstNodeId>, ds: Seq<Diagnostic>) -> bool {
    forall|x: int|
        #[trigger] in_chain(doc.nodes_view(), a, x) && !in_chain(doc.nodes_view(), b, x)
            && doc.nodes_view()[x].kind is Chapter ==> reported(ds, number_reports(doc, x, true))
}

/// Reports stay reported as diagnostics are added.
proof fn lemma_reported_grows(ds: Seq<Diagnostic>, es: Seq<Diagnostic>, vs: Seq<crate::validation::DiagView>)
    requires
        reported(ds, vs),
        ds.len() <= es.len(),
        forall|k: int| 0 <= k < ds.len() ==> #[trigger] es[k] == ds[k],
    ensures
        reported(es, vs),
{
    assert forall|j: int| 0 <= j < vs.len() implies crate::validation::diag_views(es).contains(#[trigger] vs[j]) by {
        let q = choose|q: int| 0 <= q < ds.len() && crate::validation::diag_views(ds)[q] == vs[j];
        assert(crate::validation::diag_views(es)[q] == vs[j]);
    }
}

/// Passing child `cid` keeps the chapters passed so far reported, and adds
/// `cid` where it is a chapter whose reports are in.
proof fn lemma_chapters_step(
    doc: &CstDocument,
    first: Option<CstNodeId>,
    cid: CstNodeId,
    ds0: Seq<Diagnostic>,
    ds1: Seq<Diagnostic>,
)
    requires
        doc.wf(),
        0 <= cid@ < doc.nodes_view().len(),
        chapters_reported_between(doc, first, Some(cid), ds0),
        ds0.len() <= ds1.len(),
        forall|k: int| 0 <= k < ds0.len() ==> #[trigger] ds1[k] == ds0[k],
        doc.nodes_view()[cid@].kind is Chapter ==> reported(ds1, number_reports(doc, cid@, true)),
    ensures
        chapters_reported_between(doc, first, doc.nodes_view()[cid@].next_sibling, ds1),
{
    assert forall|x: int|
        #[trigger] in_chain(doc.nodes_view(), first, x) && !in_chain(doc.nodes_view(), doc.nodes_view()[cid@].next_sibling, x)
            && doc.nodes_view()[x].kind is Chapter implies reported(ds1, number_reports(doc, x, true)) by {
        lemma_chain_step(doc, cid, x);
        if x != cid@ {
            lemma_reported_grows(ds0, ds1, number_reports(doc, x, true));
        }
    }
}

/// Skipping over verses and leaves passes no chapter.
proof fn lemma_chapters_skip(doc: &CstDocument, first: Option<CstNodeId>, a: Option<CstNodeId>, b: Option<CstNodeId>, ds: Seq<Diagnostic>)
    requires
        chapters_reported_between(doc, first, a, ds),
        forall|x: int|
            #[trigger] in_chain(doc.nodes_view(), a, x) && !in_chain(doc.nodes_view(), b, x) ==> (doc.nodes_view()[x].kind is Verse
                || is_leaf_kind(doc.nodes_view()[x].kind)),
    ensures
        chapters_reported_between(doc, first, b, ds),
{
    assert forall|x: int|
        #[trigger] in_chain(doc.nodes_view(), first, x) && !in_chain(doc.nodes_view(), b, x)
            && doc.nodes_view()[x].kind is Chapter implies reported(ds, number_reports(doc, x, true)) by {
        if in_chain(doc.nodes_view(), a, x) {
            assert(doc.nodes_view()[x].kind is Verse || is_leaf_kind(doc.nodes_view()[x].kind));
        }
    }
}

/// Reports stay reported in a list that holds every diagnostic of the
/// first, as often.
proof fn lemma_reported_subset(ds: Seq<Diagnostic>, es: Seq<Diagnostic>, vs: Seq<crate::validation::DiagView>)
    requires
        reported(ds, vs),
        ds.to_multiset().subset_of(es.to_multiset()),
    ensures
        reported(es, vs),
{
    broadcast use vstd::seq_lib::group_to_multiset_ensures;
    assert forall|j: int| 0 <= j < vs.len() implies crate::validation::diag_views(es).contains(#[trigger] vs[j]) by {
        let q = choose|q: int| 0 <= q < ds.len() && crate::validation::diag_views(ds)[q] == vs[j];
        assert(ds.contains(ds[q]));
        assert(es.to_multiset().count(ds[q]) > 0);
        assert(es.contains(ds[q]));
        let p = choose|p: int| 0 <= p < es.len() && es[p] == ds[q];
        assert(crate::validation::diag_views(es)[p] == vs[j]);
    }
}

/// Views appended to the diagnostics are reported.
proof fn lemma_reported_appended(ds: Seq<Diagnostic>, es: Seq<Diagnostic>, vs: Seq<crate::validation::DiagView>)
    requires
        crate::validation::diag_views(es) == crate::validation::diag_views(ds) + vs,
    ensures
        reported(es, vs),
{
    assert forall|j: int| 0 <= j < vs.len() implies crate::validation::diag_views(es).contains(#[trigger] vs[j]) by {
        assert(crate::validation::diag_views(es)[ds.len() + j] == vs[j]);
    }
}

/// Whether node `n` is the container that a node of kind `k` lowers to
/// with the content gathered from its children: a paragraph, a note, a
/// reference, a figure, a table cell or an unknown marker's node.
pub open spec fn gathers_content(k: CstKind, n: Node) -> bool {
    ||| k is Para && n is Para
    ||| k is Note && n is Note
    ||| k is Ref && n is Ref
    ||| k is Figure && n is Figure
    ||| k is TableCell && n is TableCell
    ||| k is Unknown && n is Unknown
}

/// Node `n` takes its fields from node `x` (`fields_lowered`) and, where
/// it gathers its content from the children of `x`, that content is traced
/// to them (`content_lowered`).
pub open spec fn deep_lowers(doc: &CstDocument, x: int, n: Node) -> bool
    decreases doc.nodes_view().len() - x, 2int,
{
    &&& (0 <= x < doc.nodes_view().len() ==> fields_lowered(doc, x, n))
    &&& content_lowered(doc, x, n)
}

/// A container lowered from node `x` with the content gathered from its
/// children has that content traced to the children of `x`, every child
/// that always yields a node among them.
pub open spec fn content_lowered(doc: &CstDocument, x: int, n: Node) -> bool
    decreases doc.nodes_view().len() - x, 1int,
{
    if 0 <= x < doc.nodes_view().len() && gathers_content(doc.nodes_view()[x].kind, n) {
        exists|srcs: Seq<int>| traced_node_content(doc, x, children_of(n), srcs) && covers(doc, x, srcs)
    } else {
        true
    }
}

/// `srcs` with `-1` for each textual node added up to length `n`.
spec fn pad(srcs: Seq<int>, n: int) -> Seq<int> {
    srcs + Seq::new((n - srcs.len()) as nat, |i: int| -1int)
}

/// Every child index among `a` is among `b`.
spec fn kept_srcs(a: Seq<int>, b: Seq<int>) -> bool {
    forall|x: int| 0 <= x && a.contains(x) ==> b.contains(x)
}

/// Nodes on a chain are nodes of the tree.
proof fn lemma_chain_in_range(nodes: Seq<CstNode>, c: Option<CstNodeId>, x: int)
    requires
        in_chain(nodes, c, x),
    ensures
        0 <= x < nodes.len(),
    decreases (match c {
        Some(y) => nodes.len() - y@,
        None => 0,
    }),
{
    match c {
        None => {},
        Some(y) => {
            if y@ != x {
                match nodes[y@].next_sibling {
                    Some(n) => {
                        lemma_chain_in_range(nodes, Some(n), x);
                    },
                    None => {},
                }
            }
        },
    }
}

/// Lowered children stay among the lowered ones as `srcs` changes.
proof fn lemma_cover_keep(doc: &CstDocument, id: int, first: Option<CstNodeId>, c: Option<CstNodeId>, a: Seq<int>, b: Seq<int>)
    requires
        covered_between(doc, id, first, c, a),
        kept_srcs(a, b),
    ensures
        covered_between(doc, id, first, c, b),
{
    assert forall|x: int|
        #[trigger] in_chain(doc.nodes_view(), first, x) && !in_chain(doc.nodes_view(), c, x) && kept_child(
            doc.nodes_view()[x].kind,
            doc.nodes_view()[id].kind is Document,
        ) implies b.contains(x) by {
        lemma_chain_in_range(doc.nodes_view(), first, x);
    }
}

/// Content that only gains text keeps its trace, padded with `-1`.
proof fn lemma_trace_keep(doc: &CstDocument, id: int, r: Seq<SpannedNode>, srcs: Seq<int>, r2: Seq<SpannedNode>)
    requires
        traced_content(doc, id, r, srcs),
        keeps_nodes(r, r2),
    ensures
        traced_content(doc, id, r2, pad(srcs, r2.len() as int)),
        srcs.is_prefix_of(pad(srcs, r2.len() as int)),
        kept_srcs(srcs, pad(srcs, r2.len() as int)),
        forall|k: int| 0 <= k < pad(srcs, r2.len() as int).len() ==> (#[trigger] pad(srcs, r2.len() as int)[k] == -1
            || (k < srcs.len() && pad(srcs, r2.len() as int)[k] == srcs[k])),
{
    let p = pad(srcs, r2.len() as int);
    assert forall|k: int| 0 <= k < srcs.len() implies p[k] == srcs[k] by {}
    assert forall|k: int| #![trigger p[k]] 0 <= k < r2.len() implies (textual(r2[k].node) ==> p[k] == -1) && (!textual(
        r2[k].node,
    ) ==> child_of(doc, id, p[k]) && child_lowers(doc.nodes_view()[p[k]].kind, r2[k].node, doc.nodes_view()[id].kind
        is Document)) by {
        if k < r.len() {
            assert(srcs[k] == p[k]);
            if textual(r[k].node) {
                assert(textual(r2[k].node));
            } else {
                assert(r2[k].node == r[k].node);
            }
        } else {
            assert(textual(r2[k].node));
        }
    }
    assert forall|x: int| 0 <= x && srcs.contains(x) implies p.contains(x) by {
        let i = choose|i: int| 0 <= i < srcs.len() && srcs[i] == x;
        assert(p[i] == x);
    }
}

/// Dropping a textual last node drops its `-1`.
proof fn lemma_trace_drop_last(doc: &CstDocument, id: int, r: Seq<SpannedNode>, srcs: Seq<int>)
    requires
        traced_content(doc, id, r, srcs),
        r.len() > 0,
        textual(r.last().node),
    ensures
        traced_content(doc, id, r.drop_last(), srcs.drop_last()),
        kept_srcs(srcs, srcs.drop_last()),
{
    assert(srcs[srcs.len() - 1] == -1);
    assert forall|x: int| 0 <= x && srcs.contains(x) implies srcs.drop_last().contains(x) by {
        let i = choose|i: int| 0 <= i < srcs.len() && srcs[i] == x;
        assert(srcs.drop_last()[i] == x);
    }
}

/// Removing a textual node, or a category, keeps the trace of the rest.
proof fn lemma_trace_remove(doc: &CstDocument, id: int, r: Seq<SpannedNode>, srcs: Seq<int>, i: int)
    requires
        traced_content(doc, id, r, srcs),
        0 <= i < r.len(),
        textual(r[i].node) || is_cat(r[i].node),
    ensures
        traced_content(doc, id, r.remove(i), srcs.remove(i)),
        forall|x: int|
            0 <= x && srcs.contains(x) && !srcs.remove(i).contains(x) ==> !kept_child(
                doc.nodes_view()[x].kind,
                doc.nodes_view()[id].kind is Document,
            ),
        srcs_within(srcs, srcs.remove(i)),
{
    let t = srcs.remove(i);
    assert forall|k: int| 0 <= k < t.len() implies #[trigger] t[k] == -1 || srcs.contains(t[k]) by {
        if k < i {
            assert(t[k] == srcs[k]);
        } else {
            assert(t[k] == srcs[k + 1]);
        }
    }
    assert forall|x: int|
        0 <= x && srcs.contains(x) && !t.contains(x) implies !kept_child(
        doc.nodes_view()[x].kind,
        doc.nodes_view()[id].kind is Document,
    ) by {
        let q = choose|q: int| 0 <= q < srcs.len() && srcs[q] == x;
        if q < i {
            assert(t[q] == x);
        } else if q > i {
            assert(t[q - 1] == x);
        } else {
            assert(srcs[i] != -1);
            assert(!textual(r[i].node));
        }
    }
    assert forall|k: int|
        #![trigger t[k]]
        0 <= k < r.remove(i).len() implies (textual(r.remove(i)[k].node) ==> t[k] == -1) && (!textual(
        r.remove(i)[k].node,
    ) ==> child_of(doc, id, t[k]) && child_lowers(doc.nodes_view()[t[k]].kind, r.remove(i)[k].node, doc.nodes_view()[id].kind is Document)
        && deep_lowers(doc, t[k], r.remove(i)[k].node)) by {
        if k < i {
            assert(t[k] == srcs[k] && r.remove(i)[k] == r[k]);
        } else {
            assert(t[k] == srcs[k + 1] && r.remove(i)[k] == r[k + 1]);
        }
    }
    assert forall|j: int, k: int| 0 <= j < k < r.remove(i).len() && t[j] != -1 && t[k] != -1 implies t[j] < t[k] by {
        let jj = if j < i { j } else { j + 1 };
        let kk = if k < i { k } else { k + 1 };
        assert(t[j] == srcs[jj] && t[k] == srcs[kk]);
    }
}

/// A node without fields taken from the tree takes them trivially.
proof fn lemma_fields_plain(doc: &CstDocument, x: int, n: Node)
    requires
        !(n is Chapter || n is Verse || n is Book || n is Note || n is Char || n is Ref || n is Milestone
            || n is Figure || n is TableCell),
    ensures
        fields_lowered(doc, x, n),
{
    reveal(fields_lowered);
}

/// Folding a number into a chapter or verse keeps what it was lowered from.
proof fn lemma_deep_with_number(doc: &CstDocument, x: int, n: Node, v: String, alt: bool)
    requires
        deep_lowers(doc, x, n),
        n is Chapter || n is Verse,
    ensures
        deep_lowers(doc, x, with_number(n, v, alt)),
{
    reveal(fields_lowered);
}

/// Each entry of `b` is `-1` or an entry of `a`.
spec fn srcs_within(a: Seq<int>, b: Seq<int>) -> bool {
    forall|k: int| 0 <= k < b.len() ==> #[trigger] b[k] == -1 || a.contains(b[k])
}

/// Folding a number into the last chapter or verse keeps the trace.
proof fn lemma_trace_absorb(
    doc: &CstDocument,
    id: int,
    r: Seq<SpannedNode>,
    srcs: Seq<int>,
    v: String,
    ch: bool,
    alt: bool,
) -> (srcs2: Seq<int>)
    requires
        traced_content(doc, id, r, srcs),
    ensures
        traced_content(doc, id, last_number_set(without_blank_last(r), v, ch, alt), srcs2),
        kept_srcs(srcs, srcs2),
        srcs_within(srcs, srcs2),
{
    let w = without_blank_last(r);
    let sw = if w.len() < r.len() {
        lemma_trace_drop_last(doc, id, r, srcs);
        srcs.drop_last()
    } else {
        srcs
    };
    assert(traced_content(doc, id, w, sw));
    assert forall|k: int| 0 <= k < sw.len() implies #[trigger] sw[k] == -1 || srcs.contains(sw[k]) by {
        assert(sw[k] == srcs[k]);
    }
    if exists|i: int| is_last_target(w, i, ch) {
        let i = choose|i: int| is_last_target(w, i, ch);
        let res = last_number_set(w, v, ch, alt);
        assert(res == w.update(i, SpannedNode { node: with_number(w[i].node, v, alt), source: w[i].source }));
        assert forall|k: int|
            #![trigger sw[k]]
            0 <= k < res.len() implies (textual(res[k].node) ==> sw[k] == -1) && (!textual(res[k].node) ==> child_of(
            doc,
            id,
            sw[k],
        ) && child_lowers(doc.nodes_view()[sw[k]].kind, res[k].node, doc.nodes_view()[id].kind is Document)
            && deep_lowers(doc, sw[k], res[k].node)) by {
            if k != i {
                assert(res[k] == w[k]);
            } else {
                lemma_deep_with_number(doc, sw[k], w[i].node, v, alt);
            }
        }
    }
    sw
}

/// The cursor over the children of `id` is a child of `id` that comes
/// after every child lowered so far.
spec fn cursor_after(doc: &CstDocument, id: int, c: Option<CstNodeId>, srcs: Seq<int>) -> bool {
    c matches Some(x) ==> child_of(doc, id, x@) && forall|k: int| 0 <= k < srcs.len() ==> #[trigger] srcs[k] < x@
}

spec fn lowers_to_nothing(k: CstKind, seen_id: bool) -> bool {
    match k {
        CstKind::Book { marker } => marker@ == "id"@ && seen_id,
        CstKind::Para { marker } => marker@ == "usfm"@,
        CstKind::Chapter { .. } | CstKind::Verse { .. } | CstKind::Char { .. } | CstKind::Ref
        | CstKind::Note { .. } | CstKind::Milestone { .. } | CstKind::Figure { .. } | CstKind::Sidebar { .. }
        | CstKind::Periph { .. } | CstKind::Table | CstKind::TableRow { .. } | CstKind::TableCell { .. }
        | CstKind::Unknown { .. } => false,
        _ => true,
    }
}

/// Whether an AST node is of the variant that a CST node of kind `k`
/// lowers to.
pub open spec fn lowered_variant(k: CstKind, n: Node) -> bool {
    match k {
        CstKind::Book { .. } => n is Book,
        CstKind::Chapter { .. } => n matches Node::Chapter(d) && d.marker@ == "c"@,
        CstKind::Verse { .. } => n matches Node::Verse(d) && d.marker@ == "v"@,
        CstKind::Milestone { marker } => n matches Node::Milestone { marker: m, .. } && m == marker,
        CstKind::TableCell { .. } => n is TableCell,
        CstKind::Para { marker } => n matches Node::Para { marker: m, .. } && m == marker,
        CstKind::Char { marker } => (n matches Node::Char(d) && d.marker == marker) || n is Ref,
        CstKind::Ref => n is Ref,
        CstKind::Note { marker } => n matches Node::Note { marker: m, .. } && m == marker,
        CstKind::Figure { marker } => n matches Node::Figure { marker: m, .. } && m == marker,
        CstKind::Sidebar { marker } => n matches Node::Sidebar { marker: m, .. } && m == marker,
        CstKind::Periph { .. } => n is Periph,
        CstKind::Table => n is Table,
        CstKind::TableRow { .. } => n is TableRow,
        CstKind::Unknown { .. } => n is Unknown || n is Milestone,
        _ => false,
    }
}

/// The source text of node `x`.
spec fn node_source(doc: &CstDocument, x: int) -> Seq<char> {
    doc.source_view().subrange(doc.char_spans_view()[x].0, doc.char_spans_view()[x].1)
}

/// The caller of a note from the sibling chain at `c` on: the first word
/// of the first text token that is not blank.
spec fn caller_from(doc: &CstDocument, c: Option<CstNodeId>) -> Option<Seq<char>>
    decreases (match c {
        Some(x) => doc.nodes_view().len() - x@,
        None => 0,
    }),
{
    match c {
        None => None,
        Some(x) => if !(0 <= x@ < doc.nodes_view().len()) {
            None
        } else if doc.nodes_view()[x@].kind is TextToken && trim_start(node_source(doc, x@)).len() > 0 {
            Some(first_word(node_source(doc, x@)).0)
        } else {
            match doc.nodes_view()[x@].next_sibling {
                Some(n) => if x@ < n@ < doc.nodes_view().len() {
                    caller_from(doc, Some(n))
                } else {
                    None
                },
                None => None,
            }
        },
    }
}

/// The span of the last closing marker in the sibling chain at `c` on.
spec fn last_close_from(doc: &CstDocument, c: Option<CstNodeId>) -> Option<Span>
    decreases (match c {
        Some(x) => doc.nodes_view().len() - x@,
        None => 0,
    }),
{
    match c {
        None => None,
        Some(x) => if !(0 <= x@ < doc.nodes_view().len()) {
            None
        } else {
            let rest = match doc.nodes_view()[x@].next_sibling {
                Some(n) => if x@ < n@ < doc.nodes_view().len() {
                    last_close_from(doc, Some(n))
                } else {
                    None
                },
                None => None,
            };
            if rest is Some {
                rest
            } else if doc.nodes_view()[x@].kind is ClosingMarkerToken {
                Some(doc.nodes_view()[x@].span)
            } else {
                None
            }
        },
    }
}

/// The span of the last closing marker in the sibling chain at `c` on
/// whose name, without leading `+`, is `name`.
spec fn last_close_named(doc: &CstDocument, c: Option<CstNodeId>, name: Seq<char>) -> Option<Span>
    decreases (match c {
        Some(x) => doc.nodes_view().len() - x@,
        None => 0,
    }),
{
    match c {
        None => None,
        Some(x) => if !(0 <= x@ < doc.nodes_view().len()) {
            None
        } else {
            let rest = match doc.nodes_view()[x@].next_sibling {
                Some(n) => if x@ < n@ < doc.nodes_view().len() {
                    last_close_named(doc, Some(n), name)
                } else {
                    None
                },
                None => None,
            };
            if rest is Some {
                rest
            } else if doc.nodes_view()[x@].kind matches CstKind::ClosingMarkerToken { normalized, .. }
                && plus_stripped(normalized@) == name {
                Some(doc.nodes_view()[x@].span)
            } else {
                None
            }
        },
    }
}

/// The source of a lowered inline node `id` with marker `marker`: it
/// points at `id`, spans the node, and records the last closing marker of
/// its name among its children.
spec fn inline_source_ok(doc: &CstDocument, id: CstNodeId, marker: Seq<char>, src: SourceNode) -> bool {
    &&& src.anchor_cst == Some(id@ as usize)
    &&& src.spans matches Some(sp) && sp.node == doc.nodes_view()[id@].span && sp.code is None && sp.number is None
        && sp.close == last_close_named(doc, doc.nodes_view()[id@].first_child, plus_stripped(marker))
}

/// The attributes of node `id` with marker `marker`.
spec fn node_attributes(doc: &CstDocument, id: CstNodeId, marker: Seq<char>) -> Seq<(Seq<char>, Seq<char>)> {
    chain_attrs(doc, doc.nodes_view()[id@].first_child, marker)
}

/// Whether a chapter or a verse stands directly below the root of `doc`.
pub open spec fn has_top_number(doc: &CstDocument) -> bool {
    first_sibling_where(doc.nodes_view(), doc.nodes_view()[0].first_child, -3) is Some
}

/// The state of a lowering pass.
struct LowerCtx {
    collect_diagnostics: bool,
    diagnostics: DiagnosticList,
    current_book_code: Option<String>,
    current_chapter: Option<String>,
    seen_id: bool,
}

/// The lowering state `b` follows `a`: the same choice of diagnostics,
/// and every diagnostic of `a` still in place.
spec fn grew(a: LowerCtx, b: LowerCtx) -> bool {
    &&& b.collect_diagnostics == a.collect_diagnostics
    &&& a.diagnostics@.len() <= b.diagnostics@.len()
    &&& forall|k: int| 0 <= k < a.diagnostics@.len() ==> #[trigger] b.diagnostics@[k] == a.diagnostics@[k]
}

impl LowerCtx {
    fn new(collect_diagnostics: bool) -> (r: Self)
        ensures
            r.collect_diagnostics == collect_diagnostics,
    {
        LowerCtx {
            collect_diagnostics,
            diagnostics: DiagnosticList::new(),
            current_book_code: None,
            current_chapter: None,
            seen_id: false,
        }
    }

    fn push_diagnostic(&mut self, d: Diagnostic)
        ensures
            grew(*old(self), *final(self)),
            final(self).diagnostics@ == (if old(self).collect_diagnostics {
                old(self).diagnostics@.push(d)
            } else {
                old(self).diagnostics@
            }),
            final(self).collect_diagnostics == old(self).collect_diagnostics,
            final(self).current_book_code == old(self).current_book_code,
            final(self).current_chapter == old(self).current_chapter,
            final(self).seen_id == old(self).seen_id,
    {
        if self.collect_diagnostics {
            self.diagnostics.push(d);
        }
    }

    /// Lower all structural (non-leaf) children of a CST node into AST nodes.
    #[verifier::rlimit(100)]
    #[verifier::spinoff_prover]
    fn lower_children(&mut self, doc: &CstDocument, id: CstNodeId) -> (r: Vec<SpannedNode>)
        requires
            valid_id(doc, id),
        ensures
            grew(*old(self), *final(self)),
            all_ok(r@),
            forall|k: int| 0 <= k < r@.len() ==> !(#[trigger] r@[k].node is Text),
            first_child_pick(doc, id, -3) is Some ==> r@.len() > 0,
            exists|srcs: Seq<int>| traced_to_children(doc, id@, r@, srcs) && covers(doc, id@, srcs),
            old(self).collect_diagnostics ==> chapters_reported_between(
                doc,
                doc.nodes_view()[id@].first_child,
                None,
                final(self).diagnostics@,
            ),
        decreases doc.nodes_view().len() - id@, 1int,
    {
        let parent = doc.node(id);
        let parent_is_root = matches!(parent.kind, CstKind::Document);
        let parent_is_table = matches!(parent.kind, CstKind::Table);
        let mut verse_warned = false;
        let mut result: Vec<SpannedNode> = Vec::new();
        proof {
            doc.lemma_node(id@);
        }
        let mut child_id = parent.first_child;
        let ghost mut srcs: Seq<int> = seq![];
        loop
            invariant
                grew(*old(self), *self),
                valid_id(doc, id),
                all_ok(result@),
                cursor_ok(doc, id, child_id),
                traced_to_children(doc, id@, result@, srcs),
                cursor_after(doc, id@, child_id, srcs),
                covered_between(doc, id@, doc.nodes_view()[id@].first_child, child_id, srcs),
                old(self).collect_diagnostics ==> chapters_reported_between(
                    doc,
                    doc.nodes_view()[id@].first_child,
                    child_id,
                    self.diagnostics@,
                ),
                forall|k: int| 0 <= k < result@.len() ==> !(#[trigger] result@[k].node is Text),
                result@.len() > 0 || first_sibling_where(doc.nodes_view(), child_id, -3) == first_child_pick(
                    doc,
                    id,
                    -3,
                ),
                parent_is_root == (doc.nodes_view()[id@].kind is Document),
            ensures
                all_ok(result@),
                forall|k: int| 0 <= k < result@.len() ==> !(#[trigger] result@[k].node is Text),
                result@.len() > 0 || first_child_pick(doc, id, -3) is None,
                traced_to_children(doc, id@, result@, srcs),
                covers(doc, id@, srcs),
                old(self).collect_diagnostics ==> chapters_reported_between(
                    doc,
                    doc.nodes_view()[id@].first_child,
                    None,
                    self.diagnostics@,
                ),
            decreases cursor_measure(doc, child_id),
        {
            let cid = match child_id {
                Some(c) => c,
                None => break,
            };
            proof {
                doc.lemma_node(cid@);
            }
            let node = doc.node(cid);
            child_id = node.next_sibling;
            let ghost old_srcs = srcs;
            let ghost ds0 = self.diagnostics@;
            let ghost first = doc.nodes_view()[id@].first_child;
            if node.kind.is_leaf() {
                match &node.kind {
                    CstKind::ClosingMarkerToken { normalized, .. } => {
                        self.push_diagnostic(
                            Diagnostic::stray_close(normalized.as_str(), node.span.clone()).with_anchor_cst(
                                cid.index(),
                            ),
                        );
                    },
                    CstKind::MarkerToken { normalized, .. } => {
                        if normalized.kind() == MarkerKind::SidebarEnd {
                            self.push_diagnostic(
                                Diagnostic::stray_close(normalized.as_str(), node.span.clone()).with_anchor_cst(
                                    cid.index(),
                                ),
                            );
                        }
                    },
                    _ => {},
                }
                proof {
                    lemma_cover_step(doc, id@, first, cid, old_srcs, srcs);
                    if old(self).collect_diagnostics {
                        lemma_chapters_step(doc, first, cid, ds0, self.diagnostics@);
                    }
                }
                continue;
            }
            // Root-level verse recovery: wrap in implicit \p
            if parent_is_root && matches!(node.kind, CstKind::Verse { .. }) {
                if !verse_warned {
                    verse_warned = true;
                    self.push_diagnostic(
                        Diagnostic::verse_outside_paragraph(node.span.clone()).with_anchor_cst(
                            cid.index(),
                        ),
                    );
                }
                let ghost next = child_id;
                let para = self.recover_root_verses(doc, id, cid, &mut child_id);
                let ghost before = result@;
                result.push(para);
                proof {
                    srcs = srcs.push(cid@);
                    lemma_fields_plain(doc, cid@, para.node);
                    assert forall|k: int| 0 <= k < before.len() implies result@[k] == before[k] by {}
                    assert(old_srcs.is_prefix_of(srcs));
                    lemma_cover_step(doc, id@, first, cid, old_srcs, srcs);
                    lemma_cover_skip(doc, id@, first, next, child_id, srcs);
                    if old(self).collect_diagnostics {
                        lemma_chapters_step(doc, first, cid, ds0, self.diagnostics@);
                        lemma_chapters_skip(doc, first, next, child_id, self.diagnostics@);
                    }
                }
                continue;
            }
            let ghost before = result@;
            let ghost ck = doc.nodes_view()[cid@].kind;
            let lowered = self.lower_structural(doc, cid);
            proof {
                if old(self).collect_diagnostics {
                    if ck is Chapter {
                        lemma_reported_appended(ds0, self.diagnostics@, number_reports(doc, cid@, true));
                    }
                    lemma_chapters_step(doc, first, cid, ds0, self.diagnostics@);
                }
            }
            match lowered {
                Some(ast_node) => {
                    assert(without_blank_last(before) == before);
                    if absorb_number(&mut result, &ast_node) {
                        proof {
                            assert(!(ck is Chapter) && !(ck is Verse));
                            let v = choose|v: String|
                                #![trigger v@]
                                v@ == node_text(ast_node.node).unwrap() && result@ == last_number_set(
                                    without_blank_last(before),
                                    v,
                                    marker_of(ast_node.node).unwrap()@ == "ca"@ || marker_of(ast_node.node).unwrap()@
                                        == "cp"@,
                                    marker_of(ast_node.node).unwrap()@ == "ca"@ || marker_of(ast_node.node).unwrap()@
                                        == "va"@,
                                );
                            let ch = marker_of(ast_node.node).unwrap()@ == "ca"@ || marker_of(ast_node.node).unwrap()@
                                == "cp"@;
                            let alt = marker_of(ast_node.node).unwrap()@ == "ca"@ || marker_of(ast_node.node).unwrap()@
                                == "va"@;
                            if exists|i: int| is_last_target(before, i, ch) {
                                let i = choose|i: int| is_last_target(before, i, ch);
                                assert forall|k: int| 0 <= k < result@.len() implies !(#[trigger] result@[k].node is Text) by {
                                    if k != i {
                                        assert(result@[k] == before[k]);
                                    }
                                }
                                assert forall|k: int| 0 <= k < result@.len() implies child_lowers(
                                    doc.nodes_view()[srcs[k]].kind,
                                    #[trigger] result@[k].node,
                                    doc.nodes_view()[id@].kind is Document,
                                ) && deep_lowers(doc, srcs[k], result@[k].node) by {
                                    if k != i {
                                        assert(result@[k] == before[k]);
                                    } else {
                                        lemma_deep_with_number(doc, srcs[k], before[i].node, v, alt);
                                    }
                                }
                            }
                        }
                        proof {
                            lemma_cover_step(doc, id@, first, cid, old_srcs, srcs);
                        }
                        continue;
                    }
                    // Table row grouping (only when parent is not already a Table)
                    if !parent_is_table && matches!(ast_node.node, Node::TableRow { .. }) {
                        push_table_row(&mut result, ast_node);
                        proof {
                            if !last_is_table(before) {
                                srcs = srcs.push(cid@);
                            }
                            lemma_fields_plain(doc, srcs[result@.len() - 1], result@[result@.len() - 1].node);
                            assert forall|k: int| 0 <= k < before.len() - 1 implies result@[k] == before[k] by {
                                if last_is_table(before) {
                                    assert(result@.subrange(0, before.len() - 1)[k] == result@[k]);
                                } else {
                                    assert(result@.subrange(0, before.len() as int)[k] == result@[k]);
                                }
                            }
                            if !last_is_table(before) && before.len() > 0 {
                                assert(result@.subrange(0, before.len() as int)[before.len() - 1] == result@[before.len() - 1]);
                            }
                            assert forall|k: int| 0 <= k < result@.len() implies !(#[trigger] result@[k].node is Text) by {
                                if last_is_table(before) && k < before.len() - 1 {
                                    assert(result@.subrange(0, before.len() - 1)[k] == result@[k]);
                                }
                                if !last_is_table(before) && k < before.len() {
                                    assert(result@.subrange(0, before.len() as int)[k] == result@[k]);
                                }
                            }
                        }
                        proof {
                            assert(old_srcs.is_prefix_of(srcs));
                            lemma_cover_step(doc, id@, first, cid, old_srcs, srcs);
                        }
                        continue;
                    }
                    result.push(ast_node);
                    proof {
                        srcs = srcs.push(cid@);
                        assert forall|k: int| 0 <= k < before.len() implies result@[k] == before[k] by {}
                        assert(old_srcs.is_prefix_of(srcs));
                        assert(srcs[srcs.len() - 1] == cid@);
                        lemma_cover_step(doc, id@, first, cid, old_srcs, srcs);
                    }
                },
                None => {
                    proof {
                        lemma_cover_step(doc, id@, first, cid, old_srcs, srcs);
                    }
                },
            }
        }
        result
    }

    /// A verse straight under the document opens an implicit `\p`, which
    /// takes the verses and text that follow it up to the next other node.
    fn recover_root_verses(
        &mut self,
        doc: &CstDocument,
        id: CstNodeId,
        cid: CstNodeId,
        child_id: &mut Option<CstNodeId>,
    ) -> (r: SpannedNode)
        requires
            valid_id(doc, id),
            id@ < cid@ < doc.nodes_view().len(),
            cursor_ok(doc, id, *old(child_id)),
            cursor_after(doc, id@, *old(child_id), seq![cid@]),
        ensures
            grew(*old(self), *final(self)),
            sn_ok(r),
            r.node is Para,
            cursor_ok(doc, id, *final(child_id)),
            cursor_after(doc, id@, *final(child_id), seq![cid@]),
            forall|x: int|
                #[trigger] in_chain(doc.nodes_view(), *old(child_id), x) && !in_chain(doc.nodes_view(), *final(child_id), x)
                    ==> (doc.nodes_view()[x].kind is Verse || is_leaf_kind(doc.nodes_view()[x].kind)),
            cursor_measure(doc, *final(child_id)) <= cursor_measure(doc, *old(child_id)),
        decreases doc.nodes_view().len() - id@, 0int,
    {
        let node = doc.node(cid);
        let verse_span = node.span.clone();
        let mut para_children: Vec<SpannedNode> = Vec::new();
        let mut after_verse = true;
        match self.lower_verse(doc, cid) {
            Some(v) => para_children.push(v),
            None => {},
        }
        // Collect subsequent root-level verses and interleaved text
        loop
            invariant
                grew(*old(self), *self),
                valid_id(doc, id),
                all_ok(para_children@),
                cursor_ok(doc, id, *child_id),
                cursor_after(doc, id@, *child_id, seq![cid@]),
                cursor_measure(doc, *child_id) <= cursor_measure(doc, *old(child_id)),
                forall|x: int|
                    #[trigger] in_chain(doc.nodes_view(), *old(child_id), x) && !in_chain(doc.nodes_view(), *child_id, x)
                        ==> (doc.nodes_view()[x].kind is Verse || is_leaf_kind(doc.nodes_view()[x].kind)),
            decreases cursor_measure(doc, *child_id),
        {
            let next_id = match *child_id {
                Some(n) => n,
                None => break,
            };
            proof {
                doc.lemma_node(next_id@);
            }
            let next = doc.node(next_id);
            if matches!(next.kind, CstKind::Verse { .. }) {
                after_verse = true;
                match self.lower_verse(doc, next_id) {
                    Some(v) => para_children.push(v),
                    None => {},
                }
                proof {
                    let ghost cur = Some(next_id);
                    assert forall|x: int|
                        #[trigger] in_chain(doc.nodes_view(), *old(child_id), x) && !in_chain(doc.nodes_view(), next.next_sibling, x)
                            implies (doc.nodes_view()[x].kind is Verse || is_leaf_kind(doc.nodes_view()[x].kind)) by {
                        lemma_chain_step(doc, next_id, x);
                    }
                }
                *child_id = next.next_sibling;
                continue;
            }
            if next.kind.is_leaf() {
                match &next.kind {
                    CstKind::TextToken => {
                        after_verse = false;
                        let text = str_chars(doc.source_text(next_id));
                        append_normalized_text(&mut para_children, &text);
                    },
                    CstKind::WhitespaceToken => {
                        if !after_verse {
                            append_text_to(&mut para_children, &space());
                        }
                    },
                    CstKind::NewlineToken => {
                        after_verse = false;
                        let needs = match para_children.last() {
                            Some(last) => match &last.node {
                                Node::Text(prev) => text_needs_space(prev.as_str()),
                                _ => false,
                            },
                            None => false,
                        };
                        if needs {
                            append_text_to(&mut para_children, &space());
                        }
                    },
                    _ => {},
                }
                proof {
                    let ghost cur = Some(next_id);
                    assert forall|x: int|
                        #[trigger] in_chain(doc.nodes_view(), *old(child_id), x) && !in_chain(doc.nodes_view(), next.next_sibling, x)
                            implies (doc.nodes_view()[x].kind is Verse || is_leaf_kind(doc.nodes_view()[x].kind)) by {
                        lemma_chain_step(doc, next_id, x);
                    }
                }
                *child_id = next.next_sibling;
                continue;
            }
            break;
        }
        let (content, children) = split_nodes(para_children);
        SpannedNode {
            node: Node::Para { marker: MarkerName::parse("p"), content },
            source: SourceNode::structural(SourceSpans::node(verse_span), children, Some(cid.index())),
        }
    }

    /// Lower a single structural CST node into an AST node.
    fn lower_structural(&mut self, doc: &CstDocument, id: CstNodeId) -> (r: Option<SpannedNode>)
        requires
            valid_id(doc, id),
        ensures
            grew(*old(self), *final(self)),
            r matches Some(sn) ==> sn_ok(sn),
            !(doc.nodes_view()[id@].kind is Table) ==> (r is None <==> lowers_to_nothing(
                doc.nodes_view()[id@].kind,
                old(self).seen_id,
            )),
            r matches Some(sn) ==> lowered_variant(doc.nodes_view()[id@].kind, sn.node),
            r matches Some(sn) ==> deep_lowers(doc, id@, sn.node),
            doc.nodes_view()[id@].kind is Chapter ==> crate::validation::diag_views(final(self).diagnostics@)
                == crate::validation::diag_views(old(self).diagnostics@) + (if old(self).collect_diagnostics {
                number_reports(doc, id@, true)
            } else {
                seq![]
            }),
        decreases doc.nodes_view().len() - id@, 3int,
    {
        let node = doc.node(id);
        let r = match &node.kind {
            CstKind::Book { marker } => self.lower_book(doc, id, marker),
            CstKind::Chapter { .. } => self.lower_chapter(doc, id),
            CstKind::Verse { .. } => self.lower_verse(doc, id),
            CstKind::Para { marker } => self.lower_para(doc, id, marker),
            CstKind::Char { marker } => self.lower_char(doc, id, marker),
            CstKind::Ref => self.lower_ref(doc, id),
            CstKind::Note { marker } => self.lower_note(doc, id, marker),
            CstKind::Milestone { marker } => self.lower_milestone(doc, id, marker),
            CstKind::Figure { marker } => self.lower_figure(doc, id, marker),
            CstKind::Sidebar { marker } => self.lower_sidebar(doc, id, marker),
            CstKind::Periph { marker } => self.lower_periph(doc, id, marker),
            CstKind::Table => self.lower_table(doc, id),
            CstKind::TableRow { marker } => self.lower_table_row(doc, id, marker),
            CstKind::TableCell { marker } => self.lower_table_cell(doc, id, marker),
            CstKind::Unknown { marker } => self.lower_unknown(doc, id, marker),
            _ => None,
        };
        proof {
            reveal(fields_lowered);
        }
        r
    }

    /// Collect content from the leaf children of a structural node,
    /// handling whitespace normalization, text merging, attributes, and
    /// closing marker spans.
    #[verifier::rlimit(100)]
    #[verifier::spinoff_prover]
    fn collect_content(
        &mut self,
        doc: &CstDocument,
        id: CstNodeId,
        is_block: bool,
        close_span: &mut Option<Span>,
        attributes: &mut Vec<Attribute>,
        marker_name: &str,
    ) -> (r: Vec<SpannedNode>)
        requires
            valid_id(doc, id),
        ensures
            grew(*old(self), *final(self)),
            all_ok(r@),
            attribute_views(final(attributes)@) == attribute_views(old(attributes)@) + chain_attrs(
                doc,
                doc.nodes_view()[id@].first_child,
                marker_name@,
            ),
            *final(close_span) == (match last_close_named(
                doc,
                doc.nodes_view()[id@].first_child,
                plus_stripped(marker_name@),
            ) {
                Some(x) => Some(x),
                None => *old(close_span),
            }),
            exists|srcs: Seq<int>| traced_content(doc, id@, r@, srcs) && covers(doc, id@, srcs),
        decreases doc.nodes_view().len() - id@, 1int,
    {
        let mut children: Vec<SpannedNode> = Vec::new();
        let mut after_open = true;
        let mut after_close = false;
        let mut pending_space = false;
        let parent_name = trim_plus_str(marker_name);
        proof {
            doc.lemma_node(id@);
        }
        let mut child_id_opt = doc.node(id).first_child;
        let ghost want_attrs = attribute_views(old(attributes)@) + chain_attrs(
            doc,
            doc.nodes_view()[id@].first_child,
            marker_name@,
        );
        let ghost want_close = match last_close_named(doc, doc.nodes_view()[id@].first_child, plus_stripped(marker_name@)) {
            Some(x) => Some(x),
            None => *old(close_span),
        };
        let ghost mut srcs: Seq<int> = seq![];
        let ghost first = doc.nodes_view()[id@].first_child;
        loop
            invariant
                grew(*old(self), *self),
                valid_id(doc, id),
                all_ok(children@),
                cursor_ok(doc, id, child_id_opt),
                first == doc.nodes_view()[id@].first_child,
                traced_content(doc, id@, children@, srcs),
                cursor_after(doc, id@, child_id_opt, srcs),
                covered_between(doc, id@, first, child_id_opt, srcs),
                parent_name@ == plus_stripped(marker_name@),
                want_attrs == attribute_views(old(attributes)@) + chain_attrs(
                    doc,
                    doc.nodes_view()[id@].first_child,
                    marker_name@,
                ),
                want_close == (match last_close_named(doc, doc.nodes_view()[id@].first_child, plus_stripped(marker_name@)) {
                    Some(x) => Some(x),
                    None => *old(close_span),
                }),
                attribute_views(attributes@) + chain_attrs(doc, child_id_opt, marker_name@) == want_attrs,
                (match last_close_named(doc, child_id_opt, plus_stripped(marker_name@)) {
                    Some(x) => Some(x),
                    None => *close_span,
                }) == want_close,
            ensures
                attribute_views(attributes@) == want_attrs,
                *close_span == want_close,
                traced_content(doc, id@, children@, srcs),
                covers(doc, id@, srcs),
            decreases cursor_measure(doc, child_id_opt),
        {
            let child_id = match child_id_opt {
                Some(c) => c,
                None => break,
            };
            proof {
                doc.lemma_node(child_id@);
            }
            let child = doc.node(child_id);
            child_id_opt = child.next_sibling;
            let ghost old_srcs = srcs;
            match &child.kind {
                CstKind::MarkerToken { normalized, .. } => {
                    // Stray \esbe inside a paragraph/element
                    if normalized.kind() == MarkerKind::SidebarEnd {
                        self.push_diagnostic(
                            Diagnostic::stray_close(normalized.as_str(), child.span.clone()).with_anchor_cst(
                                child_id.index(),
                            ),
                        );
                    }
                    after_open = true;
                    after_close = false;
                },
                CstKind::ClosingMarkerToken { normalized, .. } => {
                    let close_name = trim_plus_str(normalized.as_str());
                    if str_eq_lit(close_name, parent_name) {
                        *close_span = Some(child.span.clone());
                        after_close = true;
                        after_open = false;
                        pending_space = false;
                    } else {
                        self.push_diagnostic(
                            Diagnostic::stray_close(normalized.as_str(), child.span.clone()).with_anchor_cst(
                                child_id.index(),
                            ),
                        );
                    }
                },
                CstKind::MilestoneEndToken => {
                    after_close = true;
                    after_open = false;
                    pending_space = false;
                },
                CstKind::WhitespaceToken => {
                    if after_open || pending_space {
                    } else if after_close {
                        pending_space = true;
                    } else {
                        let ghost pre = children@;
                append_text_to(&mut children, &space());
                proof {
                    lemma_trace_keep(doc, id@, pre, srcs, children@);
                    lemma_cover_keep(doc, id@, first, Some(child_id), srcs, pad(srcs, children@.len() as int));
                    srcs = pad(srcs, children@.len() as int);
                }
                    }
                },
                CstKind::NewlineToken => {
                    if after_open || after_close {
                        if after_close {
                            pending_space = true;
                        }
                    } else {
                        // Newline becomes word boundary — use pending_space to merge
                        // with any adjacent whitespace tokens.
                        pending_space = true;
                    }
                },
                CstKind::AttributesToken => {
                    let text = doc.source_text(child_id);
                    match parse_attributes(text) {
                        Some(parsed) => {
                            if parsed.len() > 0 {
                                let mut resolved = resolve_default_attr_keys(marker_name, parsed);
                                attributes.append(&mut resolved);
                            }
                            after_open = false;
                            after_close = false;
                        },
                        None => {
                            self.push_diagnostic(
                                Diagnostic::malformed_attributes(child.span.clone()).with_anchor_cst(
                                    child_id.index(),
                                ),
                            );
                            let ghost pre = children@;
                append_text_to(&mut children, &str_chars(text));
                proof {
                    lemma_trace_keep(doc, id@, pre, srcs, children@);
                    lemma_cover_keep(doc, id@, first, Some(child_id), srcs, pad(srcs, children@.len() as int));
                    srcs = pad(srcs, children@.len() as int);
                }
                        },
                    }
                },
                CstKind::TextToken => {
                    if pending_space {
                        pending_space = false;
                        let ghost pre = children@;
                append_text_to(&mut children, &space());
                proof {
                    lemma_trace_keep(doc, id@, pre, srcs, children@);
                    lemma_cover_keep(doc, id@, first, Some(child_id), srcs, pad(srcs, children@.len() as int));
                    srcs = pad(srcs, children@.len() as int);
                }
                    }
                    after_open = false;
                    after_close = false;
                    let text = str_chars(doc.source_text(child_id));
                    let ghost pre = children@;
                    append_normalized_text(&mut children, &text);
                    proof {
                        if text@.len() > 0 {
                            lemma_normalized_ext(items(pre), seq![], false, text@, 0);
                        }
                        lemma_keeps_from_items(pre, children@);
                        lemma_trace_keep(doc, id@, pre, srcs, children@);
                        lemma_cover_keep(doc, id@, first, Some(child_id), srcs, pad(srcs, children@.len() as int));
                        srcs = pad(srcs, children@.len() as int);
                    }
                },
                _ => {
                    if !child.kind.is_leaf() {
                        // Structural child — recurse
                        if pending_space {
                            pending_space = false;
                            let ghost pre = children@;
                append_text_to(&mut children, &space());
                proof {
                    lemma_trace_keep(doc, id@, pre, srcs, children@);
                    lemma_cover_keep(doc, id@, first, Some(child_id), srcs, pad(srcs, children@.len() as int));
                    srcs = pad(srcs, children@.len() as int);
                }
                        }
                        after_open = false;
                        after_close = false;
                        let ghost ck = doc.nodes_view()[child_id@].kind;
                        match self.lower_structural(doc, child_id) {
                            Some(ast_child) => {
                                let ghost pre = children@;
                                let ghost pre_srcs = srcs;
                                if absorb_number(&mut children, &ast_child) {
                                    // Skip whitespace after consumed metadata
                                    after_close = true;
                                    proof {
                                        let ch = marker_of(ast_child.node).unwrap()@ == "ca"@ || marker_of(
                                            ast_child.node,
                                        ).unwrap()@ == "cp"@;
                                        let alt = marker_of(ast_child.node).unwrap()@ == "ca"@ || marker_of(
                                            ast_child.node,
                                        ).unwrap()@ == "va"@;
                                        let v = choose|v: String|
                                            #![trigger v@]
                                            v@ == node_text(ast_child.node).unwrap() && children@ == last_number_set(
                                                without_blank_last(pre),
                                                v,
                                                ch,
                                                alt,
                                            );
                                        let s2 = lemma_trace_absorb(doc, id@, pre, pre_srcs, v, ch, alt);
                                        lemma_cover_keep(doc, id@, first, Some(child_id), pre_srcs, s2);
                                        srcs = s2;
                                    }
                                } else if matches!(ast_child.node, Node::TableRow { .. }) {
                                    push_table_row(&mut children, ast_child);
                                    proof {
                                        if !last_is_table(pre) {
                                            srcs = srcs.push(child_id@);
                                        }
                                        lemma_fields_plain(doc, srcs[children@.len() - 1], children@[children@.len() - 1].node);
                                        assert forall|k: int| 0 <= k < pre.len() - 1 implies children@[k] == pre[k] by {
                                            if last_is_table(pre) {
                                                assert(children@.subrange(0, pre.len() - 1)[k] == children@[k]);
                                            } else {
                                                assert(children@.subrange(0, pre.len() as int)[k] == children@[k]);
                                            }
                                        }
                                        if !last_is_table(pre) && pre.len() > 0 {
                                            assert(children@.subrange(0, pre.len() as int)[pre.len() - 1] == children@[pre.len() - 1]);
                                        }
                                        assert(pre_srcs.is_prefix_of(srcs));
                                        assert forall|x: int| 0 <= x && pre_srcs.contains(x) implies srcs.contains(x) by {
                                            let q = choose|q: int| 0 <= q < pre_srcs.len() && pre_srcs[q] == x;
                                            assert(srcs[q] == x);
                                        }
                                        lemma_cover_keep(doc, id@, first, Some(child_id), pre_srcs, srcs);
                                    }
                                } else {
                                    children.push(ast_child);
                                    proof {
                                        srcs = srcs.push(child_id@);
                                        assert forall|k: int| 0 <= k < pre.len() implies children@[k] == pre[k] by {}
                                        assert forall|x: int| 0 <= x && pre_srcs.contains(x) implies srcs.contains(x) by {
                                            let q = choose|q: int| 0 <= q < pre_srcs.len() && pre_srcs[q] == x;
                                            assert(srcs[q] == x);
                                        }
                                        assert(srcs[srcs.len() - 1] == child_id@);
                                        lemma_cover_keep(doc, id@, first, Some(child_id), pre_srcs, srcs);
                                    }
                                }
                            },
                            None => {},
                        }
                    }
                },
            }
            proof {
                lemma_cover_step(doc, id@, first, child_id, srcs, srcs);
            }
        }
        let ghost pre = children@;
        if is_block {
            trim_trailing_text(&mut children);
            proof {
                if pre.len() > 0 && pre.last().node is Text && children@.len() < pre.len() {
                    lemma_trace_drop_last(doc, id@, pre, srcs);
                    lemma_cover_keep(doc, id@, first, None, srcs, srcs.drop_last());
                    srcs = srcs.drop_last();
                } else if pre.len() > 0 && pre.last().node is Text {
                    assert(children@.drop_last() == pre.drop_last());
                    assert forall|k: int| 0 <= k < pre.len() - 1 implies children@[k] == pre[k] by {
                        assert(children@.drop_last()[k] == pre.drop_last()[k]);
                    }
                    assert(keeps_nodes(pre, children@));
                    lemma_trace_keep(doc, id@, pre, srcs, children@);
                    assert(pad(srcs, children@.len() as int) =~= srcs);
                }
            }
        } else if pending_space {
            // For character-level elements, a trailing word-boundary space
            // (from a newline before the next sibling marker) is preserved.
            append_text_to(&mut children, &space());
            proof {
                lemma_trace_keep(doc, id@, pre, srcs, children@);
                lemma_cover_keep(doc, id@, first, None, srcs, pad(srcs, children@.len() as int));
                srcs = pad(srcs, children@.len() as int);
            }
        }
        proof {
            assert(traced_content(doc, id@, children@, srcs) && covers(doc, id@, srcs));
        }
        children
    }
}

/// `s` without its leading `+` signs.
fn trim_plus_str(s: &str) -> (r: &str)
    ensures
        r@.len() <= s@.len(),
        r@ == s@.subrange(s@.len() - r@.len(), s@.len() as int),
        r@.len() > 0 ==> r@[0] != '+',
        r@ == plus_stripped(s@),
{
    let n = s.unicode_len();
    let mut i: usize = 0;
    while i < n && s.get_char(i) == '+'
        invariant
            i <= n,
            n == s@.len(),
            forall|j: int| 0 <= j < i ==> s@[j] == '+',
        decreases n - i,
    {
        i += 1;
    }
    let r = s.substring_char(i, n);
    proof {
        assert(is_plus_strip(s@, r@));
        lemma_plus_strip_unique(s@, r@, plus_stripped(s@));
    }
    r
}

/// `r` is `s` without its leading `+` signs.
spec fn is_plus_strip(s: Seq<char>, r: Seq<char>) -> bool {
    &&& r.len() <= s.len()
    &&& r == s.subrange(s.len() - r.len(), s.len() as int)
    &&& r.len() > 0 ==> r[0] != '+'
    &&& forall|j: int| 0 <= j < s.len() - r.len() ==> s[j] == '+'
}

/// `s` without its leading `+` signs.
spec fn plus_stripped(s: Seq<char>) -> Seq<char> {
    choose|r: Seq<char>| is_plus_strip(s, r)
}

proof fn lemma_plus_strip_unique(s: Seq<char>, a: Seq<char>, b: Seq<char>)
    requires
        is_plus_strip(s, a),
    ensures
        b == plus_stripped(s) ==> a == b,
{
    if b == plus_stripped(s) {
        assert(is_plus_strip(s, b));
        if a.len() < b.len() {
            assert(b[0] == s[s.len() - b.len()]);
        } else if b.len() < a.len() {
            assert(a[0] == s[s.len() - a.len()]);
        }
    }
}

} // verus!

verus! {

/// The book code in effect, or nothing.
pub open spec fn opt_text(o: Option<String>) -> Seq<char> {
    match o {
        Some(s) => s@,
        None => seq![],
    }
}

/// The byte length of `v`.
fn byte_width(v: &[char]) -> (r: usize)
    requires
        crate::text::byte_len(v@) <= usize::MAX,
    ensures
        r == crate::text::byte_len(v@),
{
    let mut acc: usize = 0;
    let mut i: usize = 0;
    assert(v@.subrange(0, 0) =~= Seq::<char>::empty());
    while i < v.len()
        invariant
            i <= v@.len(),
            crate::text::byte_len(v@) <= usize::MAX,
            acc == crate::text::byte_len(v@.subrange(0, i as int)),
        decreases v@.len() - i,
    {
        proof {
            crate::text::lemma_byte_len_step(v@, i as int);
            crate::text::lemma_byte_len_prefix(v@, i as int + 1, i as int + 1);
        }
        acc = acc + crate::text::char_width_exec(v[i]);
        i += 1;
    }
    assert(v@.subrange(0, v@.len() as int) =~= v@);
    acc
}

proof fn lemma_sub_byte_len(s: Seq<char>, a: int, b: int)
    requires
        0 <= a <= b <= s.len(),
    ensures
        crate::text::byte_len(s.subrange(a, b)) <= crate::text::byte_len(s),
{
    crate::text::lemma_byte_len_prefix(s, a, b);
    crate::text::lemma_byte_len_prefix(s, b, s.len() as int);
    assert(s.subrange(0, s.len() as int) =~= s);
}

/// The alignment of a table cell marker: `…r` cells align to the end,
/// `\\thc`/`\\tcc` to the center, others to the start.
pub open spec fn cell_align(marker: Seq<char>) -> Seq<char> {
    let base = crate::markers::numbered_base(marker);
    if base.len() > 0 && base.last() == 'r' {
        "end"@
    } else if base == "thc"@ || base == "tcc"@ {
        "center"@
    } else {
        "start"@
    }
}

/// The run of digits that ends `base + digits` is `digits`, when `base`
/// does not end in a digit.
proof fn lemma_trailing_digits(base: Seq<char>, digits: Seq<char>)
    requires
        forall|i: int| 0 <= i < digits.len() ==> crate::text::is_digit(#[trigger] digits[i]),
        base.len() == 0 || !crate::text::is_digit(base.last()),
    ensures
        crate::markers::trailing_digits_start(base + digits) == base.len(),
    decreases digits.len(),
{
    if digits.len() == 0 {
        assert(base + digits =~= base);
    } else {
        assert((base + digits).drop_last() =~= base + digits.drop_last());
        lemma_trailing_digits(base, digits.drop_last());
    }
}

/// A name without a dash has no dash to find.
proof fn lemma_no_dash(n: Seq<char>)
    requires
        forall|i: int| 0 <= i < n.len() ==> #[trigger] n[i] != '-',
    ensures
        crate::markers::last_dash(n) == -1,
    decreases n.len(),
{
    if n.len() > 0 {
        lemma_no_dash(n.drop_last());
    }
}

/// A table cell marker made of a name `base` and a number `digits`, with
/// no column span: a name that ends in `r` (`tcr`, `thr`) aligns its cells
/// to the end, `thc` and `tcc` to the center, every other name to the
/// start.
pub proof fn law_cell_align(base: Seq<char>, digits: Seq<char>)
    requires
        forall|i: int| 0 <= i < base.len() ==> #[trigger] base[i] != '-',
        forall|i: int| 0 <= i < digits.len() ==> '0' <= #[trigger] digits[i] <= '9',
        base.len() == 0 || !('0' <= base.last() <= '9'),
    ensures
        base.len() > 0 && base.last() == 'r' ==> cell_align(base + digits) == "end"@,
        base == "thc"@ || base == "tcc"@ ==> cell_align(base + digits) == "center"@,
        !(base.len() > 0 && base.last() == 'r') && base != "thc"@ && base != "tcc"@ ==> cell_align(base + digits)
            == "start"@,
{
    let n = base + digits;
    assert forall|i: int| 0 <= i < n.len() implies #[trigger] n[i] != '-' by {
        if i >= base.len() {
            assert(n[i] == digits[i - base.len()]);
        }
    }
    lemma_no_dash(n);
    lemma_trailing_digits(base, digits);
    assert(crate::markers::numbered_base(n) =~= base);
    reveal_strlit("thc");
    reveal_strlit("tcc");
}

/// A table cell marker with a column span (`tcr1-2`) aligns as the marker
/// without it.
pub proof fn law_cell_align_span(base: Seq<char>, digits: Seq<char>, span: Seq<char>)
    requires
        forall|i: int| 0 <= i < base.len() ==> #[trigger] base[i] != '-',
        forall|i: int| 0 <= i < digits.len() ==> '0' <= #[trigger] digits[i] <= '9',
        span.len() > 0,
        forall|i: int| 0 <= i < span.len() ==> '0' <= #[trigger] span[i] <= '9',
        base.len() == 0 || !('0' <= base.last() <= '9'),
    ensures
        cell_align(base + digits + seq!['-'] + span) == cell_align(base + digits),
{
    let n0 = base + digits;
    let n = n0 + seq!['-'] + span;
    assert forall|i: int| 0 <= i < n0.len() implies #[trigger] n0[i] != '-' by {
        if i >= base.len() {
            assert(n0[i] == digits[i - base.len()]);
        }
    }
    lemma_no_dash(n0);
    lemma_last_dash_after(n0, span);
    assert(n.subrange(n0.len() as int + 1, n.len() as int) =~= span);
    assert(n.subrange(0, n0.len() as int) =~= n0);
    assert(crate::markers::strip_column_span(n) == n0);
    lemma_no_dash(n0);
    assert(crate::markers::last_dash(n0) == -1);
    assert(crate::markers::strip_column_span(n0) == n0);
}

/// The last dash of `n0 + "-" + span`, with no dash in `span`, is the one
/// after `n0`.
proof fn lemma_last_dash_after(n0: Seq<char>, span: Seq<char>)
    requires
        forall|i: int| 0 <= i < span.len() ==> '0' <= #[trigger] span[i] <= '9',
    ensures
        crate::markers::last_dash(n0 + seq!['-'] + span) == n0.len(),
    decreases span.len(),
{
    let n = n0 + seq!['-'] + span;
    if span.len() == 0 {
        assert(n.last() == '-');
    } else {
        assert(n.last() == span.last());
        assert(n.drop_last() =~= n0 + seq!['-'] + span.drop_last());
        lemma_last_dash_after(n0, span.drop_last());
    }
}

/// A lowered table cell takes its alignment from its marker: a marker
/// whose name, without its number, ends in `r` gives `end`, `thc` and
/// `tcc` give `center`, and the rest `start`.
pub proof fn law_lowered_cell_align(doc: &CstDocument, x: int, n: Node, base: Seq<char>, digits: Seq<char>)
    requires
        0 <= x < doc.nodes_view().len(),
        deep_lowers(doc, x, n),
        doc.nodes_view()[x].kind matches CstKind::TableCell { marker } && marker@ == base + digits,
        forall|i: int| 0 <= i < base.len() ==> #[trigger] base[i] != '-',
        forall|i: int| 0 <= i < digits.len() ==> '0' <= #[trigger] digits[i] <= '9',
        base.len() == 0 || !('0' <= base.last() <= '9'),
        n is TableCell,
    ensures
        n matches Node::TableCell { align, .. } && (base.len() > 0 && base.last() == 'r' ==> align@ == "end"@) && (
        base == "thc"@ || base == "tcc"@ ==> align@ == "center"@) && (!(base.len() > 0 && base.last() == 'r')
            && base != "thc"@ && base != "tcc"@ ==> align@ == "start"@),
{
    reveal(fields_lowered);
    law_cell_align(base, digits);
}

fn cell_align_exec(marker: &MarkerName) -> (r: String)
    ensures
        r@ == cell_align(marker@),
{
    let base = crate::markers::numbered_base_exec(&marker.to_chars());
    let b = chars_to_string(&base);
    if base.len() > 0 && base[base.len() - 1] == 'r' {
        str_to_string("end")
    } else if str_eq_lit(b.as_str(), "thc") || str_eq_lit(b.as_str(), "tcc") {
        str_to_string("center")
    } else {
        str_to_string("start")
    }
}

/// Trims the trailing whitespace of the last text child of a container.
fn trim_trailing_text_on_children(node: SpannedNode) -> (r: SpannedNode)
    requires
        sn_ok(node),
    ensures
        sn_ok(r),
{
    let SpannedNode { node, source } = node;
    let spans = source.spans;
    let anchor = source.anchor_cst;
    let kids = source.children;
    match node {
        Node::TableCell { marker, align, content } => {
            let mut sns = zip_nodes(content, kids);
            trim_trailing_text(&mut sns);
            let (content, kids) = split_nodes(sns);
            SpannedNode {
                node: Node::TableCell { marker, align, content },
                source: SourceNode { spans, children: kids, anchor_cst: anchor },
            }
        },
        Node::Para { marker, content } => {
            let mut sns = zip_nodes(content, kids);
            trim_trailing_text(&mut sns);
            let (content, kids) = split_nodes(sns);
            SpannedNode {
                node: Node::Para { marker, content },
                source: SourceNode { spans, children: kids, anchor_cst: anchor },
            }
        },
        Node::Char(data) => {
            let d = *data;
            let mut sns = zip_nodes(d.content, kids);
            trim_trailing_text(&mut sns);
            let (content, kids) = split_nodes(sns);
            SpannedNode {
                node: Node::Char(Box::new(CharData { marker: d.marker, content, attributes: d.attributes })),
                source: SourceNode { spans, children: kids, anchor_cst: anchor },
            }
        },
        other => SpannedNode { node: other, source: SourceNode { spans, children: kids, anchor_cst: anchor } },
    }
}

/// Pairs AST nodes with their source-map entries.
fn zip_nodes(nodes: Vec<Node>, sources: Vec<SourceNode>) -> (r: Vec<SpannedNode>)
    requires
        aligned_all(nodes@, sources@),
    ensures
        all_ok(r@),
        r@.len() == nodes@.len(),
        forall|k: int| 0 <= k < nodes@.len() ==> (#[trigger] r@[k]).node == nodes@[k] && r@[k].source == sources@[k],
{
    let ghost ns = nodes@;
    let ghost ss = sources@;
    let mut nodes = nodes;
    let mut sources = sources;
    let mut rev: Vec<SpannedNode> = Vec::new();
    while nodes.len() > 0
        invariant
            nodes@.len() == sources@.len(),
            nodes@.len() + rev@.len() == ns.len(),
            ns.len() == ss.len(),
            forall|k: int| 0 <= k < nodes@.len() ==> nodes@[k] == ns[k] && sources@[k] == ss[k],
            forall|k: int|
                0 <= k < rev@.len() ==> (#[trigger] rev@[k]).node == ns[ns.len() - 1 - k] && rev@[k].source
                    == ss[ns.len() - 1 - k],
        decreases nodes@.len(),
    {
        let n = nodes.pop().unwrap();
        let s = sources.pop().unwrap();
        rev.push(SpannedNode { node: n, source: s });
    }
    let mut out: Vec<SpannedNode> = Vec::new();
    while rev.len() > 0
        invariant
            rev@.len() + out@.len() == ns.len(),
            forall|k: int|
                0 <= k < rev@.len() ==> (#[trigger] rev@[k]).node == ns[ns.len() - 1 - k] && rev@[k].source
                    == ss[ns.len() - 1 - k],
            forall|k: int| 0 <= k < out@.len() ==> (#[trigger] out@[k]).node == ns[k] && out@[k].source == ss[k],
        decreases rev@.len(),
    {
        let x = rev.pop().unwrap();
        out.push(x);
    }
    proof {
        assert forall|k: int| 0 <= k < out@.len() implies #[trigger] sn_ok(out@[k]) by {
            assert(aligned(ns[k], ss[k]));
        }
    }
    out
}

impl LowerCtx {
    fn lower_book(&mut self, doc: &CstDocument, id: CstNodeId, marker: &MarkerName) -> (r: Option<SpannedNode>)
        requires
            valid_id(doc, id),
        ensures
            grew(*old(self), *final(self)),
            r matches Some(sn) ==> sn_ok(sn),
            r is None <==> (marker@ == "id"@ && old(self).seen_id),
            r is None ==> final(self).seen_id && crate::validation::diag_views(final(self).diagnostics@)
                == crate::validation::diag_views(old(self).diagnostics@) + (if old(self).collect_diagnostics {
                seq![
                    lowering_error(
                        crate::diagnostics::DiagnosticCode::DuplicateId,
                        "duplicate \\id marker found"@,
                        doc.nodes_view()[id@].span,
                        id@ as usize,
                    ),
                ]
            } else {
                seq![]
            }),
            r matches Some(sn) ==> sn.node matches Node::Book { marker: m, code, .. } && m == *marker && code@
                == book_code(doc, id) && sn.source.anchor_cst == Some(id@ as usize) && (sn.source.spans matches Some(
                sp,
            ) && sp.node == doc.nodes_view()[id@].span && sp.number is None && sp.close is None),
        decreases doc.nodes_view().len() - id@, 2int,
    {
        let node = doc.node(id);
        if *marker == "id" {
            if self.seen_id {
                self.push_diagnostic(Diagnostic::duplicate_id(node.span.clone()).with_anchor_cst(id.index()));
                return None;
            }
            self.seen_id = true;
        }
        let mut code = String::new();
        let mut code_span: Option<Span> = None;
        let mut children: Vec<SpannedNode> = Vec::new();
        let mut after_open = true;
        let mut got_code = false;
        proof {
            doc.lemma_node(id@);
        }
        let mut child_id_opt = node.first_child;
        loop
            invariant
                grew(*old(self), *self),
                valid_id(doc, id),
                all_ok(children@),
                cursor_ok(doc, id, child_id_opt),
                !got_code ==> code@ == Seq::<char>::empty() && first_sibling_where(doc.nodes_view(), child_id_opt, -1)
                    == first_child_pick(doc, id, -1),
                got_code ==> code@ == book_code(doc, id),
            ensures
                code@ == book_code(doc, id),
            decreases cursor_measure(doc, child_id_opt),
        {
            let child_id = match child_id_opt {
                Some(c) => c,
                None => break,
            };
            proof {
                doc.lemma_node(child_id@);
            }
            let child = doc.node(child_id);
            child_id_opt = child.next_sibling;
            match &child.kind {
                CstKind::MarkerToken { .. } => {
                    after_open = true;
                },
                CstKind::WhitespaceToken | CstKind::NewlineToken => {
                    if !after_open && got_code {
                        append_text_to(&mut children, &space());
                    }
                },
                CstKind::TextToken => {
                    after_open = false;
                    let text = str_chars(doc.source_text(child_id));
                    if !got_code {
                        got_code = true;
                        let (c, rest) = split_first_word_chars(&text);
                        self.current_book_code = Some(chars_to_string(&c));
                        code = chars_to_string(&c);
                        proof {
                            doc.lemma_node_bytes(child_id@);
                            lemma_ws_prefix_len_bounds(text@);
                            let a = ws_prefix_len(text@);
                            let i = first_ws(trim_start(text@));
                            lemma_first_ws(trim_start(text@));
                            assert(c@ =~= text@.subrange(a, a + i));
                            lemma_sub_byte_len(text@, a, a + i);
                        }
                        let width = byte_width(&c);
                        code_span = Some(child.span.start..child.span.start + width);
                        if rest.len() > 0 {
                            if contains_char(&rest, '~') {
                                children.push(SpannedNode::text(chars_to_string(&replace_tilde(&rest))));
                            } else {
                                children.push(SpannedNode::text(chars_to_string(&rest)));
                            }
                        }
                    } else {
                        append_normalized_text(&mut children, &text);
                    }
                },
                _ => {
                    if !child.kind.is_leaf() {
                        after_open = false;
                        match self.lower_structural(doc, child_id) {
                            Some(ast_child) => children.push(ast_child),
                            None => {},
                        }
                    }
                },
            }
        }
        trim_trailing_text(&mut children);
        let mut spans = SourceSpans::node(node.span.clone());
        match code_span {
            Some(cs) => {
                spans = spans.with_code(cs);
            },
            None => {},
        }
        let (content, kids) = split_nodes(children);
        Some(
            SpannedNode {
                node: Node::Book { marker: marker.clone(), code, content },
                source: SourceNode::structural(spans, kids, Some(id.index())),
            },
        )
    }

    /// A missing chapter or verse number, or one with leading zeros.
    fn number_diagnostics(&mut self, number: &[char], marker_span: &Span, id: CstNodeId, chapter: bool)
        ensures
            grew(*old(self), *final(self)),
            final(self).collect_diagnostics == old(self).collect_diagnostics,
            final(self).current_book_code == old(self).current_book_code,
            final(self).current_chapter == old(self).current_chapter,
            final(self).seen_id == old(self).seen_id,
            crate::validation::diag_views(final(self).diagnostics@) == crate::validation::diag_views(
                old(self).diagnostics@,
            ) + (if old(self).collect_diagnostics {
                number_diag_views(number@, *marker_span, id@ as usize, chapter)
            } else {
                seq![]
            }),
    {
        if number.len() == 0 {
            let d = if chapter {
                Diagnostic::missing_chapter_number(marker_span.clone())
            } else {
                Diagnostic::missing_verse_number(marker_span.clone())
            };
            self.push_diagnostic(d.with_anchor_cst(id.index()));
        }
        if number.len() > 1 && number[0] == '0' {
            let text = chars_to_string(number);
            self.push_diagnostic(
                Diagnostic::leading_zeros(text.as_str(), marker_span.clone()).with_anchor_cst(id.index()),
            );
        }
    }

    fn lower_chapter(&mut self, doc: &CstDocument, id: CstNodeId) -> (r: Option<SpannedNode>)
        requires
            valid_id(doc, id),
        ensures
            grew(*old(self), *final(self)),
            r matches Some(sn) && sn_ok(sn) && (sn.node matches Node::Chapter(d) && (d.sid matches Some(
                sid,
            ) && sid@ == opt_text(old(self).current_book_code) + " "@ + sid_number(
                d.number@,
            ) && final(self).current_chapter == Some(d.number) && d.marker@ == "c"@ && d.number@ == number_text(
                doc,
                id@,
            ))),
            crate::validation::diag_views(final(self).diagnostics@) == crate::validation::diag_views(
                old(self).diagnostics@,
            ) + (if old(self).collect_diagnostics {
                number_reports(doc, id@, true)
            } else {
                seq![]
            }),
            final(self).current_book_code == old(self).current_book_code,
    {
        let marker_span = self.find_marker_span(doc, id);
        let (number_chars, number_span) = self.find_text_child(doc, id);
        let number = chars_to_string(&number_chars);
        self.number_diagnostics(&number_chars, &marker_span, id, true);
        self.current_chapter = Some(number.clone());
        let sid = chapter_sid(&self.current_book_code, &number_chars);
        let mut spans = SourceSpans::node(marker_span);
        match number_span {
            Some(ns) => {
                spans = spans.with_number(ns);
            },
            None => {},
        }
        let data = ChapterData {
            marker: MarkerName::parse("c"),
            number,
            sid: Some(sid),
            altnumber: None,
            pubnumber: None,
        };
        Some(
            SpannedNode {
                node: Node::Chapter(Box::new(data)),
                source: SourceNode::structural(spans, Vec::new(), Some(id.index())),
            },
        )
    }

    fn lower_verse(&mut self, doc: &CstDocument, id: CstNodeId) -> (r: Option<SpannedNode>)
        requires
            valid_id(doc, id),
        ensures
            grew(*old(self), *final(self)),
            r matches Some(sn) && sn_ok(sn) && (sn.node matches Node::Verse(d) && (d.sid matches Some(
                sid,
            ) && sid@ == opt_text(old(self).current_book_code) + " "@ + sid_number(
                opt_text(old(self).current_chapter),
            ) + ":"@ + sid_number(d.number@) && d.marker@ == "v"@ && d.number@ == number_text(doc, id@))),
            crate::validation::diag_views(final(self).diagnostics@) == crate::validation::diag_views(
                old(self).diagnostics@,
            ) + (if old(self).collect_diagnostics {
                number_reports(doc, id@, false)
            } else {
                seq![]
            }),
    {
        let marker_span = self.find_marker_span(doc, id);
        let (number_chars, number_span) = self.find_text_child(doc, id);
        let number = chars_to_string(&number_chars);
        self.number_diagnostics(&number_chars, &marker_span, id, false);
        let sid = verse_sid(&self.current_book_code, &self.current_chapter, &number_chars);
        let mut spans = SourceSpans::node(marker_span);
        match number_span {
            Some(ns) => {
                spans = spans.with_number(ns);
            },
            None => {},
        }
        let data = VerseData {
            marker: MarkerName::parse("v"),
            number,
            sid: Some(sid),
            altnumber: None,
            pubnumber: None,
        };
        Some(
            SpannedNode {
                node: Node::Verse(Box::new(data)),
                source: SourceNode::structural(spans, Vec::new(), Some(id.index())),
            },
        )
    }

    fn lower_para(&mut self, doc: &CstDocument, id: CstNodeId, marker: &MarkerName) -> (r: Option<SpannedNode>)
        requires
            valid_id(doc, id),
        ensures
            grew(*old(self), *final(self)),
            r matches Some(sn) ==> sn_ok(sn) && sn.node is Para,
            marker@ == "usfm"@ <==> r is None,
            r matches Some(sn) ==> sn.node matches Node::Para { marker: m, .. } && m == *marker
                && sn.source.anchor_cst == Some(id@ as usize) && (sn.source.spans matches Some(sp) && sp.node
                == doc.nodes_view()[id@].span && sp.code is None && sp.number is None && sp.close is None),
            r matches Some(sn) ==> (sn.node matches Node::Para { content, .. } && exists|srcs: Seq<int>|
                traced_node_content(doc, id@, content@, srcs) && covers(doc, id@, srcs)),
            r matches Some(sn) ==> content_lowered(doc, id@, sn.node),
        decreases doc.nodes_view().len() - id@, 2int,
    {
        // \usfm marker — discard entirely (version string is absorbed)
        if *marker == "usfm" {
            return None;
        }
        let node = doc.node(id);
        if *marker == "addpn" {
            self.push_diagnostic(
                Diagnostic::deprecated_marker(
                    marker.as_str(),
                    "nested \\pn ...\\pn* within \\add ...\\add*",
                    node.span.clone(),
                ).with_anchor_cst(id.index()),
            );
        }
        let mut close_span = None;
        let mut attributes = Vec::new();
        let children = self.collect_content(doc, id, true, &mut close_span, &mut attributes, marker.as_str());
        let ghost srcs = choose|srcs: Seq<int>| traced_content(doc, id@, children@, srcs) && covers(doc, id@, srcs);
        let (content, kids) = split_nodes(children);
        assert(traced_node_content(doc, id@, content@, srcs));
        Some(
            SpannedNode {
                node: Node::Para { marker: marker.clone(), content },
                source: SourceNode::structural(SourceSpans::node(node.span.clone()), kids, Some(id.index())),
            },
        )
    }

    fn lower_char(&mut self, doc: &CstDocument, id: CstNodeId, marker: &MarkerName) -> (r: Option<SpannedNode>)
        requires
            valid_id(doc, id),
        ensures
            grew(*old(self), *final(self)),
            r matches Some(sn) ==> sn_ok(sn) && (sn.node is Char || sn.node is Ref),
            r matches Some(sn) ==> inline_source_ok(doc, id, marker@, sn.source) && match sn.node {
                Node::Ref { attributes, .. } => plus_stripped(marker@) == "ref"@ && attribute_views(attributes@)
                    == node_attributes(doc, id, marker@),
                Node::Char(d) => plus_stripped(marker@) != "ref"@ && d.marker == *marker && attribute_views(
                    d.attributes@,
                ) == node_attributes(doc, id, marker@),
                _ => false,
            },
            r is Some,
        decreases doc.nodes_view().len() - id@, 2int,
    {
        let node = doc.node(id);
        let nested = self.is_nested_marker(doc, id);
        if *marker == "addpn" {
            self.push_diagnostic(
                Diagnostic::deprecated_marker(
                    marker.as_str(),
                    "nested \\pn ...\\pn* within \\add ...\\add*",
                    node.span.clone(),
                ).with_anchor_cst(id.index()),
            );
        }
        let mut close_span = None;
        let mut attributes = Vec::new();
        let children = self.collect_content(doc, id, false, &mut close_span, &mut attributes, marker.as_str());
        // Check for implicit close / unclosed diagnostics
        self.check_close_diagnostics(doc, id, marker, &close_span);
        let mut spans = SourceSpans::node(node.span.clone());
        match close_span {
            Some(cs) => {
                spans = spans.with_close(cs);
            },
            None => {},
        }
        let clean_marker_str = trim_plus_str(marker.as_str());
        if str_eq_lit(clean_marker_str, "ref") {
            let (content, kids) = split_nodes(children);
            return Some(
                SpannedNode {
                    node: Node::Ref { content, attributes },
                    source: SourceNode::structural(spans, kids, Some(id.index())),
                },
            );
        }
        let final_children = if str_eq_lit(clean_marker_str, "xt") && nested {
            let has_ref_child = has_ref(&children);
            match find_attr_value(&attributes, "link-href") {
                Some(loc) => {
                    if !has_ref_child && children.len() > 0 {
                        let (content, kids) = split_nodes(children);
                        let mut ref_attrs = Vec::new();
                        ref_attrs.push(Attribute { key: str_to_string("loc"), value: loc });
                        let mut v = Vec::new();
                        v.push(
                            SpannedNode {
                                node: Node::Ref { content, attributes: ref_attrs },
                                source: SourceNode::structural(
                                    SourceSpans::node(node.span.clone()),
                                    kids,
                                    Some(id.index()),
                                ),
                            },
                        );
                        v
                    } else {
                        children
                    }
                },
                None => children,
            }
        } else {
            children
        };
        let (content, kids) = split_nodes(final_children);
        Some(
            SpannedNode {
                node: Node::Char(Box::new(CharData { marker: marker.clone(), content, attributes })),
                source: SourceNode::structural(spans, kids, Some(id.index())),
            },
        )
    }

    fn lower_ref(&mut self, doc: &CstDocument, id: CstNodeId) -> (r: Option<SpannedNode>)
        requires
            valid_id(doc, id),
        ensures
            grew(*old(self), *final(self)),
            r matches Some(sn) ==> sn_ok(sn) && sn.node is Ref,
            r is Some,
            r matches Some(sn) ==> content_lowered(doc, id@, sn.node),
        decreases doc.nodes_view().len() - id@, 2int,
    {
        let node = doc.node(id);
        let ref_marker = MarkerName::parse("ref");
        let mut close_span = None;
        let mut attributes = Vec::new();
        let children = self.collect_content(doc, id, false, &mut close_span, &mut attributes, "ref");
        self.check_close_diagnostics(doc, id, &ref_marker, &close_span);
        let mut spans = SourceSpans::node(node.span.clone());
        match close_span {
            Some(cs) => {
                spans = spans.with_close(cs);
            },
            None => {},
        }
        let ghost srcs = choose|srcs: Seq<int>| traced_content(doc, id@, children@, srcs) && covers(doc, id@, srcs);
        let (content, kids) = split_nodes(children);
        assert(traced_node_content(doc, id@, content@, srcs));
        Some(
            SpannedNode {
                node: Node::Ref { content, attributes },
                source: SourceNode::structural(spans, kids, Some(id.index())),
            },
        )
    }

    #[verifier::rlimit(100)]
    #[verifier::spinoff_prover]
    fn lower_note(&mut self, doc: &CstDocument, id: CstNodeId, marker: &MarkerName) -> (r: Option<SpannedNode>)
        requires
            valid_id(doc, id),
        ensures
            grew(*old(self), *final(self)),
            r matches Some(sn) ==> sn_ok(sn) && sn.node is Note,
            r is Some,
            r matches Some(sn) ==> sn.node matches Node::Note { marker: m, caller, .. } && m == *marker && caller@
                == (match caller_from(doc, doc.nodes_view()[id@].first_child) {
                Some(c) => c,
                None => Seq::<char>::empty(),
            }) && sn.source.anchor_cst == Some(id@ as usize) && (sn.source.spans matches Some(sp) && sp.node
                == doc.nodes_view()[id@].span && sp.close == last_close_from(doc, doc.nodes_view()[id@].first_child)
                && sp.code is None && sp.number is None),
            r matches Some(sn) ==> content_lowered(doc, id@, sn.node),
        decreases doc.nodes_view().len() - id@, 2int,
    {
        let node = doc.node(id);
        let mut close_span: Option<Span> = None;
        let mut attributes: Vec<Attribute> = Vec::new();
        let mut caller: Option<String> = None;
        let mut children: Vec<SpannedNode> = Vec::new();
        let mut after_open = true;
        let mut after_close = false;
        let mut pending_space = false;
        proof {
            doc.lemma_node(id@);
        }
        let mut child_id_opt = node.first_child;
        let ghost want_caller = caller_from(doc, doc.nodes_view()[id@].first_child);
        let ghost want_close = last_close_from(doc, doc.nodes_view()[id@].first_child);
        let ghost mut srcs: Seq<int> = seq![];
        let ghost first = doc.nodes_view()[id@].first_child;
        loop
            invariant
                grew(*old(self), *self),
                valid_id(doc, id),
                all_ok(children@),
                cursor_ok(doc, id, child_id_opt),
                first == doc.nodes_view()[id@].first_child,
                traced_content(doc, id@, children@, srcs),
                cursor_after(doc, id@, child_id_opt, srcs),
                covered_between(doc, id@, first, child_id_opt, srcs),
                want_caller == caller_from(doc, doc.nodes_view()[id@].first_child),
                want_close == last_close_from(doc, doc.nodes_view()[id@].first_child),
                caller is None ==> caller_from(doc, child_id_opt) == want_caller,
                caller matches Some(c) ==> want_caller == Some(c@),
                (match last_close_from(doc, child_id_opt) {
                    Some(x) => Some(x),
                    None => close_span,
                }) == want_close,
            ensures
                caller is None ==> want_caller is None,
                caller matches Some(c) ==> want_caller == Some(c@),
                close_span == want_close,
                traced_content(doc, id@, children@, srcs),
                covers(doc, id@, srcs),
            decreases cursor_measure(doc, child_id_opt),
        {
            let child_id = match child_id_opt {
                Some(c) => c,
                None => break,
            };
            proof {
                doc.lemma_node(child_id@);
            }
            let child = doc.node(child_id);
            child_id_opt = child.next_sibling;
            match &child.kind {
                CstKind::MarkerToken { .. } => {
                    after_open = true;
                    after_close = false;
                },
                CstKind::ClosingMarkerToken { .. } => {
                    close_span = Some(child.span.clone());
                    after_close = true;
                    after_open = false;
                    pending_space = false;
                },
                CstKind::WhitespaceToken => {
                    if after_open || pending_space {
                    } else if after_close {
                        pending_space = true;
                    } else {
                        let ghost pre = children@;
                        append_text_to(&mut children, &space());
                        proof {
                            lemma_trace_keep(doc, id@, pre, srcs, children@);
                            lemma_cover_keep(doc, id@, first, Some(child_id), srcs, pad(srcs, children@.len() as int));
                            srcs = pad(srcs, children@.len() as int);
                        }
                    }
                },
                CstKind::NewlineToken => {
                    if after_open || after_close {
                        if after_close {
                            pending_space = true;
                        }
                    } else {
                        pending_space = true;
                    }
                },
                CstKind::AttributesToken => {
                    let text = doc.source_text(child_id);
                    match parse_attributes(text) {
                        Some(parsed) => {
                            if parsed.len() > 0 {
                                let mut resolved = resolve_default_attr_keys(marker.as_str(), parsed);
                                attributes.append(&mut resolved);
                            }
                        },
                        None => {
                            self.push_diagnostic(
                                Diagnostic::malformed_attributes(child.span.clone()).with_anchor_cst(
                                    child_id.index(),
                                ),
                            );
                            let ghost pre = children@;
                            append_text_to(&mut children, &str_chars(text));
                            proof {
                                lemma_trace_keep(doc, id@, pre, srcs, children@);
                                lemma_cover_keep(doc, id@, first, Some(child_id), srcs, pad(srcs, children@.len() as int));
                                srcs = pad(srcs, children@.len() as int);
                            }
                        },
                    }
                    after_open = false;
                    after_close = false;
                },
                CstKind::TextToken => {
                    if pending_space {
                        pending_space = false;
                        let ghost pre = children@;
                        append_text_to(&mut children, &space());
                        proof {
                            lemma_trace_keep(doc, id@, pre, srcs, children@);
                            lemma_cover_keep(doc, id@, first, Some(child_id), srcs, pad(srcs, children@.len() as int));
                            srcs = pad(srcs, children@.len() as int);
                        }
                    }
                    after_open = false;
                    after_close = false;
                    let text = str_chars(doc.source_text(child_id));
                    if caller.is_none() {
                        let a = ws_prefix_len_exec(&text);
                        proof {
                            lemma_ws_prefix_len_bounds(text@);
                        }
                        let trimmed = slice_chars(&text, a, text.len());
                        if trimmed.len() > 0 {
                            proof {
                                assert(trimmed@ =~= trim_start(text@));
                                assert(!is_ws(trimmed@[0]));
                                assert(ws_prefix_len(trimmed@) == 0);
                                assert(trim_start(trimmed@) =~= trimmed@);
                                assert(first_word(trimmed@) == first_word(text@));
                            }
                            let (c, rest) = split_first_word_chars(&trimmed);
                            caller = Some(chars_to_string(&c));
                            if rest.len() > 0 {
                                if contains_char(&rest, '~') {
                                    let ghost pre = children@;
                                    children.push(SpannedNode::text(chars_to_string(&replace_tilde(&rest))));
                                    proof {
                                        assert forall|q: int| 0 <= q < pre.len() implies children@[q] == pre[q] by {}
                                        assert(keeps_nodes(pre, children@));
                                        lemma_trace_keep(doc, id@, pre, srcs, children@);
                                        lemma_cover_keep(doc, id@, first, Some(child_id), srcs, pad(srcs, children@.len() as int));
                                        srcs = pad(srcs, children@.len() as int);
                                    }
                                } else {
                                    let ghost pre = children@;
                                    children.push(SpannedNode::text(chars_to_string(&rest)));
                                    proof {
                                        assert forall|q: int| 0 <= q < pre.len() implies children@[q] == pre[q] by {}
                                        assert(keeps_nodes(pre, children@));
                                        lemma_trace_keep(doc, id@, pre, srcs, children@);
                                        lemma_cover_keep(doc, id@, first, Some(child_id), srcs, pad(srcs, children@.len() as int));
                                        srcs = pad(srcs, children@.len() as int);
                                    }
                                }
                            }
                        }
                    } else {
                        let ghost pre = children@;
                        append_normalized_text(&mut children, &text);
                        proof {
                            if text@.len() > 0 {
                                lemma_normalized_ext(items(pre), seq![], false, text@, 0);
                            }
                            lemma_keeps_from_items(pre, children@);
                            lemma_trace_keep(doc, id@, pre, srcs, children@);
                            lemma_cover_keep(doc, id@, first, Some(child_id), srcs, pad(srcs, children@.len() as int));
                            srcs = pad(srcs, children@.len() as int);
                        }
                    }
                },
                _ => {
                    if !child.kind.is_leaf() {
                        if pending_space {
                            pending_space = false;
                            let ghost pre = children@;
                            append_text_to(&mut children, &space());
                            proof {
                                lemma_trace_keep(doc, id@, pre, srcs, children@);
                                lemma_cover_keep(doc, id@, first, Some(child_id), srcs, pad(srcs, children@.len() as int));
                                srcs = pad(srcs, children@.len() as int);
                            }
                        }
                        after_open = false;
                        after_close = false;
                        match self.lower_structural(doc, child_id) {
                            Some(ast_child) => {
                                let ghost pre = children@;
                                let ghost pre_srcs = srcs;
                                children.push(ast_child);
                                proof {
                                    srcs = srcs.push(child_id@);
                                    assert forall|k: int| 0 <= k < pre.len() implies children@[k] == pre[k] by {}
                                    assert forall|x: int| 0 <= x && pre_srcs.contains(x) implies srcs.contains(x) by {
                                        let q = choose|q: int| 0 <= q < pre_srcs.len() && pre_srcs[q] == x;
                                        assert(srcs[q] == x);
                                    }
                                    assert(srcs[srcs.len() - 1] == child_id@);
                                    lemma_cover_keep(doc, id@, first, Some(child_id), pre_srcs, srcs);
                                }
                            },
                            None => {},
                        }
                    }
                },
            }
            proof {
                lemma_cover_step(doc, id@, first, child_id, srcs, srcs);
            }
        }
        // Check for unclosed note
        if close_span.is_none() {
            self.push_diagnostic(
                Diagnostic::unclosed_note(marker.as_str(), node.span.clone()).with_anchor_cst(id.index()),
            );
        }
        let mut spans = SourceSpans::node(node.span.clone());
        match close_span {
            Some(cs) => {
                spans = spans.with_close(cs);
            },
            None => {},
        }
        let ghost pre = children@;
        let (category, cat_children) = extract_category(children);
        proof {
            if exists|k: int| 0 <= k < pre.len() && is_cat(#[trigger] pre[k].node) {
                let i = choose|i: int|
                    0 <= i < pre.len() && is_cat(pre[i].node) && (cat_children@ == pre.remove(i) || (i > 0
                        && pre[i - 1].node is Text && cat_children@ == pre.remove(i).remove(i - 1)));
                lemma_trace_remove(doc, id@, pre, srcs, i);
                let s1 = srcs.remove(i);
                assert forall|x: int|
                    #[trigger] in_chain(doc.nodes_view(), first, x) && kept_child(
                        doc.nodes_view()[x].kind,
                        doc.nodes_view()[id@].kind is Document,
                    ) implies s1.contains(x) by {
                    lemma_chain_in_range(doc.nodes_view(), first, x);
                }
                if cat_children@ == pre.remove(i) {
                    srcs = s1;
                } else {
                    assert(pre.remove(i)[i - 1] == pre[i - 1]);
                    lemma_trace_remove(doc, id@, pre.remove(i), s1, i - 1);
                    let s2 = s1.remove(i - 1);
                    assert forall|x: int|
                        #[trigger] in_chain(doc.nodes_view(), first, x) && kept_child(
                            doc.nodes_view()[x].kind,
                            doc.nodes_view()[id@].kind is Document,
                        ) implies s2.contains(x) by {
                        lemma_chain_in_range(doc.nodes_view(), first, x);
                    }
                    srcs = s2;
                }
            }
        }
        let (content, kids) = split_nodes(cat_children);
        assert(traced_node_content(doc, id@, content@, srcs) && covers(doc, id@, srcs));
        let caller = match caller {
            Some(c) => c,
            None => String::new(),
        };
        Some(
            SpannedNode {
                node: Node::Note { marker: marker.clone(), caller, category, content },
                source: SourceNode::structural(spans, kids, Some(id.index())),
            },
        )
    }

    fn lower_milestone(&mut self, doc: &CstDocument, id: CstNodeId, marker: &MarkerName) -> (r: Option<SpannedNode>)
        requires
            valid_id(doc, id),
        ensures
            grew(*old(self), *final(self)),
            r matches Some(sn) ==> sn_ok(sn) && sn.node is Milestone,
            r is Some,
            r matches Some(sn) ==> sn.node matches Node::Milestone { marker: m, attributes } && m == *marker
                && attribute_views(attributes@) == node_attributes(doc, id, marker@) && sn.source.anchor_cst == Some(
                id@ as usize,
            ) && sn.source.children@.len() == 0 && (sn.source.spans matches Some(sp) && sp.node
                == doc.nodes_view()[id@].span && sp.code is None && sp.number is None && sp.close is None),
            crate::validation::diag_views(final(self).diagnostics@) == crate::validation::diag_views(
                old(self).diagnostics@,
            ) + (if old(self).collect_diagnostics && first_child_pick(doc, id, 0) is None {
                seq![
                    lowering_error(
                        crate::diagnostics::DiagnosticCode::MissingMilestoneSelfClose,
                        "milestone \\"@ + marker@ + " is missing closing \\*"@,
                        doc.nodes_view()[id@].span,
                        id@ as usize,
                    ),
                ]
            } else {
                seq![]
            }),
            final(self).collect_diagnostics == old(self).collect_diagnostics,
    {
        let node = doc.node(id);
        let (attributes, has_milestone_end) = self.milestone_attributes(doc, id, marker);
        if !has_milestone_end {
            self.push_diagnostic(
                Diagnostic::missing_milestone_self_close(marker.as_str(), node.span.clone()).with_anchor_cst(
                    id.index(),
                ),
            );
        }
        Some(
            SpannedNode {
                node: Node::Milestone { marker: marker.clone(), attributes },
                source: SourceNode::structural(SourceSpans::node(node.span.clone()), Vec::new(), Some(id.index())),
            },
        )
    }

    /// The attributes among the children of `id`, and whether one of them
    /// is a milestone end.
    fn milestone_attributes(&self, doc: &CstDocument, id: CstNodeId, marker: &MarkerName) -> (r: (
        Vec<Attribute>,
        bool,
    ))
        requires
            valid_id(doc, id),
        ensures
            attribute_views(r.0@) == chain_attrs(doc, doc.nodes_view()[id@].first_child, marker@),
            r.1 == first_child_pick(doc, id, 0) is Some,
    {
        let mut attributes: Vec<Attribute> = Vec::new();
        let mut has_milestone_end = false;
        proof {
            doc.lemma_node(id@);
        }
        let mut child_id_opt = doc.node(id).first_child;
        let ghost all = chain_attrs(doc, doc.nodes_view()[id@].first_child, marker@);
        assert(attribute_views(attributes@) =~= seq![]);
        loop
            invariant
                valid_id(doc, id),
                cursor_ok(doc, id, child_id_opt),
                all == chain_attrs(doc, doc.nodes_view()[id@].first_child, marker@),
                attribute_views(attributes@) + chain_attrs(doc, child_id_opt, marker@) == all,
                (has_milestone_end || first_sibling_where(doc.nodes_view(), child_id_opt, 0) is Some) == (
                first_child_pick(doc, id, 0) is Some),
            ensures
                attribute_views(attributes@) == all,
                has_milestone_end == (first_child_pick(doc, id, 0) is Some),
            decreases cursor_measure(doc, child_id_opt),
        {
            let child_id = match child_id_opt {
                Some(c) => c,
                None => break,
            };
            proof {
                doc.lemma_node(child_id@);
            }
            let child = doc.node(child_id);
            let ghost before = attribute_views(attributes@);
            child_id_opt = child.next_sibling;
            match &child.kind {
                CstKind::AttributesToken => {
                    match parse_attributes(doc.source_text(child_id)) {
                        Some(parsed) => {
                            if parsed.len() > 0 {
                                let mut resolved = resolve_default_attr_keys(marker.as_str(), parsed);
                                proof {
                                    assert(attribute_views(resolved@) =~= resolved_pairs(
                                        marker@,
                                        attribute_views(parsed@),
                                    ));
                                }
                                attributes.append(&mut resolved);
                                proof {
                                    assert(attribute_views(attributes@) =~= before + node_attrs(doc, child_id@, marker@));
                                }
                            } else {
                                assert(node_attrs(doc, child_id@, marker@) =~= seq![]);
                                assert(before + node_attrs(doc, child_id@, marker@) =~= before);
                            }
                        },
                        None => {
                            assert(before + node_attrs(doc, child_id@, marker@) =~= before);
                        },
                    }
                },
                CstKind::MilestoneEndToken => {
                    has_milestone_end = true;
                    assert(before + node_attrs(doc, child_id@, marker@) =~= before);
                },
                _ => {
                    assert(before + node_attrs(doc, child_id@, marker@) =~= before);
                },
            }
            proof {
                assert(attribute_views(attributes@) == before + node_attrs(doc, child_id@, marker@));
                assert(attribute_views(attributes@) + chain_attrs(doc, child_id_opt, marker@) =~= before + (
                node_attrs(doc, child_id@, marker@) + chain_attrs(doc, child_id_opt, marker@)));
            }
        }
        (attributes, has_milestone_end)
    }

    fn lower_figure(&mut self, doc: &CstDocument, id: CstNodeId, marker: &MarkerName) -> (r: Option<SpannedNode>)
        requires
            valid_id(doc, id),
        ensures
            grew(*old(self), *final(self)),
            r matches Some(sn) ==> sn_ok(sn) && sn.node is Figure,
            r is Some,
            r matches Some(sn) ==> sn.node matches Node::Figure { marker: m, attributes, .. } && m == *marker
                && attribute_views(attributes@) == node_attributes(doc, id, marker@) && inline_source_ok(
                doc,
                id,
                marker@,
                sn.source,
            ),
            r matches Some(sn) ==> content_lowered(doc, id@, sn.node),
        decreases doc.nodes_view().len() - id@, 2int,
    {
        let node = doc.node(id);
        let mut close_span = None;
        let mut attributes = Vec::new();
        let children = self.collect_content(doc, id, false, &mut close_span, &mut attributes, marker.as_str());
        self.check_close_diagnostics(doc, id, marker, &close_span);
        let mut spans = SourceSpans::node(node.span.clone());
        match close_span {
            Some(cs) => {
                spans = spans.with_close(cs);
            },
            None => {},
        }
        let ghost srcs = choose|srcs: Seq<int>| traced_content(doc, id@, children@, srcs) && covers(doc, id@, srcs);
        let (content, kids) = split_nodes(children);
        assert(traced_node_content(doc, id@, content@, srcs));
        Some(
            SpannedNode {
                node: Node::Figure { marker: marker.clone(), content, attributes },
                source: SourceNode::structural(spans, kids, Some(id.index())),
            },
        )
    }

    fn lower_sidebar(&mut self, doc: &CstDocument, id: CstNodeId, marker: &MarkerName) -> (r: Option<SpannedNode>)
        requires
            valid_id(doc, id),
        ensures
            grew(*old(self), *final(self)),
            r matches Some(sn) ==> sn_ok(sn) && sn.node is Sidebar,
            r is Some,
            r matches Some(sn) ==> sn.node matches Node::Sidebar { marker: m, .. } && m == *marker && inline_source_ok(
                doc,
                id,
                marker@,
                sn.source,
            ),
        decreases doc.nodes_view().len() - id@, 2int,
    {
        let node = doc.node(id);
        let mut close_span = None;
        let mut attributes = Vec::new();
        let children = self.collect_content(doc, id, false, &mut close_span, &mut attributes, marker.as_str());
        if close_span.is_none() {
            self.push_diagnostic(
                Diagnostic::unclosed_at_eof(marker.as_str(), node.span.clone()).with_anchor_cst(id.index()),
            );
        }
        let mut spans = SourceSpans::node(node.span.clone());
        match close_span {
            Some(cs) => {
                spans = spans.with_close(cs);
            },
            None => {},
        }
        let (category, cat_children) = extract_category(children);
        let (content, kids) = split_nodes(cat_children);
        Some(
            SpannedNode {
                node: Node::Sidebar { marker: marker.clone(), category, content },
                source: SourceNode::structural(spans, kids, Some(id.index())),
            },
        )
    }

    fn lower_periph(&mut self, doc: &CstDocument, id: CstNodeId, marker: &MarkerName) -> (r: Option<SpannedNode>)
        requires
            valid_id(doc, id),
        ensures
            grew(*old(self), *final(self)),
            r matches Some(sn) ==> sn_ok(sn) && sn.node is Periph,
            r is Some,
        decreases doc.nodes_view().len() - id@, 2int,
    {
        let node = doc.node(id);
        let mut attributes: Vec<Attribute> = Vec::new();
        let mut alt: Option<String> = None;
        let mut children: Vec<SpannedNode> = Vec::new();
        let mut after_open = true;
        proof {
            doc.lemma_node(id@);
        }
        let mut child_id_opt = node.first_child;
        loop
            invariant
                grew(*old(self), *self),
                valid_id(doc, id),
                all_ok(children@),
                cursor_ok(doc, id, child_id_opt),
            decreases cursor_measure(doc, child_id_opt),
        {
            let child_id = match child_id_opt {
                Some(c) => c,
                None => break,
            };
            proof {
                doc.lemma_node(child_id@);
            }
            let child = doc.node(child_id);
            child_id_opt = child.next_sibling;
            match &child.kind {
                CstKind::MarkerToken { .. } => {
                    after_open = true;
                },
                CstKind::ClosingMarkerToken { .. } => {},
                CstKind::WhitespaceToken | CstKind::NewlineToken => {
                    if !after_open {
                        append_text_to(&mut children, &space());
                    }
                },
                CstKind::AttributesToken => {
                    match parse_attributes(doc.source_text(child_id)) {
                        Some(parsed) => {
                            if parsed.len() > 0 {
                                let mut resolved = resolve_default_attr_keys(marker.as_str(), parsed);
                                attributes.append(&mut resolved);
                            }
                        },
                        None => {},
                    }
                    after_open = false;
                },
                CstKind::TextToken => {
                    after_open = false;
                    let text = str_chars(doc.source_text(child_id));
                    if alt.is_none() {
                        match trimmed_nonempty(&text) {
                            Some(t) => {
                                alt = Some(t);
                            },
                            None => {},
                        }
                    } else {
                        append_normalized_text(&mut children, &text);
                    }
                },
                _ => {
                    if !child.kind.is_leaf() {
                        after_open = false;
                        match self.lower_structural(doc, child_id) {
                            Some(ast_child) => children.push(ast_child),
                            None => {},
                        }
                    }
                },
            }
        }
        let (content, kids) = split_nodes(children);
        Some(
            SpannedNode {
                node: Node::Periph { alt, content, attributes },
                source: SourceNode::structural(SourceSpans::node(node.span.clone()), kids, Some(id.index())),
            },
        )
    }

    fn lower_table(&mut self, doc: &CstDocument, id: CstNodeId) -> (r: Option<SpannedNode>)
        requires
            valid_id(doc, id),
        ensures
            grew(*old(self), *final(self)),
            r matches Some(sn) ==> sn_ok(sn) && sn.node is Table,
            r matches Some(sn) ==> sn.source.anchor_cst == Some(id@ as usize) && (sn.source.spans matches Some(
                sp,
            ) && sp.node == doc.nodes_view()[id@].span && sp.code is None && sp.number is None && sp.close is None),
        decreases doc.nodes_view().len() - id@, 2int,
    {
        let node = doc.node(id);
        let children = self.lower_children(doc, id);
        if children.len() == 0 {
            return None;
        }
        let (content, kids) = split_nodes(children);
        Some(
            SpannedNode {
                node: Node::Table { content },
                source: SourceNode::structural(SourceSpans::node(node.span.clone()), kids, Some(id.index())),
            },
        )
    }

    fn lower_table_row(&mut self, doc: &CstDocument, id: CstNodeId, marker: &MarkerName) -> (r: Option<SpannedNode>)
        requires
            valid_id(doc, id),
        ensures
            grew(*old(self), *final(self)),
            r matches Some(sn) ==> sn_ok(sn) && sn.node is TableRow,
            r is Some,
        decreases doc.nodes_view().len() - id@, 2int,
    {
        let node = doc.node(id);
        let mut close_span = None;
        let mut attributes = Vec::new();
        let mut children = self.collect_content(doc, id, true, &mut close_span, &mut attributes, marker.as_str());
        // Per spec, trim trailing whitespace from the last cell's content
        // (whitespace before the next \tr is structural, not content)
        let last_is_cell = match children.last() {
            Some(last) => matches!(last.node, Node::TableCell { .. }),
            None => false,
        };
        if last_is_cell {
            let ghost before = children@;
            assert(sn_ok(before[before.len() - 1]));
            let last = children.pop().unwrap();
            children.push(trim_trailing_text_on_children(last));
            proof {
                assert forall|k: int| 0 <= k < children@.len() implies #[trigger] sn_ok(children@[k]) by {
                    if k < before.len() - 1 {
                        assert(children@[k] == before[k]);
                        assert(sn_ok(before[k]));
                    }
                }
            }
        }
        let (content, kids) = split_nodes(children);
        Some(
            SpannedNode {
                node: Node::TableRow { marker: marker.clone(), content },
                source: SourceNode::structural(SourceSpans::node(node.span.clone()), kids, Some(id.index())),
            },
        )
    }

    fn lower_table_cell(&mut self, doc: &CstDocument, id: CstNodeId, marker: &MarkerName) -> (r: Option<SpannedNode>)
        requires
            valid_id(doc, id),
        ensures
            grew(*old(self), *final(self)),
            r matches Some(sn) ==> sn_ok(sn) && (sn.node matches Node::TableCell { align, .. } && align@
                == cell_align(marker@)),
            r is Some,
            r matches Some(sn) ==> content_lowered(doc, id@, sn.node),
        decreases doc.nodes_view().len() - id@, 2int,
    {
        let node = doc.node(id);
        let mut close_span = None;
        let mut attributes = Vec::new();
        let children = self.collect_content(doc, id, false, &mut close_span, &mut attributes, marker.as_str());
        let mut spans = SourceSpans::node(node.span.clone());
        match close_span {
            Some(cs) => {
                spans = spans.with_close(cs);
            },
            None => {},
        }
        let align = cell_align_exec(marker);
        let ghost srcs = choose|srcs: Seq<int>| traced_content(doc, id@, children@, srcs) && covers(doc, id@, srcs);
        let (content, kids) = split_nodes(children);
        assert(traced_node_content(doc, id@, content@, srcs));
        Some(
            SpannedNode {
                node: Node::TableCell { marker: marker.clone(), align, content },
                source: SourceNode::structural(spans, kids, Some(id.index())),
            },
        )
    }

    fn lower_unknown(&mut self, doc: &CstDocument, id: CstNodeId, marker: &MarkerName) -> (r: Option<SpannedNode>)
        requires
            valid_id(doc, id),
        ensures
            grew(*old(self), *final(self)),
            r matches Some(sn) ==> sn_ok(sn) && (sn.node is Unknown || sn.node is Milestone),
            r is Some,
            r matches Some(sn) ==> content_lowered(doc, id@, sn.node),
        decreases doc.nodes_view().len() - id@, 2int,
    {
        let node = doc.node(id);
        // Check if this is a self-closing \zfoo\* pattern (milestone-like)
        if self.has_milestone_end_child(doc, id) && self.has_no_content_children(doc, id) {
            let (attributes, _) = self.milestone_attributes(doc, id, marker);
            return Some(
                SpannedNode {
                    node: Node::Milestone { marker: marker.clone(), attributes },
                    source: SourceNode::structural(SourceSpans::node(node.span.clone()), Vec::new(), Some(id.index())),
                },
            );
        }
        if !starts_with_z(marker.as_str()) {
            self.push_diagnostic(
                Diagnostic::unknown_marker(marker.as_str(), node.span.clone()).with_anchor_cst(id.index()),
            );
        }
        let mut close_span = None;
        let mut attributes = Vec::new();
        let children = self.collect_content(doc, id, false, &mut close_span, &mut attributes, marker.as_str());
        self.check_close_diagnostics(doc, id, marker, &close_span);
        let mut spans = SourceSpans::node(node.span.clone());
        match close_span {
            Some(cs) => {
                spans = spans.with_close(cs);
            },
            None => {},
        }
        let ghost srcs = choose|srcs: Seq<int>| traced_content(doc, id@, children@, srcs) && covers(doc, id@, srcs);
        let (content, kids) = split_nodes(children);
        assert(traced_node_content(doc, id@, content@, srcs));
        Some(
            SpannedNode {
                node: Node::Unknown { marker: marker.clone(), content },
                source: SourceNode::structural(spans, kids, Some(id.index())),
            },
        )
    }
}

/// The reference id of a chapter: `BOOK N`.
fn chapter_sid(book: &Option<String>, number: &[char]) -> (r: String)
    ensures
        r@ == opt_text(*book) + " "@ + sid_number(number@),
{
    let mut sid = match book {
        Some(b) => b.clone(),
        None => String::new(),
    };
    push_str(&mut sid, " ");
    push_chars(&mut sid, &strip_leading_zeros(number));
    sid
}

/// The reference id of a verse: `BOOK C:V`.
fn verse_sid(book: &Option<String>, chapter: &Option<String>, number: &[char]) -> (r: String)
    ensures
        r@ == opt_text(*book) + " "@ + sid_number(opt_text(*chapter)) + ":"@
            + sid_number(number@),
{
    let mut sid = match book {
        Some(b) => b.clone(),
        None => String::new(),
    };
    let ch: Vec<char> = match chapter {
        Some(c) => str_chars(c.as_str()),
        None => {
            let v = Vec::new();
            assert(v@ =~= Seq::<char>::empty());
            v
        },
    };
    push_str(&mut sid, " ");
    push_chars(&mut sid, &strip_leading_zeros(&ch));
    push_str(&mut sid, ":");
    push_chars(&mut sid, &strip_leading_zeros(number));
    sid
}

fn starts_with_z(s: &str) -> (r: bool)
    ensures
        r == (s@.len() > 0 && s@[0] == 'z'),
{
    s.unicode_len() > 0 && s.get_char(0) == 'z'
}

/// Whether one of `children` is a reference.
fn has_ref(children: &Vec<SpannedNode>) -> (r: bool)
    ensures
        r == exists|j: int| 0 <= j < children@.len() && (#[trigger] children@[j]).node is Ref,
{
    let mut i: usize = 0;
    while i < children.len()
        invariant
            i <= children@.len(),
            forall|j: int| 0 <= j < i ==> !((#[trigger] children@[j]).node is Ref),
        decreases children@.len() - i,
    {
        if matches!(children[i].node, Node::Ref { .. }) {
            return true;
        }
        i += 1;
    }
    false
}

/// The value of the first attribute with key `key`.
fn find_attr_value(attrs: &Vec<Attribute>, key: &str) -> (r: Option<String>)
    ensures
        r matches Some(v) ==> exists|i: int|
            0 <= i < attrs@.len() && (#[trigger] attrs@[i]).key@ == key@ && v@ == attrs@[i].value@
                && forall|j: int| 0 <= j < i ==> attrs@[j].key@ != key@,
        r is None ==> forall|j: int| 0 <= j < attrs@.len() ==> (#[trigger] attrs@[j]).key@ != key@,
{
    let mut i: usize = 0;
    while i < attrs.len()
        invariant
            i <= attrs@.len(),
            forall|j: int| 0 <= j < i ==> (#[trigger] attrs@[j]).key@ != key@,
        decreases attrs@.len() - i,
    {
        if str_eq_lit(attrs[i].key.as_str(), key) {
            return Some(attrs[i].value.clone());
        }
        i += 1;
    }
    None
}

} // verus!

verus! {

impl LowerCtx {
    /// Check if an inline node was left open and emit diagnostics.
    #[verifier::rlimit(50)]
    fn check_close_diagnostics(
        &mut self,
        doc: &CstDocument,
        id: CstNodeId,
        marker: &MarkerName,
        close_span: &Option<Span>,
    )
        requires
            valid_id(doc, id),
        ensures
            grew(*old(self), *final(self)),
            final(self).collect_diagnostics == old(self).collect_diagnostics,
            final(self).current_book_code == old(self).current_book_code,
            final(self).current_chapter == old(self).current_chapter,
            crate::validation::diag_views(final(self).diagnostics@) == crate::validation::diag_views(
                old(self).diagnostics@,
            ) + (if old(self).collect_diagnostics {
                close_diag_views(doc, id@, marker@, close_span is Some)
            } else {
                seq![]
            }),
    {
        if close_span.is_some() {
            return;
        }
        if starts_with_z(marker.as_str()) {
            return;
        }
        let node = doc.node(id);
        proof {
            doc.lemma_node(id@);
        }
        let source_len = doc.byte_length();
        match marker.kind() {
            MarkerKind::Character | MarkerKind::Unknown => {
                match node.parent {
                    Some(parent_id) => {
                        let parent = doc.node(parent_id);
                        if matches!(parent.kind, CstKind::Document | CstKind::Para { .. } | CstKind::Book { .. }) {
                            if node.span.end < source_len {
                                let closer = self.find_implicit_closer(doc, id);
                                self.push_diagnostic(
                                    Diagnostic::implicitly_closed(marker.as_str(), node.span.clone(), closer.as_str()).with_anchor_cst(
                                        id.index(),
                                    ),
                                );
                            } else {
                                self.push_diagnostic(
                                    Diagnostic::unclosed_at_eof(marker.as_str(), node.span.clone()).with_anchor_cst(
                                        id.index(),
                                    ),
                                );
                            }
                        } else {
                            match node.next_sibling {
                                Some(next_sib) => {
                                    let next = doc.node(next_sib);
                                    match &next.kind {
                                        CstKind::ClosingMarkerToken { normalized, .. } => {
                                            if !crate::text::str_eq(normalized.as_str(), marker.as_str()) {
                                                let is_parent_note_closer = match &parent.kind {
                                                    CstKind::Note { marker: p_marker } => str_eq_lit(
                                                        trim_plus_str(normalized.as_str()),
                                                        trim_plus_str(p_marker.as_str()),
                                                    ),
                                                    _ => false,
                                                };
                                                if !is_parent_note_closer {
                                                    self.push_diagnostic(
                                                        Diagnostic::misnested_close(
                                                            marker.as_str(),
                                                            normalized.as_str(),
                                                            next.span.clone(),
                                                        ).with_anchor_cst(id.index()),
                                                    );
                                                }
                                            }
                                        },
                                        _ => {},
                                    }
                                },
                                None => {
                                    if node.span.end >= source_len {
                                        self.push_diagnostic(
                                            Diagnostic::unclosed_at_eof(marker.as_str(), node.span.clone()).with_anchor_cst(
                                                id.index(),
                                            ),
                                        );
                                    }
                                },
                            }
                        }
                    },
                    None => {
                        self.push_diagnostic(
                            Diagnostic::unclosed_at_eof(marker.as_str(), node.span.clone()).with_anchor_cst(id.index()),
                        );
                    },
                }
            },
            MarkerKind::Figure => {
                self.push_diagnostic(
                    Diagnostic::unclosed_at_eof(marker.as_str(), node.span.clone()).with_anchor_cst(id.index()),
                );
            },
            _ => {},
        }
    }

    /// Find what marker implicitly closed a node.
    fn find_implicit_closer(&self, doc: &CstDocument, id: CstNodeId) -> (r: String)
        requires
            valid_id(doc, id),
        ensures
            r@ == implicit_closer(doc.nodes_view(), id@),
    {
        proof {
            doc.lemma_node(id@);
        }
        let node = doc.node(id);
        let mut sib = node.next_sibling;
        loop
            invariant
                valid_id(doc, id),
                cursor_ok(doc, id, sib),
                closer_from(doc.nodes_view(), sib) == closer_from(doc.nodes_view(), doc.nodes_view()[id@].next_sibling),
            ensures
                closer_from(doc.nodes_view(), doc.nodes_view()[id@].next_sibling) is None,
            decreases cursor_measure(doc, sib),
        {
            let sib_id = match sib {
                Some(s) => s,
                None => break,
            };
            proof {
                doc.lemma_node(sib_id@);
            }
            let s = doc.node(sib_id);
            match &s.kind {
                CstKind::Para { marker } | CstKind::Book { marker } | CstKind::Sidebar { marker }
                | CstKind::Periph { marker } => {
                    return str_to_string(marker.as_str());
                },
                CstKind::Chapter { .. } => return str_to_string("c"),
                CstKind::Table => return str_to_string("tr"),
                CstKind::TableRow { .. } => return str_to_string("tr"),
                _ => {
                    sib = s.next_sibling;
                },
            }
        }
        match node.parent {
            Some(parent_id) => {
                let parent = doc.node(parent_id);
                proof {
                    doc.lemma_node(parent_id@);
                }
                match parent.next_sibling {
                    Some(psib) => {
                        let ps = doc.node(psib);
                        match &ps.kind {
                            CstKind::Para { marker } => {
                                return str_to_string(marker.as_str());
                            },
                            CstKind::Chapter { .. } => {
                                return str_to_string("c");
                            },
                            _ => {},
                        }
                    },
                    None => {},
                }
            },
            None => {},
        }
        str_to_string("EOF")
    }

    /// Whether some child of `id` has a kind that `pick` accepts: 0 for a
    /// milestone end, 1 for anything but markers, whitespace, attributes
    /// and milestone ends, 2 for a marker token.
    fn first_child_where(&self, doc: &CstDocument, id: CstNodeId, pick: u8) -> (r: Option<CstNodeId>)
        requires
            valid_id(doc, id),
        ensures
            r matches Some(c) ==> id@ < c@ < doc.nodes_view().len(),
            crate::cst::opt_index(r) == first_child_pick(doc, id, pick as int),
    {
        proof {
            doc.lemma_node(id@);
        }
        let mut child_id = doc.node(id).first_child;
        loop
            invariant
                valid_id(doc, id),
                cursor_ok(doc, id, child_id),
                first_sibling_where(doc.nodes_view(), child_id, pick as int) == first_child_pick(doc, id, pick as int),
            decreases cursor_measure(doc, child_id),
        {
            let cid = match child_id {
                Some(c) => c,
                None => return None,
            };
            proof {
                doc.lemma_node(cid@);
            }
            let child = doc.node(cid);
            let hit = if pick == 0 {
                matches!(child.kind, CstKind::MilestoneEndToken)
            } else if pick == 1 {
                !matches!(
                    child.kind,
                    CstKind::MarkerToken { .. } | CstKind::WhitespaceToken | CstKind::NewlineToken
                        | CstKind::AttributesToken | CstKind::MilestoneEndToken
                )
            } else {
                matches!(child.kind, CstKind::MarkerToken { .. })
            };
            if hit {
                return Some(cid);
            }
            child_id = child.next_sibling;
        }
    }

    /// Check if a CST node has a MilestoneEndToken child.
    fn has_milestone_end_child(&self, doc: &CstDocument, id: CstNodeId) -> (r: bool)
        requires
            valid_id(doc, id),
        ensures
            r == first_child_pick(doc, id, 0) is Some,
    {
        self.first_child_where(doc, id, 0).is_some()
    }

    /// Check if a CST node has no content children (only markers, whitespace, attributes).
    fn has_no_content_children(&self, doc: &CstDocument, id: CstNodeId) -> (r: bool)
        requires
            valid_id(doc, id),
        ensures
            r == first_child_pick(doc, id, 1) is None,
    {
        self.first_child_where(doc, id, 1).is_none()
    }

    /// Find the span of the first MarkerToken child.
    fn find_marker_span(&self, doc: &CstDocument, id: CstNodeId) -> (r: Span)
        requires
            valid_id(doc, id),
        ensures
            r == (match first_child_pick(doc, id, 2) {
                Some(c) => doc.nodes_view()[c].span,
                None => doc.nodes_view()[id@].span,
            }),
    {
        match self.first_child_where(doc, id, 2) {
            Some(c) => doc.node(c).span.clone(),
            None => doc.node(id).span.clone(),
        }
    }

    /// Find the first TextToken child and return its text + span.
    fn find_text_child(&self, doc: &CstDocument, id: CstNodeId) -> (r: (Vec<char>, Option<Span>))
        requires
            valid_id(doc, id),
        ensures
            match first_child_pick(doc, id, -1) {
                Some(c) => r.0@ == doc.source_view().subrange(
                    doc.char_spans_view()[c].0,
                    doc.char_spans_view()[c].1,
                ) && r.1 == Some(doc.nodes_view()[c].span),
                None => r.0@.len() == 0 && r.1 is None,
            },
    {
        proof {
            doc.lemma_node(id@);
        }
        let mut child_id = doc.node(id).first_child;
        loop
            invariant
                valid_id(doc, id),
                cursor_ok(doc, id, child_id),
                first_sibling_where(doc.nodes_view(), child_id, -1) == first_child_pick(doc, id, -1),
            decreases cursor_measure(doc, child_id),
        {
            let cid = match child_id {
                Some(c) => c,
                None => return (Vec::new(), None),
            };
            proof {
                doc.lemma_node(cid@);
            }
            let child = doc.node(cid);
            if matches!(child.kind, CstKind::TextToken) {
                return (str_chars(doc.source_text(cid)), Some(child.span.clone()));
            }
            child_id = child.next_sibling;
        }
    }

    /// Check if a Char node was opened with \+ prefix.
    fn is_nested_marker(&self, doc: &CstDocument, id: CstNodeId) -> (r: bool)
        requires
            valid_id(doc, id),
        ensures
            r == (match first_child_pick(doc, id, 2) {
                Some(c) => doc.nodes_view()[c].kind matches CstKind::MarkerToken { token_kind, .. }
                    && token_kind == MarkerTokenKind::Nested,
                None => false,
            }),
    {
        match self.first_child_where(doc, id, 2) {
            Some(c) => match &doc.node(c).kind {
                CstKind::MarkerToken { token_kind, .. } => *token_kind == MarkerTokenKind::Nested,
                _ => false,
            },
            None => false,
        }
    }
}

} // verus!

verus! {

fn split_document(nodes: Vec<SpannedNode>) -> (r: (Document, SourceMap))
    requires
        all_ok(nodes@),
    ensures
        aligned_all(r.0.content@, r.1.content@),
        r.0.content@.len() == nodes@.len(),
        forall|k: int| 0 <= k < nodes@.len() ==> r.0.content@[k] == (#[trigger] nodes@[k]).node,
{
    let (content, source_content) = split_nodes(nodes);
    (Document { content }, SourceMap { content: source_content })
}

/// Lowers a concrete syntax tree to its AST and source map, with the
/// diagnostics of lowering and validation when `options` asks for them.
/// The diagnostics `d` hold every diagnostic that validation reports on the
/// lowered document, each as often as it reports it.
pub open spec fn validation_included(d: Seq<Diagnostic>, ast: Document, source_map: SourceMap) -> bool {
    exists|v: Seq<Diagnostic>|
        crate::validation::diag_views(v) == crate::validation::validation_report(ast.content@, source_map.content@)
            && v.to_multiset().subset_of(#[trigger] d.to_multiset())
}

pub fn lower(document: &CstDocument, options: ParseOptions) -> (r: AstDocument)
    requires
        document.wf(),
    ensures
        aligned_all(r.ast.content@, r.source_map.content@),
        r.diagnostics is Some <==> options.diagnostics,
        r.diagnostics matches Some(d) ==> crate::diagnostics::in_document_order(d@),
        r.diagnostics matches Some(d) ==> validation_included(d@, r.ast, r.source_map),
        has_top_number(document) ==> r.ast.content@.len() > 0,
        exists|srcs: Seq<int>| traced_nodes(document, 0, r.ast.content@, srcs) && covers(document, 0, srcs),
        r.diagnostics matches Some(d) ==> chapter_numbers_reported(document, d@),
{
    let mut ctx = LowerCtx::new(options.diagnostics);
    let root = document.root_id();
    let mut content = ctx.lower_children(document, root);
    let ghost before_trim = content@;
    trim_trailing_text(&mut content);
    proof {
        if before_trim.len() > 0 {
            assert(!(before_trim[before_trim.len() - 1].node is Text));
        }
    }
    let (ast, source_map) = split_document(content);
    let ghost srcs = choose|srcs: Seq<int>| traced_to_children(document, root@, before_trim, srcs) && covers(document, root@, srcs);
    assert(traced_nodes(document, 0, ast.content@, srcs));
    let diagnostics = if options.diagnostics {
        let mut diagnostics = ctx.diagnostics;
        let ghost own = diagnostics@;
        let checked = crate::validation::validate(&ast, &source_map);
        let ghost v = checked@;
        diagnostics.extend(checked);
        diagnostics.sort_in_document_order();
        proof {
            vstd::seq_lib::lemma_multiset_commutative(own, v);
            broadcast use vstd::multiset::group_multiset_axioms;
            assert(v.to_multiset().subset_of(diagnostics@.to_multiset()));
            assert(own.to_multiset().subset_of(diagnostics@.to_multiset()));
            assert forall|x: int|
                #[trigger] in_chain(document.nodes_view(), document.nodes_view()[0].first_child, x)
                    && document.nodes_view()[x].kind is Chapter implies reported(
                diagnostics@,
                number_reports(document, x, true),
            ) by {
                lemma_reported_subset(own, diagnostics@, number_reports(document, x, true));
            }
        }
        Some(diagnostics.into_inner())
    } else {
        None
    };
    let r = AstDocument { ast, source_map, diagnostics };
    assert(traced_nodes(document, 0, r.ast.content@, srcs) && covers(document, 0, srcs));
    r
}

/// Some tree `d` of `input`, whose opening tokens each opened a node, has
/// each top-level node of `nodes` come, in order, from its own top-level
/// node, every top-level node of a kind that always yields a node among
/// them, and, where there are diagnostics `diags`, what its top-level
/// chapters report of their numbers among them.
pub open spec fn lowered_from_tree_of(input: Seq<char>, nodes: Seq<Node>, diags: Option<Vec<Diagnostic>>) -> bool {
    exists|d: CstDocument, srcs: Seq<int>|
        #![trigger traced_nodes(&d, 0, nodes, srcs)]
        d.wf() && d.source_view() == input && (forall|j: int|
            0 <= j < crate::lexer::lex(input).len() ==> #[trigger] crate::cst::opened_in(
                d.kinds_view(),
                input,
                crate::lexer::lex(input)[j],
            )) && traced_nodes(&d, 0, nodes, srcs) && covers(&d, 0, srcs) && (diags matches Some(ds)
            ==> chapter_numbers_reported(&d, ds@))
}

/// Parse a USFM source string into an eager AST document with diagnostics.
pub fn parse(input: &str) -> (r: AstDocument)
    requires
        crate::text::byte_len(input@) <= usize::MAX,
    ensures
        aligned_all(r.ast.content@, r.source_map.content@),
        r.diagnostics matches Some(d) && crate::diagnostics::in_document_order(d@),
        r.diagnostics matches Some(d) ==> validation_included(d@, r.ast, r.source_map),
        lowered_from_tree_of(input@, r.ast.content@, r.diagnostics),
{
    let cst = crate::cst::parse(input);
    let r = lower(&cst, ParseOptions { diagnostics: true });
    let ghost srcs = choose|srcs: Seq<int>| traced_nodes(&cst, 0, r.ast.content@, srcs) && covers(&cst, 0, srcs);
    assert(traced_nodes(&cst, 0, r.ast.content@, srcs) && covers(&cst, 0, srcs) && (r.diagnostics matches Some(ds)
        ==> chapter_numbers_reported(&cst, ds@)));
    r
}

/// Parse a USFM source string, taking ownership of it, into an eager AST
/// document with diagnostics.
pub fn parse_owned(input: String) -> (r: AstDocument)
    requires
        crate::text::byte_len(input@) <= usize::MAX,
    ensures
        aligned_all(r.ast.content@, r.source_map.content@),
        r.diagnostics matches Some(d) && crate::diagnostics::in_document_order(d@),
        r.diagnostics matches Some(d) ==> validation_included(d@, r.ast, r.source_map),
        lowered_from_tree_of(input@, r.ast.content@, r.diagnostics),
{
    let cst = crate::cst::parse_owned(input);
    let r = lower(&cst, ParseOptions { diagnostics: true });
    let ghost srcs = choose|srcs: Seq<int>| traced_nodes(&cst, 0, r.ast.content@, srcs) && covers(&cst, 0, srcs);
    assert(traced_nodes(&cst, 0, r.ast.content@, srcs) && covers(&cst, 0, srcs) && (r.diagnostics matches Some(ds)
        ==> chapter_numbers_reported(&cst, ds@)));
    r
}

} // verus!
