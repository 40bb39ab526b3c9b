//! The lossless concrete syntax tree.
//!
//! Every char of the source belongs to exactly one leaf, and the leaves in
//! order spell out the source again; structural nodes group leaves by the
//! marker that opened them.
use vstd::prelude::*;

use crate::diagnostics::Span;
use crate::lexer::{lemma_lex_partition, lex, lex_chars, raw_view, strip_closing_star,
    strip_marker_backslash, RawToken, TokenKind};
use crate::markers::{MarkerKind, MarkerName, marker_info};
use crate::text::{byte_len, byte_offset, byte_offsets, chars_to_string, is_ws, is_ws_exec,
    lemma_byte_len_prefix, lemma_byte_offset_end, lemma_byte_offset_strict, str_chars,
    str_to_string, ws_prefix_len, ws_prefix_len_exec, lemma_ws_prefix_len_bounds};
use vstd::string::StrSliceExecFns;

verus! {

/// Identifies a node of a [`CstDocument`] by its position in the arena.
#[derive(Debug, Clone, Copy, PartialEq, Eq, Hash, Structural)]
pub struct CstNodeId(usize);

impl View for CstNodeId {
    type V = int;

    closed spec fn view(&self) -> int {
        self.0 as int
    }
}

impl CstNodeId {
    fn from_index(index: usize) -> (r: Self)
        ensures
            r@ == index,
    {
        CstNodeId(index)
    }

    pub fn index(self) -> (r: usize)
        ensures
            r == self@,
    {
        self.0
    }

    /// Ids with the same index are the same id.
    pub proof fn lemma_index_injective(a: CstNodeId, b: CstNodeId)
        requires
            a@ == b@,
        ensures
            a == b,
    {
    }
}

pub open spec fn opt_index(o: Option<CstNodeId>) -> Option<int> {
    match o {
        Some(x) => Some(x@),
        None => None,
    }
}

/// A CST node: its kind, its byte span and its links to the nodes around it.
#[derive(Debug)]
pub struct CstNode {
    pub kind: CstKind,
    pub span: Span,
    pub parent: Option<CstNodeId>,
    pub prev_sibling: Option<CstNodeId>,
    pub next_sibling: Option<CstNodeId>,
    pub first_child: Option<CstNodeId>,
    pub last_child: Option<CstNodeId>,
}

#[derive(Debug, PartialEq, Eq)]
#[allow(inconsistent_fields)]
pub enum CstKind {
    Document,
    Book { marker: MarkerName },
    Chapter { marker: MarkerName },
    Verse { marker: MarkerName },
    Para { marker: MarkerName },
    Char { marker: MarkerName },
    Note { marker: MarkerName },
    Milestone { marker: MarkerName },
    Figure { marker: MarkerName },
    Sidebar { marker: MarkerName },
    Periph { marker: MarkerName },
    Table,
    TableRow { marker: MarkerName },
    TableCell { marker: MarkerName },
    Ref,
    Unknown { marker: MarkerName },
    MarkerToken { normalized: MarkerName, token_kind: MarkerTokenKind },
    ClosingMarkerToken { normalized: MarkerName, token_kind: ClosingTokenKind },
    MilestoneEndToken,
    AttributesToken,
    TextToken,
    WhitespaceToken,
    NewlineToken,
}

impl Clone for CstKind {
    fn clone(&self) -> (r: Self)
        ensures
            r == *self,
    {
        match self {
            CstKind::Document => CstKind::Document,
            CstKind::Book { marker } => CstKind::Book { marker: marker.clone() },
            CstKind::Chapter { marker } => CstKind::Chapter { marker: marker.clone() },
            CstKind::Verse { marker } => CstKind::Verse { marker: marker.clone() },
            CstKind::Para { marker } => CstKind::Para { marker: marker.clone() },
            CstKind::Char { marker } => CstKind::Char { marker: marker.clone() },
            CstKind::Note { marker } => CstKind::Note { marker: marker.clone() },
            CstKind::Milestone { marker } => CstKind::Milestone { marker: marker.clone() },
            CstKind::Figure { marker } => CstKind::Figure { marker: marker.clone() },
            CstKind::Sidebar { marker } => CstKind::Sidebar { marker: marker.clone() },
            CstKind::Periph { marker } => CstKind::Periph { marker: marker.clone() },
            CstKind::Table => CstKind::Table,
            CstKind::TableRow { marker } => CstKind::TableRow { marker: marker.clone() },
            CstKind::TableCell { marker } => CstKind::TableCell { marker: marker.clone() },
            CstKind::Ref => CstKind::Ref,
            CstKind::Unknown { marker } => CstKind::Unknown { marker: marker.clone() },
            CstKind::MarkerToken { normalized, token_kind } => CstKind::MarkerToken {
                normalized: normalized.clone(),
                token_kind: *token_kind,
            },
            CstKind::ClosingMarkerToken { normalized, token_kind } => CstKind::ClosingMarkerToken {
                normalized: normalized.clone(),
                token_kind: *token_kind,
            },
            CstKind::MilestoneEndToken => CstKind::MilestoneEndToken,
            CstKind::AttributesToken => CstKind::AttributesToken,
            CstKind::TextToken => CstKind::TextToken,
            CstKind::WhitespaceToken => CstKind::WhitespaceToken,
            CstKind::NewlineToken => CstKind::NewlineToken,
        }
    }
}

#[derive(Debug, Clone, Copy, PartialEq, Eq, Structural)]
pub enum MarkerTokenKind {
    Regular,
    Nested,
    Chapter,
    Verse,
    Milestone,
}

#[derive(Debug, Clone, Copy, PartialEq, Eq, Structural)]
pub enum ClosingTokenKind {
    Regular,
    Nested,
}

/// The leaf kinds of a [`CstKind`], borrowed.
#[derive(Debug, Clone, Copy)]
#[allow(inconsistent_fields)]
pub enum LeafTokenKind<'a> {
    Marker { normalized: &'a MarkerName, token_kind: MarkerTokenKind },
    ClosingMarker { normalized: &'a MarkerName, token_kind: ClosingTokenKind },
    MilestoneEnd,
    Attributes,
    Text,
    Whitespace,
    Newline,
}

/// Whether a token kind mirrors the leaf kind `k`: markers and closing
/// markers with the same name and token kind, and each other leaf kind its
/// own token kind.
pub open spec fn leaf_kind_matches(t: LeafTokenKind, k: CstKind) -> bool {
    match k {
        CstKind::MarkerToken { normalized, token_kind } => t matches LeafTokenKind::Marker {
            normalized: n,
            token_kind: tk,
        } && *n == normalized && tk == token_kind,
        CstKind::ClosingMarkerToken { normalized, token_kind } => t matches LeafTokenKind::ClosingMarker {
            normalized: n,
            token_kind: tk,
        } && *n == normalized && tk == token_kind,
        CstKind::MilestoneEndToken => t is MilestoneEnd,
        CstKind::AttributesToken => t is Attributes,
        CstKind::TextToken => t is Text,
        CstKind::WhitespaceToken => t is Whitespace,
        CstKind::NewlineToken => t is Newline,
        _ => false,
    }
}

/// A leaf node seen together with its parent and its source text.
#[derive(Debug, Clone, Copy)]
pub struct LeafToken<'a> {
    pub id: CstNodeId,
    pub parent: CstNodeId,
    pub span: &'a Span,
    pub text: &'a str,
    pub kind: LeafTokenKind<'a>,
}

/// A CST node as a self-contained tree, for export.
#[derive(Debug, PartialEq, Eq)]
pub struct ExportedCstNode {
    pub kind: String,
    pub span: Span,
    pub marker: Option<String>,
    pub token_kind: Option<String>,
    pub text: Option<String>,
    pub children: Vec<ExportedCstNode>,
}

/// Whether a node of this kind is a leaf (a token of the source).
pub open spec fn is_leaf_kind(k: CstKind) -> bool {
    match k {
        CstKind::MarkerToken { .. } | CstKind::ClosingMarkerToken { .. }
        | CstKind::MilestoneEndToken | CstKind::AttributesToken | CstKind::TextToken
        | CstKind::WhitespaceToken | CstKind::NewlineToken => true,
        _ => false,
    }
}

impl CstKind {
    pub fn is_leaf(&self) -> (r: bool)
        ensures
            r == is_leaf_kind(*self),
    {
        matches!(
            self,
            CstKind::MarkerToken { .. } | CstKind::ClosingMarkerToken { .. }
                | CstKind::MilestoneEndToken | CstKind::AttributesToken | CstKind::TextToken
                | CstKind::WhitespaceToken | CstKind::NewlineToken
        )
    }
}

/// The indices of the leaf kinds of `kinds`, in order.
pub open spec fn leaf_index_seq(kinds: Seq<CstKind>) -> Seq<int>
    decreases kinds.len(),
{
    if kinds.len() == 0 {
        seq![]
    } else {
        let r = leaf_index_seq(kinds.drop_last());
        if is_leaf_kind(kinds.last()) {
            r.push(kinds.len() - 1)
        } else {
            r
        }
    }
}

pub open spec fn leaf_start(leaves: Seq<int>, spans: Seq<(int, int)>, k: int) -> int {
    spans[leaves[k]].0
}

pub open spec fn leaf_end(leaves: Seq<int>, spans: Seq<(int, int)>, k: int) -> int {
    spans[leaves[k]].1
}

/// Leaves with char spans `spans[leaves[k]]` lie end to end from 0 to
/// `end`, none of them empty.
pub open spec fn contiguous(leaves: Seq<int>, spans: Seq<(int, int)>, end: int) -> bool {
    &&& forall|k: int|
        0 <= k < leaves.len() ==> 0 <= #[trigger] leaves[k] < spans.len() && 0
            <= spans[leaves[k]].0 < spans[leaves[k]].1
    &&& forall|k: int|
        0 < k < leaves.len() ==> #[trigger] leaf_start(leaves, spans, k) == leaf_end(
            leaves,
            spans,
            k - 1,
        )
    &&& leaves.len() > 0 ==> spans[leaves[0]].0 == 0
    &&& end == (if leaves.len() == 0 {
        0
    } else {
        spans[leaves.last()].1
    })
}

/// The text of the leaves `leaves[0..k]` concatenated.
pub open spec fn leaves_text(
    src: Seq<char>,
    leaves: Seq<int>,
    spans: Seq<(int, int)>,
    k: int,
) -> Seq<char>
    decreases k,
{
    if k <= 0 {
        seq![]
    } else {
        leaves_text(src, leaves, spans, k - 1) + src.subrange(
            spans[leaves[k - 1]].0,
            spans[leaves[k - 1]].1,
        )
    }
}

/// The leaves, lying end to end, spell out the source up to where the last
/// one ends.
pub proof fn lemma_leaves_text(
    src: Seq<char>,
    leaves: Seq<int>,
    spans: Seq<(int, int)>,
    end: int,
    k: int,
)
    requires
        0 <= k <= leaves.len(),
        contiguous(leaves, spans, end),
        forall|j: int| 0 <= j < spans.len() ==> #[trigger] spans[j].1 <= src.len(),
    ensures
        leaves_text(src, leaves, spans, k) == src.subrange(
            0,
            if k == 0 {
                0
            } else {
                spans[leaves[k - 1]].1
            },
        ),
    decreases k,
{
    if k > 0 {
        lemma_leaves_text(src, leaves, spans, end, k - 1);
        let l = leaves[k - 1];
        assert(0 <= l < spans.len() && 0 <= spans[l].0 < spans[l].1);
        if k > 1 {
            assert(0 <= leaves[k - 2] < spans.len() && 0 <= spans[leaves[k - 2]].0);
        }
        let a = if k == 1 {
            0
        } else {
            spans[leaves[k - 2]].1
        };
        if k > 1 {
            assert(leaf_start(leaves, spans, k - 1) == leaf_end(leaves, spans, k - 2));
        }
        assert(spans[l].0 == a);
        let b = spans[l].1;
        assert(b <= src.len());
        assert(src.subrange(0, a) + src.subrange(a, b) =~= src.subrange(0, b));
    }
}

/// `a` is `b` or lies on the parent path above it.
pub open spec fn is_ancestor_or_self(nodes: Seq<CstNode>, a: int, b: int) -> bool
    decreases b,
{
    if a == b {
        true
    } else if 0 <= b < nodes.len() && nodes[b].parent is Some && nodes[b].parent.unwrap()@ < b {
        is_ancestor_or_self(nodes, a, nodes[b].parent.unwrap()@)
    } else {
        false
    }
}

pub proof fn lemma_ancestor_step(nodes: Seq<CstNode>, a: int, b: int)
    requires
        is_ancestor_or_self(nodes, a, b),
        0 <= a < nodes.len(),
        nodes[a].parent is Some,
        nodes[a].parent.unwrap()@ < a,
    ensures
        is_ancestor_or_self(nodes, nodes[a].parent.unwrap()@, b),
    decreases b,
{
    if a != b {
        lemma_ancestor_step(nodes, a, nodes[b].parent.unwrap()@);
    } else {
        let p = nodes[a].parent.unwrap()@;
        assert(is_ancestor_or_self(nodes, p, p));
    }
}

/// An ancestor never has a higher index than its descendant.
pub proof fn lemma_ancestor_le(nodes: Seq<CstNode>, a: int, b: int)
    requires
        is_ancestor_or_self(nodes, a, b),
    ensures
        a <= b,
    decreases b,
{
    if a != b {
        lemma_ancestor_le(nodes, a, nodes[b].parent.unwrap()@);
    }
}

/// Two nodes on the parent path of the same node lie on one path.
pub proof fn lemma_ancestor_chain(nodes: Seq<CstNode>, a: int, c: int, b: int)
    requires
        is_ancestor_or_self(nodes, a, b),
        is_ancestor_or_self(nodes, c, b),
    ensures
        is_ancestor_or_self(nodes, a, c) || is_ancestor_or_self(nodes, c, a),
    decreases b,
{
    if a != b && c != b {
        lemma_ancestor_chain(nodes, a, c, nodes[b].parent.unwrap()@);
    }
}

/// Whether a node's span covers `start..end`.
pub open spec fn covers(n: CstNode, start: usize, end: usize) -> bool {
    n.span.start <= start && n.span.end >= end
}

/// Each entry of the leaf index sequence is a leaf, in range, and they
/// grow strictly.
pub proof fn lemma_leaf_index_seq(kinds: Seq<CstKind>, k: int)
    requires
        0 <= k < leaf_index_seq(kinds).len(),
    ensures
        0 <= leaf_index_seq(kinds)[k] < kinds.len(),
        is_leaf_kind(kinds[leaf_index_seq(kinds)[k]]),
    decreases kinds.len(),
{
    let r = leaf_index_seq(kinds.drop_last());
    if k < r.len() {
        lemma_leaf_index_seq(kinds.drop_last(), k);
    }
}

/// The whole tree is well formed: links stay inside the arena, every node
/// but the root hangs below an earlier non-leaf node, the char spans are
/// ordered and inside the source, the byte spans are their images, and
/// the leaves are exactly the leaf nodes, lying end to end over the whole
/// source.
pub open spec fn tree_ok(
    src: Seq<char>,
    nodes: Seq<CstNode>,
    spans: Seq<(int, int)>,
    leaves: Seq<int>,
) -> bool {
    &&& nodes.len() >= 1
    &&& spans.len() == nodes.len()
    &&& nodes[0].kind is Document
    &&& nodes[0].parent is None
    &&& forall|i: int| 0 <= i < nodes.len() ==> #[trigger] node_ok(src, nodes, spans, i)
    &&& leaves == leaf_index_seq(nodes.map_values(|n: CstNode| n.kind))
    &&& contiguous(leaves, spans, src.len() as int)
}

pub open spec fn link_ok(o: Option<CstNodeId>, len: int) -> bool {
    match o {
        Some(x) => 0 <= x@ < len,
        None => true,
    }
}

pub open spec fn node_ok(src: Seq<char>, nodes: Seq<CstNode>, spans: Seq<(int, int)>, i: int) -> bool {
    let n = nodes[i];
    let len = nodes.len() as int;
    &&& link_ok(n.parent, len)
    &&& link_ok(n.prev_sibling, len)
    &&& link_ok(n.next_sibling, len)
    &&& link_ok(n.first_child, len)
    &&& link_ok(n.last_child, len)
    &&& (i >= 1 ==> n.parent is Some && n.parent.unwrap()@ < i && !is_leaf_kind(
        nodes[n.parent.unwrap()@].kind,
    ))
    &&& (n.first_child is Some ==> n.first_child.unwrap()@ > i)
    &&& (n.next_sibling is Some ==> n.next_sibling.unwrap()@ > i)
    &&& (is_leaf_kind(n.kind) ==> n.first_child is None)
    &&& (i >= 1 && !is_leaf_kind(n.kind) ==> n.first_child is Some)
    &&& (n.first_child is Some <==> n.last_child is Some)
    &&& (n.last_child matches Some(l) ==> (nodes[l@].parent matches Some(p) && p@ == i)
        && nodes[l@].next_sibling is None)
    &&& (n.first_child matches Some(f) ==> (nodes[f@].parent matches Some(p) && p@ == i)
        && nodes[f@].prev_sibling is None)
    &&& (n.next_sibling matches Some(j) ==> (nodes[j@].prev_sibling matches Some(q) && q@ == i)
        && opt_index(nodes[j@].parent) == opt_index(n.parent))
    &&& (n.prev_sibling matches Some(j) ==> (nodes[j@].next_sibling matches Some(q) && q@ == i)
        && opt_index(nodes[j@].parent) == opt_index(n.parent))
    &&& (i == 0 ==> n.prev_sibling is None && n.next_sibling is None)
    &&& (i > 0 ==> !(n.kind is Document))
    &&& 0 <= spans[i].0 <= spans[i].1 <= src.len()
    &&& n.span.start == byte_offset(src, spans[i].0)
    &&& n.span.end == byte_offset(src, spans[i].1)
}

/// A parsed USFM document: the source and its concrete syntax tree.
pub struct CstDocument {
    source: String,
    chars: Vec<char>,
    byte_total: usize,
    root: CstNodeId,
    nodes: Vec<CstNode>,
    char_spans: Vec<(usize, usize)>,
    leaf_ids: Vec<CstNodeId>,
}

pub open spec fn span_view(s: (usize, usize)) -> (int, int) {
    (s.0 as int, s.1 as int)
}

impl CstDocument {
    /// The source text.
    pub closed spec fn source_view(&self) -> Seq<char> {
        self.source@
    }

    /// The nodes of the arena, in creation order.
    pub closed spec fn nodes_view(&self) -> Seq<CstNode> {
        self.nodes@
    }

    /// The span of each node in chars.
    pub closed spec fn char_spans_view(&self) -> Seq<(int, int)> {
        self.char_spans@.map_values(|s: (usize, usize)| span_view(s))
    }

    /// The indices of the leaves, in source order.
    pub closed spec fn leaves_view(&self) -> Seq<int> {
        self.leaf_ids@.map_values(|x: CstNodeId| x@)
    }

    pub closed spec fn internal_ok(&self) -> bool {
        &&& self.chars@ == self.source@
        &&& self.root@ == 0
        &&& byte_len(self.source@) == self.byte_total
    }

    pub open spec fn wf(&self) -> bool {
        &&& self.internal_ok()
        &&& tree_ok(self.source_view(), self.nodes_view(), self.char_spans_view(), self.leaves_view())
    }

    pub fn root_id(&self) -> (r: CstNodeId)
        requires
            self.wf(),
        ensures
            r@ == 0,
    {
        self.root
    }

    pub fn node(&self, id: CstNodeId) -> (r: &CstNode)
        requires
            self.wf(),
            0 <= id@ < self.nodes_view().len(),
        ensures
            *r == self.nodes_view()[id@],
    {
        &self.nodes[id.index()]
    }

    pub fn nodes(&self) -> (r: &[CstNode])
        ensures
            r@ == self.nodes_view(),
    {
        self.nodes.as_slice()
    }

    pub fn leaf_ids(&self) -> (r: &[CstNodeId])
        ensures
            r@.map_values(|x: CstNodeId| x@) == self.leaves_view(),
    {
        self.leaf_ids.as_slice()
    }

    pub fn source(&self) -> (r: &str)
        ensures
            r@ == self.source_view(),
    {
        self.source.as_str()
    }

    /// Byte length of the source.
    pub(crate) fn byte_length(&self) -> (r: usize)
        requires
            self.wf(),
        ensures
            r == self.byte_len_view(),
    {
        self.byte_total
    }

    /// The source text of a node.
    pub fn source_text(&self, id: CstNodeId) -> (r: &str)
        requires
            self.wf(),
            0 <= id@ < self.nodes_view().len(),
        ensures
            r@ == self.source_view().subrange(
                self.char_spans_view()[id@].0,
                self.char_spans_view()[id@].1,
            ),
    {
        let i = id.index();
        assert(node_ok(self.source_view(), self.nodes_view(), self.char_spans_view(), i as int));
        let (a, b) = self.char_spans[i];
        self.source.as_str().substring_char(a, b)
    }

    /// A leaf together with its parent, text and token kind.
    pub fn leaf_token(&self, id: CstNodeId) -> (r: LeafToken<'_>)
        requires
            self.wf(),
            0 <= id@ < self.nodes_view().len(),
            id@ >= 1,
            is_leaf_kind(self.nodes_view()[id@].kind),
        ensures
            r.id == id,
            Some(r.parent) == self.nodes_view()[id@].parent,
            *r.span == self.nodes_view()[id@].span,
            r.text@ == self.source_view().subrange(
                self.char_spans_view()[id@].0,
                self.char_spans_view()[id@].1,
            ),
            leaf_kind_matches(r.kind, self.nodes_view()[id@].kind),
    {
        let i = id.index();
        assert(node_ok(self.source_view(), self.nodes_view(), self.char_spans_view(), i as int));
        let node = &self.nodes[i];
        let parent = match node.parent {
            Some(p) => p,
            None => id,
        };
        let text = self.source_text(id);
        let kind = match &node.kind {
            CstKind::MarkerToken { normalized, token_kind } => LeafTokenKind::Marker {
                normalized,
                token_kind: *token_kind,
            },
            CstKind::ClosingMarkerToken { normalized, token_kind } => LeafTokenKind::ClosingMarker {
                normalized,
                token_kind: *token_kind,
            },
            CstKind::MilestoneEndToken => LeafTokenKind::MilestoneEnd,
            CstKind::AttributesToken => LeafTokenKind::Attributes,
            CstKind::TextToken => LeafTokenKind::Text,
            CstKind::WhitespaceToken => LeafTokenKind::Whitespace,
            _ => LeafTokenKind::Newline,
        };
        LeafToken { id, parent, span: &node.span, text, kind }
    }

    /// Facts about node `i` that well-formedness gives.
    pub proof fn lemma_node(&self, i: int)
        requires
            self.wf(),
            0 <= i < self.nodes_view().len(),
        ensures
            node_ok(self.source_view(), self.nodes_view(), self.char_spans_view(), i),
    {
    }

    /// The text of a node spans its bytes: its char count is bounded by the
    /// byte span.
    pub proof fn lemma_node_bytes(&self, i: int)
        requires
            self.wf(),
            0 <= i < self.nodes_view().len(),
        ensures
            self.nodes_view()[i].span.start + byte_len(self.source_view().subrange(
                self.char_spans_view()[i].0,
                self.char_spans_view()[i].1,
            )) == self.nodes_view()[i].span.end,
            self.nodes_view()[i].span.end <= self.byte_len_view(),
            self.byte_len_view() <= usize::MAX,
    {
        let src = self.source_view();
        let sp = self.char_spans_view()[i];
        assert(node_ok(src, self.nodes_view(), self.char_spans_view(), i));
        lemma_byte_len_prefix(src, sp.0, sp.1);
        lemma_byte_len_prefix(src, sp.1, src.len() as int);
        assert(src.subrange(0, src.len() as int) =~= src);
    }

    /// The kinds of the nodes, in order.
    pub open spec fn kinds_view(&self) -> Seq<CstKind> {
        self.nodes_view().map_values(|n: CstNode| n.kind)
    }

    /// The byte span of the `k`-th leaf.
    pub open spec fn leaf_span(&self, k: int) -> Span {
        self.nodes_view()[self.leaves_view()[k]].span
    }

    /// Byte length of the source.
    pub open spec fn byte_len_view(&self) -> nat {
        byte_len(self.source_view())
    }

    /// The leaves lie end to end in bytes as well: each ends where the next
    /// begins, the first starts at 0 and the last ends at the byte length.
    pub proof fn lemma_leaf_bytes(&self, k: int)
        requires
            self.wf(),
            0 <= k < self.leaves_view().len(),
        ensures
            self.leaf_span(k).start < self.leaf_span(k).end,
            k > 0 ==> self.leaf_span(k).start == self.leaf_span(k - 1).end,
            k == 0 ==> self.leaf_span(k).start == 0,
            k == self.leaves_view().len() - 1 ==> self.leaf_span(k).end == self.byte_len_view(),
            0 <= self.leaves_view()[k] < self.nodes_view().len(),
            is_leaf_kind(self.nodes_view()[self.leaves_view()[k]].kind),
    {
        let src = self.source_view();
        let nodes = self.nodes_view();
        let spans = self.char_spans_view();
        let leaves = self.leaves_view();
        let l = leaves[k];
        assert(0 <= l < spans.len() && 0 <= spans[l].0 < spans[l].1);
        assert(node_ok(src, nodes, spans, l));
        lemma_byte_offset_strict(src, spans[l].0, spans[l].1);
        lemma_byte_offset_end(src);
        if k > 0 {
            assert(leaf_start(leaves, spans, k) == leaf_end(leaves, spans, k - 1));
            assert(0 <= leaves[k - 1] < spans.len());
            assert(node_ok(src, nodes, spans, leaves[k - 1]));
        }
        lemma_leaf_index_seq(nodes.map_values(|n: CstNode| n.kind), k);
    }

    /// Leaves never overlap: an earlier leaf ends before a later one starts.
    pub proof fn lemma_leaves_ordered(&self, j: int, k: int)
        requires
            self.wf(),
            0 <= j < k < self.leaves_view().len(),
        ensures
            self.leaf_span(j).end <= self.leaf_span(k).start,
        decreases k - j,
    {
        self.lemma_leaf_bytes(k);
        if j < k - 1 {
            self.lemma_leaves_ordered(j, k - 1);
            self.lemma_leaf_bytes(k - 1);
        }
    }

    /// The leaf that holds byte `offset`; at the end of the source, the
    /// last leaf.
    pub fn leaf_at_offset(&self, offset: usize) -> (r: Option<CstNodeId>)
        requires
            self.wf(),
        ensures
            r is None <==> (self.leaves_view().len() == 0 || offset > self.byte_len_view()),
            r matches Some(id) ==> exists|k: int|
                0 <= k < self.leaves_view().len() && self.leaves_view()[k] == id@ && (offset
                    == self.byte_len_view() ==> k == self.leaves_view().len() - 1) && (offset
                    < self.byte_len_view() ==> self.leaf_span(k).start <= offset
                    < self.leaf_span(k).end),
    {
        let ghost leaves = self.leaves_view();
        if self.leaf_ids.len() == 0 {
            return None;
        }
        let total = self.byte_total;
        if offset > total {
            return None;
        }
        let last = self.leaf_ids.len() - 1;
        if offset == total {
            assert(leaves[last as int] == self.leaf_ids@[last as int]@);
            return Some(self.leaf_ids[last]);
        }
        proof {
            self.lemma_leaf_bytes(0);
            self.lemma_leaf_bytes(last as int);
        }
        let mut lo: usize = 0;
        let mut hi: usize = self.leaf_ids.len();
        while lo < hi
            invariant
                self.wf(),
                leaves == self.leaves_view(),
                leaves.len() == self.leaf_ids@.len(),
                total == self.byte_len_view(),
                offset < total,
                0 <= lo < hi <= leaves.len(),
                self.leaf_span(lo as int).start <= offset < self.leaf_span(hi - 1).end,
            decreases hi - lo,
        {
            let mid = lo + (hi - lo) / 2;
            proof {
                self.lemma_leaf_bytes(mid as int);
                if mid > 0 {
                    self.lemma_leaf_bytes(mid - 1);
                }
                if mid + 1 < leaves.len() {
                    self.lemma_leaf_bytes(mid + 1);
                }
            }
            let id = self.leaf_ids[mid];
            assert(leaves[mid as int] == id@);
            let span = &self.nodes[id.index()].span;
            if offset < span.start {
                hi = mid;
            } else if offset >= span.end {
                lo = mid + 1;
            } else {
                return Some(id);
            }
        }
        None
    }

    /// Whether the `k`-th leaf is the one that holds byte `offset` (at the
    /// end of the source, the last leaf).
    pub open spec fn is_leaf_at(&self, k: int, offset: usize) -> bool {
        &&& 0 <= k < self.leaves_view().len()
        &&& offset == self.byte_len_view() ==> k == self.leaves_view().len() - 1
        &&& offset < self.byte_len_view() ==> self.leaf_span(k).start <= offset < self.leaf_span(k).end
    }

    /// The smallest node on the path from the leaf at `start` to the root
    /// whose span covers `start..end`.
    pub fn covering_node_range(&self, start: usize, end: usize) -> (r: Option<CstNodeId>)
        requires
            self.wf(),
        ensures
            (start > end || end > self.byte_len_view() || self.leaves_view().len() == 0) ==> r
                is None,
            r is None && start <= end <= self.byte_len_view() && self.leaves_view().len() > 0 ==> forall|
                k: int,
                m: int,
            |
                #![trigger self.is_leaf_at(k, start), is_ancestor_or_self(self.nodes_view(), m, self.leaves_view()[k])]
                self.is_leaf_at(k, start) && is_ancestor_or_self(self.nodes_view(), m, self.leaves_view()[k])
                    ==> !covers(self.nodes_view()[m], start, end),
            r matches Some(id) ==> 0 <= id@ < self.nodes_view().len() && self.nodes_view()[id@].span.start
                <= start && self.nodes_view()[id@].span.end >= end,
            r matches Some(id) ==> exists|k: int|
                0 <= k < self.leaves_view().len() && is_ancestor_or_self(
                    self.nodes_view(),
                    id@,
                    self.leaves_view()[k],
                ) && (start == self.byte_len_view() ==> k == self.leaves_view().len() - 1) && (
                start < self.byte_len_view() ==> self.leaf_span(k).start <= start
                    < self.leaf_span(k).end) && forall|m: int|
                    #![trigger is_ancestor_or_self(self.nodes_view(), m, self.leaves_view()[k])]
                    is_ancestor_or_self(self.nodes_view(), m, self.leaves_view()[k])
                        && is_ancestor_or_self(self.nodes_view(), id@, m) && m != id@ ==> !covers(
                        self.nodes_view()[m],
                        start,
                        end,
                    ),
    {
        let total = self.byte_total;
        if start > end || end > total {
            return None;
        }
        let seed = match self.leaf_at_offset(start) {
            Some(s) => s,
            None => return None,
        };
        let ghost k = choose|k: int|
            0 <= k < self.leaves_view().len() && self.leaves_view()[k] == seed@ && (start
                == self.byte_len_view() ==> k == self.leaves_view().len() - 1) && (start
                < self.byte_len_view() ==> self.leaf_span(k).start <= start
                < self.leaf_span(k).end);
        proof {
            self.lemma_leaf_bytes(k);
        }
        let mut current = seed;
        proof {
            let nodes = self.nodes_view();
            assert forall|m: int|
                #![trigger is_ancestor_or_self(nodes, m, seed@)]
                is_ancestor_or_self(nodes, m, seed@) && is_ancestor_or_self(nodes, seed@, m) && m
                    != seed@ implies !covers(nodes[m], start, end) by {
                lemma_ancestor_le(nodes, m, seed@);
                lemma_ancestor_le(nodes, seed@, m);
            }
        }
        loop
            invariant
                self.wf(),
                start <= end <= self.byte_len_view(),
                0 <= current@ < self.nodes_view().len(),
                0 <= k < self.leaves_view().len(),
                self.leaves_view()[k] == seed@,
                is_ancestor_or_self(self.nodes_view(), current@, seed@),
                start == self.byte_len_view() ==> k == self.leaves_view().len() - 1,
                start < self.byte_len_view() ==> self.leaf_span(k).start <= start
                    < self.leaf_span(k).end,
                forall|m: int|
                    #![trigger is_ancestor_or_self(self.nodes_view(), m, seed@)]
                    is_ancestor_or_self(self.nodes_view(), m, seed@) && is_ancestor_or_self(
                        self.nodes_view(),
                        current@,
                        m,
                    ) && m != current@ ==> !covers(self.nodes_view()[m], start, end),
            decreases current@,
        {
            proof {
                assert(node_ok(self.source_view(), self.nodes_view(), self.char_spans_view(), current@));
            }
            let node = &self.nodes[current.index()];
            if node.span.start <= start && node.span.end >= end {
                assert(0 <= k < self.leaves_view().len() && is_ancestor_or_self(
                    self.nodes_view(),
                    current@,
                    self.leaves_view()[k],
                ) && (start == self.byte_len_view() ==> k == self.leaves_view().len() - 1) && (
                start < self.byte_len_view() ==> self.leaf_span(k).start <= start
                    < self.leaf_span(k).end));
                return Some(current);
            }
            match node.parent {
                Some(p) => {
                    let ghost nodes = self.nodes_view();
                    let ghost cur = current@;
                    proof {
                        lemma_ancestor_step(nodes, cur, seed@);
                        assert(!covers(nodes[cur], start, end));
                        assert forall|m: int|
                            #![trigger is_ancestor_or_self(nodes, m, seed@)]
                            is_ancestor_or_self(nodes, m, seed@) && is_ancestor_or_self(nodes, p@, m) && m
                                != p@ implies !covers(nodes[m], start, end) by {
                            lemma_ancestor_chain(nodes, m, cur, seed@);
                            if is_ancestor_or_self(nodes, cur, m) {
                            } else {
                                if m != cur {
                                    assert(is_ancestor_or_self(nodes, m, p@));
                                    lemma_ancestor_le(nodes, m, p@);
                                    lemma_ancestor_le(nodes, p@, m);
                                }
                            }
                        }
                    }
                    current = p;
                },
                None => {
                    proof {
                        let nodes = self.nodes_view();
                        let cur = current@;
                        assert forall|k2: int, m: int|
                            #![trigger self.is_leaf_at(k2, start), is_ancestor_or_self(nodes, m, self.leaves_view()[k2])]
                            self.is_leaf_at(k2, start) && is_ancestor_or_self(nodes, m, self.leaves_view()[k2])
                                implies !covers(nodes[m], start, end) by {
                            if k2 < k {
                                self.lemma_leaves_ordered(k2, k);
                                self.lemma_leaf_bytes(k2);
                            } else if k < k2 {
                                self.lemma_leaves_ordered(k, k2);
                                self.lemma_leaf_bytes(k);
                            }
                            assert(k2 == k);
                            lemma_ancestor_chain(nodes, m, cur, seed@);
                            if m != cur && is_ancestor_or_self(nodes, m, cur) {
                                assert(false);
                            }
                        }
                    }
                    return None;
                },
            }
        }
    }

    /// The source reassembled from the leaves; the tree is lossless, so
    /// this is the source itself.
    pub fn to_source_string(&self) -> (r: String)
        requires
            self.wf(),
        ensures
            r@ == self.source_view(),
    {
        let ghost src = self.source_view();
        let ghost spans = self.char_spans_view();
        let ghost leaves = self.leaves_view();
        let mut out: Vec<char> = Vec::new();
        let mut k: usize = 0;
        proof {
            assert forall|j: int| 0 <= j < spans.len() implies #[trigger] spans[j].1 <= src.len() by {
                assert(node_ok(src, self.nodes_view(), spans, j));
            }
        }
        while k < self.leaf_ids.len()
            invariant
                self.wf(),
                src == self.source_view(),
                spans == self.char_spans_view(),
                leaves == self.leaves_view(),
                leaves.len() == self.leaf_ids@.len(),
                spans.len() == self.char_spans@.len(),
                k <= leaves.len(),
                out@ == leaves_text(src, leaves, spans, k as int),
            decreases leaves.len() - k,
        {
            let i = self.leaf_ids[k].index();
            assert(leaves[k as int] == i);
            assert(0 <= leaves[k as int] < spans.len());
            let (a, b) = self.char_spans[i];
            assert(spans[i as int] == (a as int, b as int));
            assert(node_ok(src, self.nodes_view(), spans, i as int));
            let mut j = a;
            let ghost out0 = out@;
            while j < b
                invariant
                    a <= j <= b,
                    b <= self.chars@.len(),
                    self.chars@ == src,
                    out@ == out0 + src.subrange(a as int, j as int),
                decreases b - j,
            {
                out.push(self.chars[j]);
                assert(src.subrange(a as int, j + 1) =~= src.subrange(a as int, j as int).push(
                    src[j as int],
                ));
                j += 1;
            }
            k += 1;
        }
        proof {
            lemma_leaves_text(src, leaves, spans, src.len() as int, leaves.len() as int);
            assert(src.subrange(0, src.len() as int) =~= src);
        }
        chars_to_string(&out)
    }
}

} // verus!

verus! {

/// A node that is open on the parser's stack.
/// The node ends after `id`'s end is taken from its last child and its
/// parent's end is widened to match.
spec fn refreshed_ends(t: Arena, id: int) -> Seq<usize> {
    match (t.firsts@[id], t.lasts@[id]) {
        (Some(f), Some(l)) => {
            let e = t.ends@[l as int];
            let mid = t.ends@.update(id, e);
            match t.parents@[id] {
                Some(p) => mid.update(
                    p as int,
                    if t.firsts@[p as int] == Some(id as usize) {
                        e
                    } else if t.ends@[p as int] >= e {
                        t.ends@[p as int]
                    } else {
                        e
                    },
                ),
                None => mid,
            }
        },
        _ => t.ends@,
    }
}

/// Whether a node of this kind is only a marker, attributes or
/// whitespace.
spec fn is_trivia_kind(k: CstKind) -> bool {
    k is MarkerToken || k is WhitespaceToken || k is NewlineToken || k is AttributesToken
}

/// Whether the sibling chain from node `c` on holds a node that is not
/// trivia.
spec fn chain_has_content(t: Arena, c: int) -> bool
    decreases t.kinds@.len() - c,
{
    if !(0 <= c < t.kinds@.len()) {
        false
    } else if !is_trivia_kind(t.kinds@[c]) {
        true
    } else {
        match t.nexts@[c] {
            Some(n) => if c < n && n < t.kinds@.len() {
                chain_has_content(t, n as int)
            } else {
                false
            },
            None => false,
        }
    }
}

/// The marker under which a node of kind `k` is recorded on the stack.
spec fn entry_marker(k: CstKind) -> Seq<char> {
    match k {
        CstKind::Book { marker } => marker@,
        CstKind::Chapter { marker } => marker@,
        CstKind::Verse { marker } => marker@,
        CstKind::Para { marker } => marker@,
        CstKind::Char { marker } => marker@,
        CstKind::Note { marker } => marker@,
        CstKind::Milestone { marker } => marker@,
        CstKind::Figure { marker } => marker@,
        CstKind::Sidebar { marker } => marker@,
        CstKind::Periph { marker } => marker@,
        CstKind::TableRow { marker } => marker@,
        CstKind::TableCell { marker } => marker@,
        CstKind::Unknown { marker } => marker@,
        CstKind::Ref => "ref"@,
        CstKind::Table => "table"@,
        _ => ""@,
    }
}

/// The marker kind under which a node of kind `k` is recorded on the
/// stack.
spec fn entry_kind(k: CstKind) -> MarkerKind {
    match k {
        CstKind::Book { .. } => MarkerKind::Header,
        CstKind::Para { marker } => marker_info(marker@).kind,
        CstKind::Char { .. } => MarkerKind::Character,
        CstKind::Ref => MarkerKind::Character,
        CstKind::Note { .. } => MarkerKind::Note,
        CstKind::Figure { .. } => MarkerKind::Figure,
        CstKind::Sidebar { .. } => MarkerKind::SidebarStart,
        CstKind::Periph { .. } => MarkerKind::Periph,
        CstKind::TableRow { .. } => MarkerKind::TableRow,
        CstKind::TableCell { .. } => MarkerKind::TableCell,
        CstKind::Unknown { .. } => MarkerKind::Unknown,
        _ => marker_info(entry_marker(k)).kind,
    }
}

struct OpenNode {
    id: usize,
    kind: MarkerKind,
    marker: MarkerName,
}

/// The name of the marker token `s..e` of `src`, without its backslash.
pub open spec fn marker_text(src: Seq<char>, s: int, e: int) -> Seq<char> {
    let t = src.subrange(s, e);
    if t.len() > 0 && t[0] == '\\' {
        t.drop_first()
    } else {
        t
    }
}

/// The open nodes that stay open when a marker of kind `mk` named `name`
/// opens its node: blocks close paragraphs, notes and tables; a cell
/// closes the cell before it; an unknown marker closes inline siblings; a
/// verse closes open meta paragraphs; `\cat` inside a note or sidebar and
/// `\rem` inside a paragraph close little or nothing.
spec fn stack_before_open(mk: MarkerKind, name: Seq<char>, st: Seq<OpenNode>) -> Seq<OpenNode> {
    match mk {
        MarkerKind::Header | MarkerKind::Paragraph | MarkerKind::TableRow | MarkerKind::Periph
        | MarkerKind::SidebarStart | MarkerKind::Chapter => block_closed(st),
        MarkerKind::TableCell => pop_kinds(st, MarkerKind::TableCell, MarkerKind::TableCell, MarkerKind::TableCell),
        MarkerKind::Unknown => pop_kinds(st, MarkerKind::Character, MarkerKind::Unknown, MarkerKind::Unknown),
        MarkerKind::Verse => pop_kinds(st, MarkerKind::Meta, MarkerKind::Meta, MarkerKind::Meta),
        MarkerKind::Meta => if name == "cat"@ && (has_kind(st, MarkerKind::Note) || has_kind(
            st,
            MarkerKind::SidebarStart,
        )) {
            st
        } else if name == "rem"@ && !has_kind(st, MarkerKind::Note) && has_kind(st, MarkerKind::Paragraph) {
            pop_kinds(st, MarkerKind::Character, MarkerKind::Unknown, MarkerKind::Meta)
        } else {
            block_closed(st)
        },
        _ => st,
    }
}

/// Whether `k` is the node that a marker of kind `mk` named `name` opens:
/// `\id` a book, other headers, paragraphs and meta markers a paragraph,
/// chapters and verses their own nodes, and so on.
pub open spec fn opens_as(k: CstKind, mk: MarkerKind, name: Seq<char>) -> bool {
    match mk {
        MarkerKind::Header => if name == "id"@ {
            k matches CstKind::Book { marker } && marker@ == name
        } else {
            k matches CstKind::Para { marker } && marker@ == name
        },
        MarkerKind::Paragraph | MarkerKind::Meta => k matches CstKind::Para { marker } && marker@ == name,
        MarkerKind::Note => k matches CstKind::Note { marker } && marker@ == name,
        MarkerKind::TableRow => k matches CstKind::TableRow { marker } && marker@ == name,
        MarkerKind::TableCell => k matches CstKind::TableCell { marker } && marker@ == name,
        MarkerKind::Periph => k matches CstKind::Periph { marker } && marker@ == name,
        MarkerKind::Figure => k matches CstKind::Figure { marker } && marker@ == name,
        MarkerKind::SidebarStart => k matches CstKind::Sidebar { marker } && marker@ == name,
        MarkerKind::Unknown => k matches CstKind::Unknown { marker } && marker@ == name,
        MarkerKind::Chapter => k matches CstKind::Chapter { marker } && marker@ == "c"@,
        MarkerKind::Verse => k matches CstKind::Verse { marker } && marker@ == "v"@,
        MarkerKind::MilestoneStart | MarkerKind::MilestoneEnd => k matches CstKind::Milestone { marker } && marker@
            == name,
        MarkerKind::Character => !is_leaf_kind(k),
        _ => false,
    }
}

/// What opening a marker did, from parser state `a` to `b`: node `id` is
/// new and is the node the marker opens, below the innermost node left
/// open; it is then the innermost open node, or, for chapters, verses and
/// milestones, the node that waits for its number or attributes.
spec fn marker_opened(a: CstParser, b: CstParser, mk: MarkerKind, name: Seq<char>, id: int) -> bool {
    let pre = stack_before_open(mk, name, a.stack@);
    &&& a.len() <= id < b.len()
    &&& opens_as(b.tree.kinds@[id], mk, name)
    &&& !(mk is TableRow) && !(mk is Character) ==> b.tree.parents@[id] == Some(top_id(pre))
    &&& opens_pending(mk) ==> b.stack@ == pre
    &&& mk is Chapter ==> b.pending_chapter == Some(id as usize)
    &&& mk is Verse ==> b.pending_verse == Some(id as usize)
    &&& (mk is MilestoneStart || mk is MilestoneEnd) ==> b.pending_milestone == Some(id as usize)
    &&& !opens_pending(mk) && !(mk is Character) ==> {
        &&& b.stack@.len() == pre.len() + 1
        &&& b.stack@.drop_last() == pre
        &&& b.stack@.last().id == id
        &&& b.stack@.last().kind == entry_kind(b.tree.kinds@[id])
        &&& b.stack@.last().marker@ == entry_marker(b.tree.kinds@[id])
    }
    &&& mk is Character ==> b.stack@.len() > 0 && b.stack@.last().id == id
}

/// The node that a token of kind `k` at `s..e` of `src` opens, as the
/// kind and name of its marker: a marker (other than `\esbe`), a
/// chapter, a verse or a milestone.
pub open spec fn token_opens(k: TokenKind, src: Seq<char>, s: int, e: int) -> Option<(MarkerKind, Seq<char>)> {
    match k {
        TokenKind::Marker => if marker_info(marker_text(src, s, e)).kind is SidebarEnd {
            None
        } else {
            Some((marker_info(marker_text(src, s, e)).kind, marker_text(src, s, e)))
        },
        TokenKind::Chapter => Some((MarkerKind::Chapter, "c"@)),
        TokenKind::Verse => Some((MarkerKind::Verse, "v"@)),
        TokenKind::Milestone => Some((MarkerKind::MilestoneStart, marker_text(src, s, e))),
        _ => None,
    }
}

/// Whether the node that token `tok` of `src` opens stands among `kinds`.
pub open spec fn opened_in(kinds: Seq<CstKind>, src: Seq<char>, tok: (TokenKind, int, int)) -> bool {
    match token_opens(tok.0, src, tok.1, tok.2) {
        Some(p) => exists|id: int| 0 <= id < kinds.len() && #[trigger] opens_as(kinds[id], p.0, p.1),
        None => true,
    }
}

/// Nodes once opened stay in a tree that only grows.
proof fn lemma_opened_grows(a: Seq<CstKind>, b: Seq<CstKind>, src: Seq<char>, toks: Seq<(TokenKind, int, int)>, k: int)
    requires
        a.is_prefix_of(b),
        0 <= k <= toks.len(),
        forall|j: int| 0 <= j < k ==> #[trigger] opened_in(a, src, toks[j]),
    ensures
        forall|j: int| 0 <= j < k ==> #[trigger] opened_in(b, src, toks[j]),
{
    assert forall|j: int| 0 <= j < k implies #[trigger] opened_in(b, src, toks[j]) by {
        assert(opened_in(a, src, toks[j]));
        let t = toks[j];
        if token_opens(t.0, src, t.1, t.2) is Some {
            let p = token_opens(t.0, src, t.1, t.2).unwrap();
            let id = choose|id: int| 0 <= id < a.len() && #[trigger] opens_as(a[id], p.0, p.1);
            assert(b[id] == a[id]);
        }
    }
}

/// Whether a marker of kind `mk` waits for its number or attributes
/// instead of staying open on the stack.
spec fn opens_pending(mk: MarkerKind) -> bool {
    mk is Chapter || mk is Verse || mk is MilestoneStart || mk is MilestoneEnd
}

/// Where the next leaf goes: a pending chapter, verse or milestone first,
/// else the innermost open node.
spec fn token_parent(p: CstParser) -> usize {
    match p.pending_chapter {
        Some(c) => c,
        None => match p.pending_verse {
            Some(v) => v,
            None => match p.pending_milestone {
                Some(m) => m,
                None => top_id(p.stack@),
            },
        },
    }
}

/// Where a leaf goes once a pending milestone is done with: a pending
/// chapter or verse first, else the innermost open node.
spec fn text_parent(p: CstParser) -> usize {
    match p.pending_chapter {
        Some(c) => c,
        None => match p.pending_verse {
            Some(v) => v,
            None => top_id(p.stack@),
        },
    }
}

/// The name of the closing marker token `s..e` of `src`, without its
/// backslash and star.
spec fn closer_text(src: Seq<char>, s: int, e: int) -> Seq<char> {
    let t = marker_text(src, s, e);
    if t.len() > 0 && t.last() == '*' {
        t.drop_last()
    } else {
        t
    }
}

/// What opening a character marker did to the stack: its node `id` goes on
/// top, below it the stack as it was, or with the open character, unknown
/// and cell nodes on top closed first, and `id` hangs below the node
/// under it.
spec fn char_opened(a: CstParser, b: CstParser, id: int) -> bool {
    &&& b.stack@.len() > 0
    &&& b.stack@.last().id == id
    &&& (b.stack@.drop_last() == a.stack@ || b.stack@.drop_last() == pop_kinds(
        a.stack@,
        MarkerKind::Character,
        MarkerKind::Unknown,
        MarkerKind::TableCell,
    ))
    &&& !(b.tree.kinds@[id] is TableRow) ==> b.tree.parents@[id] == Some(top_id(b.stack@.drop_last()))
}

/// Parent links as node indices.
spec fn parent_ints(p: Seq<Option<usize>>) -> Seq<Option<int>> {
    p.map_values(
        |o: Option<usize>|
            match o {
                Some(x) => Some(x as int),
                None => None,
            },
    )
}

/// What opening node `id` for a marker of kind `mk` named `name` means for
/// the tree (`kinds`, `parents`) and the stack of open nodes, from `st0` to
/// `st1`: the node is of the kind the marker opens and hangs below the node
/// left innermost once the marker's implicit closes are done; it then goes
/// on top of the stack, or, for chapters, verses and milestones, waits for
/// its number or attributes.
spec fn opened_step(
    kinds: Seq<CstKind>,
    parents: Seq<Option<int>>,
    mk: MarkerKind,
    name: Seq<char>,
    st0: Seq<OpenNode>,
    st1: Seq<OpenNode>,
    id: int,
) -> bool {
    let pre = stack_before_open(mk, name, st0);
    &&& 0 <= id < kinds.len()
    &&& opens_as(kinds[id], mk, name)
    &&& !(mk is TableRow) && !(mk is Character) ==> parents[id] == Some(top_id(pre) as int)
    &&& opens_pending(mk) ==> st1 == pre
    &&& !opens_pending(mk) && !(mk is Character) ==> {
        &&& st1.len() == pre.len() + 1
        &&& st1.drop_last() == pre
        &&& st1.last().id == id
        &&& st1.last().kind == entry_kind(kinds[id])
        &&& st1.last().marker@ == entry_marker(kinds[id])
    }
    &&& mk is Character ==> {
        &&& st1.len() > 0
        &&& st1.last().id == id
        &&& st1.drop_last() == st0 || st1.drop_last() == pop_kinds(
            st0,
            MarkerKind::Character,
            MarkerKind::Unknown,
            MarkerKind::TableCell,
        )
        &&& !(kinds[id] is TableRow) ==> parents[id] == Some(top_id(st1.drop_last()) as int)
    }
}

/// What token `tok` of `src` did to the tree (`kinds`, `parents`) and to
/// the stack of open nodes, from `st0` to `st1`: blanks, text and
/// attributes leave the stack alone; a milestone end may close the
/// innermost node; a closing marker closes the innermost open node it
/// matches, with what is open inside, and its leaf goes into that node;
/// an opening marker, chapter, verse or milestone opens its node as
/// `opened_step` says. Nested markers and `\esbe` are left open here.
spec fn token_nested(
    kinds: Seq<CstKind>,
    parents: Seq<Option<int>>,
    src: Seq<char>,
    tok: (TokenKind, int, int),
    st0: Seq<OpenNode>,
    st1: Seq<OpenNode>,
) -> bool {
    match tok.0 {
        TokenKind::Whitespace | TokenKind::Newline | TokenKind::Text | TokenKind::Attributes => st1 == st0,
        TokenKind::MilestoneEnd => st1 == st0 || (st0.len() > 0 && st1 == st0.drop_last()),
        TokenKind::ClosingMarker => {
            let name = closer_text(src, tok.1, tok.2);
            &&& (forall|i: int| #[trigger] closer_index(st0, name, i) ==> st1 == st0.subrange(0, i))
            &&& ((forall|j: int| 0 <= j < st0.len() ==> !closes(st0[j], name)) ==> st1 == st0)
            &&& exists|l: int|
                #![trigger kinds[l]]
                0 <= l < kinds.len() && (kinds[l] matches CstKind::ClosingMarkerToken { normalized, token_kind }
                    && normalized@ == name && token_kind == ClosingTokenKind::Regular) && forall|i: int|
                    #[trigger] closer_index(st0, name, i) ==> parents[l] == Some(st0[i].id as int)
        },
        TokenKind::Marker => {
            let name = marker_text(src, tok.1, tok.2);
            let mk = marker_info(name).kind;
            mk is SidebarEnd || exists|id: int| opened_step(kinds, parents, mk, name, st0, st1, id)
        },
        TokenKind::Chapter => exists|id: int| opened_step(kinds, parents, MarkerKind::Chapter, "c"@, st0, st1, id),
        TokenKind::Verse => exists|id: int| opened_step(kinds, parents, MarkerKind::Verse, "v"@, st0, st1, id),
        TokenKind::Milestone => exists|id: int|
            opened_step(kinds, parents, MarkerKind::MilestoneStart, marker_text(src, tok.1, tok.2), st0, st1, id),
        _ => true,
    }
}

/// There is a stack of open nodes before each token of `toks`, starting
/// empty, such that each token does to the tree (`kinds`, `parents`) and
/// the stack what `token_nested` says.
spec fn nested_by_stacks(kinds: Seq<CstKind>, parents: Seq<Option<int>>, src: Seq<char>, toks: Seq<(TokenKind, int, int)>) -> bool {
    exists|stacks: Seq<Seq<OpenNode>>|
        #![trigger stacks.len()]
        stacks.len() == toks.len() + 1 && stacks[0] == Seq::<OpenNode>::empty() && forall|j: int|
            0 <= j < toks.len() ==> #[trigger] token_nested(kinds, parents, src, toks[j], stacks[j], stacks[j + 1])
}

/// The parents of the nodes of `doc`, as node indices.
pub open spec fn parents_view(doc: CstDocument) -> Seq<Option<int>> {
    doc.nodes_view().map_values(|n: CstNode| opt_index(n.parent))
}

/// The tree of `doc` nests its nodes as a stack of open nodes, driven by
/// the tokens of `input`, does: each marker's node hangs below the node
/// left open once the marker's implicit closes are done, and each closing
/// marker closes the innermost open node it matches and holds its leaf
/// (`token_nested`).
pub closed spec fn nested_as_parsed(doc: CstDocument, input: Seq<char>) -> bool {
    nested_by_stacks(doc.kinds_view(), parents_view(doc), input, lex(input))
}

/// Facts of a token about earlier nodes stay true as the tree grows.
proof fn lemma_nested_grows(
    k1: Seq<CstKind>,
    p1: Seq<Option<int>>,
    k2: Seq<CstKind>,
    p2: Seq<Option<int>>,
    src: Seq<char>,
    tok: (TokenKind, int, int),
    st0: Seq<OpenNode>,
    st1: Seq<OpenNode>,
)
    requires
        token_nested(k1, p1, src, tok, st0, st1),
        k1.is_prefix_of(k2),
        p1.len() == k1.len(),
        p1.len() <= p2.len(),
        forall|i: int| 0 <= i < p1.len() ==> #[trigger] p2[i] == p1[i],
    ensures
        token_nested(k2, p2, src, tok, st0, st1),
{
    assert forall|i: int| 0 <= i < k1.len() implies #[trigger] k2[i] == k1[i] by {}
    match tok.0 {
        TokenKind::ClosingMarker => {
            let name = closer_text(src, tok.1, tok.2);
            let l = choose|l: int|
                #![trigger k1[l]]
                0 <= l < k1.len() && (k1[l] matches CstKind::ClosingMarkerToken { normalized, token_kind }
                    && normalized@ == name && token_kind == ClosingTokenKind::Regular) && forall|i: int|
                    #[trigger] closer_index(st0, name, i) ==> p1[l] == Some(st0[i].id as int);
            assert(k2[l] == k1[l] && p2[l] == p1[l]);
        },
        TokenKind::Marker => {
            let name = marker_text(src, tok.1, tok.2);
            let mk = marker_info(name).kind;
            if !(mk is SidebarEnd) {
                let id = choose|id: int| opened_step(k1, p1, mk, name, st0, st1, id);
                assert(k2[id] == k1[id] && p2[id] == p1[id]);
                assert(opened_step(k2, p2, mk, name, st0, st1, id));
            }
        },
        TokenKind::Chapter => {
            let id = choose|id: int| opened_step(k1, p1, MarkerKind::Chapter, "c"@, st0, st1, id);
            assert(k2[id] == k1[id] && p2[id] == p1[id]);
            assert(opened_step(k2, p2, MarkerKind::Chapter, "c"@, st0, st1, id));
        },
        TokenKind::Verse => {
            let id = choose|id: int| opened_step(k1, p1, MarkerKind::Verse, "v"@, st0, st1, id);
            assert(k2[id] == k1[id] && p2[id] == p1[id]);
            assert(opened_step(k2, p2, MarkerKind::Verse, "v"@, st0, st1, id));
        },
        TokenKind::Milestone => {
            let name = marker_text(src, tok.1, tok.2);
            let id = choose|id: int| opened_step(k1, p1, MarkerKind::MilestoneStart, name, st0, st1, id);
            assert(k2[id] == k1[id] && p2[id] == p1[id]);
            assert(opened_step(k2, p2, MarkerKind::MilestoneStart, name, st0, st1, id));
        },
        _ => {},
    }
}

/// What a parser step on token `tok` did is what `token_nested` says.
proof fn lemma_token_step(a: CstParser, b: CstParser, src: Seq<char>, tok: (TokenKind, int, int))
    requires
        a.tree.parents@.len() == a.tree.kinds@.len(),
        b.tree.parents@.len() == b.tree.kinds@.len(),
        (tok.0 is Whitespace || tok.0 is Newline || tok.0 is Text || tok.0 is Attributes) ==> b.stack@ == a.stack@,
        tok.0 is MilestoneEnd ==> b.stack@ == a.stack@ || (a.stack@.len() > 0 && b.stack@ == a.stack@.drop_last()),
        tok.0 is Marker && !(marker_info(marker_text(src, tok.1, tok.2)).kind is SidebarEnd) ==> exists|id: int|
            marker_opened(a, b, marker_info(marker_text(src, tok.1, tok.2)).kind, marker_text(src, tok.1, tok.2), id),
        tok.0 is Marker && marker_info(marker_text(src, tok.1, tok.2)).kind is Character ==> exists|id: int|
            marker_opened(a, b, MarkerKind::Character, marker_text(src, tok.1, tok.2), id) && char_opened(a, b, id),
        tok.0 is ClosingMarker ==> closed_by(a, b, closer_text(src, tok.1, tok.2)),
        tok.0 is Chapter ==> exists|id: int| marker_opened(a, b, MarkerKind::Chapter, "c"@, id),
        tok.0 is Verse ==> exists|id: int| marker_opened(a, b, MarkerKind::Verse, "v"@, id),
        tok.0 is Milestone ==> exists|id: int|
            marker_opened(a, b, MarkerKind::MilestoneStart, marker_text(src, tok.1, tok.2), id),
    ensures
        token_nested(b.tree.kinds@, parent_ints(b.tree.parents@), src, tok, a.stack@, b.stack@),
{
    let kinds = b.tree.kinds@;
    let parents = parent_ints(b.tree.parents@);
    match tok.0 {
        TokenKind::ClosingMarker => {
            let name = closer_text(src, tok.1, tok.2);
            let l = a.tree.kinds@.len() as int;
            assert(kinds[l] == kinds.last());
            assert forall|i: int| #[trigger] closer_index(a.stack@, name, i) implies parents[l] == Some(
                a.stack@[i].id as int,
            ) by {
                assert(b.tree.parents@ == a.tree.parents@.push(Some(a.stack@[i].id)));
            }
            if forall|j: int| 0 <= j < a.stack@.len() ==> !closes(a.stack@[j], name) {
                assert forall|i: int| #[trigger] closer_index(a.stack@, name, i) implies parents[l] == Some(
                    a.stack@[i].id as int,
                ) by {
                    assert(!closes(a.stack@[i], name));
                }
            }
        },
        TokenKind::Marker => {
            let name = marker_text(src, tok.1, tok.2);
            let mk = marker_info(name).kind;
            if mk is Character {
                let id = choose|id: int|
                    marker_opened(a, b, MarkerKind::Character, name, id) && char_opened(a, b, id);
                lemma_opened_step(a, b, mk, name, id);
            } else if !(mk is SidebarEnd) {
                let id = choose|id: int| marker_opened(a, b, mk, name, id);
                lemma_opened_step(a, b, mk, name, id);
            }
        },
        TokenKind::Chapter => {
            let id = choose|id: int| marker_opened(a, b, MarkerKind::Chapter, "c"@, id);
            lemma_opened_step(a, b, MarkerKind::Chapter, "c"@, id);
        },
        TokenKind::Verse => {
            let id = choose|id: int| marker_opened(a, b, MarkerKind::Verse, "v"@, id);
            lemma_opened_step(a, b, MarkerKind::Verse, "v"@, id);
        },
        TokenKind::Milestone => {
            let name = marker_text(src, tok.1, tok.2);
            let id = choose|id: int| marker_opened(a, b, MarkerKind::MilestoneStart, name, id);
            lemma_opened_step(a, b, MarkerKind::MilestoneStart, name, id);
        },
        _ => {},
    }
}

/// A node opened by a parser step is opened as `opened_step` says.
proof fn lemma_opened_step(a: CstParser, b: CstParser, mk: MarkerKind, name: Seq<char>, id: int)
    requires
        marker_opened(a, b, mk, name, id),
        mk is Character ==> char_opened(a, b, id),
        b.tree.parents@.len() == b.tree.kinds@.len(),
    ensures
        opened_step(b.tree.kinds@, parent_ints(b.tree.parents@), mk, name, a.stack@, b.stack@, id),
{
}

/// The parents of the nodes of `a` stay as they are in `b`.
spec fn kept_parents(a: Seq<Option<usize>>, b: Seq<Option<usize>>) -> bool {
    &&& a.len() <= b.len()
    &&& forall|k: int| 0 <= k < a.len() ==> #[trigger] b[k] == a[k]
}

/// What a closing marker named `name` did, from parser state `a` to `b`:
/// its leaf is added; it closes the innermost open node it matches, with
/// what is open inside, and the leaf goes into that node; with no match
/// the leaf goes where text would and nothing closes.
spec fn closed_by(a: CstParser, b: CstParser, name: Seq<char>) -> bool {
    &&& b.tree.kinds@.drop_last() == a.tree.kinds@
    &&& b.tree.kinds@.len() == a.tree.kinds@.len() + 1
    &&& b.tree.kinds@.last() matches CstKind::ClosingMarkerToken { normalized, token_kind } && normalized@ == name
        && token_kind == ClosingTokenKind::Regular
    &&& forall|i: int|
        #[trigger] closer_index(a.stack@, name, i) ==> b.stack@ == a.stack@.subrange(0, i) && b.tree.parents@
            == a.tree.parents@.push(Some(a.stack@[i].id))
    &&& (forall|j: int| 0 <= j < a.stack@.len() ==> !closes(a.stack@[j], name)) ==> b.stack@ == a.stack@
        && b.tree.parents@ == a.tree.parents@.push(Some(text_parent(a)))
}

/// Whether `i` is the innermost open node that the closer `name` closes.
spec fn closer_index(st: Seq<OpenNode>, name: Seq<char>, i: int) -> bool {
    &&& 0 <= i < st.len()
    &&& closes(st[i], name)
    &&& forall|j: int| i < j < st.len() ==> !closes(st[j], name)
}

/// The innermost open node, or the document.
spec fn top_id(st: Seq<OpenNode>) -> usize {
    if st.len() > 0 {
        st.last().id
    } else {
        0
    }
}

/// Whether an open node of kind `k` is one of `a`, `b`, `c`.
spec fn kind_in(k: MarkerKind, a: MarkerKind, b: MarkerKind, c: MarkerKind) -> bool {
    k == a || k == b || k == c
}

/// The stack after closing open nodes while the innermost has kind `a`,
/// `b` or `c`.
spec fn pop_kinds(st: Seq<OpenNode>, a: MarkerKind, b: MarkerKind, c: MarkerKind) -> Seq<OpenNode>
    decreases st.len(),
{
    if st.len() > 0 && kind_in(st.last().kind, a, b, c) {
        pop_kinds(st.drop_last(), a, b, c)
    } else {
        st
    }
}

/// The stack after closing the innermost open node if it has kind `k`.
spec fn pop_if(st: Seq<OpenNode>, k: MarkerKind) -> Seq<OpenNode> {
    if st.len() > 0 && st.last().kind == k {
        st.drop_last()
    } else {
        st
    }
}

/// Whether a node of kind `k` is open.
spec fn has_kind(st: Seq<OpenNode>, k: MarkerKind) -> bool {
    exists|j: int| 0 <= j < st.len() && (#[trigger] st[j]).kind == k
}

/// The stack after closing every open note with what is open inside it:
/// everything from the outermost note on.
spec fn notes_closed(st: Seq<OpenNode>) -> Seq<OpenNode>
    decreases st.len(),
{
    if st.len() > 0 && has_kind(st, MarkerKind::Note) {
        notes_closed(st.drop_last())
    } else {
        st
    }
}

/// The stack after closing table cells and then a table row.
spec fn table_closed(st: Seq<OpenNode>) -> Seq<OpenNode> {
    pop_if(
        pop_kinds(st, MarkerKind::TableCell, MarkerKind::TableCell, MarkerKind::TableCell),
        MarkerKind::TableRow,
    )
}

/// The stack after closing inline nodes up to the innermost paragraph,
/// and that paragraph.
spec fn paragraph_closed(st: Seq<OpenNode>) -> Seq<OpenNode> {
    let s1 = pop_kinds(st, MarkerKind::Character, MarkerKind::Unknown, MarkerKind::Figure);
    if s1.len() > 0 && kind_in(s1.last().kind, MarkerKind::Paragraph, MarkerKind::Header, MarkerKind::Meta) {
        s1.drop_last()
    } else {
        s1
    }
}

/// The stack after closing notes, the table context and the paragraph.
spec fn block_closed(st: Seq<OpenNode>) -> Seq<OpenNode> {
    paragraph_closed(table_closed(notes_closed(st)))
}

/// `i` is the innermost open node of kind `k`.
spec fn innermost_kind(st: Seq<OpenNode>, i: int, k: MarkerKind) -> bool {
    &&& 0 <= i < st.len()
    &&& st[i].kind == k
    &&& forall|j: int| i < j < st.len() ==> st[j].kind != k
}

/// The family letter of a note marker: `f` for `\f`, `\fe`, `\ef`; `x`
/// for `\x`, `\ex`; else its first letter.
spec fn note_family(m: Seq<char>) -> Option<char> {
    if m == "f"@ || m == "fe"@ || m == "ef"@ {
        Some('f')
    } else if m == "x"@ || m == "ex"@ {
        Some('x')
    } else if m.len() > 0 {
        Some(m[0])
    } else {
        None
    }
}

/// Whether the marker `incoming` belongs to the family of the note
/// marker `note`; a marker with no letter to compare belongs.
spec fn same_family(note: Seq<char>, incoming: Seq<char>) -> bool {
    match note_family(note) {
        Some(e) => incoming.len() == 0 || incoming[0] == e,
        None => true,
    }
}

/// Whether a closing marker `name` closes the open node `open`; note
/// closers close only notes.
spec fn closes(open: OpenNode, name: Seq<char>) -> bool {
    if name == "f"@ || name == "fe"@ || name == "x"@ || name == "ef"@ || name == "ex"@ {
        open.kind == MarkerKind::Note && open.marker@ == name
    } else {
        open.marker@ == name
    }
}

/// Closing `st.drop_last()` notes gives what closing `st` gives, where the
/// innermost node is not the only note.
proof fn lemma_notes_closed_to(st: Seq<OpenNode>, i: int)
    requires
        innermost_kind(st, i, MarkerKind::Note),
    ensures
        notes_closed(st) == notes_closed(st.subrange(0, i)),
    decreases st.len(),
{
    assert(has_kind(st, MarkerKind::Note));
    if st.len() == i + 1 {
        assert(st.drop_last() =~= st.subrange(0, i));
    } else {
        let d = st.drop_last();
        assert(innermost_kind(d, i, MarkerKind::Note));
        lemma_notes_closed_to(d, i);
        assert(d.subrange(0, i) =~= st.subrange(0, i));
    }
}

/// With no note open, closing notes changes nothing.
proof fn lemma_notes_closed_none(st: Seq<OpenNode>)
    requires
        forall|j: int| 0 <= j < st.len() ==> st[j].kind != MarkerKind::Note,
    ensures
        notes_closed(st) == st,
{
}

/// The tree under construction, one vector per node field.
struct Arena {
    kinds: Vec<CstKind>,
    starts: Vec<usize>,
    ends: Vec<usize>,
    parents: Vec<Option<usize>>,
    prevs: Vec<Option<usize>>,
    nexts: Vec<Option<usize>>,
    firsts: Vec<Option<usize>>,
    lasts: Vec<Option<usize>>,
    leaf_ids: Vec<usize>,
}

/// The parser: the tree so far, the stack of open nodes and the nodes that
/// wait for their number or attributes.
struct CstParser {
    tree: Arena,
    stack: Vec<OpenNode>,
    pending_chapter: Option<usize>,
    pending_verse: Option<usize>,
    pending_milestone: Option<usize>,
    pending_usfm: bool,
    /// Chars consumed so far: where the last leaf ends.
    pos: Ghost<int>,
    /// Number of chars in the source.
    total: Ghost<int>,
}

spec fn opt_lt(o: Option<usize>, m: int) -> bool {
    o matches Some(x) ==> x < m
}

impl Arena {
    spec fn len(&self) -> int {
        self.kinds@.len() as int
    }

    spec fn nonleaf(&self, i: int) -> bool {
        0 <= i < self.len() && !is_leaf_kind(self.kinds@[i])
    }

    spec fn lstart(&self, k: int) -> int {
        self.starts@[self.leaf_ids@[k] as int] as int
    }

    spec fn lend(&self, k: int) -> int {
        self.ends@[self.leaf_ids@[k] as int] as int
    }

    /// Node `i` is sound at parse position `pos`; `hole` names the one
    /// structural node, if any, that was just created and still waits for
    /// its first child.
    spec fn good(&self, i: int, hole: int, pos: int, total: int) -> bool {
        let m = self.len();
        let st = self.starts@;
        &&& opt_lt(self.prevs@[i], m)
        &&& opt_lt(self.nexts@[i], m)
        &&& opt_lt(self.firsts@[i], m)
        &&& opt_lt(self.lasts@[i], m)
        &&& (i == 0 <==> self.parents@[i] is None)
        &&& (self.parents@[i] matches Some(p) ==> p < i && self.nonleaf(p as int)
            && self.firsts@[p as int] is Some && st[i] >= st[p as int])
        &&& (self.firsts@[i] is Some <==> self.lasts@[i] is Some)
        &&& (self.firsts@[i] matches Some(f) ==> f > i && st[f as int] == st[i])
        &&& (self.lasts@[i] matches Some(l) ==> self.parents@[l as int] == Some(i as usize))
        &&& (self.nexts@[i] matches Some(j) ==> j > i)
        &&& (is_leaf_kind(self.kinds@[i]) ==> self.firsts@[i] is None)
        &&& st[i] <= self.ends@[i] <= total
        &&& st[i] <= pos
        &&& (i >= 1 && i != hole && !is_leaf_kind(self.kinds@[i]) ==> self.firsts@[i] is Some)
        &&& (i == hole ==> st[i] == pos && self.firsts@[i] is None && !is_leaf_kind(
            self.kinds@[i],
        ))
    }

    /// The links of node `i` agree with those of its neighbours: a child
    /// names its parent, siblings name each other and share a parent, the
    /// first child has no earlier sibling and the last no later one, the
    /// root has no siblings, and only the root is the document.
    #[verifier::opaque]
    spec fn linked(&self, i: int) -> bool {
        &&& (self.firsts@[i] matches Some(f) ==> self.parents@[f as int] == Some(i as usize)
            && self.prevs@[f as int] is None)
        &&& (self.lasts@[i] matches Some(l) ==> self.nexts@[l as int] is None)
        &&& (self.nexts@[i] matches Some(j) ==> self.prevs@[j as int] == Some(i as usize)
            && self.parents@[j as int] == self.parents@[i])
        &&& (self.prevs@[i] matches Some(j) ==> self.nexts@[j as int] == Some(i as usize)
            && self.parents@[j as int] == self.parents@[i])
        &&& (i == 0 ==> self.prevs@[i] is None && self.nexts@[i] is None)
        &&& (i > 0 ==> !(self.kinds@[i] is Document))
    }

    /// Every node is linked.
    #[verifier::opaque]
    spec fn all_linked(&self) -> bool {
        forall|i: int| 0 <= i < self.len() ==> #[trigger] self.linked(i)
    }

    /// Links depend on the link fields and kinds alone.
    proof fn lemma_linked_same(&self, t: Arena)
        requires
            self.all_linked(),
            t.kinds@ == self.kinds@,
            t.parents@ == self.parents@,
            t.prevs@ == self.prevs@,
            t.nexts@ == self.nexts@,
            t.firsts@ == self.firsts@,
            t.lasts@ == self.lasts@,
        ensures
            t.all_linked(),
    {
        reveal(Arena::all_linked);
        reveal(Arena::linked);
        assert forall|i: int| 0 <= i < t.len() implies #[trigger] t.linked(i) by {
            assert(self.linked(i));
        }
    }

    /// Appending node `id` below `parent`, after its last child `prev`,
    /// keeps every node linked.
    proof fn lemma_push_linked(&self, t: Arena, parent: int, prev: Option<usize>, id: usize, hole: int, pos: int, total: int)
        requires
            self.inv(hole, pos, total),
            self.all_linked(),
            0 <= parent < self.len(),
            id == self.len(),
            prev == self.lasts@[parent],
            t.kinds@.len() == self.len() + 1,
            t.parents@ == self.parents@.push(Some(parent as usize)),
            t.prevs@ == self.prevs@.push(prev),
            t.nexts@ == (match prev {
                Some(p) => self.nexts@.update(p as int, Some(id)),
                None => self.nexts@,
            }).push(None),
            t.firsts@ == (match prev {
                Some(p) => self.firsts@,
                None => self.firsts@.update(parent, Some(id)),
            }).push(None),
            t.lasts@ == self.lasts@.update(parent, Some(id)).push(None),
            t.kinds@.drop_last() == self.kinds@,
            !(t.kinds@.last() is Document),
        ensures
            t.all_linked(),
    {
        reveal(Arena::all_linked);
        reveal(Arena::linked);
        let m = self.len();
        assert(self.good(parent, hole, pos, total));
        assert(self.linked(parent));
        assert(t.kinds@[m] == t.kinds@.last());
        if let Some(pv) = prev {
            assert(self.good(pv as int, hole, pos, total));
            assert(self.linked(pv as int));
            assert(self.parents@[pv as int] == Some(parent as usize));
        }
        assert forall|i: int| 0 <= i < t.len() implies #[trigger] t.linked(i) by {
            if i < m {
                assert(self.linked(i));
                assert(self.good(i, hole, pos, total));
                assert(t.kinds@[i] == self.kinds@[i]);
                if let Some(j) = self.prevs@[i] {
                    assert(self.linked(j as int));
                    assert(self.good(j as int, hole, pos, total));
                }
                if let Some(j) = self.nexts@[i] {
                    assert(self.linked(j as int));
                    assert(self.good(j as int, hole, pos, total));
                }
                if let Some(j) = self.firsts@[i] {
                    assert(self.good(j as int, hole, pos, total));
                }
                if let Some(j) = self.lasts@[i] {
                    assert(self.good(j as int, hole, pos, total));
                }
            }
        }
    }

    spec fn inv(&self, hole: int, pos: int, total: int) -> bool {
        let m = self.len();
        let l = self.leaf_ids@.len() as int;
        &&& m >= 1
        &&& self.starts@.len() == m && self.ends@.len() == m && self.parents@.len() == m
        &&& self.prevs@.len() == m && self.nexts@.len() == m && self.firsts@.len() == m
        &&& self.lasts@.len() == m
        &&& self.kinds@[0] is Document
        &&& 0 <= pos <= total
        &&& hole != 0
        &&& (self.firsts@[0] is None ==> m == 1)
        &&& forall|i: int| 0 <= i < m ==> #[trigger] self.good(i, hole, pos, total)
        &&& self.leaf_ids@.map_values(|x: usize| x as int) == leaf_index_seq(self.kinds@)
        &&& forall|k: int|
            0 <= k < l ==> #[trigger] self.leaf_ids@[k] < m && is_leaf_kind(
                self.kinds@[self.leaf_ids@[k] as int],
            ) && self.lstart(k) < self.lend(k)
        &&& forall|k: int| 0 < k < l ==> #[trigger] self.lstart(k) == self.lend(k - 1)
        &&& l > 0 ==> self.lstart(0) == 0
        &&& pos == (if l == 0 {
            0
        } else {
            self.lend(l - 1)
        })
    }
}

impl CstParser {
    spec fn len(&self) -> int {
        self.tree.len()
    }

    spec fn nonleaf(&self, i: int) -> bool {
        self.tree.nonleaf(i)
    }

    spec fn lstart(&self, k: int) -> int {
        self.tree.lstart(k)
    }

    spec fn lend(&self, k: int) -> int {
        self.tree.lend(k)
    }

    spec fn good(&self, i: int, hole: int) -> bool {
        self.tree.good(i, hole, self.pos@, self.total@)
    }

    spec fn pinv(&self, hole: int) -> bool {
        &&& self.tree.inv(hole, self.pos@, self.total@)
        &&& self.tree.all_linked()
        &&& forall|j: int| 0 <= j < self.stack@.len() ==> self.nonleaf(#[trigger] self.stack@[j].id as int)
        &&& (self.pending_chapter matches Some(c) ==> self.nonleaf(c as int))
        &&& (self.pending_verse matches Some(c) ==> self.nonleaf(c as int))
        &&& (self.pending_milestone matches Some(c) ==> self.nonleaf(c as int))
    }

    /// The parser is ready for the next token, which starts where the last
    /// leaf ends.
    spec fn ready(&self) -> bool {
        self.pinv(-1)
    }

    fn new(total: usize) -> (r: Self)
        ensures
            r.ready(),
            r.pos@ == 0,
            r.total@ == total,
            r.stack@.len() == 0,
    {
        let mut r = CstParser {
            tree: Arena {
                kinds: Vec::new(),
                starts: Vec::new(),
                ends: Vec::new(),
                parents: Vec::new(),
                prevs: Vec::new(),
                nexts: Vec::new(),
                firsts: Vec::new(),
                lasts: Vec::new(),
                leaf_ids: Vec::new(),
            },
            stack: Vec::new(),
            pending_chapter: None,
            pending_verse: None,
            pending_milestone: None,
            pending_usfm: false,
            pos: Ghost(0),
            total: Ghost(total as int),
        };
        r.tree.kinds.push(CstKind::Document);
        r.tree.starts.push(0);
        r.tree.ends.push(total);
        r.tree.parents.push(None);
        r.tree.prevs.push(None);
        r.tree.nexts.push(None);
        r.tree.firsts.push(None);
        r.tree.lasts.push(None);
        proof {
            assert(r.tree.kinds@.drop_last() =~= Seq::<CstKind>::empty());
            assert(leaf_index_seq(r.tree.kinds@.drop_last()) =~= Seq::<int>::empty());
            assert(r.tree.kinds@.last() == CstKind::Document);
            assert(leaf_index_seq(r.tree.kinds@) =~= Seq::<int>::empty());
            assert(r.tree.leaf_ids@.map_values(|x: usize| x as int) =~= Seq::<int>::empty());
            assert(r.good(0, -1));
        }
        proof {
            reveal(Arena::all_linked);
            reveal(Arena::linked);
            assert(r.tree.linked(0));
        }
        r
    }

    /// Widens `parent`'s span by its child `child`, as a parent's span
    /// follows its children: a first child sets it, a later one extends it.
    fn bump_span(&mut self, parent: usize, child: usize)
        requires
            parent < old(self).len(),
            child < old(self).len(),
            old(self).tree.starts@.len() == old(self).len(),
            old(self).tree.ends@.len() == old(self).len(),
            old(self).tree.firsts@.len() == old(self).len(),
            old(self).tree.firsts@[parent as int] == Some(child) ==> old(self).tree.starts@[child as int]
                == old(self).tree.starts@[parent as int],
            old(self).tree.starts@[child as int] >= old(self).tree.starts@[parent as int],
            old(self).tree.starts@[parent as int] <= old(self).tree.ends@[parent as int],
        ensures
            kept_parents(old(self).tree.parents@, final(self).tree.parents@),
            final(self).tree.starts@ == old(self).tree.starts@,
            final(self).tree.ends@ == old(self).tree.ends@.update(
                parent as int,
                if old(self).tree.firsts@[parent as int] == Some(child) {
                    old(self).tree.ends@[child as int]
                } else if old(self).tree.ends@[parent as int] >= old(self).tree.ends@[child as int] {
                    old(self).tree.ends@[parent as int]
                } else {
                    old(self).tree.ends@[child as int]
                },
            ),
            final(self).tree.kinds@ == old(self).tree.kinds@,
            final(self).tree.parents@ == old(self).tree.parents@,
            final(self).tree.prevs@ == old(self).tree.prevs@,
            final(self).tree.nexts@ == old(self).tree.nexts@,
            final(self).tree.firsts@ == old(self).tree.firsts@,
            final(self).tree.lasts@ == old(self).tree.lasts@,
            final(self).tree.leaf_ids@ == old(self).tree.leaf_ids@,
            final(self).stack@ == old(self).stack@,
            final(self).pending_chapter == old(self).pending_chapter,
            final(self).pending_verse == old(self).pending_verse,
            final(self).pending_milestone == old(self).pending_milestone,
            final(self).pending_usfm == old(self).pending_usfm,
            final(self).pos == old(self).pos,
            final(self).total == old(self).total,
    {
        let cs = self.tree.starts[child];
        let ce = self.tree.ends[child];
        let is_first_child = match self.tree.firsts[parent] {
            Some(f) => f == child,
            None => false,
        };
        if is_first_child {
            self.tree.starts.set(parent, cs);
            self.tree.ends.set(parent, ce);
        } else {
            let ps = self.tree.starts[parent];
            let pe = self.tree.ends[parent];
            self.tree.starts.set(parent, if ps <= cs { ps } else { cs });
            self.tree.ends.set(parent, if pe >= ce { pe } else { ce });
        }
        assert(self.tree.starts@ =~= old(self).tree.starts@);
    }

    /// Appends a node of `kind` spanning `s..e` as the last child of
    /// `parent`; a leaf moves the parse position to `e`.
    #[verifier::rlimit(100)]
    #[verifier::spinoff_prover]
    fn push_regular_node(
        &mut self,
        kind: CstKind,
        s: usize,
        e: usize,
        parent: usize,
        Ghost(hole): Ghost<int>,
    ) -> (id: usize)
        requires
            old(self).pinv(hole),
            hole == -1 || hole == parent,
            old(self).nonleaf(parent as int),
            s == old(self).pos@,
            s <= e <= old(self).total@,
            is_leaf_kind(kind) ==> s < e,
            !(kind is Document),
        ensures
            kept_parents(old(self).tree.parents@, final(self).tree.parents@),
            id == old(self).len(),
            final(self).tree.kinds@ == old(self).tree.kinds@.push(kind),
            final(self).tree.parents@ == old(self).tree.parents@.push(Some(parent)),
            is_leaf_kind(kind) ==> final(self).ready() && final(self).pos@ == e,
            !is_leaf_kind(kind) ==> final(self).pinv(id as int) && final(self).pos == old(self).pos,
            final(self).stack@ == old(self).stack@,
            final(self).pending_chapter == old(self).pending_chapter,
            final(self).pending_verse == old(self).pending_verse,
            final(self).pending_milestone == old(self).pending_milestone,
            final(self).pending_usfm == old(self).pending_usfm,
            final(self).total == old(self).total,
    {
        let ghost m = self.len();
        let ghost is_leaf = is_leaf_kind(kind);
        assert(self.good(parent as int, hole));
        proof {
            if self.tree.firsts@[parent as int] is None && parent == 0 {
                assert(self.tree.kinds@ =~= seq![CstKind::Document]);
                assert(self.tree.kinds@.drop_last() =~= Seq::<CstKind>::empty());
                assert(leaf_index_seq(self.tree.kinds@.drop_last()) =~= Seq::<int>::empty());
                assert(self.tree.leaf_ids@.map_values(|x: usize| x as int).len() == 0);
                assert(self.tree.starts@[0] <= self.pos@);
            }
        }
        let id = self.tree.kinds.len();
        let prev = self.tree.lasts[parent];
        let leaf = kind.is_leaf();
        self.tree.kinds.push(kind);
        self.tree.starts.push(s);
        self.tree.ends.push(e);
        self.tree.parents.push(Some(parent));
        self.tree.prevs.push(prev);
        self.tree.nexts.push(None);
        self.tree.firsts.push(None);
        self.tree.lasts.push(None);
        match prev {
            Some(p) => {
                assert(old(self).good(p as int, hole));
                self.tree.nexts.set(p, Some(id));
            },
            None => {
                self.tree.firsts.set(parent, Some(id));
            },
        }
        self.tree.lasts.set(parent, Some(id));
        let ghost before_bump = self.tree.ends@;
        self.bump_span(parent, id);
        if leaf {
            self.tree.leaf_ids.push(id);
            self.pos = Ghost(e as int);
        }
        proof {
            let h2: int = if is_leaf { -1 } else { id as int };
            assert(self.tree.kinds@.drop_last() =~= old(self).tree.kinds@);
            if is_leaf {
                assert(self.tree.leaf_ids@.map_values(|x: usize| x as int) =~= old(self).tree.leaf_ids@.map_values(
                    |x: usize| x as int,
                ).push(id as int));
            } else {
                assert(self.tree.leaf_ids@.map_values(|x: usize| x as int) =~= old(self).tree.leaf_ids@.map_values(
                    |x: usize| x as int,
                ));
            }
            assert forall|i: int| 0 <= i < self.len() implies #[trigger] self.tree.good(i, h2, self.pos@, self.total@) by {
                if i < m {
                    assert(old(self).good(i, hole));
                    if let Some(pp) = self.tree.parents@[i] {
                        assert(old(self).good(pp as int, hole));
                    }
                }
            }
            assert(self.tree.nexts@ =~= (match prev {
                Some(p) => old(self).tree.nexts@.update(p as int, Some(id)),
                None => old(self).tree.nexts@,
            }).push(None));
            assert(self.tree.firsts@ =~= (match prev {
                Some(p) => old(self).tree.firsts@,
                None => old(self).tree.firsts@.update(parent as int, Some(id)),
            }).push(None));
            assert(self.tree.lasts@ =~= old(self).tree.lasts@.update(parent as int, Some(id)).push(None));
            old(self).tree.lemma_push_linked(self.tree, parent as int, prev, id, hole, old(self).pos@, old(self).total@);
            let l = self.tree.leaf_ids@.len() as int;
            let l0 = old(self).tree.leaf_ids@.len() as int;
            assert forall|k: int| 0 <= k < l implies #[trigger] self.tree.leaf_ids@[k] < self.len()
                && is_leaf_kind(self.tree.kinds@[self.tree.leaf_ids@[k] as int]) && self.lstart(k) < self.lend(
                k,
            ) by {
                if k < l0 {
                    assert(old(self).tree.leaf_ids@[k] < m);
                    assert(is_leaf_kind(old(self).tree.kinds@[old(self).tree.leaf_ids@[k] as int]));
                }
            }
            assert forall|k: int| 0 < k < l implies #[trigger] self.lstart(k) == self.lend(k - 1) by {
                assert(old(self).tree.leaf_ids@[k - 1] < m);
                assert(is_leaf_kind(old(self).tree.kinds@[old(self).tree.leaf_ids@[k - 1] as int]));
                if k < l0 {
                    assert(old(self).lstart(k) == old(self).lend(k - 1));
                    assert(is_leaf_kind(old(self).tree.kinds@[old(self).tree.leaf_ids@[k] as int]));
                }
            }
            if l0 > 0 {
                assert(is_leaf_kind(old(self).tree.kinds@[old(self).tree.leaf_ids@[l0 - 1] as int]));
                assert(is_leaf_kind(old(self).tree.kinds@[old(self).tree.leaf_ids@[0] as int]));
            }
            assert forall|j: int| 0 <= j < self.stack@.len() implies self.nonleaf(
                #[trigger] self.stack@[j].id as int,
            ) by {
                assert(old(self).nonleaf(old(self).stack@[j].id as int));
            }
        }
        id
    }

    /// Position, source size and pending nodes are the same in both states.
    spec fn same_ctx(&self, other: &Self) -> bool {
        &&& self.pos == other.pos
        &&& self.total == other.total
        &&& self.pending_chapter == other.pending_chapter
        &&& self.pending_verse == other.pending_verse
        &&& self.pending_milestone == other.pending_milestone
        &&& self.pending_usfm == other.pending_usfm
    }

    /// The innermost open node, or the document.
    fn current_parent(&self) -> (r: usize)
        requires
            self.ready(),
        ensures
            self.nonleaf(r as int),
            r == top_id(self.stack@),
    {
        match self.stack.last() {
            Some(open) => {
                assert(self.nonleaf(self.stack@[self.stack@.len() - 1].id as int));
                open.id
            },
            None => 0,
        }
    }

    /// Where a leaf goes: a pending chapter, verse or milestone takes it
    /// first, else the innermost open node.
    fn current_token_parent(&self) -> (r: usize)
        requires
            self.ready(),
        ensures
            self.nonleaf(r as int),
            r == token_parent(*self),
    {
        match self.pending_chapter {
            Some(c) => c,
            None => match self.pending_verse {
                Some(v) => v,
                None => match self.pending_milestone {
                    Some(m) => m,
                    None => self.current_parent(),
                },
            },
        }
    }

    /// Closes the innermost open node.
    fn close_top(&mut self) -> (r: OpenNode)
        requires
            old(self).ready(),
            old(self).stack@.len() > 0,
        ensures
            kept_parents(old(self).tree.parents@, final(self).tree.parents@),
            final(self).ready(),
            final(self).same_ctx(old(self)),
            final(self).tree.kinds@ == old(self).tree.kinds@,
            final(self).tree.parents@ == old(self).tree.parents@,
            final(self).stack@ == old(self).stack@.drop_last(),
            r == old(self).stack@.last(),
    {
        assert(self.nonleaf(self.stack@[self.stack@.len() - 1].id as int));
        let open = self.stack.pop().unwrap();
        assert forall|j: int| 0 <= j < self.stack@.len() implies self.nonleaf(
            #[trigger] self.stack@[j].id as int,
        ) by {
            assert(self.stack@[j] == old(self).stack@[j]);
            assert(old(self).nonleaf(old(self).stack@[j].id as int));
        }
        self.refresh_span(open.id);
        open
    }

    /// The table that a row at `s..e` goes into: the last child of
    /// `parent` if that is a table, else a new one.
    fn ensure_table_parent(&mut self, parent: usize, s: usize, e: usize, Ghost(hole): Ghost<int>) -> (t: usize)
        requires
            old(self).pinv(hole),
            hole == -1 || hole == parent,
            old(self).nonleaf(parent as int),
            s == old(self).pos@,
            s <= e <= old(self).total@,
        ensures
            kept_parents(old(self).tree.parents@, final(self).tree.parents@),
            old(self).tree.kinds@.is_prefix_of(final(self).tree.kinds@),
            final(self).nonleaf(t as int),
            t < old(self).len() ==> final(self).pinv(-1) && hole == -1,
            t >= old(self).len() ==> final(self).pinv(t as int),
            final(self).stack@ == old(self).stack@,
            final(self).same_ctx(old(self)),
            final(self).len() >= old(self).len(),
            final(self).tree.kinds@.len() == final(self).len(),
            final(self).tree.parents@.len() == final(self).len(),
    {
        match self.tree.lasts[parent] {
            Some(l) => {
                assert(self.good(parent as int, hole));
                assert(self.good(l as int, hole));
                if matches!(self.tree.kinds[l], CstKind::Table) {
                    return l;
                }
            },
            None => {},
        }
        self.push_regular_node(CstKind::Table, s, e, parent, Ghost(hole))
    }

    /// Adds a structural node `s..e` below the current parent, a table row
    /// inside a table, opens it on the stack under `entry` when given, and
    /// gives it the marker leaf `leaf` as its first child.
    fn open_node(
        &mut self,
        kind: CstKind,
        entry: Option<(MarkerKind, MarkerName)>,
        s: usize,
        e: usize,
        leaf: CstKind,
    ) -> (id: usize)
        requires
            old(self).ready(),
            s == old(self).pos@,
            s < e <= old(self).total@,
            !is_leaf_kind(kind),
            is_leaf_kind(leaf),
            !(kind is Document),
        ensures
            kept_parents(old(self).tree.parents@, final(self).tree.parents@),
            old(self).tree.kinds@.is_prefix_of(final(self).tree.kinds@),
            final(self).ready(),
            final(self).pos@ == e,
            final(self).total == old(self).total,
            final(self).nonleaf(id as int),
            final(self).pending_chapter == old(self).pending_chapter,
            final(self).pending_verse == old(self).pending_verse,
            final(self).pending_milestone == old(self).pending_milestone,
            final(self).pending_usfm == old(self).pending_usfm,
            old(self).len() <= id < final(self).len(),
            final(self).tree.kinds@[id as int] == kind,
            !(kind is TableRow) ==> final(self).tree.parents@[id as int] == Some(top_id(old(self).stack@)),
            final(self).stack@ == (match entry {
                Some(en) => old(self).stack@.push(OpenNode { id, kind: en.0, marker: en.1 }),
                None => old(self).stack@,
            }),
    {
        let parent = self.current_parent();
        let is_row = matches!(kind, CstKind::TableRow { .. });
        let id = if is_row {
            let ghost m0 = self.len();
            let t = self.ensure_table_parent(parent, s, e, Ghost(-1));
            let ghost h: int = if t < m0 { -1 } else { t as int };
            self.push_regular_node(kind, s, e, t, Ghost(h))
        } else {
            self.push_regular_node(kind, s, e, parent, Ghost(-1))
        };
        match entry {
            Some((k, marker)) => {
                let ghost before = self.stack@;
                self.stack.push(OpenNode { id, kind: k, marker });
                assert forall|j: int| 0 <= j < self.stack@.len() implies self.nonleaf(
                    #[trigger] self.stack@[j].id as int,
                ) by {
                    if j < before.len() {
                        assert(self.stack@[j] == before[j]);
                    }
                }
            },
            None => {},
        }
        self.push_regular_node(leaf, s, e, id, Ghost(id as int));
        id
    }

    /// Adds the leaf `s..e` below `parent`.
    fn append_leaf_to(&mut self, kind: CstKind, s: usize, e: usize, parent: usize)
        requires
            old(self).ready(),
            old(self).nonleaf(parent as int),
            s == old(self).pos@,
            s < e <= old(self).total@,
            is_leaf_kind(kind),
            !(kind is Document),
        ensures
            kept_parents(old(self).tree.parents@, final(self).tree.parents@),
            old(self).tree.kinds@.is_prefix_of(final(self).tree.kinds@),
            final(self).ready(),
            final(self).pos@ == e,
            final(self).total == old(self).total,
            final(self).len() == old(self).len() + 1,
            final(self).stack@ == old(self).stack@,
            final(self).tree.kinds@ == old(self).tree.kinds@.push(kind),
            final(self).tree.parents@ == old(self).tree.parents@.push(Some(parent)),
            final(self).pending_chapter == old(self).pending_chapter,
            final(self).pending_verse == old(self).pending_verse,
            final(self).pending_milestone == old(self).pending_milestone,
            final(self).pending_usfm == old(self).pending_usfm,
    {
        self.push_regular_node(kind, s, e, parent, Ghost(-1));
    }

    /// Adds the leaf `s..e` where the next leaf goes.
    fn append_leaf(&mut self, kind: CstKind, s: usize, e: usize)
        requires
            old(self).ready(),
            s == old(self).pos@,
            s < e <= old(self).total@,
            is_leaf_kind(kind),
        ensures
            kept_parents(old(self).tree.parents@, final(self).tree.parents@),
            old(self).tree.kinds@.is_prefix_of(final(self).tree.kinds@),
            final(self).tree.kinds@ == old(self).tree.kinds@.push(kind),
            final(self).tree.parents@ == old(self).tree.parents@.push(Some(token_parent(*old(self)))),
            final(self).ready(),
            final(self).pos@ == e,
            final(self).total == old(self).total,
            final(self).stack@ == old(self).stack@,
            final(self).pending_chapter == old(self).pending_chapter,
            final(self).pending_verse == old(self).pending_verse,
            final(self).pending_milestone == old(self).pending_milestone,
            final(self).pending_usfm == old(self).pending_usfm,
    {
        let parent = self.current_token_parent();
        self.append_leaf_to(kind, s, e, parent);
    }

    fn flush_pending_chapter(&mut self)
        requires
            old(self).ready(),
        ensures
            kept_parents(old(self).tree.parents@, final(self).tree.parents@),
            final(self).ready(),
            final(self).pending_chapter is None,
            final(self).pos == old(self).pos,
            final(self).total == old(self).total,
            final(self).pending_verse == old(self).pending_verse,
            final(self).pending_milestone == old(self).pending_milestone,
            final(self).pending_usfm == old(self).pending_usfm,
            final(self).stack@ == old(self).stack@,
            final(self).tree.kinds@ == old(self).tree.kinds@,
            final(self).tree.parents@ == old(self).tree.parents@,
    {
        match self.pending_chapter {
            Some(id) => {
                self.pending_chapter = None;
                self.refresh_span(id);
            },
            None => {},
        }
    }

    fn flush_pending_verse(&mut self)
        requires
            old(self).ready(),
        ensures
            kept_parents(old(self).tree.parents@, final(self).tree.parents@),
            final(self).ready(),
            final(self).pending_verse is None,
            final(self).pos == old(self).pos,
            final(self).total == old(self).total,
            final(self).pending_chapter == old(self).pending_chapter,
            final(self).pending_milestone == old(self).pending_milestone,
            final(self).pending_usfm == old(self).pending_usfm,
            final(self).stack@ == old(self).stack@,
            final(self).tree.kinds@ == old(self).tree.kinds@,
            final(self).tree.parents@ == old(self).tree.parents@,
    {
        match self.pending_verse {
            Some(id) => {
                self.pending_verse = None;
                self.refresh_span(id);
            },
            None => {},
        }
    }

    fn flush_pending_milestone(&mut self)
        requires
            old(self).ready(),
        ensures
            kept_parents(old(self).tree.parents@, final(self).tree.parents@),
            final(self).ready(),
            final(self).pending_milestone is None,
            final(self).pos == old(self).pos,
            final(self).total == old(self).total,
            final(self).pending_chapter == old(self).pending_chapter,
            final(self).pending_verse == old(self).pending_verse,
            final(self).pending_usfm == old(self).pending_usfm,
            final(self).stack@ == old(self).stack@,
            final(self).tree.kinds@ == old(self).tree.kinds@,
            final(self).tree.parents@ == old(self).tree.parents@,
    {
        match self.pending_milestone {
            Some(id) => {
                self.pending_milestone = None;
                self.refresh_span(id);
            },
            None => {},
        }
    }

    /// Closes every open node.
    fn close_all(&mut self)
        requires
            old(self).ready(),
        ensures
            kept_parents(old(self).tree.parents@, final(self).tree.parents@),
            final(self).ready(),
            final(self).same_ctx(old(self)),
            final(self).tree.kinds@ == old(self).tree.kinds@,
            final(self).tree.parents@ == old(self).tree.parents@,
            final(self).stack@.len() == 0,
    {
        while self.stack.len() > 0
            invariant
                kept_parents(old(self).tree.parents@, self.tree.parents@),
                self.ready(),
                self.same_ctx(old(self)),
                self.tree.kinds@ == old(self).tree.kinds@,
                self.tree.parents@ == old(self).tree.parents@,
            decreases self.stack@.len(),
        {
            self.close_top();
        }
    }

    /// Whether the innermost open node has kind `a`, `b` or `c`.
    fn top_is(&self, a: MarkerKind, b: MarkerKind, c: MarkerKind) -> (r: bool)
        ensures
            r == (self.stack@.len() > 0 && (self.stack@.last().kind == a || self.stack@.last().kind
                == b || self.stack@.last().kind == c)),
    {
        match self.stack.last() {
            Some(open) => open.kind == a || open.kind == b || open.kind == c,
            None => false,
        }
    }

    /// Closes open nodes while the innermost one has kind `a`, `b` or `c`;
    /// tells whether it closed any.
    fn close_while_top(&mut self, a: MarkerKind, b: MarkerKind, c: MarkerKind) -> (closed_any: bool)
        requires
            old(self).ready(),
        ensures
            kept_parents(old(self).tree.parents@, final(self).tree.parents@),
            final(self).ready(),
            final(self).same_ctx(old(self)),
            final(self).tree.kinds@ == old(self).tree.kinds@,
            final(self).tree.parents@ == old(self).tree.parents@,
            final(self).stack@ == pop_kinds(old(self).stack@, a, b, c),
            closed_any == (final(self).stack@.len() < old(self).stack@.len()),
    {
        let mut closed_any = false;
        while self.top_is(a, b, c)
            invariant
                kept_parents(old(self).tree.parents@, self.tree.parents@),
                self.ready(),
                self.same_ctx(old(self)),
                self.tree.kinds@ == old(self).tree.kinds@,
                self.tree.parents@ == old(self).tree.parents@,
                self.stack@.len() <= old(self).stack@.len(),
                pop_kinds(self.stack@, a, b, c) == pop_kinds(old(self).stack@, a, b, c),
                closed_any == (self.stack@.len() < old(self).stack@.len()),
            decreases self.stack@.len(),
        {
            self.close_top();
            closed_any = true;
        }
        closed_any
    }

    fn close_table_cell_in_row(&mut self)
        requires
            old(self).ready(),
        ensures
            kept_parents(old(self).tree.parents@, final(self).tree.parents@),
            final(self).ready(),
            final(self).same_ctx(old(self)),
            final(self).tree.kinds@ == old(self).tree.kinds@,
            final(self).tree.parents@ == old(self).tree.parents@,
            final(self).stack@ == pop_kinds(
                old(self).stack@,
                MarkerKind::TableCell,
                MarkerKind::TableCell,
                MarkerKind::TableCell,
            ),
    {
        self.close_while_top(MarkerKind::TableCell, MarkerKind::TableCell, MarkerKind::TableCell);
    }

    fn close_table_row(&mut self)
        requires
            old(self).ready(),
        ensures
            kept_parents(old(self).tree.parents@, final(self).tree.parents@),
            final(self).ready(),
            final(self).same_ctx(old(self)),
            final(self).tree.kinds@ == old(self).tree.kinds@,
            final(self).tree.parents@ == old(self).tree.parents@,
            final(self).stack@ == pop_if(old(self).stack@, MarkerKind::TableRow),
    {
        if self.top_is(MarkerKind::TableRow, MarkerKind::TableRow, MarkerKind::TableRow) {
            self.close_top();
        }
    }

    fn close_table_context(&mut self)
        requires
            old(self).ready(),
        ensures
            kept_parents(old(self).tree.parents@, final(self).tree.parents@),
            final(self).ready(),
            final(self).same_ctx(old(self)),
            final(self).tree.kinds@ == old(self).tree.kinds@,
            final(self).tree.parents@ == old(self).tree.parents@,
            final(self).stack@ == table_closed(old(self).stack@),
    {
        self.close_table_cell_in_row();
        self.close_table_row();
    }

    fn close_block_context(&mut self)
        requires
            old(self).ready(),
        ensures
            kept_parents(old(self).tree.parents@, final(self).tree.parents@),
            final(self).ready(),
            final(self).same_ctx(old(self)),
            final(self).tree.kinds@ == old(self).tree.kinds@,
            final(self).tree.parents@ == old(self).tree.parents@,
            final(self).stack@ == block_closed(old(self).stack@),
    {
        self.force_close_notes();
        self.close_table_context();
        self.close_paragraph();
    }

    /// Closes inline nodes up to the innermost paragraph, and that
    /// paragraph.
    fn close_paragraph(&mut self)
        requires
            old(self).ready(),
        ensures
            kept_parents(old(self).tree.parents@, final(self).tree.parents@),
            final(self).ready(),
            final(self).same_ctx(old(self)),
            final(self).tree.kinds@ == old(self).tree.kinds@,
            final(self).tree.parents@ == old(self).tree.parents@,
            final(self).stack@ == paragraph_closed(old(self).stack@),
    {
        loop
            invariant_except_break
                pop_kinds(self.stack@, MarkerKind::Character, MarkerKind::Unknown, MarkerKind::Figure)
                    == pop_kinds(old(self).stack@, MarkerKind::Character, MarkerKind::Unknown, MarkerKind::Figure),
            invariant
                kept_parents(old(self).tree.parents@, self.tree.parents@),
                self.ready(),
                self.same_ctx(old(self)),
                self.tree.kinds@ == old(self).tree.kinds@,
                self.tree.parents@ == old(self).tree.parents@,
            ensures
                self.ready(),
                self.same_ctx(old(self)),
                self.tree.kinds@ == old(self).tree.kinds@,
                self.tree.parents@ == old(self).tree.parents@,
                self.stack@ == paragraph_closed(old(self).stack@),
            decreases self.stack@.len(),
        {
            if self.top_is(MarkerKind::Character, MarkerKind::Unknown, MarkerKind::Figure) {
                self.close_top();
            } else if self.top_is(MarkerKind::Paragraph, MarkerKind::Header, MarkerKind::Meta) {
                self.close_top();
                break;
            } else {
                break;
            }
        }
    }

    /// Index of the innermost open node of kind `k`.
    fn rposition_kind(&self, k: MarkerKind) -> (r: Option<usize>)
        ensures
            r matches Some(i) ==> i < self.stack@.len() && self.stack@[i as int].kind == k && forall|
                j: int,
            | i < j < self.stack@.len() ==> self.stack@[j].kind != k,
            r is None ==> forall|j: int| 0 <= j < self.stack@.len() ==> self.stack@[j].kind != k,
    {
        let mut i = self.stack.len();
        while i > 0
            invariant
                i <= self.stack@.len(),
                forall|j: int| i <= j < self.stack@.len() ==> self.stack@[j].kind != k,
            decreases i,
        {
            if self.stack[i - 1].kind == k {
                return Some(i - 1);
            }
            i -= 1;
        }
        None
    }

    /// Closes every open note, with whatever is open inside it.
    fn force_close_notes(&mut self)
        requires
            old(self).ready(),
        ensures
            kept_parents(old(self).tree.parents@, final(self).tree.parents@),
            final(self).ready(),
            final(self).same_ctx(old(self)),
            final(self).tree.kinds@ == old(self).tree.kinds@,
            final(self).tree.parents@ == old(self).tree.parents@,
            final(self).stack@ == notes_closed(old(self).stack@),
    {
        loop
            invariant
                kept_parents(old(self).tree.parents@, self.tree.parents@),
                self.ready(),
                self.same_ctx(old(self)),
                self.tree.kinds@ == old(self).tree.kinds@,
                self.tree.parents@ == old(self).tree.parents@,
                notes_closed(self.stack@) == notes_closed(old(self).stack@),
            ensures
                self.ready(),
                self.same_ctx(old(self)),
                self.tree.kinds@ == old(self).tree.kinds@,
                self.tree.parents@ == old(self).tree.parents@,
                self.stack@ == notes_closed(old(self).stack@),
            decreases self.stack@.len(),
        {
            let idx = match self.rposition_kind(MarkerKind::Note) {
                Some(i) => i,
                None => {
                    proof {
                        lemma_notes_closed_none(self.stack@);
                    }
                    break;
                },
            };
            let ghost st0 = self.stack@;
            proof {
                lemma_notes_closed_to(st0, idx as int);
            }
            while self.stack.len() > idx + 1
                invariant
                    kept_parents(old(self).tree.parents@, self.tree.parents@),
                    self.ready(),
                    self.same_ctx(old(self)),
                    self.tree.kinds@ == old(self).tree.kinds@,
                    self.tree.parents@ == old(self).tree.parents@,
                    idx < self.stack@.len() <= st0.len(),
                    self.stack@ == st0.subrange(0, self.stack@.len() as int),
                decreases self.stack@.len(),
            {
                self.close_top();
            }
            self.close_top();
            assert(self.stack@ =~= st0.subrange(0, idx as int));
        }
    }

    /// Whether a note is open.
    fn in_note_context(&self) -> (r: bool)
        ensures
            r == has_kind(self.stack@, MarkerKind::Note),
    {
        let mut i = self.stack.len();
        while i > 0
            invariant
                i <= self.stack@.len(),
                forall|j: int| i <= j < self.stack@.len() ==> self.stack@[j].kind != MarkerKind::Note,
            decreases i,
        {
            if self.stack[i - 1].kind == MarkerKind::Note {
                return true;
            }
            i -= 1;
        }
        false
    }

    /// Whether a note or a sidebar is open.
    fn in_note_or_sidebar_context(&self) -> (r: bool)
        ensures
            r == (has_kind(self.stack@, MarkerKind::Note) || has_kind(self.stack@, MarkerKind::SidebarStart)),
    {
        let mut i = self.stack.len();
        while i > 0
            invariant
                i <= self.stack@.len(),
                forall|j: int|
                    i <= j < self.stack@.len() ==> self.stack@[j].kind != MarkerKind::Note && self.stack@[j].kind
                        != MarkerKind::SidebarStart,
            decreases i,
        {
            let k = self.stack[i - 1].kind;
            if k == MarkerKind::Note || k == MarkerKind::SidebarStart {
                return true;
            }
            i -= 1;
        }
        false
    }

    /// Whether a paragraph is open.
    fn has_open_paragraph(&self) -> (r: bool)
        ensures
            r == has_kind(self.stack@, MarkerKind::Paragraph),
    {
        let mut i: usize = 0;
        while i < self.stack.len()
            invariant
                i <= self.stack@.len(),
                forall|j: int| 0 <= j < i ==> self.stack@[j].kind != MarkerKind::Paragraph,
            decreases self.stack@.len() - i,
        {
            if self.stack[i].kind == MarkerKind::Paragraph {
                return true;
            }
            i += 1;
        }
        false
    }

    /// Whether `incoming` belongs to the family of the innermost open note:
    /// `\f`, `\fe` and `\ef` take `f…` markers, `\x` and `\ex` take `x…`
    /// markers, other notes the markers with their own first letter.
    fn is_same_note_family(&self, incoming: &str) -> (r: bool)
        ensures
            r == (forall|i: int|
                #[trigger] innermost_kind(self.stack@, i, MarkerKind::Note) ==> same_family(
                    self.stack@[i].marker@,
                    incoming@,
                )),
    {
        let pos = self.rposition_kind(MarkerKind::Note);
        proof {
            match pos {
                Some(i) => {
                    assert forall|i2: int| #[trigger] innermost_kind(self.stack@, i2, MarkerKind::Note) implies i2
                        == i by {
                        if i2 < i {
                            assert(self.stack@[i as int].kind == MarkerKind::Note);
                        } else if i < i2 {
                            assert(self.stack@[i2].kind == MarkerKind::Note);
                        }
                    }
                    assert(innermost_kind(self.stack@, i as int, MarkerKind::Note));
                },
                None => {
                    assert forall|i2: int| !(#[trigger] innermost_kind(self.stack@, i2, MarkerKind::Note)) by {
                        if 0 <= i2 < self.stack@.len() {
                            assert(self.stack@[i2].kind != MarkerKind::Note);
                        }
                    }
                },
            }
        }
        let note_family: Option<char> = match pos {
            None => None,
            Some(i) => {
                let m = &self.stack[i].marker;
                if *m == "f" || *m == "fe" || *m == "ef" {
                    Some('f')
                } else if *m == "x" || *m == "ex" {
                    Some('x')
                } else {
                    first_char(m.as_str())
                }
            },
        };
        match (note_family, first_char(incoming)) {
            (Some(expected), Some(found)) => expected == found,
            _ => true,
        }
    }

    /// Index of the innermost open node that a closing marker `name`
    /// closes; note closers only close notes.
    fn find_matching_open(&self, name: &MarkerName) -> (r: Option<usize>)
        ensures
            r matches Some(i) ==> i < self.stack@.len() && closes(self.stack@[i as int], name@) && forall|j: int|
                i < j < self.stack@.len() ==> !closes(self.stack@[j], name@),
            r is None ==> forall|j: int| 0 <= j < self.stack@.len() ==> !closes(self.stack@[j], name@),
    {
        let is_note_close = *name == "f" || *name == "fe" || *name == "x" || *name == "ef"
            || *name == "ex";
        let mut i = self.stack.len();
        while i > 0
            invariant
                i <= self.stack@.len(),
                forall|j: int| i <= j < self.stack@.len() ==> !closes(self.stack@[j], name@),
                is_note_close == (name@ == "f"@ || name@ == "fe"@ || name@ == "x"@ || name@ == "ef"@ || name@
                    == "ex"@),
            decreases i,
        {
            let open = &self.stack[i - 1];
            let same = crate::text::str_eq(open.marker.as_str(), name.as_str());
            let hit = if is_note_close {
                open.kind == MarkerKind::Note && same
            } else {
                same
            };
            if hit {
                return Some(i - 1);
            }
            i -= 1;
        }
        None
    }

    /// The parser is positioned at the token `s..e` of `src`.
    spec fn at_token(&self, src: Seq<char>, s: int, e: int) -> bool {
        &&& self.ready()
        &&& s == self.pos@
        &&& s < e <= self.total@
        &&& self.total@ == src.len()
    }

    /// The parser has consumed everything up to `e`.
    spec fn done_to(&self, old: &Self, e: int) -> bool {
        &&& self.ready()
        &&& self.pos@ == e
        &&& self.total == old.total
    }

    /// Takes the innermost open node off the stack, leaving its span as
    /// it is.
    fn pop_open(&mut self) -> (r: OpenNode)
        requires
            old(self).ready(),
            old(self).stack@.len() > 0,
        ensures
            kept_parents(old(self).tree.parents@, final(self).tree.parents@),
            final(self).ready(),
            final(self).same_ctx(old(self)),
            final(self).tree.kinds@ == old(self).tree.kinds@,
            final(self).tree.parents@ == old(self).tree.parents@,
            final(self).nonleaf(r.id as int),
            final(self).stack@ == old(self).stack@.drop_last(),
            r == old(self).stack@.last(),
    {
        assert(self.nonleaf(self.stack@[self.stack@.len() - 1].id as int));
        let open = self.stack.pop().unwrap();
        assert forall|j: int| 0 <= j < self.stack@.len() implies self.nonleaf(
            #[trigger] self.stack@[j].id as int,
        ) by {
            assert(self.stack@[j] == old(self).stack@[j]);
            assert(old(self).nonleaf(old(self).stack@[j].id as int));
        }
        open
    }

    /// Dispatches one token of the source.
    #[verifier::rlimit(100)]
    #[verifier::spinoff_prover]
    fn handle_token(&mut self, src: &[char], kind: TokenKind, s: usize, e: usize)
        requires
            old(self).at_token(src@, s as int, e as int),
        ensures
            kept_parents(old(self).tree.parents@, final(self).tree.parents@),
            final(self).done_to(old(self), e as int),
            old(self).tree.kinds@.is_prefix_of(final(self).tree.kinds@),
            (kind is Whitespace || kind is Newline) ==> final(self).tree.kinds@ == old(self).tree.kinds@.push(
                if kind is Whitespace {
                    CstKind::WhitespaceToken
                } else {
                    CstKind::NewlineToken
                },
            ) && final(self).tree.parents@ == old(self).tree.parents@.push(Some(token_parent(*old(self))))
                && final(self).stack@ == old(self).stack@,
            kind is Text && old(self).pending_chapter is None && old(self).pending_verse is None
                ==> final(self).tree.kinds@ == old(self).tree.kinds@.push(CstKind::TextToken)
                && final(self).tree.parents@ == old(self).tree.parents@.push(Some(top_id(old(self).stack@)))
                && final(self).stack@ == old(self).stack@,
            kind is Marker && !(marker_info(marker_text(src@, s as int, e as int)).kind is SidebarEnd)
                ==> exists|id: int|
                marker_opened(
                    *old(self),
                    *final(self),
                    marker_info(marker_text(src@, s as int, e as int)).kind,
                    marker_text(src@, s as int, e as int),
                    id,
                ),
            kind is Marker && marker_info(marker_text(src@, s as int, e as int)).kind is Character ==> exists|id: int|
                marker_opened(
                    *old(self),
                    *final(self),
                    MarkerKind::Character,
                    marker_text(src@, s as int, e as int),
                    id,
                ) && char_opened(*old(self), *final(self), id),
            kind is ClosingMarker ==> closed_by(*old(self), *final(self), closer_text(src@, s as int, e as int)),
            (kind is Text || kind is Attributes) ==> final(self).stack@ == old(self).stack@,
            kind is MilestoneEnd ==> final(self).stack@ == old(self).stack@ || (old(self).stack@.len() > 0
                && final(self).stack@ == old(self).stack@.drop_last()),
            kind is Chapter ==> exists|id: int| marker_opened(*old(self), *final(self), MarkerKind::Chapter, "c"@, id),
            kind is Verse ==> exists|id: int| marker_opened(*old(self), *final(self), MarkerKind::Verse, "v"@, id),
            kind is Milestone ==> exists|id: int|
                marker_opened(
                    *old(self),
                    *final(self),
                    MarkerKind::MilestoneStart,
                    marker_text(src@, s as int, e as int),
                    id,
                ),
    {
        if !matches!(
            kind,
            TokenKind::Whitespace | TokenKind::Newline | TokenKind::Attributes | TokenKind::MilestoneEnd
        ) {
            self.flush_pending_milestone();
        }
        match kind {
            TokenKind::Whitespace => {
                self.append_leaf(CstKind::WhitespaceToken, s, e);
            },
            TokenKind::Newline => self.append_leaf(CstKind::NewlineToken, s, e),
            TokenKind::Attributes => {
                self.handle_attributes(s, e);
            },
            TokenKind::Text => {
                self.handle_text(src, s, e);
            },
            TokenKind::Chapter => {
                let ghost mid = *self;
                self.handle_chapter(s, e);
                proof {
                    let id = choose|id: int| marker_opened(mid, *self, MarkerKind::Chapter, "c"@, id);
                    assert(marker_opened(*old(self), *self, MarkerKind::Chapter, "c"@, id));
                }
            },
            TokenKind::Verse => {
                let ghost mid = *self;
                self.handle_verse(s, e);
                proof {
                    let id = choose|id: int| marker_opened(mid, *self, MarkerKind::Verse, "v"@, id);
                    assert(marker_opened(*old(self), *self, MarkerKind::Verse, "v"@, id));
                }
            },
            TokenKind::Milestone => {
                let ghost mid = *self;
                self.handle_milestone(src, s, e);
                proof {
                    let id = choose|id: int| marker_opened(mid, *self, MarkerKind::MilestoneStart, marker_text(src@, s as int, e as int), id);
                    assert(marker_opened(*old(self), *self, MarkerKind::MilestoneStart, marker_text(src@, s as int, e as int), id));
                }
            },
            TokenKind::NestedMarker => self.handle_nested_open(src, s, e),
            TokenKind::NestedClosingMarker => {
                let text = token_text(src, s, e);
                let normalized = MarkerName::parse(trim_plus(strip_closing_star(text.as_str())));
                self.handle_close(s, e, true, normalized);
            },
            TokenKind::ClosingMarker => {
                let text = token_text(src, s, e);
                let normalized = MarkerName::parse(strip_closing_star(text.as_str()));
                let ghost nm = normalized@;
                assert(nm == closer_text(src@, s as int, e as int));
                let ghost mid = *self;
                self.handle_close(s, e, false, normalized);
                proof {
                    assert(self.tree.kinds@.drop_last() =~= mid.tree.kinds@);
                    assert(mid.stack@ == old(self).stack@);
                    assert(mid.tree.parents@ == old(self).tree.parents@);
                    assert(token_parent(mid) == text_parent(*old(self)));
                    assert(closed_by(*old(self), *self, nm));
                }
            },
            TokenKind::Marker => {
                let ghost mid = *self;
                self.handle_marker(src, s, e);
                proof {
                    let nm = marker_text(src@, s as int, e as int);
                    let mk = marker_info(nm).kind;
                    if !(mk is SidebarEnd) {
                        let id = choose|id: int| marker_opened(mid, *self, mk, nm, id);
                        assert(marker_opened(*old(self), *self, mk, nm, id));
                    }
                    if mk is Character {
                        let id = choose|id: int|
                            marker_opened(mid, *self, MarkerKind::Character, nm, id) && char_opened(mid, *self, id);
                        assert(marker_opened(*old(self), *self, MarkerKind::Character, nm, id));
                        assert(char_opened(*old(self), *self, id));
                    }
                }
            },
            TokenKind::MilestoneEnd => self.handle_milestone_end(s, e),
        }
    }

    fn handle_attributes(&mut self, s: usize, e: usize)
        requires
            old(self).ready(),
            s == old(self).pos@,
            s < e <= old(self).total@,
        ensures
            final(self).stack@ == old(self).stack@,
            kept_parents(old(self).tree.parents@, final(self).tree.parents@),
            final(self).done_to(old(self), e as int),
            old(self).tree.kinds@.is_prefix_of(final(self).tree.kinds@),
    {
        match self.pending_milestone {
            Some(milestone_id) => self.append_leaf_to(CstKind::AttributesToken, s, e, milestone_id),
            None => self.append_leaf(CstKind::AttributesToken, s, e),
        }
    }

    /// Text after `\c` or `\v`: its first word is the number, which goes
    /// into the pending node; the rest follows as whitespace and text.
    fn handle_text(&mut self, src: &[char], s: usize, e: usize)
        requires
            old(self).at_token(src@, s as int, e as int),
        ensures
            final(self).stack@ == old(self).stack@,
            kept_parents(old(self).tree.parents@, final(self).tree.parents@),
            final(self).done_to(old(self), e as int),
            old(self).tree.kinds@.is_prefix_of(final(self).tree.kinds@),
            old(self).pending_chapter is None && old(self).pending_verse is None ==> final(self).tree.kinds@ == old(
                self,
            ).tree.kinds@.push(CstKind::TextToken) && final(self).tree.parents@ == old(self).tree.parents@.push(
                Some(token_parent(*old(self))),
            ) && final(self).stack@ == old(self).stack@,
    {
        if self.pending_usfm {
            self.pending_usfm = false;
        }
        match self.pending_chapter {
            Some(chapter_id) => {
                self.pending_chapter = None;
                self.append_number(src, s, e, chapter_id);
                return;
            },
            None => {},
        }
        match self.pending_verse {
            Some(verse_id) => {
                self.pending_verse = None;
                self.append_number(src, s, e, verse_id);
                return;
            },
            None => {},
        }
        self.append_leaf(CstKind::TextToken, s, e);
    }

    fn append_number(&mut self, src: &[char], s: usize, e: usize, target: usize)
        requires
            old(self).at_token(src@, s as int, e as int),
            old(self).nonleaf(target as int),
        ensures
            final(self).stack@ == old(self).stack@,
            kept_parents(old(self).tree.parents@, final(self).tree.parents@),
            final(self).done_to(old(self), e as int),
            old(self).tree.kinds@.is_prefix_of(final(self).tree.kinds@),
    {
        let split = first_ws_index(src, s, e);
        if split > s {
            self.append_leaf_to(CstKind::TextToken, s, split, target);
        }
        self.refresh_span(target);
        if split < e {
            self.append_rest_tokens(src, split, e);
        }
    }

    /// After splitting a verse/chapter number from text, emit the remainder:
    /// leading whitespace as a `WhitespaceToken`, then any remaining content
    /// as a `TextToken`.  This keeps trivia distinct from text content.
    fn append_rest_tokens(&mut self, src: &[char], rest_start: usize, end: usize)
        requires
            old(self).at_token(src@, rest_start as int, end as int),
        ensures
            final(self).stack@ == old(self).stack@,
            kept_parents(old(self).tree.parents@, final(self).tree.parents@),
            final(self).done_to(old(self), end as int),
            old(self).tree.kinds@.is_prefix_of(final(self).tree.kinds@),
    {
        let mut ws_end = rest_start;
        while ws_end < end && is_ws_exec(src[ws_end])
            invariant
                kept_parents(old(self).tree.parents@, self.tree.parents@),
                rest_start <= ws_end <= end <= src@.len(),
            decreases end - ws_end,
        {
            ws_end += 1;
        }
        if ws_end > rest_start {
            self.append_leaf(CstKind::WhitespaceToken, rest_start, ws_end);
        }
        if ws_end < end {
            self.append_leaf(CstKind::TextToken, ws_end, end);
        }
    }

    fn handle_chapter(&mut self, s: usize, e: usize)
        requires
            old(self).ready(),
            s == old(self).pos@,
            s < e <= old(self).total@,
        ensures
            kept_parents(old(self).tree.parents@, final(self).tree.parents@),
            final(self).done_to(old(self), e as int),
            old(self).tree.kinds@.is_prefix_of(final(self).tree.kinds@),
            exists|id: int| marker_opened(*old(self), *final(self), MarkerKind::Chapter, "c"@, id),
    {
        self.flush_pending_chapter();
        self.flush_pending_verse();
        self.close_block_context();
        let name = MarkerName::parse("c");
        let id = self.open_node(
            CstKind::Chapter { marker: name.clone() },
            None,
            s,
            e,
            CstKind::MarkerToken { normalized: name, token_kind: MarkerTokenKind::Chapter },
        );
        self.pending_chapter = Some(id);
        proof {
            reveal_strlit("c");
            assert(marker_opened(*old(self), *self, MarkerKind::Chapter, "c"@, id as int));
        }
    }

    fn handle_verse(&mut self, s: usize, e: usize)
        requires
            old(self).ready(),
            s == old(self).pos@,
            s < e <= old(self).total@,
        ensures
            kept_parents(old(self).tree.parents@, final(self).tree.parents@),
            final(self).done_to(old(self), e as int),
            old(self).tree.kinds@.is_prefix_of(final(self).tree.kinds@),
            exists|id: int| marker_opened(*old(self), *final(self), MarkerKind::Verse, "v"@, id),
    {
        self.flush_pending_verse();
        self.close_while_top(MarkerKind::Meta, MarkerKind::Meta, MarkerKind::Meta);
        let name = MarkerName::parse("v");
        let id = self.open_node(
            CstKind::Verse { marker: name.clone() },
            None,
            s,
            e,
            CstKind::MarkerToken { normalized: name, token_kind: MarkerTokenKind::Verse },
        );
        self.pending_verse = Some(id);
        proof {
            assert(marker_opened(*old(self), *self, MarkerKind::Verse, "v"@, id as int));
        }
    }

    fn handle_milestone(&mut self, src: &[char], s: usize, e: usize)
        requires
            old(self).at_token(src@, s as int, e as int),
        ensures
            kept_parents(old(self).tree.parents@, final(self).tree.parents@),
            final(self).done_to(old(self), e as int),
            old(self).tree.kinds@.is_prefix_of(final(self).tree.kinds@),
            exists|id: int|
                marker_opened(*old(self), *final(self), MarkerKind::MilestoneStart, marker_text(src@, s as int, e as int), id),
    {
        self.flush_pending_milestone();
        let text = token_text(src, s, e);
        let normalized = MarkerName::parse(strip_marker_backslash(text.as_str()));
        let id = self.open_node(
            CstKind::Milestone { marker: normalized.clone() },
            None,
            s,
            e,
            CstKind::MarkerToken { normalized, token_kind: MarkerTokenKind::Milestone },
        );
        self.pending_milestone = Some(id);
        proof {
            assert(marker_opened(
                *old(self),
                *self,
                MarkerKind::MilestoneStart,
                marker_text(src@, s as int, e as int),
                id as int,
            ));
        }
    }

    fn handle_nested_open(&mut self, src: &[char], s: usize, e: usize)
        requires
            old(self).at_token(src@, s as int, e as int),
        ensures
            kept_parents(old(self).tree.parents@, final(self).tree.parents@),
            final(self).done_to(old(self), e as int),
            old(self).tree.kinds@.is_prefix_of(final(self).tree.kinds@),
    {
        let text = token_text(src, s, e);
        let normalized = MarkerName::parse(trim_plus(strip_marker_backslash(text.as_str())));
        let kind = kind_from_name(&normalized);
        let entry = stack_entry(&kind);
        self.open_node(
            kind,
            entry,
            s,
            e,
            CstKind::MarkerToken { normalized, token_kind: MarkerTokenKind::Nested },
        );
    }

    /// A closing marker closes the innermost node it matches, with what is
    /// open inside that node; with no match it stays a stray leaf.
    fn handle_close(&mut self, s: usize, e: usize, nested: bool, normalized: MarkerName)
        requires
            old(self).ready(),
            s == old(self).pos@,
            s < e <= old(self).total@,
        ensures
            kept_parents(old(self).tree.parents@, final(self).tree.parents@),
            final(self).done_to(old(self), e as int),
            old(self).tree.kinds@.is_prefix_of(final(self).tree.kinds@),
            final(self).tree.kinds@ == old(self).tree.kinds@.push(
                CstKind::ClosingMarkerToken {
                    normalized,
                    token_kind: if nested {
                        ClosingTokenKind::Nested
                    } else {
                        ClosingTokenKind::Regular
                    },
                },
            ),
            forall|i: int|
                #[trigger] closer_index(old(self).stack@, normalized@, i) ==> final(self).stack@ == old(
                    self,
                ).stack@.subrange(0, i) && final(self).tree.parents@ == old(self).tree.parents@.push(
                    Some(old(self).stack@[i].id),
                ),
            (forall|j: int| 0 <= j < old(self).stack@.len() ==> !closes(old(self).stack@[j], normalized@))
                ==> final(self).stack@ == old(self).stack@ && final(self).tree.parents@
                == old(self).tree.parents@.push(Some(token_parent(*old(self)))),
    {
        let token_kind = if nested {
            ClosingTokenKind::Nested
        } else {
            ClosingTokenKind::Regular
        };
        match self.find_matching_open(&normalized) {
            Some(idx) => {
                while self.stack.len() > idx + 1
                    invariant
                        kept_parents(old(self).tree.parents@, self.tree.parents@),
                        self.ready(),
                        self.same_ctx(old(self)),
                        idx < self.stack@.len() <= old(self).stack@.len(),
                        self.stack@ == old(self).stack@.subrange(0, self.stack@.len() as int),
                        self.tree.kinds@ == old(self).tree.kinds@,
                        self.tree.parents@ == old(self).tree.parents@,
                    decreases self.stack@.len(),
                {
                    self.close_top();
                }
                let open = self.pop_open();
                proof {
                    assert forall|i: int| #[trigger] closer_index(old(self).stack@, normalized@, i) implies i
                        == idx by {
                        if i < idx {
                            assert(closes(old(self).stack@[idx as int], normalized@));
                        } else if idx < i {
                            assert(closes(old(self).stack@[i], normalized@));
                        }
                    }
                    assert(self.stack@ =~= old(self).stack@.subrange(0, idx as int));
                }
                self.append_leaf_to(
                    CstKind::ClosingMarkerToken { normalized, token_kind },
                    s,
                    e,
                    open.id,
                );
                self.refresh_span(open.id);
            },
            None => {
                self.append_leaf(CstKind::ClosingMarkerToken { normalized, token_kind }, s, e);
            },
        }
    }

    /// `\esbe` closes the innermost open sidebar.
    fn close_sidebar(&mut self, s: usize, e: usize, normalized: MarkerName)
        requires
            old(self).ready(),
            s == old(self).pos@,
            s < e <= old(self).total@,
        ensures
            kept_parents(old(self).tree.parents@, final(self).tree.parents@),
            final(self).done_to(old(self), e as int),
            old(self).tree.kinds@.is_prefix_of(final(self).tree.kinds@),
    {
        let leaf = CstKind::MarkerToken { normalized, token_kind: MarkerTokenKind::Regular };
        match self.rposition_kind(MarkerKind::SidebarStart) {
            Some(idx) => {
                while self.stack.len() > idx + 1
                    invariant
                        kept_parents(old(self).tree.parents@, self.tree.parents@),
                        self.ready(),
                        self.same_ctx(old(self)),
                        idx < self.stack@.len(),
                        self.tree.kinds@ == old(self).tree.kinds@,
                    decreases self.stack@.len(),
                {
                    self.close_top();
                }
                let sidebar = self.pop_open();
                self.append_leaf_to(leaf, s, e, sidebar.id);
                self.refresh_span(sidebar.id);
            },
            None => {
                self.append_leaf(leaf, s, e);
            },
        }
    }

    /// Whether node `id` has a child other than markers, attributes and
    /// whitespace.
    fn has_content(&self, id: usize) -> (r: bool)
        requires
            self.ready(),
            id < self.len(),
        ensures
            r == (match self.tree.firsts@[id as int] {
                Some(f) => chain_has_content(self.tree, f as int),
                None => false,
            }),
    {
        assert(self.good(id as int, -1));
        let mut current = match self.tree.firsts[id] {
            Some(f) => f,
            None => return false,
        };
        let ghost first: usize = current;
        loop
            invariant
                self.ready(),
                current < self.len(),
                self.tree.firsts@[id as int] == Some(first),
                chain_has_content(self.tree, first as int) == chain_has_content(self.tree, current as int),
            decreases self.len() - current,
        {
            if !matches!(
                self.tree.kinds[current],
                CstKind::MarkerToken { .. } | CstKind::WhitespaceToken | CstKind::NewlineToken
                    | CstKind::AttributesToken
            ) {
                assert(!is_trivia_kind(self.tree.kinds@[current as int]));
                return true;
            }
            assert(is_trivia_kind(self.tree.kinds@[current as int]));
            assert(self.good(current as int, -1));
            current = match self.tree.nexts[current] {
                Some(n) => n,
                None => return false,
            };
        }
    }

    fn handle_milestone_end(&mut self, s: usize, e: usize)
        requires
            old(self).ready(),
            s == old(self).pos@,
            s < e <= old(self).total@,
        ensures
            final(self).stack@ == old(self).stack@ || (old(self).stack@.len() > 0 && final(self).stack@ == old(
                self,
            ).stack@.drop_last()),
            kept_parents(old(self).tree.parents@, final(self).tree.parents@),
            final(self).done_to(old(self), e as int),
            old(self).tree.kinds@.is_prefix_of(final(self).tree.kinds@),
    {
        match self.pending_milestone {
            Some(id) => {
                self.pending_milestone = None;
                self.append_leaf_to(CstKind::MilestoneEndToken, s, e, id);
                self.refresh_span(id);
                return;
            },
            None => {},
        }
        // `\zms\*`: an unknown or character marker with no content is
        // closed by the milestone end.
        if self.top_is(MarkerKind::Unknown, MarkerKind::Character, MarkerKind::Character) {
            let top_id = self.stack[self.stack.len() - 1].id;
            assert(self.nonleaf(self.stack@[self.stack@.len() - 1].id as int));
            if !self.has_content(top_id) {
                self.append_leaf_to(CstKind::MilestoneEndToken, s, e, top_id);
                let open = self.pop_open();
                self.refresh_span(open.id);
                return;
            }
        }
        self.append_leaf(CstKind::MilestoneEndToken, s, e);
    }

    /// Opens a character node for marker `name`: in a note, a marker of
    /// the note's family first closes the open character nodes.
    #[verifier::rlimit(100)]
    #[verifier::spinoff_prover]
    fn open_character(&mut self, name: &MarkerName, valid_in_note: bool, s: usize, e: usize) -> (id: usize)
        requires
            old(self).ready(),
            s == old(self).pos@,
            s < e <= old(self).total@,
            marker_info(name@).kind is Character,
        ensures
            kept_parents(old(self).tree.parents@, final(self).tree.parents@),
            final(self).done_to(old(self), e as int),
            old(self).tree.kinds@.is_prefix_of(final(self).tree.kinds@),
            marker_opened(*old(self), *final(self), MarkerKind::Character, name@, id as int),
            char_opened(*old(self), *final(self), id as int),
    {
        let clean_name = MarkerName::parse(trim_plus(name.as_str()));
        let closed_sibling = if self.in_note_context() && valid_in_note && self.is_same_note_family(
            clean_name.as_str(),
        ) && !(clean_name == "fv") {
            self.close_while_top(MarkerKind::Character, MarkerKind::Unknown, MarkerKind::TableCell)
        } else {
            false
        };
        let from_name = kind_from_name(&clean_name);
        let entry = stack_entry(&from_name);
        let kind = if clean_name == "ref" {
            CstKind::Ref
        } else {
            from_name
        };
        let ghost st1 = self.stack@;
        assert(st1 == old(self).stack@ || st1 == pop_kinds(
            old(self).stack@,
            MarkerKind::Character,
            MarkerKind::Unknown,
            MarkerKind::TableCell,
        ));
        let id = self.open_node(
            kind,
            entry,
            s,
            e,
            CstKind::MarkerToken { normalized: clean_name, token_kind: MarkerTokenKind::Regular },
        );
        assert(self.stack@.drop_last() =~= st1);
        if closed_sibling {
            self.refresh_span(id);
        }
        id
    }

    /// Opens a structural node for a marker, with the closing of open nodes
    /// that its kind implies.
    #[verifier::rlimit(100)]
    fn handle_marker(&mut self, src: &[char], s: usize, e: usize)
        requires
            old(self).at_token(src@, s as int, e as int),
        ensures
            kept_parents(old(self).tree.parents@, final(self).tree.parents@),
            marker_info(marker_text(src@, s as int, e as int)).kind is Character ==> exists|id: int|
                marker_opened(
                    *old(self),
                    *final(self),
                    MarkerKind::Character,
                    marker_text(src@, s as int, e as int),
                    id,
                ) && char_opened(*old(self), *final(self), id),
            final(self).done_to(old(self), e as int),
            old(self).tree.kinds@.is_prefix_of(final(self).tree.kinds@),
            !(marker_info(marker_text(src@, s as int, e as int)).kind is SidebarEnd) ==> exists|id: int|
                marker_opened(
                    *old(self),
                    *final(self),
                    marker_info(marker_text(src@, s as int, e as int)).kind,
                    marker_text(src@, s as int, e as int),
                    id,
                ),
    {
        let text = token_text(src, s, e);
        let name = MarkerName::parse(strip_marker_backslash(text.as_str()));
        let ghost name_v = name@;
        assert(name_v == marker_text(src@, s as int, e as int));
        if name == "usfm" {
            self.pending_usfm = true;
        }
        let info_kind = name.kind();
        let valid_in_note = name.valid_in_note();
        if matches!(
            info_kind,
            MarkerKind::Header | MarkerKind::Paragraph | MarkerKind::TableRow | MarkerKind::Periph
                | MarkerKind::SidebarStart | MarkerKind::Meta
        ) {
            self.flush_pending_chapter();
            self.flush_pending_verse();
        }
        let leaf = CstKind::MarkerToken {
            normalized: name.clone(),
            token_kind: MarkerTokenKind::Regular,
        };
        match info_kind {
            MarkerKind::Header => {
                self.close_block_context();
                let para = CstKind::Para { marker: name.clone() };
                let entry = stack_entry(&para);
                let kind = if name == "id" {
                    CstKind::Book { marker: name }
                } else {
                    para
                };
                let id = self.open_node(kind, entry, s, e, leaf);
                proof {
                    assert(self.stack@.drop_last() =~= stack_before_open(info_kind, name_v, old(self).stack@));
                    assert(marker_opened(*old(self), *self, info_kind, name_v, id as int));
                }
            },
            MarkerKind::Paragraph => {
                self.close_block_context();
                let kind = CstKind::Para { marker: name };
                let entry = stack_entry(&kind);
                let id = self.open_node(kind, entry, s, e, leaf);
                proof {
                    assert(self.stack@.drop_last() =~= stack_before_open(info_kind, name_v, old(self).stack@));
                    assert(marker_opened(*old(self), *self, info_kind, name_v, id as int));
                }
            },
            MarkerKind::Note => {
                let kind = CstKind::Note { marker: name };
                let entry = stack_entry(&kind);
                let id = self.open_node(kind, entry, s, e, leaf);
                proof {
                    assert(self.stack@.drop_last() =~= stack_before_open(info_kind, name_v, old(self).stack@));
                    assert(marker_opened(*old(self), *self, info_kind, name_v, id as int));
                }
            },
            MarkerKind::Character => {
                let ghost mid = *self;
                let id = self.open_character(&name, valid_in_note, s, e);
                proof {
                    assert(marker_opened(mid, *self, info_kind, name_v, id as int));
                    assert(marker_opened(*old(self), *self, info_kind, name_v, id as int));
                    assert(char_opened(*old(self), *self, id as int));
                }
            },
            MarkerKind::TableRow => {
                self.close_block_context();
                let kind = CstKind::TableRow { marker: name };
                let entry = stack_entry(&kind);
                let id = self.open_node(kind, entry, s, e, leaf);
                proof {
                    assert(self.stack@.drop_last() =~= stack_before_open(info_kind, name_v, old(self).stack@));
                    assert(marker_opened(*old(self), *self, info_kind, name_v, id as int));
                }
            },
            MarkerKind::TableCell => {
                self.close_table_cell_in_row();
                let kind = CstKind::TableCell { marker: name };
                let entry = stack_entry(&kind);
                let id = self.open_node(kind, entry, s, e, leaf);
                proof {
                    assert(self.stack@.drop_last() =~= stack_before_open(info_kind, name_v, old(self).stack@));
                    assert(marker_opened(*old(self), *self, info_kind, name_v, id as int));
                }
            },
            MarkerKind::Periph => {
                self.close_block_context();
                let kind = CstKind::Periph { marker: name };
                let entry = stack_entry(&kind);
                let id = self.open_node(kind, entry, s, e, leaf);
                proof {
                    assert(self.stack@.drop_last() =~= stack_before_open(info_kind, name_v, old(self).stack@));
                    assert(marker_opened(*old(self), *self, info_kind, name_v, id as int));
                }
            },
            MarkerKind::Figure => {
                let kind = CstKind::Figure { marker: name };
                let entry = stack_entry(&kind);
                let id = self.open_node(kind, entry, s, e, leaf);
                proof {
                    assert(self.stack@.drop_last() =~= stack_before_open(info_kind, name_v, old(self).stack@));
                    assert(marker_opened(*old(self), *self, info_kind, name_v, id as int));
                }
            },
            MarkerKind::SidebarStart => {
                self.close_block_context();
                let kind = CstKind::Sidebar { marker: name };
                let entry = stack_entry(&kind);
                let id = self.open_node(kind, entry, s, e, leaf);
                proof {
                    assert(self.stack@.drop_last() =~= stack_before_open(info_kind, name_v, old(self).stack@));
                    assert(marker_opened(*old(self), *self, info_kind, name_v, id as int));
                }
            },
            MarkerKind::SidebarEnd => self.close_sidebar(s, e, name),
            MarkerKind::Meta => {
                if name == "cat" && self.in_note_or_sidebar_context() {
                } else if name == "rem" && !self.in_note_context() && self.has_open_paragraph() {
                    self.close_while_top(MarkerKind::Character, MarkerKind::Unknown, MarkerKind::Meta);
                } else {
                    self.close_block_context();
                }
                let kind = CstKind::Para { marker: name };
                let entry = stack_entry(&kind);
                let id = self.open_node(kind, entry, s, e, leaf);
                proof {
                    assert(self.stack@.drop_last() =~= stack_before_open(info_kind, name_v, old(self).stack@));
                    assert(marker_opened(*old(self), *self, info_kind, name_v, id as int));
                }
            },
            MarkerKind::Unknown => {
                // Close any existing Unknown or Character siblings on the
                // stack to prevent unbounded nesting of sequential unknown
                // markers (e.g. thousands of \t in a concordance file).
                self.close_while_top(MarkerKind::Character, MarkerKind::Unknown, MarkerKind::Unknown);
                let kind = CstKind::Unknown { marker: name };
                let entry = stack_entry(&kind);
                let id = self.open_node(kind, entry, s, e, leaf);
                proof {
                    assert(self.stack@.drop_last() =~= stack_before_open(info_kind, name_v, old(self).stack@));
                    assert(marker_opened(*old(self), *self, info_kind, name_v, id as int));
                }
            },
            MarkerKind::Chapter => {
                let ghost mid = *self;
                self.handle_chapter(s, e);
                proof {
                    let id = choose|id: int| marker_opened(mid, *self, MarkerKind::Chapter, "c"@, id);
                    assert(marker_opened(*old(self), *self, info_kind, name_v, id));
                }
            },
            MarkerKind::Verse => {
                let ghost mid = *self;
                self.handle_verse(s, e);
                proof {
                    let id = choose|id: int| marker_opened(mid, *self, MarkerKind::Verse, "v"@, id);
                    assert(marker_opened(*old(self), *self, info_kind, name_v, id));
                }
            },
            MarkerKind::MilestoneStart | MarkerKind::MilestoneEnd => {
                let ghost mid = *self;
                self.handle_milestone(src, s, e);
                proof {
                    let id = choose|id: int| marker_opened(mid, *self, MarkerKind::MilestoneStart, name_v, id);
                    assert(marker_opened(*old(self), *self, info_kind, name_v, id));
                }
            },
        }
    }

    /// Closes whatever is still open at the end of the source.
    fn finish(&mut self)
        requires
            old(self).ready(),
        ensures
            kept_parents(old(self).tree.parents@, final(self).tree.parents@),
            old(self).tree.kinds@.is_prefix_of(final(self).tree.kinds@),
            final(self).ready(),
            final(self).pos == old(self).pos,
            final(self).total == old(self).total,
            final(self).stack@.len() == 0,
            final(self).pending_chapter is None,
            final(self).pending_verse is None,
            final(self).pending_milestone is None,
            final(self).pending_usfm == old(self).pending_usfm,
    {
        self.flush_pending_milestone();
        self.flush_pending_chapter();
        self.flush_pending_verse();
        self.close_all();
    }

    /// Recomputes the span of `id` from its first and last child, and
    /// passes the change on to its parent.
    fn refresh_span(&mut self, id: usize)
        requires
            old(self).ready(),
            id < old(self).len(),
        ensures
            kept_parents(old(self).tree.parents@, final(self).tree.parents@),
            final(self).ready(),
            final(self).tree.kinds@ == old(self).tree.kinds@,
            final(self).tree.starts@ == old(self).tree.starts@,
            final(self).tree.parents@ == old(self).tree.parents@,
            final(self).tree.firsts@ == old(self).tree.firsts@,
            final(self).tree.lasts@ == old(self).tree.lasts@,
            final(self).tree.nexts@ == old(self).tree.nexts@,
            final(self).tree.leaf_ids@ == old(self).tree.leaf_ids@,
            final(self).stack@ == old(self).stack@,
            final(self).pending_chapter == old(self).pending_chapter,
            final(self).pending_verse == old(self).pending_verse,
            final(self).pending_milestone == old(self).pending_milestone,
            final(self).pending_usfm == old(self).pending_usfm,
            final(self).pos == old(self).pos,
            final(self).total == old(self).total,
            final(self).tree.ends@ == refreshed_ends(old(self).tree, id as int),
    {
        assert(self.good(id as int, -1));
        let first_child = match self.tree.firsts[id] {
            Some(f) => f,
            None => return,
        };
        let last_child = match self.tree.lasts[id] {
            Some(l) => l,
            None => return,
        };
        assert(self.good(first_child as int, -1));
        assert(self.good(last_child as int, -1));
        let ns = self.tree.starts[first_child];
        let ne = self.tree.ends[last_child];
        self.tree.starts.set(id, ns);
        self.tree.ends.set(id, ne);
        assert(self.tree.starts@ =~= old(self).tree.starts@);
        let ghost mid = self.tree.ends@;
        match self.tree.parents[id] {
            Some(p) => {
                assert(old(self).good(p as int, -1));
                self.bump_span(p, id);
            },
            None => {},
        }
        proof {
            old(self).tree.lemma_linked_same(self.tree);
            assert forall|i: int| 0 <= i < self.len() implies #[trigger] self.tree.good(i, -1, self.pos@, self.total@) by {
                assert(old(self).good(i, -1));
            }
            assert forall|k: int| 0 <= k < self.tree.leaf_ids@.len() implies #[trigger] self.tree.leaf_ids@[k]
                < self.len() && is_leaf_kind(self.tree.kinds@[self.tree.leaf_ids@[k] as int])
                && self.lstart(k) < self.lend(k) by {
                assert(old(self).tree.leaf_ids@[k] < self.len());
            }
            assert forall|k: int| 0 < k < self.tree.leaf_ids@.len() implies #[trigger] self.lstart(k)
                == self.lend(k - 1) by {
                assert(old(self).lstart(k) == old(self).lend(k - 1));
                assert(is_leaf_kind(self.tree.kinds@[self.tree.leaf_ids@[k - 1] as int]));
            }
            if self.tree.leaf_ids@.len() > 0 {
                let l = self.tree.leaf_ids@.len() - 1;
                assert(is_leaf_kind(self.tree.kinds@[self.tree.leaf_ids@[l] as int]));
                assert(is_leaf_kind(self.tree.kinds@[self.tree.leaf_ids@[0] as int]));
            }
        }
    }
}

/// The first char of `s`.
fn first_char(s: &str) -> (r: Option<char>)
    ensures
        r == (if s@.len() > 0 {
            Some(s@[0])
        } else {
            None
        }),
{
    if s.unicode_len() > 0 {
        Some(s.get_char(0))
    } else {
        None
    }
}

/// `s` without its leading `+` signs.
fn trim_plus(s: &str) -> (r: &str)
    ensures
        r@.len() <= s@.len(),
        r@ == s@.subrange(s@.len() - r@.len(), s@.len() as int),
        r@.len() > 0 ==> r@[0] != '+',
        forall|i: int| 0 <= i < s@.len() - r@.len() ==> s@[i] == '+',
{
    let n = s.unicode_len();
    let mut i: usize = 0;
    while i < n && s.get_char(i) == '+'
        invariant
            i <= n,
            n == s@.len(),
            forall|j: int| 0 <= j < i ==> s@[j] == '+',
        decreases n - i,
    {
        i += 1;
    }
    s.substring_char(i, n)
}

/// The text of the token `s..e`.
fn token_text(src: &[char], s: usize, e: usize) -> (r: String)
    requires
        s <= e <= src@.len(),
    ensures
        r@ == src@.subrange(s as int, e as int),
{
    chars_to_string(&crate::text::slice_chars(src, s, e))
}

/// Index of the first whitespace char in `src[s..e]`, or `e`.
fn first_ws_index(src: &[char], s: usize, e: usize) -> (r: usize)
    requires
        s <= e <= src@.len(),
    ensures
        s <= r <= e,
        r < e ==> is_ws(src@[r as int]),
        forall|j: int| s <= j < r ==> !is_ws(src@[j]),
{
    let mut i = s;
    while i < e && !is_ws_exec(src[i])
        invariant
            s <= i <= e <= src@.len(),
            forall|j: int| s <= j < i ==> !is_ws(src@[j]),
        decreases e - i,
    {
        i += 1;
    }
    i
}

/// The structural kind that a marker name opens.
fn kind_from_name(name: &MarkerName) -> (r: CstKind)
    ensures
        !is_leaf_kind(r),
        !(r is Chapter || r is Verse || r is Milestone || r is Document || r is Book || r is Ref || r is Table),
{
    let marker = name.clone();
    match name.kind() {
        MarkerKind::Note => CstKind::Note { marker },
        MarkerKind::Figure => CstKind::Figure { marker },
        MarkerKind::TableRow => CstKind::TableRow { marker },
        MarkerKind::TableCell => CstKind::TableCell { marker },
        MarkerKind::SidebarStart => CstKind::Sidebar { marker },
        MarkerKind::Periph => CstKind::Periph { marker },
        MarkerKind::Paragraph | MarkerKind::Header | MarkerKind::Meta => CstKind::Para { marker },
        MarkerKind::Unknown => CstKind::Unknown { marker },
        _ => CstKind::Char { marker },
    }
}

/// How a node of `kind` is recorded on the stack of open nodes; chapters,
/// verses and milestones are never open there.
fn stack_entry(kind: &CstKind) -> (r: Option<(MarkerKind, MarkerName)>)
    ensures
        r is None <==> (kind is Chapter || kind is Verse || kind is Milestone),
        r matches Some(p) ==> p.0 == entry_kind(*kind) && p.1@ == entry_marker(*kind),
{
    let marker = match kind {
        CstKind::Book { marker } | CstKind::Chapter { marker } | CstKind::Verse { marker }
        | CstKind::Para { marker } | CstKind::Char { marker } | CstKind::Note { marker }
        | CstKind::Milestone { marker } | CstKind::Figure { marker } | CstKind::Sidebar { marker }
        | CstKind::Periph { marker } | CstKind::TableRow { marker } | CstKind::TableCell { marker }
        | CstKind::Unknown { marker } => marker.clone(),
        CstKind::Ref => MarkerName::parse("ref"),
        CstKind::Table => MarkerName::parse("table"),
        _ => MarkerName::parse(""),
    };
    if matches!(kind, CstKind::Chapter { .. } | CstKind::Verse { .. } | CstKind::Milestone { .. }) {
        return None;
    }
    let marker_kind = match kind {
        CstKind::Book { .. } => MarkerKind::Header,
        CstKind::Para { marker } => marker.kind(),
        CstKind::Char { .. } | CstKind::Ref => MarkerKind::Character,
        CstKind::Note { .. } => MarkerKind::Note,
        CstKind::Figure { .. } => MarkerKind::Figure,
        CstKind::Sidebar { .. } => MarkerKind::SidebarStart,
        CstKind::Periph { .. } => MarkerKind::Periph,
        CstKind::TableRow { .. } => MarkerKind::TableRow,
        CstKind::TableCell { .. } => MarkerKind::TableCell,
        CstKind::Unknown { .. } => MarkerKind::Unknown,
        _ => marker.kind(),
    };
    Some((marker_kind, marker))
}

fn to_id(o: Option<usize>) -> (r: Option<CstNodeId>)
    ensures
        opt_index(r) == (match o {
            Some(x) => Some(x as int),
            None => None::<int>,
        }),
{
    match o {
        Some(x) => Some(CstNodeId::from_index(x)),
        None => None,
    }
}

/// Node `node` is node `i` of the arena, with its char span mapped to bytes.
/// Nodes copied from a well-linked arena are well formed.
#[verifier::rlimit(50)]
proof fn lemma_nodes_ok(tree: Arena, ns: Seq<CstNode>, sp: Seq<(int, int)>, src: Seq<char>, pos: int, total: int)
    requires
        tree.inv(-1, pos, total),
        tree.all_linked(),
        total == src.len(),
        tree.len() <= usize::MAX,
        ns.len() == tree.len(),
        sp.len() == tree.len(),
        forall|q: int| 0 <= q < ns.len() ==> #[trigger] built_from(ns[q], tree, q, src),
        forall|q: int| 0 <= q < ns.len() ==> #[trigger] sp[q] == (tree.starts@[q] as int, tree.ends@[q] as int),
    ensures
        forall|q: int| 0 <= q < ns.len() ==> #[trigger] node_ok(src, ns, sp, q),
{
    reveal(Arena::all_linked);
    reveal(Arena::linked);
    assert forall|q: int| 0 <= q < ns.len() implies #[trigger] node_ok(src, ns, sp, q) by {
        assert((q as usize) as int == q);
        assert(tree.good(q, -1, pos, total));
        assert(tree.linked(q));
        assert(built_from(ns[q], tree, q, src));
        assert(sp[q] == (tree.starts@[q] as int, tree.ends@[q] as int));
        if let Some(p) = tree.parents@[q] {
            assert(tree.good(p as int, -1, pos, total));
            assert(built_from(ns[p as int], tree, p as int, src));
        }
        if let Some(j) = tree.firsts@[q] {
            assert(built_from(ns[j as int], tree, j as int, src));
        }
        if let Some(j) = tree.lasts@[q] {
            assert(built_from(ns[j as int], tree, j as int, src));
        }
        if let Some(j) = tree.nexts@[q] {
            assert(built_from(ns[j as int], tree, j as int, src));
        }
        if let Some(j) = tree.prevs@[q] {
            assert(built_from(ns[j as int], tree, j as int, src));
        }
    }
}

spec fn built_from(node: CstNode, tree: Arena, i: int, src: Seq<char>) -> bool {
    let as_int = |o: Option<usize>| match o {
        Some(x) => Some(x as int),
        None => None::<int>,
    };
    &&& node.kind == tree.kinds@[i]
    &&& node.span.start == byte_offset(src, tree.starts@[i] as int)
    &&& node.span.end == byte_offset(src, tree.ends@[i] as int)
    &&& opt_index(node.parent) == as_int(tree.parents@[i])
    &&& opt_index(node.prev_sibling) == as_int(tree.prevs@[i])
    &&& opt_index(node.next_sibling) == as_int(tree.nexts@[i])
    &&& opt_index(node.first_child) == as_int(tree.firsts@[i])
    &&& opt_index(node.last_child) == as_int(tree.lasts@[i])
}

/// Parses USFM text into its lossless concrete syntax tree.
pub fn parse(input: &str) -> (r: CstDocument)
    requires
        byte_len(input@) <= usize::MAX,
    ensures
        r.wf(),
        r.source_view() == input@,
        forall|j: int|
            0 <= j < lex(input@).len() ==> #[trigger] opened_in(r.kinds_view(), input@, lex(input@)[j]),
        nested_as_parsed(r, input@),
{
    parse_owned(str_to_string(input))
}

/// Parses USFM text into its lossless concrete syntax tree, taking
/// ownership of the text.
pub fn parse_owned(input: String) -> (r: CstDocument)
    requires
        byte_len(input@) <= usize::MAX,
    ensures
        r.wf(),
        r.source_view() == input@,
        forall|j: int|
            0 <= j < lex(input@).len() ==> #[trigger] opened_in(r.kinds_view(), input@, lex(input@)[j]),
        nested_as_parsed(r, input@),
{
    let chars = str_chars(input.as_str());
    let tokens = lex_chars(&chars);
    let offsets = byte_offsets(&chars);
    let ghost toks = lex(chars@);
    proof {
        lemma_lex_partition(chars@, 0);
        assert(forall|j: int| 0 <= j < tokens@.len() ==> raw_view(tokens@[j]) == #[trigger] toks[j]);
    }
    let n = chars.len();
    let mut parser = CstParser::new(n);
    let mut k: usize = 0;
    let ghost mut stacks: Seq<Seq<OpenNode>> = seq![parser.stack@];
    while k < tokens.len()
        invariant
            parser.ready(),
            parser.total@ == n,
            n == chars@.len(),
            toks == lex(chars@),
            k <= tokens@.len(),
            tokens@.len() == toks.len(),
            forall|j: int| 0 <= j < tokens@.len() ==> raw_view(tokens@[j]) == #[trigger] toks[j],
            toks.len() > 0 ==> toks[0].1 == 0,
            toks.len() > 0 ==> toks.last().2 == n,
            toks.len() == 0 ==> n == 0,
            forall|j: int| 0 <= j < toks.len() ==> 0 <= (#[trigger] toks[j]).1 < toks[j].2 <= n,
            forall|j: int| 0 <= j < toks.len() - 1 ==> (#[trigger] toks[j]).2 == toks[j + 1].1,
            parser.pos@ == (if k == 0 {
                0
            } else {
                toks[k - 1].2
            }),
            forall|j: int| 0 <= j < k ==> #[trigger] opened_in(parser.tree.kinds@, chars@, toks[j]),
            stacks.len() == k + 1,
            stacks[0] == Seq::<OpenNode>::empty(),
            stacks[k as int] == parser.stack@,
            forall|j: int|
                0 <= j < k ==> #[trigger] token_nested(
                    parser.tree.kinds@,
                    parent_ints(parser.tree.parents@),
                    chars@,
                    toks[j],
                    stacks[j],
                    stacks[j + 1],
                ),
        decreases tokens@.len() - k,
    {
        let t = tokens[k];
        assert(raw_view(tokens@[k as int]) == toks[k as int]);
        if k > 0 {
            assert(toks[k - 1].2 == toks[k as int].1);
        }
        let ghost before = parser;
        parser.handle_token(&chars, t.kind, t.start, t.end);
        proof {
            lemma_opened_grows(before.tree.kinds@, parser.tree.kinds@, chars@, toks, k as int);
            let tk = toks[k as int];
            if token_opens(tk.0, chars@, tk.1, tk.2) is Some {
                let p = token_opens(tk.0, chars@, tk.1, tk.2).unwrap();
                let id = choose|id: int| marker_opened(before, parser, p.0, p.1, id);
                assert(opens_as(parser.tree.kinds@[id], p.0, p.1));
            }
            assert(opened_in(parser.tree.kinds@, chars@, tk));
            lemma_token_step(before, parser, chars@, tk);
            assert forall|j: int| 0 <= j < k implies #[trigger] token_nested(
                parser.tree.kinds@,
                parent_ints(parser.tree.parents@),
                chars@,
                toks[j],
                stacks[j],
                stacks[j + 1],
            ) by {
                lemma_nested_grows(
                    before.tree.kinds@,
                    parent_ints(before.tree.parents@),
                    parser.tree.kinds@,
                    parent_ints(parser.tree.parents@),
                    chars@,
                    toks[j],
                    stacks[j],
                    stacks[j + 1],
                );
            }
            stacks = stacks.push(parser.stack@);
        }
        k += 1;
    }
    let ghost before_finish = parser.tree.kinds@;
    let ghost parents_before_finish = parser.tree.parents@;
    parser.finish();
    proof {
        lemma_opened_grows(before_finish, parser.tree.kinds@, chars@, toks, toks.len() as int);
        assert forall|j: int| 0 <= j < toks.len() implies #[trigger] token_nested(
            parser.tree.kinds@,
            parent_ints(parser.tree.parents@),
            chars@,
            toks[j],
            stacks[j],
            stacks[j + 1],
        ) by {
            lemma_nested_grows(
                before_finish,
                parent_ints(parents_before_finish),
                parser.tree.kinds@,
                parent_ints(parser.tree.parents@),
                chars@,
                toks[j],
                stacks[j],
                stacks[j + 1],
            );
        }
    }
    let m = parser.tree.kinds.len();
    let ghost tree = parser.tree;
    let ghost src = input@;
    proof {
        assert(parser.good(0, -1));
    }
    let mut nodes: Vec<CstNode> = Vec::new();
    let mut char_spans: Vec<(usize, usize)> = Vec::new();
    let mut i: usize = 0;
    while i < m
        invariant
            parser.ready(),
            parser.tree == tree,
            parser.pos@ == n,
            parser.total@ == n,
            m == tree.len(),
            chars@ == src,
            n == src.len(),
            offsets@.len() == n + 1,
            forall|j: int| 0 <= j <= n ==> offsets@[j] == byte_offset(src, j),
            i <= m,
            nodes@.len() == i,
            char_spans@.len() == i,
            forall|j: int| 0 <= j < i ==> built_from(#[trigger] nodes@[j], tree, j, src),
            forall|j: int|
                0 <= j < i ==> #[trigger] char_spans@[j] == (tree.starts@[j], tree.ends@[j]),
        decreases m - i,
    {
        assert(parser.good(i as int, -1));
        let st = parser.tree.starts[i];
        let en = parser.tree.ends[i];
        let node = CstNode {
            kind: parser.tree.kinds[i].clone(),
            span: offsets[st]..offsets[en],
            parent: to_id(parser.tree.parents[i]),
            prev_sibling: to_id(parser.tree.prevs[i]),
            next_sibling: to_id(parser.tree.nexts[i]),
            first_child: to_id(parser.tree.firsts[i]),
            last_child: to_id(parser.tree.lasts[i]),
        };
        nodes.push(node);
        char_spans.push((st, en));
        i += 1;
    }
    let mut leaf_ids: Vec<CstNodeId> = Vec::new();
    let mut j: usize = 0;
    while j < parser.tree.leaf_ids.len()
        invariant
            parser.tree == tree,
            j <= tree.leaf_ids@.len(),
            leaf_ids@.len() == j,
            forall|q: int| 0 <= q < j ==> (#[trigger] leaf_ids@[q])@ == tree.leaf_ids@[q] as int,
        decreases tree.leaf_ids@.len() - j,
    {
        leaf_ids.push(CstNodeId::from_index(parser.tree.leaf_ids[j]));
        j += 1;
    }
    let byte_total = offsets[n];
    let doc = CstDocument {
        source: input,
        chars,
        byte_total,
        root: CstNodeId::from_index(0),
        nodes,
        char_spans,
        leaf_ids,
    };
    proof {
        lemma_byte_offset_end(src);
        let ns = doc.nodes_view();
        let sp = doc.char_spans_view();
        let lv = doc.leaves_view();
        assert(ns.map_values(|x: CstNode| x.kind) =~= tree.kinds@);
        assert(ns.map_values(|x: CstNode| opt_index(x.parent)) =~= parent_ints(tree.parents@)) by {
            assert forall|q: int| 0 <= q < ns.len() implies opt_index(ns[q].parent) == parent_ints(tree.parents@)[q] by {
                assert(built_from(ns[q], tree, q, src));
            }
        }
        assert(nested_by_stacks(doc.kinds_view(), parents_view(doc), src, lex(src)));
        assert(lv =~= tree.leaf_ids@.map_values(|x: usize| x as int));
        assert forall|q: int| 0 <= q < ns.len() implies sp[q] == (tree.starts@[q] as int, tree.ends@[q] as int) by {
            assert(char_spans@[q] == (tree.starts@[q], tree.ends@[q]));
        }
        lemma_nodes_ok(tree, ns, sp, src, parser.pos@, parser.total@);
        let l = lv.len() as int;
        assert forall|q: int| 0 <= q < l implies 0 <= #[trigger] lv[q] < sp.len() && 0 <= sp[lv[q]].0
            < sp[lv[q]].1 by {
            assert(char_spans@[lv[q]] == (tree.starts@[lv[q]], tree.ends@[lv[q]]));
        }
        assert forall|q: int| 0 < q < l implies #[trigger] leaf_start(lv, sp, q) == leaf_end(
            lv,
            sp,
            q - 1,
        ) by {
            assert(tree.lstart(q) == tree.lend(q - 1));
            assert(tree.leaf_ids@[q] < m && tree.leaf_ids@[q - 1] < m);
            assert(char_spans@[lv[q]] == (tree.starts@[lv[q]], tree.ends@[lv[q]]));
            assert(char_spans@[lv[q - 1]] == (tree.starts@[lv[q - 1]], tree.ends@[lv[q - 1]]));
        }
        if l > 0 {
            assert(tree.leaf_ids@[0] < m && tree.leaf_ids@[l - 1] < m);
            assert(char_spans@[lv[0]] == (tree.starts@[lv[0]], tree.ends@[lv[0]]));
            assert(char_spans@[lv[l - 1]] == (tree.starts@[lv[l - 1]], tree.ends@[lv[l - 1]]));
        } else {
            assert(n == 0);
        }
        assert(built_from(ns[0], tree, 0, src));
    }
    doc
}

/// The export name of a node kind, its marker name, and its token kind
/// name; leaves also carry their text.
pub open spec fn export_head(k: CstKind) -> (Seq<char>, Option<Seq<char>>, Option<Seq<char>>) {
    match k {
        CstKind::Document => ("document"@, None, None),
        CstKind::Book { marker } => ("book"@, Some(marker@), None),
        CstKind::Chapter { marker } => ("chapter"@, Some(marker@), None),
        CstKind::Verse { marker } => ("verse"@, Some(marker@), None),
        CstKind::Para { marker } => ("para"@, Some(marker@), None),
        CstKind::Char { marker } => ("char"@, Some(marker@), None),
        CstKind::Note { marker } => ("note"@, Some(marker@), None),
        CstKind::Milestone { marker } => ("milestone"@, Some(marker@), None),
        CstKind::Figure { marker } => ("figure"@, Some(marker@), None),
        CstKind::Sidebar { marker } => ("sidebar"@, Some(marker@), None),
        CstKind::Periph { marker } => ("periph"@, Some(marker@), None),
        CstKind::Table => ("table"@, None, None),
        CstKind::TableRow { marker } => ("table_row"@, Some(marker@), None),
        CstKind::TableCell { marker } => ("table_cell"@, Some(marker@), None),
        CstKind::Ref => ("ref"@, None, None),
        CstKind::Unknown { marker } => ("unknown"@, Some(marker@), None),
        CstKind::MarkerToken { normalized, token_kind } => (
            "marker_token"@,
            Some(normalized@),
            Some(marker_token_kind_name(token_kind)),
        ),
        CstKind::ClosingMarkerToken { normalized, token_kind } => (
            "closing_marker_token"@,
            Some(normalized@),
            Some(closing_token_kind_name(token_kind)),
        ),
        CstKind::MilestoneEndToken => ("milestone_end_token"@, None, None),
        CstKind::AttributesToken => ("attributes_token"@, None, None),
        CstKind::TextToken => ("text_token"@, None, None),
        CstKind::WhitespaceToken => ("whitespace_token"@, None, None),
        CstKind::NewlineToken => ("newline_token"@, None, None),
    }
}

pub open spec fn marker_token_kind_name(k: MarkerTokenKind) -> Seq<char> {
    match k {
        MarkerTokenKind::Regular => "regular"@,
        MarkerTokenKind::Nested => "nested"@,
        MarkerTokenKind::Chapter => "chapter"@,
        MarkerTokenKind::Verse => "verse"@,
        MarkerTokenKind::Milestone => "milestone"@,
    }
}

pub open spec fn closing_token_kind_name(k: ClosingTokenKind) -> Seq<char> {
    match k {
        ClosingTokenKind::Regular => "regular"@,
        ClosingTokenKind::Nested => "nested"@,
    }
}

pub open spec fn opt_string_view(o: Option<String>) -> Option<Seq<char>> {
    match o {
        Some(s) => Some(s@),
        None => None,
    }
}

/// The siblings from `from` on, following the next-sibling links.
pub open spec fn sibling_chain(nodes: Seq<CstNode>, from: int) -> Seq<int>
    decreases nodes.len() - from,
{
    if 0 <= from < nodes.len() {
        match nodes[from].next_sibling {
            Some(n) => if from < n@ < nodes.len() {
                seq![from] + sibling_chain(nodes, n@)
            } else {
                seq![from]
            },
            None => seq![from],
        }
    } else {
        seq![]
    }
}

/// The children of node `id`, first to last.
pub open spec fn child_ids(nodes: Seq<CstNode>, id: int) -> Seq<int> {
    match nodes[id].first_child {
        Some(f) => sibling_chain(nodes, f@),
        None => seq![],
    }
}

/// `r` is the export of node `id` of `doc` and of everything below it.
pub open spec fn exports(doc: &CstDocument, id: int, r: ExportedCstNode) -> bool
    decreases r,
{
    let node = doc.nodes_view()[id];
    let head = export_head(node.kind);
    let kids = child_ids(doc.nodes_view(), id);
    &&& r.kind@ == head.0
    &&& r.span == node.span
    &&& opt_string_view(r.marker) == head.1
    &&& opt_string_view(r.token_kind) == head.2
    &&& opt_string_view(r.text) == (if is_leaf_kind(node.kind) {
        Some(doc.source_view().subrange(doc.char_spans_view()[id].0, doc.char_spans_view()[id].1))
    } else {
        None
    })
    &&& r.children@.len() == kids.len()
    &&& forall|k: int|
        0 <= k < kids.len() ==> {
            proof {
                assert(decreases_to!(r => r.children));
                assert(decreases_to!(r.children => r.children@));
                assert(decreases_to!(r.children@ => r.children@[k]));
            }
            exports(doc, kids[k], #[trigger] r.children@[k])
        }
}

impl CstDocument {
    /// The whole tree as a self-contained value.
    pub fn export(&self) -> (r: ExportedCstNode)
        requires
            self.wf(),
        ensures
            exports(self, 0, r),
    {
        export_node(self, self.root_id())
    }
}

/// The whole tree of `document` as a self-contained value.
pub fn export(document: &CstDocument) -> (r: ExportedCstNode)
    requires
        document.wf(),
    ensures
        exports(document, 0, r),
{
    document.export()
}

fn opt_marker_string(m: &MarkerName) -> (r: Option<String>)
    ensures
        opt_string_view(r) == Some(m@),
{
    Some(str_to_string(m.as_str()))
}

fn export_node(document: &CstDocument, id: CstNodeId) -> (r: ExportedCstNode)
    requires
        document.wf(),
        0 <= id@ < document.nodes_view().len(),
    ensures
        exports(document, id@, r),
    decreases document.nodes_view().len() - id@,
{
    let i = id.index();
    let node = &document.nodes[i];
    proof {
        assert(node_ok(document.source_view(), document.nodes_view(), document.char_spans_view(), i as int));
    }
    let (kind, marker, token_kind): (String, Option<String>, Option<String>) = match &node.kind {
        CstKind::Document => (str_to_string("document"), None, None),
        CstKind::Book { marker } => (str_to_string("book"), opt_marker_string(marker), None),
        CstKind::Chapter { marker } => (str_to_string("chapter"), opt_marker_string(marker), None),
        CstKind::Verse { marker } => (str_to_string("verse"), opt_marker_string(marker), None),
        CstKind::Para { marker } => (str_to_string("para"), opt_marker_string(marker), None),
        CstKind::Char { marker } => (str_to_string("char"), opt_marker_string(marker), None),
        CstKind::Note { marker } => (str_to_string("note"), opt_marker_string(marker), None),
        CstKind::Milestone { marker } => (str_to_string("milestone"), opt_marker_string(marker), None),
        CstKind::Figure { marker } => (str_to_string("figure"), opt_marker_string(marker), None),
        CstKind::Sidebar { marker } => (str_to_string("sidebar"), opt_marker_string(marker), None),
        CstKind::Periph { marker } => (str_to_string("periph"), opt_marker_string(marker), None),
        CstKind::Table => (str_to_string("table"), None, None),
        CstKind::TableRow { marker } => (str_to_string("table_row"), opt_marker_string(marker), None),
        CstKind::TableCell { marker } => (
            str_to_string("table_cell"),
            opt_marker_string(marker),
            None,
        ),
        CstKind::Ref => (str_to_string("ref"), None, None),
        CstKind::Unknown { marker } => (str_to_string("unknown"), opt_marker_string(marker), None),
        CstKind::MarkerToken { normalized, token_kind } => (
            str_to_string("marker_token"),
            opt_marker_string(normalized),
            Some(str_to_string(export_marker_token_kind(*token_kind))),
        ),
        CstKind::ClosingMarkerToken { normalized, token_kind } => (
            str_to_string("closing_marker_token"),
            opt_marker_string(normalized),
            Some(str_to_string(export_closing_token_kind(*token_kind))),
        ),
        CstKind::MilestoneEndToken => (str_to_string("milestone_end_token"), None, None),
        CstKind::AttributesToken => (str_to_string("attributes_token"), None, None),
        CstKind::TextToken => (str_to_string("text_token"), None, None),
        CstKind::WhitespaceToken => (str_to_string("whitespace_token"), None, None),
        CstKind::NewlineToken => (str_to_string("newline_token"), None, None),
    };
    let text = if node.kind.is_leaf() {
        Some(str_to_string(document.source_text(id)))
    } else {
        None
    };
    let ghost kids = child_ids(document.nodes_view(), i as int);
    let mut children: Vec<ExportedCstNode> = Vec::new();
    let mut child_id = node.first_child;
    let ghost mut done: int = 0;
    loop
        invariant
            document.wf(),
            i == id@,
            0 <= i < document.nodes_view().len(),
            kids == child_ids(document.nodes_view(), i as int),
            0 <= done <= kids.len(),
            children@.len() == done,
            forall|k: int| 0 <= k < done ==> exports(document, kids[k], #[trigger] children@[k]),
            match child_id {
                Some(c) => c@ > i && c@ < document.nodes_view().len() && kids == kids.subrange(0, done)
                    + sibling_chain(document.nodes_view(), c@),
                None => done == kids.len(),
            },
        ensures
            children@.len() == kids.len(),
            forall|k: int| 0 <= k < kids.len() ==> exports(document, kids[k], #[trigger] children@[k]),
        decreases match child_id {
            Some(c) => document.nodes_view().len() - c@ + 1,
            None => 0,
        },
    {
        match child_id {
            None => break,
            Some(c) => {
                let ghost nodes = document.nodes_view();
                proof {
                    assert(node_ok(document.source_view(), nodes, document.char_spans_view(), c@));
                }
                let ghost chain = sibling_chain(nodes, c@);
                assert(chain[0] == c@);
                assert(kids[done] == c@);
                assert(c@ > id@);
                assert(document.nodes_view().len() - c@ < document.nodes_view().len() - id@);
                let child = export_node(document, c);
                children.push(child);
                let next = document.nodes[c.index()].next_sibling;
                proof {
                    match next {
                        Some(nx) => {
                            assert(chain == seq![c@] + sibling_chain(nodes, nx@));
                            assert(kids == kids.subrange(0, done + 1) + sibling_chain(nodes, nx@));
                        },
                        None => {
                            assert(chain == seq![c@]);
                            assert(kids.len() == done + 1);
                        },
                    }
                    done = done + 1;
                }
                child_id = next;
            },
        }
    }
    ExportedCstNode { kind, span: node.span.clone(), marker, token_kind, text, children }
}

fn export_marker_token_kind(kind: MarkerTokenKind) -> (r: &'static str)
    ensures
        r@ == marker_token_kind_name(kind),
{
    match kind {
        MarkerTokenKind::Regular => "regular",
        MarkerTokenKind::Nested => "nested",
        MarkerTokenKind::Chapter => "chapter",
        MarkerTokenKind::Verse => "verse",
        MarkerTokenKind::Milestone => "milestone",
    }
}

fn export_closing_token_kind(kind: ClosingTokenKind) -> (r: &'static str)
    ensures
        r@ == closing_token_kind_name(kind),
{
    match kind {
        ClosingTokenKind::Regular => "regular",
        ClosingTokenKind::Nested => "nested",
    }
}

} // verus!
