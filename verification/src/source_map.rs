use vstd::prelude::*;

use crate::ast::Node;
use crate::diagnostics::Span;

verus! {

/// Source-location metadata for a structural node.
#[derive(Debug, Clone, PartialEq, Eq)]
pub struct SourceSpans {
    pub node: Span,
    pub code: Option<Span>,
    pub number: Option<Span>,
    pub close: Option<Span>,
}

impl Default for SourceSpans {
    /// Spans with an empty node span at offset 0 and no other span.
    fn default() -> (r: Self)
        ensures
            r.node.start == 0 && r.node.end == 0,
            r.code is None,
            r.number is None,
            r.close is None,
    {
        SourceSpans { node: 0..0, code: None, number: None, close: None }
    }
}

impl SourceSpans {
    pub fn node(span: Span) -> (r: Self)
        ensures
            r.node == span,
            r.code is None,
            r.number is None,
            r.close is None,
    {
        Self { node: span, code: None, number: None, close: None }
    }

    pub fn with_code(self, span: Span) -> (r: Self)
        ensures
            r == (SourceSpans { code: Some(span), ..self }),
    {
        let mut s = self;
        s.code = Some(span);
        s
    }

    pub fn with_number(self, span: Span) -> (r: Self)
        ensures
            r == (SourceSpans { number: Some(span), ..self }),
    {
        let mut s = self;
        s.number = Some(span);
        s
    }

    pub fn with_close(self, span: Span) -> (r: Self)
        ensures
            r == (SourceSpans { close: Some(span), ..self }),
    {
        let mut s = self;
        s.close = Some(span);
        s
    }
}

fn clone_span(s: &Span) -> (r: Span)
    ensures
        r == *s,
{
    s.start..s.end
}

fn clone_opt_span(s: &Option<Span>) -> (r: Option<Span>)
    ensures
        r == *s,
{
    match s {
        Some(x) => Some(clone_span(x)),
        None => None,
    }
}

fn clone_spans(s: &Option<SourceSpans>) -> (r: Option<SourceSpans>)
    ensures
        r == *s,
{
    match s {
        Some(x) => Some(
            SourceSpans {
                node: clone_span(&x.node),
                code: clone_opt_span(&x.code),
                number: clone_opt_span(&x.number),
                close: clone_opt_span(&x.close),
            },
        ),
        None => None,
    }
}

/// Source-map tree for a semantic AST document.
#[derive(Debug, Clone, PartialEq, Eq)]
pub struct SourceMap {
    pub content: Vec<SourceNode>,
}

impl Default for SourceMap {
    /// The empty source map.
    fn default() -> (r: Self)
        ensures
            r.content@.len() == 0,
    {
        SourceMap { content: Vec::new() }
    }
}

/// Source-map entry aligned one-for-one with an AST node.
#[derive(Debug, PartialEq, Eq)]
pub struct SourceNode {
    pub spans: Option<SourceSpans>,
    pub children: Vec<SourceNode>,
    pub anchor_cst: Option<usize>,
}

impl Default for SourceNode {
    /// The leaf entry: no spans, no children, no anchor.
    fn default() -> (r: Self)
        ensures
            r.spans is None,
            r.children@.len() == 0,
            r.anchor_cst is None,
    {
        SourceNode::leaf()
    }
}

/// Whether two source-map nodes hold the same spans and anchor and the same
/// number of children.
pub open spec fn same_source_node(a: SourceNode, b: SourceNode) -> bool {
    &&& a.spans == b.spans
    &&& a.anchor_cst == b.anchor_cst
    &&& a.children@.len() == b.children@.len()
}

impl Clone for SourceNode {
    fn clone(&self) -> (r: Self)
        ensures
            same_source_node(*self, r),
    {
        self.deep_clone()
    }
}

impl SourceNode {
    /// A copy of the whole subtree.
    pub fn deep_clone(&self) -> (r: Self)
        ensures
            same_source_node(*self, r),
        decreases self,
    {
        let mut children: Vec<SourceNode> = Vec::new();
        let mut i: usize = 0;
        while i < self.children.len()
            invariant
                i <= self.children@.len(),
                children@.len() == i,
                forall|k: int| 0 <= k < i ==> #[trigger] same_source_node(self.children@[k], children@[k]),
            decreases self.children@.len() - i,
        {
            assert(decreases_to!(self => self.children@[i as int]));
            children.push(self.children[i].deep_clone());
            i += 1;
        }
        let r = SourceNode { spans: clone_spans(&self.spans), children, anchor_cst: self.anchor_cst };
        r
    }

    pub fn structural(spans: SourceSpans, children: Vec<SourceNode>, anchor_cst: Option<usize>) -> (r: Self)
        ensures
            r.spans == Some(spans),
            r.children@ == children@,
            r.anchor_cst == anchor_cst,
    {
        Self { spans: Some(spans), children, anchor_cst }
    }

    pub fn leaf() -> (r: Self)
        ensures
            r.spans is None,
            r.children@.len() == 0,
            r.anchor_cst is None,
    {
        Self { spans: None, children: Vec::new(), anchor_cst: None }
    }
}

/// The AST nodes `ns` and the source-map nodes `ss` correspond one for one,
/// down to the leaves.
pub open spec fn aligned_all(ns: Seq<Node>, ss: Seq<SourceNode>) -> bool
    decreases ns, 0int,
{
    &&& ns.len() == ss.len()
    &&& forall|k: int|
        0 <= k < ns.len() ==> {
            proof {
                assert(decreases_to!(ns => ns[k]));
            }
            aligned(#[trigger] ns[k], ss[k])
        }
}

/// The source-map node `s` has one child for each child of the AST node
/// `n`, each aligned in turn.
pub open spec fn aligned(n: Node, s: SourceNode) -> bool
    decreases n, 1int,
{
    match n {
        Node::Book { content, .. } | Node::Para { content, .. } | Node::Note { content, .. }
        | Node::Figure { content, .. } | Node::Sidebar { content, .. } | Node::Periph {
            content,
            ..
        } | Node::Table { content } | Node::TableRow { content, .. } | Node::TableCell {
            content,
            ..
        } | Node::Ref { content, .. } | Node::Unknown { content, .. } => aligned_all(
            content@,
            s.children@,
        ),
        Node::Char(data) => aligned_all(data.content@, s.children@),
        _ => s.children@.len() == 0,
    }
}

} // verus!
