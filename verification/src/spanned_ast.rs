//! A USFM document tree whose nodes carry their byte spans in the source.
use vstd::prelude::*;

pub use crate::ast::Attribute;
pub use crate::diagnostics::Span;
use crate::text::str_to_string;

verus! {

/// The top-level document.
#[derive(Debug, PartialEq)]
pub struct Document {
    pub content: Vec<Node>,
}

impl Document {
    /// Creates an empty document.
    pub fn new() -> (r: Self)
        ensures
            r.content@.len() == 0,
    {
        Document { content: Vec::new() }
    }
}

impl Default for Document {
    fn default() -> (r: Self)
        ensures
            r.content@.len() == 0,
    {
        Self::new()
    }
}

/// A node in the USFM document tree, modeled after the USJ specification;
/// every node but text records the byte span it came from.
#[derive(Debug, PartialEq)]
pub enum Node {
    /// `\id` -- book identification.
    Book { marker: String, code: String, content: Vec<Node>, span: Span },
    /// `\c` -- chapter milestone (not a container).
    Chapter {
        marker: String,
        number: String,
        sid: Option<String>,
        altnumber: Option<String>,
        pubnumber: Option<String>,
        span: Span,
    },
    /// `\v` -- verse milestone (not a container).
    Verse {
        marker: String,
        number: String,
        sid: Option<String>,
        altnumber: Option<String>,
        pubnumber: Option<String>,
        span: Span,
    },
    /// `\p`, `\q1`, `\m`, `\li1`, `\b`, etc. -- paragraph-level container.
    Para { marker: String, content: Vec<Node>, span: Span },
    /// `\nd`, `\bk`, `\add`, `\it`, etc. -- character-level container.
    Char { marker: String, content: Vec<Node>, attributes: Vec<Attribute>, span: Span },
    /// `\f`, `\x` -- footnote or cross-reference container.
    Note { marker: String, caller: String, category: Option<String>, content: Vec<Node>, span: Span },
    /// `\qt1-s`, `\qt1-e`, `\ts-s`, etc. -- milestone with attributes.
    Milestone { marker: String, attributes: Vec<Attribute>, span: Span },
    /// `\fig` -- figure with attributes.
    Figure { marker: String, content: Vec<Node>, attributes: Vec<Attribute>, span: Span },
    /// `\esb` ... `\esbe` -- sidebar container.
    Sidebar { marker: String, category: Option<String>, content: Vec<Node>, span: Span },
    /// `\periph` -- peripheral content section.
    Periph { alt: Option<String>, content: Vec<Node>, attributes: Vec<Attribute>, span: Span },
    /// Table container wrapping consecutive `\tr` rows.
    Table { content: Vec<Node>, span: Span },
    /// `\tr` -- table row container.
    TableRow { marker: String, content: Vec<Node>, span: Span },
    /// `\th1`, `\tc2`, etc. -- table cell.
    TableCell { marker: String, align: String, content: Vec<Node>, span: Span },
    /// Unrecognized marker (from the `\z` namespace or genuinely unknown),
    /// kept so no data is lost.
    Unknown { marker: String, content: Vec<Node>, span: Span },
    /// Plain text content.
    Text(String),
}

/// The children of a node: its content for containers, nothing otherwise.
pub open spec fn spanned_children(n: Node) -> Seq<Node> {
    match n {
        Node::Book { content, .. } => content@,
        Node::Para { content, .. } => content@,
        Node::Char { content, .. } => content@,
        Node::Note { content, .. } => content@,
        Node::Figure { content, .. } => content@,
        Node::Sidebar { content, .. } => content@,
        Node::Periph { content, .. } => content@,
        Node::Table { content, .. } => content@,
        Node::TableRow { content, .. } => content@,
        Node::TableCell { content, .. } => content@,
        Node::Unknown { content, .. } => content@,
        _ => seq![],
    }
}

/// Whether a node holds children: all but chapters, verses, milestones
/// and text.
pub open spec fn spanned_container(n: Node) -> bool {
    !(n is Chapter || n is Verse || n is Milestone || n is Text)
}

/// The marker of a node; tables, peripherals and text have none.
pub open spec fn spanned_marker(n: Node) -> Option<Seq<char>> {
    match n {
        Node::Book { marker, .. } | Node::Chapter { marker, .. } | Node::Verse { marker, .. }
        | Node::Para { marker, .. } | Node::Char { marker, .. } | Node::Note { marker, .. }
        | Node::Milestone { marker, .. } | Node::Figure { marker, .. } | Node::Sidebar {
            marker,
            ..
        } | Node::TableRow { marker, .. } | Node::TableCell { marker, .. } | Node::Unknown {
            marker,
            ..
        } => Some(marker@),
        _ => None,
    }
}

/// The source span of a node; text has none.
pub open spec fn spanned_span(n: Node) -> Option<Span> {
    match n {
        Node::Book { span, .. } | Node::Chapter { span, .. } | Node::Verse { span, .. }
        | Node::Para { span, .. } | Node::Char { span, .. } | Node::Note { span, .. }
        | Node::Milestone { span, .. } | Node::Figure { span, .. } | Node::Sidebar { span, .. }
        | Node::Periph { span, .. } | Node::Table { span, .. } | Node::TableRow { span, .. }
        | Node::TableCell { span, .. } | Node::Unknown { span, .. } => Some(span),
        Node::Text(_) => None,
    }
}

impl Node {
    /// Shorthand for creating a text node.
    pub fn text(s: &str) -> (r: Self)
        ensures
            r matches Node::Text(t) && t@ == s@,
    {
        Node::Text(str_to_string(s))
    }

    /// The content of a container; empty for text, chapters, verses and
    /// milestones.
    pub fn children(&self) -> (r: &[Node])
        ensures
            r@ == spanned_children(*self),
    {
        match self {
            Node::Book { content, .. } | Node::Para { content, .. } | Node::Char { content, .. }
            | Node::Note { content, .. } | Node::Figure { content, .. } | Node::Sidebar {
                content,
                ..
            } | Node::Periph { content, .. } | Node::Table { content, .. } | Node::TableRow {
                content,
                ..
            } | Node::TableCell { content, .. } | Node::Unknown { content, .. } => content.as_slice(),
            _ => &[],
        }
    }

    /// The content vector of a container, to change in place; `None` for
    /// text, chapters, verses and milestones.
    pub fn children_mut(&mut self) -> (r: Option<&mut Vec<Node>>)
        ensures
            r is Some <==> spanned_container(*old(self)),
            r matches Some(v) ==> (*v)@ == spanned_children(*old(self)),
            r matches Some(v) ==> spanned_children(*final(self)) == (*final(v))@,
            r is None ==> *final(self) == *old(self),
    {
        match self {
            Node::Book { content, .. } => Some(content),
            Node::Para { content, .. } => Some(content),
            Node::Char { content, .. } => Some(content),
            Node::Note { content, .. } => Some(content),
            Node::Figure { content, .. } => Some(content),
            Node::Sidebar { content, .. } => Some(content),
            Node::Periph { content, .. } => Some(content),
            Node::Table { content, .. } => Some(content),
            Node::TableRow { content, .. } => Some(content),
            Node::TableCell { content, .. } => Some(content),
            Node::Unknown { content, .. } => Some(content),
            _ => None,
        }
    }

    /// The marker of the node; `None` for tables, peripherals and text.
    pub fn marker(&self) -> (r: Option<&str>)
        ensures
            r matches Some(m) ==> spanned_marker(*self) == Some(m@),
            r is None ==> spanned_marker(*self) is None,
    {
        match self {
            Node::Book { marker, .. } | Node::Chapter { marker, .. } | Node::Verse { marker, .. }
            | Node::Para { marker, .. } | Node::Char { marker, .. } | Node::Note { marker, .. }
            | Node::Milestone { marker, .. } | Node::Figure { marker, .. } | Node::Sidebar {
                marker,
                ..
            } | Node::TableRow { marker, .. } | Node::TableCell { marker, .. } | Node::Unknown {
                marker,
                ..
            } => Some(marker.as_str()),
            _ => None,
        }
    }

    /// The source span of the node; `None` for text.
    pub fn span(&self) -> (r: Option<&Span>)
        ensures
            r matches Some(s) ==> spanned_span(*self) == Some(*s),
            r is None ==> spanned_span(*self) is None,
    {
        match self {
            Node::Book { span, .. } | Node::Chapter { span, .. } | Node::Verse { span, .. }
            | Node::Para { span, .. } | Node::Char { span, .. } | Node::Note { span, .. }
            | Node::Milestone { span, .. } | Node::Figure { span, .. } | Node::Sidebar {
                span,
                ..
            } | Node::Periph { span, .. } | Node::Table { span, .. } | Node::TableRow {
                span,
                ..
            } | Node::TableCell { span, .. } | Node::Unknown { span, .. } => Some(span),
            Node::Text(_) => None,
        }
    }
}

} // verus!
