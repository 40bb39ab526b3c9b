//! The semantic USFM document tree.
use vstd::prelude::*;

use crate::markers::MarkerName;
use crate::text::str_to_string;

verus! {

/// The top-level semantic USFM document.
#[derive(Debug, PartialEq)]
pub struct Document {
    pub content: Vec<Node>,
}

impl Default for Document {
    /// The empty document.
    fn default() -> (r: Self)
        ensures
            r.content@.len() == 0,
    {
        Document { content: Vec::new() }
    }
}

impl Clone for Document {
    fn clone(&self) -> (r: Self)
        ensures
            r.content@.len() == self.content@.len(),
            same_trees(r.content@, self.content@),
    {
        Document { content: clone_nodes(&self.content) }
    }
}

impl Document {
    /// Creates an empty document.
    pub fn new() -> (r: Self)
        ensures
            r.content@.len() == 0,
    {
        Document { content: Vec::new() }
    }

    /// The document with all of its text owned; text is always owned here, so
    /// this is the document itself.
    pub fn into_owned(self) -> (r: Document)
        ensures
            r == self,
    {
        self
    }
}

/// A semantic node in the USFM document tree.
///
/// This tree intentionally omits source spans; source-backed location data lives
/// in the parallel source-map tree.
#[derive(Debug, PartialEq)]
pub enum Node {
    /// `\id` -- book identification.
    Book { marker: MarkerName, code: String, content: Vec<Node> },
    /// `\c` -- chapter milestone (not a container).
    Chapter(Box<ChapterData>),
    /// `\v` -- verse milestone (not a container).
    Verse(Box<VerseData>),
    /// `\p`, `\q1`, `\m`, `\li1`, `\b`, etc.
    Para { marker: MarkerName, content: Vec<Node> },
    /// `\nd`, `\bk`, `\add`, `\it`, etc.
    Char(Box<CharData>),
    /// `\f`, `\x` -- footnote or cross-reference container.
    Note { marker: MarkerName, caller: String, category: Option<String>, content: Vec<Node> },
    /// `\qt1-s`, `\qt1-e`, `\ts-s`, etc.
    Milestone { marker: MarkerName, attributes: Vec<Attribute> },
    /// `\fig` -- figure with attributes.
    Figure { marker: MarkerName, content: Vec<Node>, attributes: Vec<Attribute> },
    /// `\esb` ... `\esbe` -- sidebar container.
    Sidebar { marker: MarkerName, category: Option<String>, content: Vec<Node> },
    /// `\periph` -- peripheral content section.
    Periph { alt: Option<String>, content: Vec<Node>, attributes: Vec<Attribute> },
    /// Table container wrapping consecutive `\tr` rows.
    Table { content: Vec<Node> },
    /// `\tr` -- table row container.
    TableRow { marker: MarkerName, content: Vec<Node> },
    /// `\th1`, `\tc2`, etc. -- table cell.
    TableCell { marker: MarkerName, align: String, content: Vec<Node> },
    /// `\ref` -- scripture reference with target location.
    Ref { content: Vec<Node>, attributes: Vec<Attribute> },
    /// Unrecognized marker (from `\z` namespace or genuinely unknown).
    Unknown { marker: MarkerName, content: Vec<Node> },
    /// `//` -- optional line break.
    OptBreak,
    /// Plain text content.
    Text(String),
}

/// Information attached to a chapter marker (`\c`).
#[derive(Debug, PartialEq)]
pub struct ChapterData {
    pub marker: MarkerName,
    pub number: String,
    pub sid: Option<String>,
    pub altnumber: Option<String>,
    pub pubnumber: Option<String>,
}

/// Information attached to a verse marker (`\v`).
#[derive(Debug, PartialEq)]
pub struct VerseData {
    pub marker: MarkerName,
    pub number: String,
    pub sid: Option<String>,
    pub altnumber: Option<String>,
    pub pubnumber: Option<String>,
}

/// Information attached to a character-style marker (`\nd`, `\add`, etc.).
#[derive(Debug, PartialEq)]
pub struct CharData {
    pub marker: MarkerName,
    pub content: Vec<Node>,
    pub attributes: Vec<Attribute>,
}

impl Clone for CharData {
    fn clone(&self) -> (r: Self)
        ensures
            r.marker == self.marker,
            r.content@.len() == self.content@.len(),
            r.attributes@.len() == self.attributes@.len(),
            r.attributes@ == self.attributes@,
            same_trees(r.content@, self.content@),
    {
        CharData {
            marker: self.marker.clone(),
            content: clone_nodes(&self.content),
            attributes: clone_attributes(&self.attributes),
        }
    }
}

/// A key-value attribute (e.g. `|src="image.png"`).
#[derive(Debug, PartialEq)]
pub struct Attribute {
    pub key: String,
    pub value: String,
}

impl Clone for Attribute {
    fn clone(&self) -> (r: Self)
        ensures
            r == *self,
    {
        Attribute { key: self.key.clone(), value: self.value.clone() }
    }
}

fn clone_opt_string(s: &Option<String>) -> (r: Option<String>)
    ensures
        r == *s,
{
    match s {
        Some(x) => Some(x.clone()),
        None => None,
    }
}

impl Clone for ChapterData {
    fn clone(&self) -> (r: Self)
        ensures
            r == *self,
    {
        ChapterData {
            marker: self.marker.clone(),
            number: self.number.clone(),
            sid: clone_opt_string(&self.sid),
            altnumber: clone_opt_string(&self.altnumber),
            pubnumber: clone_opt_string(&self.pubnumber),
        }
    }
}

impl Clone for VerseData {
    fn clone(&self) -> (r: Self)
        ensures
            r == *self,
    {
        VerseData {
            marker: self.marker.clone(),
            number: self.number.clone(),
            sid: clone_opt_string(&self.sid),
            altnumber: clone_opt_string(&self.altnumber),
            pubnumber: clone_opt_string(&self.pubnumber),
        }
    }
}

fn clone_attributes(v: &Vec<Attribute>) -> (r: Vec<Attribute>)
    ensures
        r@ == v@,
{
    let mut out: Vec<Attribute> = Vec::new();
    let mut i: usize = 0;
    while i < v.len()
        invariant
            i <= v@.len(),
            out@ == v@.subrange(0, i as int),
        decreases v@.len() - i,
    {
        out.push(v[i].clone());
        assert(out@ =~= v@.subrange(0, i as int + 1));
        i += 1;
    }
    assert(out@ =~= v@);
    out
}

fn clone_nodes(v: &Vec<Node>) -> (r: Vec<Node>)
    ensures
        r@.len() == v@.len(),
        forall|i: int| 0 <= i < v@.len() ==> same_node_head(#[trigger] r@[i], v@[i]),
        same_trees(r@, v@),
{
    let mut out: Vec<Node> = Vec::new();
    let mut i: usize = 0;
    while i < v.len()
        invariant
            i <= v@.len(),
            out@.len() == i,
            forall|k: int| 0 <= k < i ==> same_node_head(#[trigger] out@[k], v@[k]),
            forall|k: int| 0 <= k < i ==> same_tree(#[trigger] out@[k], v@[k]),
        decreases v@.len() - i,
    {
        out.push(v[i].clone());
        i += 1;
    }
    out
}

impl ChapterData {
    pub fn into_owned(self) -> (r: ChapterData)
        ensures
            r == self,
    {
        self
    }
}

impl VerseData {
    pub fn into_owned(self) -> (r: VerseData)
        ensures
            r == self,
    {
        self
    }
}

impl CharData {
    pub fn into_owned(self) -> (r: CharData)
        ensures
            r == self,
    {
        self
    }
}

impl Attribute {
    pub fn into_owned(self) -> (r: Attribute)
        ensures
            r == self,
    {
        self
    }
}

/// The children of a node: its content for containers, nothing otherwise.
pub open spec fn children_of(n: Node) -> Seq<Node> {
    match n {
        Node::Book { content, .. } => content@,
        Node::Para { content, .. } => content@,
        Node::Note { content, .. } => content@,
        Node::Figure { content, .. } => content@,
        Node::Sidebar { content, .. } => content@,
        Node::Periph { content, .. } => content@,
        Node::Table { content } => content@,
        Node::TableRow { content, .. } => content@,
        Node::TableCell { content, .. } => content@,
        Node::Ref { content, .. } => content@,
        Node::Unknown { content, .. } => content@,
        Node::Char(data) => data.content@,
        _ => seq![],
    }
}

/// Whether a node is a container that holds children.
pub open spec fn is_container(n: Node) -> bool {
    !(n is Chapter || n is Verse || n is Milestone || n is OptBreak || n is Text)
}

/// The marker of a node, for the variants that have one.
pub open spec fn marker_of(n: Node) -> Option<MarkerName> {
    match n {
        Node::Book { marker, .. } => Some(marker),
        Node::Para { marker, .. } => Some(marker),
        Node::Note { marker, .. } => Some(marker),
        Node::Milestone { marker, .. } => Some(marker),
        Node::Figure { marker, .. } => Some(marker),
        Node::Sidebar { marker, .. } => Some(marker),
        Node::TableRow { marker, .. } => Some(marker),
        Node::TableCell { marker, .. } => Some(marker),
        Node::Unknown { marker, .. } => Some(marker),
        Node::Chapter(data) => Some(data.marker),
        Node::Verse(data) => Some(data.marker),
        Node::Char(data) => Some(data.marker),
        _ => None,
    }
}

/// `a` and `b` are the same tree: the same variant with the same markers,
/// text, numbers and attributes, and children that are the same trees,
/// pairwise.
pub open spec fn same_tree(a: Node, b: Node) -> bool
    decreases a, 1int,
{
    match a {
        Node::Book { marker, code, content } => b matches Node::Book { marker: m, code: c, content: k }
            && marker == m && code == c && same_trees(content@, k@),
        Node::Chapter(d) => b matches Node::Chapter(e) && d == e,
        Node::Verse(d) => b matches Node::Verse(e) && d == e,
        Node::Para { marker, content } => b matches Node::Para { marker: m, content: k } && marker == m
            && same_trees(content@, k@),
        Node::Char(d) => b matches Node::Char(e) && d.marker == e.marker && d.attributes@ == e.attributes@
            && same_trees(d.content@, e.content@),
        Node::Note { marker, caller, category, content } => b matches Node::Note {
            marker: m,
            caller: c,
            category: g,
            content: k,
        } && marker == m && caller == c && category == g && same_trees(content@, k@),
        Node::Milestone { marker, attributes } => b matches Node::Milestone { marker: m, attributes: t }
            && marker == m && attributes@ == t@,
        Node::Figure { marker, content, attributes } => b matches Node::Figure {
            marker: m,
            content: k,
            attributes: t,
        } && marker == m && attributes@ == t@ && same_trees(content@, k@),
        Node::Sidebar { marker, category, content } => b matches Node::Sidebar {
            marker: m,
            category: g,
            content: k,
        } && marker == m && category == g && same_trees(content@, k@),
        Node::Periph { alt, content, attributes } => b matches Node::Periph {
            alt: g,
            content: k,
            attributes: t,
        } && alt == g && attributes@ == t@ && same_trees(content@, k@),
        Node::Table { content } => b matches Node::Table { content: k } && same_trees(content@, k@),
        Node::TableRow { marker, content } => b matches Node::TableRow { marker: m, content: k }
            && marker == m && same_trees(content@, k@),
        Node::TableCell { marker, align, content } => b matches Node::TableCell {
            marker: m,
            align: g,
            content: k,
        } && marker == m && align == g && same_trees(content@, k@),
        Node::Ref { content, attributes } => b matches Node::Ref { content: k, attributes: t }
            && attributes@ == t@ && same_trees(content@, k@),
        Node::Unknown { marker, content } => b matches Node::Unknown { marker: m, content: k }
            && marker == m && same_trees(content@, k@),
        Node::OptBreak => b is OptBreak,
        Node::Text(t) => b matches Node::Text(u) && t == u,
    }
}

/// `a` and `b` hold the same trees, in the same order.
pub open spec fn same_trees(a: Seq<Node>, b: Seq<Node>) -> bool
    decreases a, 0int,
{
    &&& a.len() == b.len()
    &&& forall|i: int| 0 <= i < a.len() ==> same_tree(#[trigger] a[i], b[i])
}

/// Whether two nodes are the same variant with the same marker, text and
/// number of children.
pub open spec fn same_node_head(a: Node, b: Node) -> bool {
    &&& marker_of(a) == marker_of(b)
    &&& is_container(a) == is_container(b)
    &&& children_of(a).len() == children_of(b).len()
    &&& (a is Text <==> b is Text)
    &&& (a is Text ==> a->Text_0@ == b->Text_0@)
    &&& (a is OptBreak <==> b is OptBreak)
}

impl Clone for Node {
    fn clone(&self) -> (r: Self)
        ensures
            same_node_head(r, *self),
            same_tree(r, *self),
    {
        self.deep_clone()
    }
}

impl Node {
    /// A copy of the whole subtree.
    pub fn deep_clone(&self) -> (r: Self)
        ensures
            same_node_head(r, *self),
            same_tree(r, *self),
        decreases self,
    {
        match self {
            Node::Book { marker, code, content } => Node::Book {
                marker: marker.clone(),
                code: code.clone(),
                content: self.clone_children(content),
            },
            Node::Chapter(data) => Node::Chapter(Box::new((**data).clone())),
            Node::Verse(data) => Node::Verse(Box::new((**data).clone())),
            Node::Para { marker, content } => Node::Para {
                marker: marker.clone(),
                content: self.clone_children(content),
            },
            Node::Char(data) => Node::Char(
                Box::new(
                    CharData {
                        marker: data.marker.clone(),
                        content: self.clone_children(&data.content),
                        attributes: clone_attributes(&data.attributes),
                    },
                ),
            ),
            Node::Note { marker, caller, category, content } => Node::Note {
                marker: marker.clone(),
                caller: caller.clone(),
                category: clone_opt_string(category),
                content: self.clone_children(content),
            },
            Node::Milestone { marker, attributes } => Node::Milestone {
                marker: marker.clone(),
                attributes: clone_attributes(attributes),
            },
            Node::Figure { marker, content, attributes } => Node::Figure {
                marker: marker.clone(),
                content: self.clone_children(content),
                attributes: clone_attributes(attributes),
            },
            Node::Sidebar { marker, category, content } => Node::Sidebar {
                marker: marker.clone(),
                category: clone_opt_string(category),
                content: self.clone_children(content),
            },
            Node::Periph { alt, content, attributes } => Node::Periph {
                alt: clone_opt_string(alt),
                content: self.clone_children(content),
                attributes: clone_attributes(attributes),
            },
            Node::Table { content } => Node::Table { content: self.clone_children(content) },
            Node::TableRow { marker, content } => Node::TableRow {
                marker: marker.clone(),
                content: self.clone_children(content),
            },
            Node::TableCell { marker, align, content } => Node::TableCell {
                marker: marker.clone(),
                align: align.clone(),
                content: self.clone_children(content),
            },
            Node::Ref { content, attributes } => Node::Ref {
                content: self.clone_children(content),
                attributes: clone_attributes(attributes),
            },
            Node::Unknown { marker, content } => Node::Unknown {
                marker: marker.clone(),
                content: self.clone_children(content),
            },
            Node::OptBreak => Node::OptBreak,
            Node::Text(t) => Node::Text(t.clone()),
        }
    }

    fn clone_children(&self, v: &Vec<Node>) -> (r: Vec<Node>)
        requires
            v@ == children_of(*self),
        ensures
            r@.len() == v@.len(),
            same_trees(r@, v@),
        decreases self, 0int,
    {
        let mut out: Vec<Node> = Vec::new();
        let mut i: usize = 0;
        while i < v.len()
            invariant
                i <= v@.len(),
                v@ == children_of(*self),
                out@.len() == i,
                forall|k: int| 0 <= k < i ==> same_tree(#[trigger] out@[k], v@[k]),
            decreases v@.len() - i,
        {
            assert(decreases_to!(*self => v@[i as int]));
            out.push(v[i].deep_clone());
            i += 1;
        }
        out
    }

    /// Shorthand for creating a text node.
    pub fn text(s: &str) -> (r: Self)
        ensures
            r matches Node::Text(t) && t@ == s@,
    {
        Node::Text(str_to_string(s))
    }

    /// The node with all of its text owned; text is always owned here, so
    /// this is the node itself.
    pub fn into_owned(self) -> (r: Node)
        ensures
            r == self,
    {
        self
    }

    /// Returns the content/children slice.
    pub fn children(&self) -> (r: &[Node])
        ensures
            r@ == children_of(*self),
    {
        match self {
            Node::Book { content, .. } => content.as_slice(),
            Node::Para { content, .. } => content.as_slice(),
            Node::Note { content, .. } => content.as_slice(),
            Node::Figure { content, .. } => content.as_slice(),
            Node::Sidebar { content, .. } => content.as_slice(),
            Node::Periph { content, .. } => content.as_slice(),
            Node::Table { content } => content.as_slice(),
            Node::TableRow { content, .. } => content.as_slice(),
            Node::TableCell { content, .. } => content.as_slice(),
            Node::Ref { content, .. } => content.as_slice(),
            Node::Unknown { content, .. } => content.as_slice(),
            Node::Char(data) => data.content.as_slice(),
            _ => &[],
        }
    }

    /// Returns a mutable reference to the children vector, if the variant has one.
    pub fn children_mut(&mut self) -> (r: Option<&mut Vec<Node>>)
        ensures
            r is Some <==> is_container(*old(self)),
            r matches Some(v) ==> (*v)@ == children_of(*old(self)),
            r matches Some(v) ==> children_of(*final(self)) == (*final(v))@,
            r is None ==> *final(self) == *old(self),
    {
        match self {
            Node::Book { content, .. } => Some(content),
            Node::Para { content, .. } => Some(content),
            Node::Note { content, .. } => Some(content),
            Node::Figure { content, .. } => Some(content),
            Node::Sidebar { content, .. } => Some(content),
            Node::Periph { content, .. } => Some(content),
            Node::Table { content } => Some(content),
            Node::TableRow { content, .. } => Some(content),
            Node::TableCell { content, .. } => Some(content),
            Node::Ref { content, .. } => Some(content),
            Node::Unknown { content, .. } => Some(content),
            Node::Char(data) => Some(&mut data.content),
            _ => None,
        }
    }

    /// Returns the marker if the node has one.
    pub fn marker(&self) -> (r: Option<MarkerName>)
        ensures
            r == marker_of(*self),
    {
        match self {
            Node::Book { marker, .. } => Some(marker.clone()),
            Node::Para { marker, .. } => Some(marker.clone()),
            Node::Note { marker, .. } => Some(marker.clone()),
            Node::Milestone { marker, .. } => Some(marker.clone()),
            Node::Figure { marker, .. } => Some(marker.clone()),
            Node::Sidebar { marker, .. } => Some(marker.clone()),
            Node::TableRow { marker, .. } => Some(marker.clone()),
            Node::TableCell { marker, .. } => Some(marker.clone()),
            Node::Unknown { marker, .. } => Some(marker.clone()),
            Node::Chapter(data) => Some(data.marker.clone()),
            Node::Verse(data) => Some(data.marker.clone()),
            Node::Char(data) => Some(data.marker.clone()),
            _ => None,
        }
    }
}

} // verus!
