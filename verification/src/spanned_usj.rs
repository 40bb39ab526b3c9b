//! USJ for the span-carrying document tree: spans stay out of the JSON.
use vstd::prelude::*;

use crate::json::{
    Json, JsonValue, Member, compact, entry_views, json_views, pretty, to_compact_string,
    to_pretty_string,
};
use crate::spanned_ast::{Document, Node, Span, spanned_span};
use crate::text::str_to_string;
use crate::usj::{
    attributes_member, lemma_json_views_push, opt_member, push_attributes, push_member,
    push_opt_member, push_str_member, str_member,
};

verus! {

/// `"content"`, for a node with children.
pub open spec fn scontent_member(content: Seq<Node>) -> Seq<(Seq<char>, Json)>
    decreases content, 1int,
{
    if content.len() == 0 {
        seq![]
    } else {
        seq![("content"@, Json::Array(snodes_json(content)))]
    }
}

/// A node as JSON: text as a bare string, everything else as an object
/// tagged with its `"type"`, empty content and attributes and absent
/// optional fields left out, and no span.
pub open spec fn snode_json(n: Node) -> Json
    decreases n, 2int,
{
    match n {
        Node::Text(t) => Json::String(t@),
        Node::Book { marker, code, content, .. } => Json::Object(
            str_member("type"@, "book"@) + str_member("marker"@, marker@) + str_member("code"@, code@)
                + scontent_member(content@),
        ),
        Node::Chapter { marker, number, sid, altnumber, pubnumber, .. } => Json::Object(
            str_member("type"@, "chapter"@) + str_member("marker"@, marker@) + str_member(
                "number"@,
                number@,
            ) + opt_member("sid"@, sid) + opt_member("altnumber"@, altnumber) + opt_member(
                "pubnumber"@,
                pubnumber,
            ),
        ),
        Node::Verse { marker, number, sid, altnumber, pubnumber, .. } => Json::Object(
            str_member("type"@, "verse"@) + str_member("marker"@, marker@) + str_member(
                "number"@,
                number@,
            ) + opt_member("sid"@, sid) + opt_member("altnumber"@, altnumber) + opt_member(
                "pubnumber"@,
                pubnumber,
            ),
        ),
        Node::Para { marker, content, .. } => Json::Object(
            str_member("type"@, "para"@) + str_member("marker"@, marker@) + scontent_member(content@),
        ),
        Node::Char { marker, content, attributes, .. } => Json::Object(
            str_member("type"@, "char"@) + str_member("marker"@, marker@) + scontent_member(content@)
                + attributes_member(attributes@),
        ),
        Node::Note { marker, caller, category, content, .. } => Json::Object(
            str_member("type"@, "note"@) + str_member("marker"@, marker@) + str_member(
                "caller"@,
                caller@,
            ) + opt_member("category"@, category) + scontent_member(content@),
        ),
        Node::Milestone { marker, attributes, .. } => Json::Object(
            str_member("type"@, "ms"@) + str_member("marker"@, marker@) + attributes_member(
                attributes@,
            ),
        ),
        Node::Figure { marker, content, attributes, .. } => Json::Object(
            str_member("type"@, "figure"@) + str_member("marker"@, marker@) + scontent_member(
                content@,
            ) + attributes_member(attributes@),
        ),
        Node::Sidebar { marker, category, content, .. } => Json::Object(
            str_member("type"@, "sidebar"@) + str_member("marker"@, marker@) + opt_member(
                "category"@,
                category,
            ) + scontent_member(content@),
        ),
        Node::Periph { alt, content, attributes, .. } => Json::Object(
            str_member("type"@, "periph"@) + opt_member("alt"@, alt) + scontent_member(content@)
                + attributes_member(attributes@),
        ),
        Node::Table { content, .. } => Json::Object(
            str_member("type"@, "table"@) + scontent_member(content@),
        ),
        Node::TableRow { marker, content, .. } => Json::Object(
            str_member("type"@, "table:row"@) + str_member("marker"@, marker@) + scontent_member(
                content@,
            ),
        ),
        Node::TableCell { marker, align, content, .. } => Json::Object(
            str_member("type"@, "table:cell"@) + str_member("marker"@, marker@) + str_member(
                "align"@,
                align@,
            ) + scontent_member(content@),
        ),
        Node::Unknown { marker, content, .. } => Json::Object(
            str_member("type"@, "unknown"@) + str_member("marker"@, marker@) + scontent_member(
                content@,
            ),
        ),
    }
}

pub open spec fn snodes_json(nodes: Seq<Node>) -> Seq<Json>
    decreases nodes, 0int,
{
    if nodes.len() == 0 {
        seq![]
    } else {
        snodes_json(nodes.drop_last()).push(snode_json(nodes.last()))
    }
}

/// The span of a node and those of every node below it, in document order.
pub open spec fn span_tree(n: Node) -> Seq<Option<Span>>
    decreases n, 1int,
{
    match n {
        Node::Book { content, .. } | Node::Para { content, .. } | Node::Char { content, .. }
        | Node::Note { content, .. } | Node::Figure { content, .. } | Node::Sidebar { content, .. }
        | Node::Periph { content, .. } | Node::Table { content, .. } | Node::TableRow {
            content,
            ..
        } | Node::TableCell { content, .. } | Node::Unknown { content, .. } => seq![spanned_span(n)]
            + nodes_spans(content@),
        _ => seq![spanned_span(n)],
    }
}

/// The spans of `nodes` and of everything below them, in document order.
pub open spec fn nodes_spans(nodes: Seq<Node>) -> Seq<Option<Span>>
    decreases nodes, 0int,
{
    if nodes.len() == 0 {
        seq![]
    } else {
        nodes_spans(nodes.drop_last()) + span_tree(nodes.last())
    }
}

/// `nodes` and `other` give the same JSON and have the same spans, at
/// every depth.
pub open spec fn same_usj_nodes(nodes: Seq<Node>, other: Seq<Node>) -> bool {
    &&& nodes.len() == other.len()
    &&& snodes_json(nodes) == snodes_json(other)
    &&& forall|i: int| 0 <= i < nodes.len() ==> spanned_span(#[trigger] nodes[i]) == spanned_span(other[i])
    &&& nodes_spans(nodes) == nodes_spans(other)
}

fn push_content(fields: &mut Vec<Member>, content: &Vec<Node>)
    ensures
        entry_views(final(fields)@) == entry_views(old(fields)@) + scontent_member(content@),
    decreases content@, 1int,
{
    if content.len() == 0 {
        assert(entry_views(fields@) + scontent_member(content@) =~= entry_views(fields@));
        return;
    }
    let items = nodes_value(content);
    push_member(fields, "content", JsonValue::Array(items));
    assert(entry_views(old(fields)@).push(("content"@, Json::Array(snodes_json(content@))))
        =~= entry_views(old(fields)@) + scontent_member(content@));
}

/// The JSON values of `nodes`, in order.
pub fn nodes_value(nodes: &Vec<Node>) -> (r: Vec<JsonValue>)
    ensures
        json_views(r@) == snodes_json(nodes@),
    decreases nodes@, 0int,
{
    let mut out: Vec<JsonValue> = Vec::new();
    let mut i: usize = 0;
    assert(nodes@.subrange(0, 0) =~= Seq::<Node>::empty());
    while i < nodes.len()
        invariant
            i <= nodes@.len(),
            json_views(out@) == snodes_json(nodes@.subrange(0, i as int)),
        decreases nodes@.len() - i,
    {
        assert(decreases_to!(nodes@ => nodes@[i as int]));
        assert(nodes@.subrange(0, i + 1).drop_last() =~= nodes@.subrange(0, i as int));
        let v = node_value(&nodes[i]);
        proof {
            lemma_json_views_push(out@, v);
        }
        out.push(v);
        i += 1;
    }
    assert(nodes@.subrange(0, nodes@.len() as int) =~= nodes@);
    out
}

/// The JSON value of a node, as USJ writes it.
pub fn node_value(node: &Node) -> (r: JsonValue)
    ensures
        r@ == snode_json(*node),
    decreases *node, 2int,
{
    let mut fields: Vec<Member> = Vec::new();
    assert(entry_views(fields@) =~= seq![]);
    match node {
        Node::Text(t) => {
            return JsonValue::string(t.as_str());
        },
        Node::Book { marker, code, content, .. } => {
            push_str_member(&mut fields, "type", "book");
            push_str_member(&mut fields, "marker", marker.as_str());
            push_str_member(&mut fields, "code", code.as_str());
            push_content(&mut fields, content);
        },
        Node::Chapter { marker, number, sid, altnumber, pubnumber, .. } => {
            push_str_member(&mut fields, "type", "chapter");
            push_str_member(&mut fields, "marker", marker.as_str());
            push_str_member(&mut fields, "number", number.as_str());
            push_opt_member(&mut fields, "sid", sid);
            push_opt_member(&mut fields, "altnumber", altnumber);
            push_opt_member(&mut fields, "pubnumber", pubnumber);
        },
        Node::Verse { marker, number, sid, altnumber, pubnumber, .. } => {
            push_str_member(&mut fields, "type", "verse");
            push_str_member(&mut fields, "marker", marker.as_str());
            push_str_member(&mut fields, "number", number.as_str());
            push_opt_member(&mut fields, "sid", sid);
            push_opt_member(&mut fields, "altnumber", altnumber);
            push_opt_member(&mut fields, "pubnumber", pubnumber);
        },
        Node::Para { marker, content, .. } => {
            push_str_member(&mut fields, "type", "para");
            push_str_member(&mut fields, "marker", marker.as_str());
            push_content(&mut fields, content);
        },
        Node::Char { marker, content, attributes, .. } => {
            push_str_member(&mut fields, "type", "char");
            push_str_member(&mut fields, "marker", marker.as_str());
            push_content(&mut fields, content);
            push_attributes(&mut fields, attributes);
        },
        Node::Note { marker, caller, category, content, .. } => {
            push_str_member(&mut fields, "type", "note");
            push_str_member(&mut fields, "marker", marker.as_str());
            push_str_member(&mut fields, "caller", caller.as_str());
            push_opt_member(&mut fields, "category", category);
            push_content(&mut fields, content);
        },
        Node::Milestone { marker, attributes, .. } => {
            push_str_member(&mut fields, "type", "ms");
            push_str_member(&mut fields, "marker", marker.as_str());
            push_attributes(&mut fields, attributes);
        },
        Node::Figure { marker, content, attributes, .. } => {
            push_str_member(&mut fields, "type", "figure");
            push_str_member(&mut fields, "marker", marker.as_str());
            push_content(&mut fields, content);
            push_attributes(&mut fields, attributes);
        },
        Node::Sidebar { marker, category, content, .. } => {
            push_str_member(&mut fields, "type", "sidebar");
            push_str_member(&mut fields, "marker", marker.as_str());
            push_opt_member(&mut fields, "category", category);
            push_content(&mut fields, content);
        },
        Node::Periph { alt, content, attributes, .. } => {
            push_str_member(&mut fields, "type", "periph");
            push_opt_member(&mut fields, "alt", alt);
            push_content(&mut fields, content);
            push_attributes(&mut fields, attributes);
        },
        Node::Table { content, .. } => {
            push_str_member(&mut fields, "type", "table");
            push_content(&mut fields, content);
        },
        Node::TableRow { marker, content, .. } => {
            push_str_member(&mut fields, "type", "table:row");
            push_str_member(&mut fields, "marker", marker.as_str());
            push_content(&mut fields, content);
        },
        Node::TableCell { marker, align, content, .. } => {
            push_str_member(&mut fields, "type", "table:cell");
            push_str_member(&mut fields, "marker", marker.as_str());
            push_str_member(&mut fields, "align", align.as_str());
            push_content(&mut fields, content);
        },
        Node::Unknown { marker, content, .. } => {
            push_str_member(&mut fields, "type", "unknown");
            push_str_member(&mut fields, "marker", marker.as_str());
            push_content(&mut fields, content);
        },
    }
    JsonValue::Object(fields)
}

/// The JSON value of a bare document: `{"content": [...]}`.
pub fn document_value(doc: &Document) -> (r: JsonValue)
    ensures
        r@ == Json::Object(seq![("content"@, Json::Array(snodes_json(doc.content@)))]),
{
    let mut fields: Vec<Member> = Vec::new();
    assert(entry_views(fields@) =~= seq![]);
    push_member(&mut fields, "content", JsonValue::Array(nodes_value(&doc.content)));
    assert(entry_views(fields@) =~= seq![("content"@, Json::Array(snodes_json(doc.content@)))]);
    JsonValue::Object(fields)
}

/// USJ document wrapper with version metadata: the document's content
/// inside the `type` and `version` fields of the USJ envelope.
#[derive(Debug)]
pub struct UsjDocument {
    pub doc_type: String,
    pub version: String,
    pub content: Vec<Node>,
}

/// The JSON of a USJ document: `{"type", "version", "content"}`, content
/// kept even when empty.
pub open spec fn usj_document_json(u: UsjDocument) -> Json {
    Json::Object(
        seq![
            ("type"@, Json::String(u.doc_type@)),
            ("version"@, Json::String(u.version@)),
            ("content"@, Json::Array(snodes_json(u.content@))),
        ],
    )
}

/// The JSON of the USJ document of `content`.
pub open spec fn spanned_usj_json(content: Seq<Node>) -> Json {
    Json::Object(
        seq![
            ("type"@, Json::String("USJ"@)),
            ("version"@, Json::String("3.1"@)),
            ("content"@, Json::Array(snodes_json(content))),
        ],
    )
}

impl UsjDocument {
    /// The USJ document of `doc`: type `USJ`, version `3.1`, and a copy of
    /// its content.
    pub fn from_document(doc: &Document) -> (r: Self)
        ensures
            r.doc_type@ == "USJ"@,
            r.version@ == "3.1"@,
            same_usj_nodes(r.content@, doc.content@),
            usj_document_json(r) == spanned_usj_json(doc.content@),
    {
        UsjDocument {
            doc_type: str_to_string("USJ"),
            version: str_to_string("3.1"),
            content: clone_nodes(&doc.content),
        }
    }

    /// The JSON value of this document.
    pub fn to_value(&self) -> (r: JsonValue)
        ensures
            r@ == usj_document_json(*self),
    {
        let mut fields: Vec<Member> = Vec::new();
        assert(entry_views(fields@) =~= seq![]);
        push_member(&mut fields, "type", JsonValue::string(self.doc_type.as_str()));
        push_member(&mut fields, "version", JsonValue::string(self.version.as_str()));
        push_member(&mut fields, "content", JsonValue::Array(nodes_value(&self.content)));
        assert(entry_views(fields@) =~= seq![
            ("type"@, Json::String(self.doc_type@)),
            ("version"@, Json::String(self.version@)),
            ("content"@, Json::Array(snodes_json(self.content@))),
        ]);
        JsonValue::Object(fields)
    }
}

/// A copy of `nodes` with the same JSON and spans.
pub fn clone_nodes(nodes: &Vec<Node>) -> (r: Vec<Node>)
    ensures
        same_usj_nodes(r@, nodes@),
    decreases nodes@, 0int,
{
    let mut out: Vec<Node> = Vec::new();
    let mut i: usize = 0;
    assert(nodes@.subrange(0, 0) =~= Seq::<Node>::empty());
    while i < nodes.len()
        invariant
            i <= nodes@.len(),
            same_usj_nodes(out@, nodes@.subrange(0, i as int)),
        decreases nodes@.len() - i,
    {
        assert(decreases_to!(nodes@ => nodes@[i as int]));
        let ghost sub = nodes@.subrange(0, i + 1);
        assert(sub.drop_last() =~= nodes@.subrange(0, i as int));
        let n = clone_node(&nodes[i]);
        let ghost before = out@;
        out.push(n);
        assert(out@.drop_last() =~= before);
        assert forall|k: int| 0 <= k < out@.len() implies spanned_span(#[trigger] out@[k]) == spanned_span(
            sub[k],
        ) by {
            if k < i {
                assert(out@[k] == before[k]);
                assert(sub[k] == nodes@.subrange(0, i as int)[k]);
            }
        }
        i += 1;
    }
    assert(nodes@.subrange(0, nodes@.len() as int) =~= nodes@);
    out
}

fn clone_opt(s: &Option<String>) -> (r: Option<String>)
    ensures
        r == *s,
{
    match s {
        Some(x) => Some(x.clone()),
        None => None,
    }
}

/// A copy of `node` with the same JSON and span.
pub fn clone_node(node: &Node) -> (r: Node)
    ensures
        snode_json(r) == snode_json(*node),
        spanned_span(r) == spanned_span(*node),
        span_tree(r) == span_tree(*node),
    decreases *node, 2int,
{
    match node {
        Node::Text(t) => Node::Text(t.clone()),
        Node::Book { marker, code, content, span } => Node::Book {
            marker: marker.clone(),
            code: code.clone(),
            content: clone_nodes(content),
            span: span.clone(),
        },
        Node::Chapter { marker, number, sid, altnumber, pubnumber, span } => Node::Chapter {
            marker: marker.clone(),
            number: number.clone(),
            sid: clone_opt(sid),
            altnumber: clone_opt(altnumber),
            pubnumber: clone_opt(pubnumber),
            span: span.clone(),
        },
        Node::Verse { marker, number, sid, altnumber, pubnumber, span } => Node::Verse {
            marker: marker.clone(),
            number: number.clone(),
            sid: clone_opt(sid),
            altnumber: clone_opt(altnumber),
            pubnumber: clone_opt(pubnumber),
            span: span.clone(),
        },
        Node::Para { marker, content, span } => Node::Para {
            marker: marker.clone(),
            content: clone_nodes(content),
            span: span.clone(),
        },
        Node::Char { marker, content, attributes, span } => Node::Char {
            marker: marker.clone(),
            content: clone_nodes(content),
            attributes: clone_attributes(attributes),
            span: span.clone(),
        },
        Node::Note { marker, caller, category, content, span } => Node::Note {
            marker: marker.clone(),
            caller: caller.clone(),
            category: clone_opt(category),
            content: clone_nodes(content),
            span: span.clone(),
        },
        Node::Milestone { marker, attributes, span } => Node::Milestone {
            marker: marker.clone(),
            attributes: clone_attributes(attributes),
            span: span.clone(),
        },
        Node::Figure { marker, content, attributes, span } => Node::Figure {
            marker: marker.clone(),
            content: clone_nodes(content),
            attributes: clone_attributes(attributes),
            span: span.clone(),
        },
        Node::Sidebar { marker, category, content, span } => Node::Sidebar {
            marker: marker.clone(),
            category: clone_opt(category),
            content: clone_nodes(content),
            span: span.clone(),
        },
        Node::Periph { alt, content, attributes, span } => Node::Periph {
            alt: clone_opt(alt),
            content: clone_nodes(content),
            attributes: clone_attributes(attributes),
            span: span.clone(),
        },
        Node::Table { content, span } => Node::Table { content: clone_nodes(content), span: span.clone() },
        Node::TableRow { marker, content, span } => Node::TableRow {
            marker: marker.clone(),
            content: clone_nodes(content),
            span: span.clone(),
        },
        Node::TableCell { marker, align, content, span } => Node::TableCell {
            marker: marker.clone(),
            align: align.clone(),
            content: clone_nodes(content),
            span: span.clone(),
        },
        Node::Unknown { marker, content, span } => Node::Unknown {
            marker: marker.clone(),
            content: clone_nodes(content),
            span: span.clone(),
        },
    }
}

fn clone_attributes(v: &Vec<crate::ast::Attribute>) -> (r: Vec<crate::ast::Attribute>)
    ensures
        r@ == v@,
{
    let mut out: Vec<crate::ast::Attribute> = Vec::new();
    let mut i: usize = 0;
    while i < v.len()
        invariant
            i <= v@.len(),
            out@ == v@.subrange(0, i as int),
        decreases v@.len() - i,
    {
        out.push(v[i].clone());
        assert(v@.subrange(0, i + 1) =~= v@.subrange(0, i as int).push(v@[i as int]));
        i += 1;
    }
    assert(v@.subrange(0, v@.len() as int) =~= v@);
    out
}

/// The compact USJ text of `doc`; the string encoder never fails here.
pub fn to_usj_string(doc: &Document) -> (r: Result<String, serde_json::Error>)
    ensures
        r matches Ok(t) && t@ == compact(spanned_usj_json(doc.content@)),
{
    let usj = UsjDocument::from_document(doc);
    to_compact_string(&usj.to_value())
}

/// The indented USJ text of `doc`; the string encoder never fails here.
pub fn to_usj_string_pretty(doc: &Document) -> (r: Result<String, serde_json::Error>)
    ensures
        r matches Ok(t) && t@ == pretty(spanned_usj_json(doc.content@), seq![]),
{
    let usj = UsjDocument::from_document(doc);
    to_pretty_string(&usj.to_value())
}

/// The USJ value of `doc`.
pub fn to_usj_value(doc: &Document) -> (r: Result<JsonValue, serde_json::Error>)
    ensures
        r matches Ok(v) && v@ == spanned_usj_json(doc.content@),
{
    let usj = UsjDocument::from_document(doc);
    Ok(usj.to_value())
}

} // verus!
