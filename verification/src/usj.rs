//! USJ: the JSON form of a USFM document.
use vstd::prelude::*;

use crate::ast::{Attribute, Document, Node};
use crate::diagnostics::Span;
use crate::json::{
    Json, JsonValue, Member, compact, entry_views, json_views, pretty, to_compact_string,
    to_pretty_string,
};
use crate::source_map::{SourceMap, SourceNode, SourceSpans, aligned, aligned_all};
use crate::text::{push_str, str_to_string};

verus! {

/// Options controlling USJ serialization.
#[derive(Debug, Clone, Copy)]
pub struct UsjOptions {
    /// Add the source spans of each node under `"spans"`.
    pub include_spans: bool,
}

impl Default for UsjOptions {
    fn default() -> (r: Self)
        ensures
            !r.include_spans,
    {
        UsjOptions { include_spans: false }
    }
}

#[derive(Debug)]
pub enum UsjError {
    MissingSourceMapForSpans,
    SourceMapShapeMismatch,
    Serialization(serde_json::Error),
}

/// `Display` of `serde_json::Error`: its message, with line and column
/// where it has them.  Nothing is claimed of the text.
#[verifier::external_body]
fn json_error_text(e: &serde_json::Error) -> String {
    e.to_string()
}

impl UsjError {
    /// The message of the error.
    pub fn to_display_string(&self) -> (r: String)
        ensures
            self is MissingSourceMapForSpans ==> r@ == "USJ span output requires a source map"@,
            self is SourceMapShapeMismatch ==> r@ == "source map does not match AST shape"@,
    {
        match self {
            UsjError::MissingSourceMapForSpans => str_to_string("USJ span output requires a source map"),
            UsjError::SourceMapShapeMismatch => str_to_string("source map does not match AST shape"),
            UsjError::Serialization(e) => json_error_text(e),
        }
    }
}

// ---------------------------------------------------------------------------
// What a document becomes
// ---------------------------------------------------------------------------

pub open spec fn str_member(key: Seq<char>, value: Seq<char>) -> Seq<(Seq<char>, Json)> {
    seq![(key, Json::String(value))]
}

pub open spec fn opt_member(key: Seq<char>, value: Option<String>) -> Seq<(Seq<char>, Json)> {
    match value {
        Some(v) => seq![(key, Json::String(v@))],
        None => seq![],
    }
}

pub open spec fn attribute_json(a: Attribute) -> Json {
    Json::Object(seq![("key"@, Json::String(a.key@)), ("value"@, Json::String(a.value@))])
}

/// `"attributes"`, for a node that has any: each as `{"key", "value"}`.
pub open spec fn attributes_member(attrs: Seq<Attribute>) -> Seq<(Seq<char>, Json)> {
    if attrs.len() == 0 {
        seq![]
    } else {
        seq![("attributes"@, Json::Array(Seq::new(attrs.len(), |i: int| attribute_json(attrs[i]))))]
    }
}

pub open spec fn span_json(s: Span) -> Json {
    Json::Array(seq![Json::Number(s.start as nat), Json::Number(s.end as nat)])
}

pub open spec fn opt_span_member(key: Seq<char>, s: Option<Span>) -> Seq<(Seq<char>, Json)> {
    match s {
        Some(sp) => seq![(key, span_json(sp))],
        None => seq![],
    }
}

/// The spans of a node as `{"node": [start, end], "code": .., "number": ..,
/// "close": ..}`, each of the last three where present.
pub open spec fn spans_json(sp: SourceSpans) -> Json {
    Json::Object(
        seq![("node"@, span_json(sp.node))] + opt_span_member("code"@, sp.code) + opt_span_member(
            "number"@,
            sp.number,
        ) + opt_span_member("close"@, sp.close),
    )
}

/// `"spans"`, when spans are asked for and the node's source entry has them.
pub open spec fn spans_member(src: Option<SourceNode>, include_spans: bool) -> Seq<(Seq<char>, Json)> {
    if include_spans && src is Some && src->0.spans is Some {
        seq![("spans"@, spans_json(src->0.spans->0))]
    } else {
        seq![]
    }
}

pub open spec fn child_sources(src: Option<SourceNode>) -> Option<Seq<SourceNode>> {
    match src {
        Some(s) => Some(s.children@),
        None => None,
    }
}

pub open spec fn drop_last_source(srcs: Option<Seq<SourceNode>>) -> Option<Seq<SourceNode>> {
    match srcs {
        Some(s) => Some(s.drop_last()),
        None => None,
    }
}

pub open spec fn last_source(srcs: Option<Seq<SourceNode>>) -> Option<SourceNode> {
    match srcs {
        Some(s) => Some(s.last()),
        None => None,
    }
}

/// `"content"`, for a node with children.
pub open spec fn content_member(content: Seq<Node>, src: Option<SourceNode>, include_spans: bool) -> Seq<
    (Seq<char>, Json),
>
    decreases content, 1int,
{
    if content.len() == 0 {
        seq![]
    } else {
        seq![("content"@, Json::Array(usj_nodes(content, child_sources(src), include_spans)))]
    }
}

/// A node in USJ: text as a bare string, everything else as an object
/// with its `"type"` first.
pub open spec fn usj_node(n: Node, src: Option<SourceNode>, include_spans: bool) -> Json
    decreases n, 2int,
{
    let spans = spans_member(src, include_spans);
    match n {
        Node::Text(t) => Json::String(t@),
        Node::OptBreak => Json::Object(str_member("type"@, "optbreak"@) + spans),
        Node::Book { marker, code, content } => Json::Object(
            str_member("type"@, "book"@) + str_member("marker"@, marker@) + str_member("code"@, code@)
                + content_member(content@, src, include_spans) + spans,
        ),
        Node::Chapter(d) => Json::Object(
            str_member("type"@, "chapter"@) + str_member("marker"@, d.marker@) + str_member(
                "number"@,
                d.number@,
            ) + opt_member("sid"@, d.sid) + opt_member("altnumber"@, d.altnumber) + opt_member(
                "pubnumber"@,
                d.pubnumber,
            ) + spans,
        ),
        Node::Verse(d) => Json::Object(
            str_member("type"@, "verse"@) + str_member("marker"@, d.marker@) + str_member(
                "number"@,
                d.number@,
            ) + opt_member("sid"@, d.sid) + opt_member("altnumber"@, d.altnumber) + opt_member(
                "pubnumber"@,
                d.pubnumber,
            ) + spans,
        ),
        Node::Para { marker, content } => Json::Object(
            str_member("type"@, "para"@) + str_member("marker"@, marker@) + content_member(
                content@,
                src,
                include_spans,
            ) + spans,
        ),
        Node::Char(d) => Json::Object(
            str_member("type"@, "char"@) + str_member("marker"@, d.marker@) + content_member(
                d.content@,
                src,
                include_spans,
            ) + attributes_member(d.attributes@) + spans,
        ),
        Node::Note { marker, caller, category, content } => Json::Object(
            str_member("type"@, "note"@) + str_member("marker"@, marker@) + str_member(
                "caller"@,
                caller@,
            ) + opt_member("category"@, category) + content_member(content@, src, include_spans)
                + spans,
        ),
        Node::Milestone { marker, attributes } => Json::Object(
            str_member("type"@, "ms"@) + str_member("marker"@, marker@) + attributes_member(
                attributes@,
            ) + spans,
        ),
        Node::Figure { marker, content, attributes } => Json::Object(
            str_member("type"@, "figure"@) + str_member("marker"@, marker@) + content_member(
                content@,
                src,
                include_spans,
            ) + attributes_member(attributes@) + spans,
        ),
        Node::Sidebar { marker, category, content } => Json::Object(
            str_member("type"@, "sidebar"@) + str_member("marker"@, marker@) + opt_member(
                "category"@,
                category,
            ) + content_member(content@, src, include_spans) + spans,
        ),
        Node::Periph { alt, content, attributes } => Json::Object(
            str_member("type"@, "periph"@) + opt_member("alt"@, alt) + content_member(
                content@,
                src,
                include_spans,
            ) + attributes_member(attributes@) + spans,
        ),
        Node::Table { content } => Json::Object(
            str_member("type"@, "table"@) + content_member(content@, src, include_spans) + spans,
        ),
        Node::TableRow { marker, content } => Json::Object(
            str_member("type"@, "table:row"@) + str_member("marker"@, marker@) + content_member(
                content@,
                src,
                include_spans,
            ) + spans,
        ),
        Node::TableCell { marker, align, content } => Json::Object(
            str_member("type"@, "table:cell"@) + str_member("marker"@, marker@) + str_member(
                "align"@,
                align@,
            ) + content_member(content@, src, include_spans) + spans,
        ),
        Node::Ref { content, attributes } => Json::Object(
            str_member("type"@, "ref"@) + content_member(content@, src, include_spans)
                + attributes_member(attributes@) + spans,
        ),
        Node::Unknown { marker, content } => Json::Object(
            str_member("type"@, "unknown"@) + str_member("marker"@, marker@) + content_member(
                content@,
                src,
                include_spans,
            ) + spans,
        ),
    }
}

/// The USJ of a node list is the USJ of each node, in order, each with
/// the source entry beside it.
pub proof fn law_usj_nodes(nodes: Seq<Node>, srcs: Option<Seq<SourceNode>>, include_spans: bool)
    requires
        srcs matches Some(s) ==> s.len() == nodes.len(),
    ensures
        usj_nodes(nodes, srcs, include_spans).len() == nodes.len(),
        forall|k: int|
            0 <= k < nodes.len() ==> #[trigger] usj_nodes(nodes, srcs, include_spans)[k] == usj_node(
                nodes[k],
                match srcs {
                    Some(s) => Some(s[k]),
                    None => None,
                },
                include_spans,
            ),
    decreases nodes.len(),
{
    if nodes.len() > 0 {
        law_usj_nodes(nodes.drop_last(), drop_last_source(srcs), include_spans);
        assert forall|k: int| 0 <= k < nodes.len() implies #[trigger] usj_nodes(nodes, srcs, include_spans)[k]
            == usj_node(
            nodes[k],
            match srcs {
                Some(s) => Some(s[k]),
                None => None,
            },
            include_spans,
        ) by {
            if k < nodes.len() - 1 {
                assert(nodes.drop_last()[k] == nodes[k]);
                if let Some(s) = srcs {
                    assert(s.drop_last()[k] == s[k]);
                }
            }
        }
    }
}

/// The USJ object of a node begins with its `"type"`, then its
/// `"marker"` where it has one, then: for a book its `"code"`, for a note
/// its `"caller"`, for a table cell its `"align"`.
pub proof fn law_usj_head(n: Node, src: Option<SourceNode>, include_spans: bool)
    requires
        n is Book || n is Note || n is TableCell,
    ensures
        usj_node(n, src, include_spans) matches Json::Object(es) && es.len() >= 3 && match n {
            Node::Book { marker, code, .. } => es[0] == ("type"@, Json::String("book"@)) && es[1] == (
                "marker"@,
                Json::String(marker@),
            ) && es[2] == ("code"@, Json::String(code@)),
            Node::Note { marker, caller, .. } => es[0] == ("type"@, Json::String("note"@)) && es[1] == (
                "marker"@,
                Json::String(marker@),
            ) && es[2] == ("caller"@, Json::String(caller@)),
            Node::TableCell { marker, align, .. } => es[0] == ("type"@, Json::String("table:cell"@)) && es[1]
                == ("marker"@, Json::String(marker@)) && es[2] == ("align"@, Json::String(align@)),
            _ => true,
        },
{
}

/// The attributes `attrs` stand in the member list `es` as an
/// `"attributes"` array, each attribute in order as `{"key", "value"}`.
pub open spec fn attributes_listed(es: Seq<(Seq<char>, Json)>, attrs: Seq<Attribute>) -> bool {
    exists|i: int|
        0 <= i < es.len() && #[trigger] es[i].0 == "attributes"@ && (es[i].1 matches Json::Array(items)
            && items.len() == attrs.len() && forall|k: int|
            0 <= k < attrs.len() ==> #[trigger] items[k] == Json::Object(
                seq![("key"@, Json::String(attrs[k].key@)), ("value"@, Json::String(attrs[k].value@))],
            ))
}

/// A character, milestone or figure node with attributes carries them in
/// its USJ object as an `"attributes"` array, each attribute in order as
/// `{"key", "value"}`.
pub proof fn law_usj_attributes(n: Node, src: Option<SourceNode>, include_spans: bool)
    requires
        n is Char || n is Milestone || n is Figure,
    ensures
        usj_node(n, src, include_spans) is Object,
        n matches Node::Char(d) ==> (d.attributes@.len() > 0 ==> attributes_listed(
            usj_node(n, src, include_spans)->Object_0,
            d.attributes@,
        )),
        n matches Node::Milestone { attributes, .. } ==> (attributes@.len() > 0 ==> attributes_listed(
            usj_node(n, src, include_spans)->Object_0,
            attributes@,
        )),
        n matches Node::Figure { attributes, .. } ==> (attributes@.len() > 0 ==> attributes_listed(
            usj_node(n, src, include_spans)->Object_0,
            attributes@,
        )),
{
    let spans = spans_member(src, include_spans);
    let (pre, attrs) = match n {
        Node::Char(d) => (
            str_member("type"@, "char"@) + str_member("marker"@, d.marker@) + content_member(
                d.content@,
                src,
                include_spans,
            ),
            d.attributes@,
        ),
        Node::Milestone { marker, attributes } => (
            str_member("type"@, "ms"@) + str_member("marker"@, marker@),
            attributes@,
        ),
        Node::Figure { marker, content, attributes } => (
            str_member("type"@, "figure"@) + str_member("marker"@, marker@) + content_member(
                content@,
                src,
                include_spans,
            ),
            attributes@,
        ),
        _ => (seq![], seq![]),
    };
    let es = pre + attributes_member(attrs) + spans;
    assert(usj_node(n, src, include_spans) == Json::Object(es));
    if attrs.len() > 0 {
        let i = pre.len() as int;
        assert(es[i] == attributes_member(attrs)[0]);
        assert(es[i].0 == "attributes"@);
        let items = Seq::new(attrs.len(), |q: int| attribute_json(attrs[q]));
        assert(es[i].1 == Json::Array(items));
        assert forall|k: int| 0 <= k < attrs.len() implies #[trigger] items[k] == Json::Object(
            seq![("key"@, Json::String(attrs[k].key@)), ("value"@, Json::String(attrs[k].value@))],
        ) by {}
        assert(attributes_listed(es, attrs));
    }
}

/// A chapter or verse with a sid carries it in its USJ object as a `"sid"`
/// string member, beside its `"type"`, `"marker"` and `"number"`; without
/// a sid it carries no `"sid"` member.
pub proof fn law_usj_sid(n: Node, src: Option<SourceNode>, include_spans: bool)
    requires
        n is Chapter || n is Verse,
    ensures
        usj_node(n, src, include_spans) matches Json::Object(es) && ({
            let (ty, d_marker, d_number, d_sid) = match n {
                Node::Chapter(d) => ("chapter"@, d.marker@, d.number@, d.sid),
                Node::Verse(d) => ("verse"@, d.marker@, d.number@, d.sid),
                _ => (seq![], seq![], seq![], None),
            };
            &&& es.len() >= 3
            &&& es[0] == ("type"@, Json::String(ty))
            &&& es[1] == ("marker"@, Json::String(d_marker))
            &&& es[2] == ("number"@, Json::String(d_number))
            &&& d_sid matches Some(s) ==> es[3] == ("sid"@, Json::String(s@))
            &&& d_sid is None ==> forall|i: int| 0 <= i < es.len() ==> (#[trigger] es[i]).0 != "sid"@
        }),
{
    reveal_strlit("sid");
    reveal_strlit("type");
    reveal_strlit("marker");
    reveal_strlit("number");
    reveal_strlit("altnumber");
    reveal_strlit("pubnumber");
    reveal_strlit("spans");
    let (ty, d_marker, d_number, d_sid, alt, pubn) = match n {
        Node::Chapter(d) => ("chapter"@, d.marker@, d.number@, d.sid, d.altnumber, d.pubnumber),
        Node::Verse(d) => ("verse"@, d.marker@, d.number@, d.sid, d.altnumber, d.pubnumber),
        _ => (seq![], seq![], seq![], None, None, None),
    };
    let head = str_member("type"@, ty) + str_member("marker"@, d_marker) + str_member("number"@, d_number);
    let tail = opt_member("altnumber"@, alt) + opt_member("pubnumber"@, pubn) + spans_member(src, include_spans);
    let es = head + opt_member("sid"@, d_sid) + tail;
    assert(usj_node(n, src, include_spans) == Json::Object(es)) by {
        assert(head + opt_member("sid"@, d_sid) + tail =~= head + opt_member("sid"@, d_sid) + opt_member(
            "altnumber"@,
            alt,
        ) + opt_member("pubnumber"@, pubn) + spans_member(src, include_spans));
    }
    assert(head =~= seq![
        ("type"@, Json::String(ty)),
        ("marker"@, Json::String(d_marker)),
        ("number"@, Json::String(d_number)),
    ]);
    assert forall|i: int| 0 <= i < tail.len() implies (#[trigger] tail[i]).0 != "sid"@ by {
        let a1 = opt_member("altnumber"@, alt);
        let a2 = opt_member("pubnumber"@, pubn);
        let a3 = spans_member(src, include_spans);
        assert(tail =~= a1 + a2 + a3);
        assert("sid"@.len() == 3);
        if i < a1.len() {
            assert(tail[i] == a1[i]);
            assert(a1[i].0 == "altnumber"@);
            assert("altnumber"@.len() == 9);
        } else if i < a1.len() + a2.len() {
            assert(tail[i] == a2[i - a1.len()]);
            assert(a2[i - a1.len()].0 == "pubnumber"@);
            assert("pubnumber"@.len() == 9);
        } else {
            assert(tail[i] == a3[i - a1.len() - a2.len()]);
            assert(a3[i - a1.len() - a2.len()].0 == "spans"@);
            assert("spans"@.len() == 5);
        }
    }
    if d_sid is None {
        assert(es =~= head + tail);
        assert forall|i: int| 0 <= i < es.len() implies (#[trigger] es[i]).0 != "sid"@ by {
            assert("sid"@.len() == 3);
            assert("type"@.len() == 4);
            assert("marker"@.len() == 6);
            assert("number"@.len() == 6);
            if i >= 3 {
                assert(es[i] == tail[i - 3]);
            } else {
                assert(es[i] == head[i]);
            }
        }
    }
}

/// The nodes in USJ, each with its source entry when there is a source map.
pub open spec fn usj_nodes(nodes: Seq<Node>, srcs: Option<Seq<SourceNode>>, include_spans: bool) -> Seq<
    Json,
>
    decreases nodes, 0int,
{
    if nodes.len() == 0 {
        seq![]
    } else {
        usj_nodes(nodes.drop_last(), drop_last_source(srcs), include_spans).push(
            usj_node(nodes.last(), last_source(srcs), include_spans),
        )
    }
}

/// The USJ envelope of a document.
pub open spec fn usj_document(content: Seq<Node>, srcs: Option<Seq<SourceNode>>, include_spans: bool) -> Json {
    Json::Object(
        seq![
            ("type"@, Json::String("USJ"@)),
            ("version"@, Json::String("3.1"@)),
            ("content"@, Json::Array(usj_nodes(content, srcs, include_spans))),
        ],
    )
}

/// The source-map nodes `srcs` stand one for one beside `nodes`, and so on
/// down through every node that has children.
pub open spec fn usj_shapes_ok(nodes: Seq<Node>, srcs: Seq<SourceNode>) -> bool
    decreases nodes, 0int,
{
    &&& nodes.len() == srcs.len()
    &&& forall|k: int|
        0 <= k < nodes.len() ==> {
            proof {
                assert(decreases_to!(nodes => nodes[k]));
            }
            usj_shape_ok(#[trigger] nodes[k], srcs[k])
        }
}

pub open spec fn usj_shape_ok(n: Node, s: SourceNode) -> bool
    decreases n, 1int,
{
    match n {
        Node::Book { content, .. } | Node::Para { content, .. } | Node::Note { content, .. }
        | Node::Figure { content, .. } | Node::Sidebar { content, .. } | Node::Periph {
            content,
            ..
        } | Node::Table { content } | Node::TableRow { content, .. } | Node::TableCell {
            content,
            ..
        } | Node::Ref { content, .. } | Node::Unknown { content, .. } => content@.len() == 0
            || usj_shapes_ok(content@, s.children@),
        Node::Char(data) => data.content@.len() == 0 || usj_shapes_ok(data.content@, s.children@),
        _ => true,
    }
}

/// A source map aligned with the AST always has the shape USJ asks for.
pub proof fn lemma_aligned_shapes_ok(nodes: Seq<Node>, srcs: Seq<SourceNode>)
    requires
        aligned_all(nodes, srcs),
    ensures
        usj_shapes_ok(nodes, srcs),
    decreases nodes, 0int,
{
    assert forall|k: int| 0 <= k < nodes.len() implies usj_shape_ok(#[trigger] nodes[k], srcs[k]) by {
        assert(aligned(nodes[k], srcs[k]));
        lemma_aligned_shape_ok(nodes[k], srcs[k]);
    }
}

pub proof fn lemma_aligned_shape_ok(n: Node, s: SourceNode)
    requires
        aligned(n, s),
    ensures
        usj_shape_ok(n, s),
    decreases n, 1int,
{
    match n {
        Node::Book { content, .. } | Node::Para { content, .. } | Node::Note { content, .. }
        | Node::Figure { content, .. } | Node::Sidebar { content, .. } | Node::Periph {
            content,
            ..
        } | Node::Table { content } | Node::TableRow { content, .. } | Node::TableCell {
            content,
            ..
        } | Node::Ref { content, .. } | Node::Unknown { content, .. } => {
            lemma_aligned_shapes_ok(content@, s.children@);
        },
        Node::Char(data) => {
            lemma_aligned_shapes_ok(data.content@, s.children@);
        },
        _ => {},
    }
}

/// Spans are asked for with no source map to take them from.
pub open spec fn usj_missing_map(options: UsjOptions, source_map: Option<&SourceMap>) -> bool {
    options.include_spans && source_map is None
}

/// The source map, where there is one, has the shape of the document.
pub open spec fn usj_fits(doc: Document, source_map: Option<&SourceMap>) -> bool {
    match source_map {
        Some(m) => usj_shapes_ok(doc.content@, m.content@),
        None => true,
    }
}

pub open spec fn map_sources(source_map: Option<&SourceMap>) -> Option<Seq<SourceNode>> {
    match source_map {
        Some(m) => Some(m.content@),
        None => None,
    }
}

pub open spec fn opt_sources(srcs: Option<&Vec<SourceNode>>) -> Option<Seq<SourceNode>> {
    match srcs {
        Some(s) => Some(s@),
        None => None,
    }
}

pub open spec fn opt_source(src: Option<&SourceNode>) -> Option<SourceNode> {
    match src {
        Some(s) => Some(*s),
        None => None,
    }
}

// ---------------------------------------------------------------------------
// Building the value
// ---------------------------------------------------------------------------

pub(crate) proof fn lemma_entry_views_push(es: Seq<Member>, m: Member)
    ensures
        entry_views(es.push(m)) == entry_views(es).push((m.key@, m.value@)),
{
    assert(es.push(m).drop_last() =~= es);
}

pub(crate) proof fn lemma_json_views_push(vs: Seq<JsonValue>, v: JsonValue)
    ensures
        json_views(vs.push(v)) == json_views(vs).push(v@),
{
    assert(vs.push(v).drop_last() =~= vs);
}

pub(crate) fn push_member(fields: &mut Vec<Member>, key: &str, value: JsonValue)
    ensures
        entry_views(final(fields)@) == entry_views(old(fields)@).push((key@, value@)),
{
    let ghost v = value@;
    let m = Member { key: str_to_string(key), value };
    proof {
        lemma_entry_views_push(fields@, m);
    }
    fields.push(m);
}

pub(crate) fn push_str_member(fields: &mut Vec<Member>, key: &str, value: &str)
    ensures
        entry_views(final(fields)@) == entry_views(old(fields)@) + str_member(key@, value@),
{
    push_member(fields, key, JsonValue::string(value));
    assert(entry_views(old(fields)@).push((key@, Json::String(value@))) =~= entry_views(old(fields)@)
        + str_member(key@, value@));
}

pub(crate) fn push_opt_member(fields: &mut Vec<Member>, key: &str, value: &Option<String>)
    ensures
        entry_views(final(fields)@) == entry_views(old(fields)@) + opt_member(key@, *value),
{
    match value {
        Some(v) => push_str_member(fields, key, v.as_str()),
        None => {
            assert(entry_views(fields@) + opt_member(key@, *value) =~= entry_views(fields@));
        },
    }
}

fn span_value(s: &Span) -> (r: JsonValue)
    ensures
        r@ == span_json(*s),
{
    let mut items: Vec<JsonValue> = Vec::new();
    proof {
        lemma_json_views_push(items@, JsonValue::Number(s.start));
    }
    items.push(JsonValue::Number(s.start));
    proof {
        lemma_json_views_push(items@, JsonValue::Number(s.end));
    }
    items.push(JsonValue::Number(s.end));
    assert(json_views(items@) =~= seq![Json::Number(s.start as nat), Json::Number(s.end as nat)]);
    JsonValue::Array(items)
}

fn push_opt_span(fields: &mut Vec<Member>, key: &str, s: &Option<Span>)
    ensures
        entry_views(final(fields)@) == entry_views(old(fields)@) + opt_span_member(key@, *s),
{
    match s {
        Some(sp) => {
            push_member(fields, key, span_value(sp));
            assert(entry_views(old(fields)@).push((key@, span_json(*sp))) =~= entry_views(
                old(fields)@,
            ) + opt_span_member(key@, *s));
        },
        None => {
            assert(entry_views(fields@) + opt_span_member(key@, *s) =~= entry_views(fields@));
        },
    }
}

fn spans_value(sp: &SourceSpans) -> (r: JsonValue)
    ensures
        r@ == spans_json(*sp),
{
    let mut fields: Vec<Member> = Vec::new();
    assert(entry_views(fields@) =~= seq![]);
    push_member(&mut fields, "node", span_value(&sp.node));
    assert(entry_views(fields@) =~= seq![("node"@, span_json(sp.node))]);
    push_opt_span(&mut fields, "code", &sp.code);
    push_opt_span(&mut fields, "number", &sp.number);
    push_opt_span(&mut fields, "close", &sp.close);
    JsonValue::Object(fields)
}

pub(crate) fn push_attributes(fields: &mut Vec<Member>, attrs: &Vec<Attribute>)
    ensures
        entry_views(final(fields)@) == entry_views(old(fields)@) + attributes_member(attrs@),
{
    if attrs.len() == 0 {
        assert(entry_views(fields@) + attributes_member(attrs@) =~= entry_views(fields@));
        return;
    }
    let mut items: Vec<JsonValue> = Vec::new();
    let mut i: usize = 0;
    while i < attrs.len()
        invariant
            i <= attrs@.len(),
            json_views(items@) =~= Seq::new(i as nat, |k: int| attribute_json(attrs@[k])),
        decreases attrs@.len() - i,
    {
        let mut pair: Vec<Member> = Vec::new();
        assert(entry_views(pair@) =~= seq![]);
        push_str_member(&mut pair, "key", attrs[i].key.as_str());
        push_str_member(&mut pair, "value", attrs[i].value.as_str());
        assert(entry_views(pair@) =~= seq![
            ("key"@, Json::String(attrs@[i as int].key@)),
            ("value"@, Json::String(attrs@[i as int].value@)),
        ]);
        let item = JsonValue::Object(pair);
        proof {
            lemma_json_views_push(items@, item);
        }
        items.push(item);
        i += 1;
    }
    push_member(fields, "attributes", JsonValue::Array(items));
    assert(entry_views(old(fields)@).push(
        ("attributes"@, Json::Array(Seq::new(attrs@.len(), |k: int| attribute_json(attrs@[k])))),
    ) =~= entry_views(old(fields)@) + attributes_member(attrs@));
}

fn push_content(
    fields: &mut Vec<Member>,
    content: &Vec<Node>,
    src: Option<&SourceNode>,
    options: UsjOptions,
) -> (r: Result<(), UsjError>)
    requires
        !(options.include_spans && src is None),
    ensures
        r is Ok <==> (content@.len() == 0 || (src matches Some(s) ==> usj_shapes_ok(content@, s.children@))),
        r matches Err(e) ==> e is SourceMapShapeMismatch,
        r is Ok ==> entry_views(final(fields)@) == entry_views(old(fields)@) + content_member(
            content@,
            opt_source(src),
            options.include_spans,
        ),
    decreases content@, 1int,
{
    if content.len() == 0 {
        assert(entry_views(fields@) + content_member(content@, opt_source(src), options.include_spans)
            =~= entry_views(fields@));
        return Ok(());
    }
    let children = match src {
        Some(s) => Some(&s.children),
        None => None,
    };
    assert(opt_sources(children) == child_sources(opt_source(src)));
    match serialize_nodes(content, children, options) {
        Ok(items) => {
            push_member(fields, "content", JsonValue::Array(items));
            assert(entry_views(old(fields)@).push(
                (
                    "content"@,
                    Json::Array(usj_nodes(content@, child_sources(opt_source(src)), options.include_spans)),
                ),
            ) =~= entry_views(old(fields)@) + content_member(
                content@,
                opt_source(src),
                options.include_spans,
            ));
            Ok(())
        },
        Err(e) => Err(e),
    }
}

fn serialize_nodes(nodes: &Vec<Node>, srcs: Option<&Vec<SourceNode>>, options: UsjOptions) -> (r: Result<
    Vec<JsonValue>,
    UsjError,
>)
    requires
        !(options.include_spans && srcs is None),
    ensures
        r is Ok <==> (srcs matches Some(s) ==> usj_shapes_ok(nodes@, s@)),
        r matches Err(e) ==> e is SourceMapShapeMismatch,
        r matches Ok(vs) ==> json_views(vs@) == usj_nodes(
            nodes@,
            opt_sources(srcs),
            options.include_spans,
        ),
    decreases nodes@, 0int,
{
    match srcs {
        Some(s) => {
            if s.len() != nodes.len() {
                return Err(UsjError::SourceMapShapeMismatch);
            }
        },
        None => {},
    }
    let mut out: Vec<JsonValue> = Vec::new();
    let mut i: usize = 0;
    assert(nodes@.subrange(0, 0) =~= Seq::<Node>::empty());
    while i < nodes.len()
        invariant
            i <= nodes@.len(),
            !(options.include_spans && srcs is None),
            srcs matches Some(s) ==> s@.len() == nodes@.len(),
            srcs matches Some(s) ==> forall|k: int| 0 <= k < i ==> usj_shape_ok(#[trigger] nodes@[k], s@[k]),
            json_views(out@) == usj_nodes(
                nodes@.subrange(0, i as int),
                match srcs {
                    Some(s) => Some(s@.subrange(0, i as int)),
                    None => None,
                },
                options.include_spans,
            ),
        decreases nodes@.len() - i,
    {
        let src = match srcs {
            Some(s) => Some(&s[i]),
            None => None,
        };
        assert(decreases_to!(nodes@ => nodes@[i as int]));
        let ghost sub = nodes@.subrange(0, i + 1);
        assert(sub.drop_last() =~= nodes@.subrange(0, i as int));
        match srcs {
            Some(s) => {
                assert(s@.subrange(0, i + 1).drop_last() =~= s@.subrange(0, i as int));
            },
            None => {},
        }
        match serialize_node(&nodes[i], src, options) {
            Ok(v) => {
                proof {
                    lemma_json_views_push(out@, v);
                }
                out.push(v);
            },
            Err(e) => {
                return Err(e);
            },
        }
        i += 1;
    }
    assert(nodes@.subrange(0, nodes@.len() as int) =~= nodes@);
    match srcs {
        Some(s) => {
            assert(s@.subrange(0, s@.len() as int) =~= s@);
        },
        None => {},
    }
    Ok(out)
}

fn serialize_node(node: &Node, src: Option<&SourceNode>, options: UsjOptions) -> (r: Result<
    JsonValue,
    UsjError,
>)
    requires
        !(options.include_spans && src is None),
    ensures
        r is Ok <==> (src matches Some(s) ==> usj_shape_ok(*node, *s)),
        r matches Err(e) ==> e is SourceMapShapeMismatch,
        r matches Ok(v) ==> v@ == usj_node(*node, opt_source(src), options.include_spans),
    decreases *node, 2int,
{
    let mut fields: Vec<Member> = Vec::new();
    assert(entry_views(fields@) =~= seq![]);
    match node {
        Node::Text(text) => {
            return Ok(JsonValue::string(text.as_str()));
        },
        Node::OptBreak => {
            push_str_member(&mut fields, "type", "optbreak");
        },
        Node::Book { marker, code, content } => {
            push_str_member(&mut fields, "type", "book");
            push_str_member(&mut fields, "marker", marker.as_str());
            push_str_member(&mut fields, "code", code.as_str());
            if let Err(e) = push_content(&mut fields, content, src, options) {
                return Err(e);
            }
        },
        Node::Chapter(d) => {
            push_str_member(&mut fields, "type", "chapter");
            push_str_member(&mut fields, "marker", d.marker.as_str());
            push_str_member(&mut fields, "number", d.number.as_str());
            push_opt_member(&mut fields, "sid", &d.sid);
            push_opt_member(&mut fields, "altnumber", &d.altnumber);
            push_opt_member(&mut fields, "pubnumber", &d.pubnumber);
        },
        Node::Verse(d) => {
            push_str_member(&mut fields, "type", "verse");
            push_str_member(&mut fields, "marker", d.marker.as_str());
            push_str_member(&mut fields, "number", d.number.as_str());
            push_opt_member(&mut fields, "sid", &d.sid);
            push_opt_member(&mut fields, "altnumber", &d.altnumber);
            push_opt_member(&mut fields, "pubnumber", &d.pubnumber);
        },
        Node::Para { marker, content } => {
            push_str_member(&mut fields, "type", "para");
            push_str_member(&mut fields, "marker", marker.as_str());
            if let Err(e) = push_content(&mut fields, content, src, options) {
                return Err(e);
            }
        },
        Node::Char(d) => {
            push_str_member(&mut fields, "type", "char");
            push_str_member(&mut fields, "marker", d.marker.as_str());
            if let Err(e) = push_content(&mut fields, &d.content, src, options) {
                return Err(e);
            }
            push_attributes(&mut fields, &d.attributes);
        },
        Node::Note { marker, caller, category, content } => {
            push_str_member(&mut fields, "type", "note");
            push_str_member(&mut fields, "marker", marker.as_str());
            push_str_member(&mut fields, "caller", caller.as_str());
            push_opt_member(&mut fields, "category", category);
            if let Err(e) = push_content(&mut fields, content, src, options) {
                return Err(e);
            }
        },
        Node::Milestone { marker, attributes } => {
            push_str_member(&mut fields, "type", "ms");
            push_str_member(&mut fields, "marker", marker.as_str());
            push_attributes(&mut fields, attributes);
        },
        Node::Figure { marker, content, attributes } => {
            push_str_member(&mut fields, "type", "figure");
            push_str_member(&mut fields, "marker", marker.as_str());
            if let Err(e) = push_content(&mut fields, content, src, options) {
                return Err(e);
            }
            push_attributes(&mut fields, attributes);
        },
        Node::Sidebar { marker, category, content } => {
            push_str_member(&mut fields, "type", "sidebar");
            push_str_member(&mut fields, "marker", marker.as_str());
            push_opt_member(&mut fields, "category", category);
            if let Err(e) = push_content(&mut fields, content, src, options) {
                return Err(e);
            }
        },
        Node::Periph { alt, content, attributes } => {
            push_str_member(&mut fields, "type", "periph");
            push_opt_member(&mut fields, "alt", alt);
            if let Err(e) = push_content(&mut fields, content, src, options) {
                return Err(e);
            }
            push_attributes(&mut fields, attributes);
        },
        Node::Table { content } => {
            push_str_member(&mut fields, "type", "table");
            if let Err(e) = push_content(&mut fields, content, src, options) {
                return Err(e);
            }
        },
        Node::TableRow { marker, content } => {
            push_str_member(&mut fields, "type", "table:row");
            push_str_member(&mut fields, "marker", marker.as_str());
            if let Err(e) = push_content(&mut fields, content, src, options) {
                return Err(e);
            }
        },
        Node::TableCell { marker, align, content } => {
            push_str_member(&mut fields, "type", "table:cell");
            push_str_member(&mut fields, "marker", marker.as_str());
            push_str_member(&mut fields, "align", align.as_str());
            if let Err(e) = push_content(&mut fields, content, src, options) {
                return Err(e);
            }
        },
        Node::Ref { content, attributes } => {
            push_str_member(&mut fields, "type", "ref");
            if let Err(e) = push_content(&mut fields, content, src, options) {
                return Err(e);
            }
            push_attributes(&mut fields, attributes);
        },
        Node::Unknown { marker, content } => {
            push_str_member(&mut fields, "type", "unknown");
            push_str_member(&mut fields, "marker", marker.as_str());
            if let Err(e) = push_content(&mut fields, content, src, options) {
                return Err(e);
            }
        },
    }
    let ghost before_spans = entry_views(fields@);
    if options.include_spans {
        match src {
            None => {
                return Err(UsjError::MissingSourceMapForSpans);
            },
            Some(s) => {
                match &s.spans {
                    Some(sp) => {
                        push_member(&mut fields, "spans", spans_value(sp));
                    },
                    None => {},
                }
            },
        }
    }
    assert(entry_views(fields@) =~= before_spans + spans_member(opt_source(src), options.include_spans));
    Ok(JsonValue::Object(fields))
}

// ---------------------------------------------------------------------------
// Public entry points
// ---------------------------------------------------------------------------

/// The USJ value of `doc`, with source spans from `source_map` when
/// `options` asks for them.
pub fn to_usj_value_with_options(doc: &Document, source_map: Option<&SourceMap>, options: UsjOptions) -> (r:
    Result<JsonValue, UsjError>)
    ensures
        usj_missing_map(options, source_map) ==> r is Err && r->Err_0 is MissingSourceMapForSpans,
        !usj_missing_map(options, source_map) ==> (r is Ok <==> usj_fits(*doc, source_map)),
        !usj_missing_map(options, source_map) && r is Err ==> r->Err_0 is SourceMapShapeMismatch,
        r matches Ok(v) ==> v@ == usj_document(doc.content@, map_sources(source_map), options.include_spans),
{
    if options.include_spans && source_map.is_none() {
        return Err(UsjError::MissingSourceMapForSpans);
    }
    let srcs = match source_map {
        Some(m) => Some(&m.content),
        None => None,
    };
    match serialize_nodes(&doc.content, srcs, options) {
        Ok(content) => {
            let mut fields: Vec<Member> = Vec::new();
            assert(entry_views(fields@) =~= seq![]);
            push_member(&mut fields, "type", JsonValue::string("USJ"));
            push_member(&mut fields, "version", JsonValue::string("3.1"));
            push_member(&mut fields, "content", JsonValue::Array(content));
            assert(entry_views(fields@) =~= seq![
                ("type"@, Json::String("USJ"@)),
                ("version"@, Json::String("3.1"@)),
                ("content"@, Json::Array(usj_nodes(doc.content@, opt_sources(srcs), options.include_spans))),
            ]);
            Ok(JsonValue::Object(fields))
        },
        Err(e) => Err(e),
    }
}

/// The USJ value of `doc`, without spans.
pub fn to_usj_value(doc: &Document) -> (r: Result<JsonValue, UsjError>)
    ensures
        r matches Ok(v) && v@ == usj_document(doc.content@, None, false),
{
    to_usj_value_with_options(doc, None, UsjOptions::default())
}

/// The compact USJ text of `doc`, with source spans from `source_map` when
/// `options` asks for them.
pub fn to_usj_string_with_options(doc: &Document, source_map: Option<&SourceMap>, options: UsjOptions) -> (r:
    Result<String, UsjError>)
    ensures
        usj_missing_map(options, source_map) ==> r is Err && r->Err_0 is MissingSourceMapForSpans,
        !usj_missing_map(options, source_map) && !usj_fits(*doc, source_map) ==> r is Err && r->Err_0 is SourceMapShapeMismatch,
        !usj_missing_map(options, source_map) && usj_fits(*doc, source_map) ==> r is Ok,
        r matches Ok(t) ==> t@ == compact(
            usj_document(doc.content@, map_sources(source_map), options.include_spans),
        ),
{
    match to_usj_value_with_options(doc, source_map, options) {
        Ok(v) => match to_compact_string(&v) {
            Ok(t) => Ok(t),
            Err(e) => Err(UsjError::Serialization(e)),
        },
        Err(e) => Err(e),
    }
}

/// The compact USJ text of `doc`.
pub fn to_usj_string(doc: &Document) -> (r: Result<String, UsjError>)
    ensures
        r matches Ok(t) && t@ == compact(usj_document(doc.content@, None, false)),
{
    to_usj_string_with_options(doc, None, UsjOptions::default())
}

/// The indented USJ text of `doc`, with source spans from `source_map`
/// when `options` asks for them.
pub fn to_usj_string_pretty_with_options(
    doc: &Document,
    source_map: Option<&SourceMap>,
    options: UsjOptions,
) -> (r: Result<String, UsjError>)
    ensures
        usj_missing_map(options, source_map) ==> r is Err && r->Err_0 is MissingSourceMapForSpans,
        !usj_missing_map(options, source_map) && !usj_fits(*doc, source_map) ==> r is Err && r->Err_0 is SourceMapShapeMismatch,
        !usj_missing_map(options, source_map) && usj_fits(*doc, source_map) ==> r is Ok,
        r matches Ok(t) ==> t@ == pretty(
            usj_document(doc.content@, map_sources(source_map), options.include_spans),
            seq![],
        ),
{
    match to_usj_value_with_options(doc, source_map, options) {
        Ok(v) => match to_pretty_string(&v) {
            Ok(t) => Ok(t),
            Err(e) => Err(UsjError::Serialization(e)),
        },
        Err(e) => Err(e),
    }
}

/// The indented USJ text of `doc`.
pub fn to_usj_string_pretty(doc: &Document) -> (r: Result<String, UsjError>)
    ensures
        r matches Ok(t) && t@ == pretty(usj_document(doc.content@, None, false), seq![]),
{
    to_usj_string_pretty_with_options(doc, None, UsjOptions::default())
}

} // verus!
