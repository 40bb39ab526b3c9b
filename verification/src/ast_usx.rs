//! USX: the XML form of the AST that a parse builds.
use vstd::prelude::*;

use crate::ast::{Attribute, Document, Node};
use crate::text::str_to_string;
use crate::usx::{
    attrs_view, close_chapter, close_chapter_exec, close_verse, close_verse_exec, emit, emit_decl,
    lemma_one, lemma_pieces_text_concat, opt_attr, pieces_text, push_attr, push_opt_attr, sid_or_empty,
    xml_decl_text, xml_empty_tag, xml_end_tag, xml_start_tag, xml_text, UsxError, UsxScan, UsxState,
    XmlPiece,
};

verus! {

/// Attribute keys and values, each by its chars.
pub open spec fn attribute_pairs(attrs: Seq<Attribute>) -> Seq<(Seq<char>, Seq<char>)> {
    Seq::new(attrs.len(), |i: int| (attrs[i].key@, attrs[i].value@))
}

/// The element written for a character node opens with a `char` tag whose
/// attributes are its `style` (the marker) followed by every attribute of
/// the node, key and value, in order.
pub proof fn law_usx_char_attributes(n: Node, st: UsxScan)
    requires
        n is Char,
    ensures
        usx_node(n, st).0.len() > 0,
        usx_node(n, st).0[0] matches XmlPiece::Start(tag, attrs) || usx_node(n, st).0[0] matches XmlPiece::Empty(
            tag,
            attrs,
        ),
        ({
            let (tag, attrs) = match usx_node(n, st).0[0] {
                XmlPiece::Start(t, a) => (t, a),
                XmlPiece::Empty(t, a) => (t, a),
                _ => (seq![], seq![]),
            };
            let d = n->Char_0;
            &&& tag == "char"@
            &&& attrs.len() == d.attributes@.len() + 1
            &&& attrs[0] == ("style"@, d.marker@)
            &&& forall|i: int|
                0 <= i < d.attributes@.len() ==> #[trigger] attrs[i + 1] == (
                    d.attributes@[i].key@,
                    d.attributes@[i].value@,
                )
        }),
{
    let d = n->Char_0;
    let attrs = seq![("style"@, d.marker@)] + attribute_pairs(d.attributes@);
    assert forall|i: int| 0 <= i < d.attributes@.len() implies #[trigger] attrs[i + 1] == (
        d.attributes@[i].key@,
        d.attributes@[i].value@,
    ) by {}
}

/// The element written for a milestone (`ms`) or a figure (`figure`)
/// carries its `style` (the marker) followed by every attribute of the
/// node, key and value, in order.
pub proof fn law_usx_milestone_figure_attributes(n: Node, st: UsxScan)
    requires
        n is Milestone || n is Figure,
    ensures
        usx_node(n, st).0.len() > 0,
        ({
            let (tag, attrs) = match usx_node(n, st).0[0] {
                XmlPiece::Start(t, a) => (t, a),
                XmlPiece::Empty(t, a) => (t, a),
                _ => (seq![], seq![]),
            };
            let (want, marker, attributes) = match n {
                Node::Milestone { marker, attributes } => ("ms"@, marker@, attributes@),
                Node::Figure { marker, attributes, .. } => ("figure"@, marker@, attributes@),
                _ => (seq![], seq![], seq![]),
            };
            &&& tag == want
            &&& attrs.len() == attributes.len() + 1
            &&& attrs[0] == ("style"@, marker)
            &&& forall|i: int|
                0 <= i < attributes.len() ==> #[trigger] attrs[i + 1] == (attributes[i].key@, attributes[i].value@)
        }),
{
}

/// An element with children: empty when it has none, else its start tag,
/// its children and its end tag.
pub open spec fn usx_element(
    tag: Seq<char>,
    attrs: Seq<(Seq<char>, Seq<char>)>,
    content: Seq<Node>,
    st: UsxScan,
) -> (Seq<XmlPiece>, UsxScan)
    decreases content, 2int,
{
    if content.len() == 0 {
        (seq![XmlPiece::Empty(tag, attrs)], st)
    } else {
        usx_wrapped(tag, attrs, content, st)
    }
}

/// An element always written with start and end tags.
pub open spec fn usx_wrapped(
    tag: Seq<char>,
    attrs: Seq<(Seq<char>, Seq<char>)>,
    content: Seq<Node>,
    st: UsxScan,
) -> (Seq<XmlPiece>, UsxScan)
    decreases content, 1int,
{
    let inner = usx_nodes(content, st);
    (seq![XmlPiece::Start(tag, attrs)] + inner.0 + seq![XmlPiece::End(tag)], inner.1)
}

/// A node in USX, with the open chapter and verse before and after it.
/// A chapter first ends the open verse and chapter, a verse the open
/// verse; references become `ref` elements, optional breaks `optbreak`
/// elements, and unknown markers `char` elements.
pub open spec fn usx_node(n: Node, st: UsxScan) -> (Seq<XmlPiece>, UsxScan)
    decreases n, 3int,
{
    match n {
        Node::Book { marker, code, content } => usx_element(
            "book"@,
            seq![("code"@, code@), ("style"@, marker@)],
            content@,
            st,
        ),
        Node::Chapter(d) => {
            let (v, s1) = close_verse(st);
            let (c, s2) = close_chapter(s1);
            let attrs = seq![("number"@, d.number@), ("style"@, "c"@), ("sid"@, sid_or_empty(d.sid))]
                + opt_attr("altnumber"@, d.altnumber) + opt_attr("pubnumber"@, d.pubnumber);
            (
                v + c + seq![XmlPiece::Empty("chapter"@, attrs)],
                UsxScan { chapter_sid: Some(sid_or_empty(d.sid)), verse_sid: s2.verse_sid },
            )
        },
        Node::Verse(d) => {
            let (v, s1) = close_verse(st);
            let attrs = seq![("number"@, d.number@), ("style"@, "v"@), ("sid"@, sid_or_empty(d.sid))]
                + opt_attr("altnumber"@, d.altnumber) + opt_attr("pubnumber"@, d.pubnumber);
            (
                v + seq![XmlPiece::Empty("verse"@, attrs)],
                UsxScan { chapter_sid: s1.chapter_sid, verse_sid: Some(sid_or_empty(d.sid)) },
            )
        },
        Node::Para { marker, content } => usx_element("para"@, seq![("style"@, marker@)], content@, st),
        Node::Char(d) => usx_element(
            "char"@,
            seq![("style"@, d.marker@)] + attribute_pairs(d.attributes@),
            d.content@,
            st,
        ),
        Node::Note { marker, caller, content, .. } => usx_element(
            "note"@,
            seq![("caller"@, caller@), ("style"@, marker@)],
            content@,
            st,
        ),
        Node::Milestone { marker, attributes } => (
            seq![XmlPiece::Empty("ms"@, seq![("style"@, marker@)] + attribute_pairs(attributes@))],
            st,
        ),
        Node::Figure { marker, content, attributes } => usx_element(
            "figure"@,
            seq![("style"@, marker@)] + attribute_pairs(attributes@),
            content@,
            st,
        ),
        Node::Sidebar { marker, content, .. } => usx_element("sidebar"@, seq![("style"@, marker@)], content@, st),
        Node::Periph { content, .. } => usx_wrapped("periph"@, seq![], content@, st),
        Node::Table { content } => usx_wrapped("table"@, seq![], content@, st),
        Node::TableRow { content, .. } => usx_wrapped("row"@, seq![], content@, st),
        Node::TableCell { marker, align, content } => usx_element(
            "cell"@,
            seq![("style"@, marker@), ("align"@, align@)],
            content@,
            st,
        ),
        Node::Ref { content, attributes } => usx_element("ref"@, attribute_pairs(attributes@), content@, st),
        Node::Unknown { marker, content } => usx_element("char"@, seq![("style"@, marker@)], content@, st),
        Node::OptBreak => (seq![XmlPiece::Empty("optbreak"@, seq![])], st),
        Node::Text(s) => (seq![XmlPiece::Text(s@)], st),
    }
}

pub open spec fn usx_nodes(nodes: Seq<Node>, st: UsxScan) -> (Seq<XmlPiece>, UsxScan)
    decreases nodes, 0int,
{
    if nodes.len() == 0 {
        (seq![], st)
    } else {
        let before = usx_nodes(nodes.drop_last(), st);
        let last = usx_node(nodes.last(), before.1);
        (before.0 + last.0, last.1)
    }
}

/// The `usx` root element of a document: its nodes, then the end
/// milestones of the verse and chapter still open.
pub open spec fn usx_document(content: Seq<Node>) -> Seq<XmlPiece> {
    let body = usx_nodes(content, UsxScan { chapter_sid: None, verse_sid: None });
    let (v, s1) = close_verse(body.1);
    let (c, _s2) = close_chapter(s1);
    seq![XmlPiece::Start("usx"@, seq![("version"@, "3.0"@)])] + body.0 + v + c + seq![XmlPiece::End("usx"@)]
}

fn push_attribute_pairs(attrs: &mut Vec<(String, String)>, list: &Vec<Attribute>)
    ensures
        attrs_view(final(attrs)@) == attrs_view(old(attrs)@) + attribute_pairs(list@),
{
    let mut i: usize = 0;
    while i < list.len()
        invariant
            i <= list@.len(),
            attrs_view(attrs@) =~= attrs_view(old(attrs)@) + attribute_pairs(list@.subrange(0, i as int)),
        decreases list@.len() - i,
    {
        push_attr(attrs, list[i].key.as_str(), list[i].value.as_str());
        assert(attribute_pairs(list@.subrange(0, i + 1)) =~= attribute_pairs(list@.subrange(0, i as int)).push(
            (list@[i as int].key@, list@[i as int].value@),
        ));
        i += 1;
    }
    assert(list@.subrange(0, list@.len() as int) =~= list@);
}

fn write_wrapped(
    tag: &str,
    attrs: &Vec<(String, String)>,
    content: &Vec<Node>,
    st: &mut UsxState,
    out: &mut String,
) -> (r: Result<(), UsxError>)
    ensures
        r is Ok,
        final(out)@ == old(out)@ + pieces_text(
            usx_wrapped(tag@, attrs_view(attrs@), content@, old(st).scan()).0,
        ),
        final(st).scan() == usx_wrapped(tag@, attrs_view(attrs@), content@, old(st).scan()).1,
    decreases content@, 1int,
{
    let ghost s0 = st.scan();
    let ghost ps = XmlPiece::Start(tag@, attrs_view(attrs@));
    let ghost pe = XmlPiece::End(tag@);
    if let Err(e) = emit(out, xml_start_tag(tag, attrs), Ghost(ps)) {
        return Err(e);
    }
    if let Err(e) = write_nodes(content, st, out) {
        return Err(e);
    }
    if let Err(e) = emit(out, xml_end_tag(tag), Ghost(pe)) {
        return Err(e);
    }
    proof {
        let inner = usx_nodes(content@, s0);
        lemma_one(ps);
        lemma_one(pe);
        lemma_pieces_text_concat(seq![ps], inner.0);
        lemma_pieces_text_concat(seq![ps] + inner.0, seq![pe]);
    }
    Ok(())
}

fn write_element(
    tag: &str,
    attrs: &Vec<(String, String)>,
    content: &Vec<Node>,
    st: &mut UsxState,
    out: &mut String,
) -> (r: Result<(), UsxError>)
    ensures
        r is Ok,
        final(out)@ == old(out)@ + pieces_text(
            usx_element(tag@, attrs_view(attrs@), content@, old(st).scan()).0,
        ),
        final(st).scan() == usx_element(tag@, attrs_view(attrs@), content@, old(st).scan()).1,
    decreases content@, 2int,
{
    if content.len() == 0 {
        let ghost p = XmlPiece::Empty(tag@, attrs_view(attrs@));
        proof {
            lemma_one(p);
        }
        emit(out, xml_empty_tag(tag, attrs), Ghost(p))
    } else {
        write_wrapped(tag, attrs, content, st, out)
    }
}

fn write_nodes(nodes: &Vec<Node>, st: &mut UsxState, out: &mut String) -> (r: Result<(), UsxError>)
    ensures
        r is Ok,
        final(out)@ == old(out)@ + pieces_text(usx_nodes(nodes@, old(st).scan()).0),
        final(st).scan() == usx_nodes(nodes@, old(st).scan()).1,
    decreases nodes@, 0int,
{
    let ghost start = out@;
    let ghost s0 = st.scan();
    let mut i: usize = 0;
    assert(nodes@.subrange(0, 0) =~= Seq::<Node>::empty());
    assert(out@ + pieces_text(seq![]) =~= out@);
    while i < nodes.len()
        invariant
            i <= nodes@.len(),
            out@ == start + pieces_text(usx_nodes(nodes@.subrange(0, i as int), s0).0),
            st.scan() == usx_nodes(nodes@.subrange(0, i as int), s0).1,
        decreases nodes@.len() - i,
    {
        assert(decreases_to!(nodes@ => nodes@[i as int]));
        let ghost sub = nodes@.subrange(0, i + 1);
        assert(sub.drop_last() =~= nodes@.subrange(0, i as int));
        let ghost before = usx_nodes(nodes@.subrange(0, i as int), s0);
        if let Err(e) = write_node(&nodes[i], st, out) {
            return Err(e);
        }
        proof {
            lemma_pieces_text_concat(before.0, usx_node(nodes@[i as int], before.1).0);
        }
        i += 1;
    }
    assert(nodes@.subrange(0, nodes@.len() as int) =~= nodes@);
    Ok(())
}

fn style_attrs(marker: &str) -> (r: Vec<(String, String)>)
    ensures
        attrs_view(r@) == seq![("style"@, marker@)],
{
    let mut attrs: Vec<(String, String)> = Vec::new();
    assert(attrs_view(attrs@) =~= seq![]);
    push_attr(&mut attrs, "style", marker);
    assert(attrs_view(attrs@) =~= seq![("style"@, marker@)]);
    attrs
}

/// The start attributes of a chapter or verse milestone.
fn number_attrs(
    number: &String,
    style: &str,
    sid: &Option<String>,
    altnumber: &Option<String>,
    pubnumber: &Option<String>,
) -> (r: (Vec<(String, String)>, String))
    ensures
        attrs_view(r.0@) == seq![("number"@, number@), ("style"@, style@), ("sid"@, sid_or_empty(*sid))]
            + opt_attr("altnumber"@, *altnumber) + opt_attr("pubnumber"@, *pubnumber),
        r.1@ == sid_or_empty(*sid),
{
    let sid_str = match sid {
        Some(s) => str_to_string(s.as_str()),
        None => String::new(),
    };
    assert(sid_str@ =~= sid_or_empty(*sid));
    let mut attrs: Vec<(String, String)> = Vec::new();
    assert(attrs_view(attrs@) =~= seq![]);
    push_attr(&mut attrs, "number", number.as_str());
    push_attr(&mut attrs, "style", style);
    push_attr(&mut attrs, "sid", sid_str.as_str());
    push_opt_attr(&mut attrs, "altnumber", altnumber);
    push_opt_attr(&mut attrs, "pubnumber", pubnumber);
    assert(attrs_view(attrs@) =~= seq![("number"@, number@), ("style"@, style@), ("sid"@, sid_or_empty(*sid))]
        + opt_attr("altnumber"@, *altnumber) + opt_attr("pubnumber"@, *pubnumber));
    (attrs, sid_str)
}

fn write_node(node: &Node, st: &mut UsxState, out: &mut String) -> (r: Result<(), UsxError>)
    ensures
        r is Ok,
        final(out)@ == old(out)@ + pieces_text(usx_node(*node, old(st).scan()).0),
        final(st).scan() == usx_node(*node, old(st).scan()).1,
    decreases *node, 3int,
{
    match node {
        Node::Book { marker, code, content } => {
            let mut attrs: Vec<(String, String)> = Vec::new();
            assert(attrs_view(attrs@) =~= seq![]);
            push_attr(&mut attrs, "code", code.as_str());
            push_attr(&mut attrs, "style", marker.as_str());
            assert(attrs_view(attrs@) =~= seq![("code"@, code@), ("style"@, marker@)]);
            write_element("book", &attrs, content, st, out)
        },
        Node::Chapter(d) => {
            let ghost s0 = st.scan();
            if let Err(e) = close_verse_exec(st, out) {
                return Err(e);
            }
            if let Err(e) = close_chapter_exec(st, out) {
                return Err(e);
            }
            let (attrs, sid_str) = number_attrs(&d.number, "c", &d.sid, &d.altnumber, &d.pubnumber);
            let ghost p = XmlPiece::Empty("chapter"@, attrs_view(attrs@));
            proof {
                lemma_one(p);
            }
            if let Err(e) = emit(out, xml_empty_tag("chapter", &attrs), Ghost(p)) {
                return Err(e);
            }
            st.chapter_sid = Some(sid_str);
            proof {
                let (v, s1) = close_verse(s0);
                let (c, s2) = close_chapter(s1);
                lemma_pieces_text_concat(v, c);
                lemma_pieces_text_concat(v + c, seq![p]);
            }
            Ok(())
        },
        Node::Verse(d) => {
            let ghost s0 = st.scan();
            if let Err(e) = close_verse_exec(st, out) {
                return Err(e);
            }
            let (attrs, sid_str) = number_attrs(&d.number, "v", &d.sid, &d.altnumber, &d.pubnumber);
            let ghost p = XmlPiece::Empty("verse"@, attrs_view(attrs@));
            proof {
                lemma_one(p);
            }
            if let Err(e) = emit(out, xml_empty_tag("verse", &attrs), Ghost(p)) {
                return Err(e);
            }
            st.verse_sid = Some(sid_str);
            proof {
                let (v, s1) = close_verse(s0);
                lemma_pieces_text_concat(v, seq![p]);
            }
            Ok(())
        },
        Node::Para { marker, content } => {
            let attrs = style_attrs(marker.as_str());
            write_element("para", &attrs, content, st, out)
        },
        Node::Char(d) => {
            let mut attrs = style_attrs(d.marker.as_str());
            push_attribute_pairs(&mut attrs, &d.attributes);
            assert(decreases_to!(*node => d.content));
            write_element("char", &attrs, &d.content, st, out)
        },
        Node::Note { marker, caller, content, .. } => {
            let mut attrs: Vec<(String, String)> = Vec::new();
            assert(attrs_view(attrs@) =~= seq![]);
            push_attr(&mut attrs, "caller", caller.as_str());
            push_attr(&mut attrs, "style", marker.as_str());
            assert(attrs_view(attrs@) =~= seq![("caller"@, caller@), ("style"@, marker@)]);
            write_element("note", &attrs, content, st, out)
        },
        Node::Milestone { marker, attributes } => {
            let mut attrs = style_attrs(marker.as_str());
            push_attribute_pairs(&mut attrs, attributes);
            let ghost p = XmlPiece::Empty("ms"@, seq![("style"@, marker@)] + attribute_pairs(attributes@));
            proof {
                lemma_one(p);
            }
            emit(out, xml_empty_tag("ms", &attrs), Ghost(p))
        },
        Node::Figure { marker, content, attributes } => {
            let mut attrs = style_attrs(marker.as_str());
            push_attribute_pairs(&mut attrs, attributes);
            write_element("figure", &attrs, content, st, out)
        },
        Node::Sidebar { marker, content, .. } => {
            let attrs = style_attrs(marker.as_str());
            write_element("sidebar", &attrs, content, st, out)
        },
        Node::Periph { content, .. } => {
            let attrs: Vec<(String, String)> = Vec::new();
            assert(attrs_view(attrs@) =~= seq![]);
            write_wrapped("periph", &attrs, content, st, out)
        },
        Node::Table { content } => {
            let attrs: Vec<(String, String)> = Vec::new();
            assert(attrs_view(attrs@) =~= seq![]);
            write_wrapped("table", &attrs, content, st, out)
        },
        Node::TableRow { content, .. } => {
            let attrs: Vec<(String, String)> = Vec::new();
            assert(attrs_view(attrs@) =~= seq![]);
            write_wrapped("row", &attrs, content, st, out)
        },
        Node::TableCell { marker, align, content } => {
            let mut attrs = style_attrs(marker.as_str());
            push_attr(&mut attrs, "align", align.as_str());
            assert(attrs_view(attrs@) =~= seq![("style"@, marker@), ("align"@, align@)]);
            write_element("cell", &attrs, content, st, out)
        },
        Node::Ref { content, attributes } => {
            let mut attrs: Vec<(String, String)> = Vec::new();
            assert(attrs_view(attrs@) =~= seq![]);
            push_attribute_pairs(&mut attrs, attributes);
            assert(attrs_view(attrs@) =~= attribute_pairs(attributes@));
            write_element("ref", &attrs, content, st, out)
        },
        Node::Unknown { marker, content } => {
            let attrs = style_attrs(marker.as_str());
            write_element("char", &attrs, content, st, out)
        },
        Node::OptBreak => {
            let attrs: Vec<(String, String)> = Vec::new();
            assert(attrs_view(attrs@) =~= seq![]);
            let ghost p = XmlPiece::Empty("optbreak"@, seq![]);
            proof {
                lemma_one(p);
            }
            emit(out, xml_empty_tag("optbreak", &attrs), Ghost(p))
        },
        Node::Text(s) => {
            let ghost p = XmlPiece::Text(s@);
            proof {
                lemma_one(p);
            }
            emit(out, xml_text(s.as_str()), Ghost(p))
        },
    }
}

/// The USX text of `doc`: an XML declaration, then the `usx` root element
/// (version 3.0) with the document's nodes, chapter and verse end
/// milestones added where the next chapter or verse, or the end, closes
/// them.  The XML writer writes into memory, which never fails, so the
/// result is always `Ok`.
pub fn to_usx_string(doc: &Document) -> (r: Result<String, UsxError>)
    ensures
        r is Ok,
        r matches Ok(t) ==> t@ == xml_decl_text("1.0"@, "utf-8"@) + pieces_text(usx_document(doc.content@)),
{
    let mut out = String::new();
    if let Err(e) = emit_decl(&mut out) {
        return Err(e);
    }
    let mut attrs: Vec<(String, String)> = Vec::new();
    assert(attrs_view(attrs@) =~= seq![]);
    push_attr(&mut attrs, "version", "3.0");
    assert(attrs_view(attrs@) =~= seq![("version"@, "3.0"@)]);
    let ghost ps = XmlPiece::Start("usx"@, seq![("version"@, "3.0"@)]);
    proof {
        lemma_one(ps);
    }
    if let Err(e) = emit(&mut out, xml_start_tag("usx", &attrs), Ghost(ps)) {
        return Err(e);
    }
    let mut st = UsxState { chapter_sid: None, verse_sid: None };
    let ghost s0 = st.scan();
    if let Err(e) = write_nodes(&doc.content, &mut st, &mut out) {
        return Err(e);
    }
    let ghost body = usx_nodes(doc.content@, s0);
    if let Err(e) = close_verse_exec(&mut st, &mut out) {
        return Err(e);
    }
    if let Err(e) = close_chapter_exec(&mut st, &mut out) {
        return Err(e);
    }
    let ghost pe = XmlPiece::End("usx"@);
    proof {
        lemma_one(pe);
    }
    if let Err(e) = emit(&mut out, xml_end_tag("usx"), Ghost(pe)) {
        return Err(e);
    }
    proof {
        let (v, s1) = close_verse(body.1);
        let (c, _s2) = close_chapter(s1);
        lemma_pieces_text_concat(seq![ps], body.0);
        lemma_pieces_text_concat(seq![ps] + body.0, v);
        lemma_pieces_text_concat(seq![ps] + body.0 + v, c);
        lemma_pieces_text_concat(seq![ps] + body.0 + v + c, seq![pe]);
        assert(usx_document(doc.content@) =~= seq![ps] + body.0 + v + c + seq![pe]);
    }
    Ok(out)
}

} // verus!
