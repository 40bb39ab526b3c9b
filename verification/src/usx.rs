//! USX: the XML form of a span-carrying USFM document.
use vstd::prelude::*;

use quick_xml::events::{BytesDecl, BytesEnd, BytesStart, BytesText, Event};

use crate::spanned_ast::{Attribute, Document, Node};
use crate::text::{push_str, str_to_string};

verus! {

#[verifier::external_type_specification]
#[verifier::external_body]
pub struct ExIoError(std::io::Error);

#[verifier::external_type_specification]
#[verifier::external_body]
pub struct ExXmlError(quick_xml::Error);

/// Errors that can occur during USX serialization.
#[derive(Debug)]
pub enum UsxError {
    /// An error from the underlying XML writer.
    Xml(quick_xml::Error),
    /// An I/O error from the underlying writer.
    Io(std::io::Error),
}

/// `Display` of `std::io::Error`.  Nothing is claimed of the text.
#[verifier::external_body]
fn io_error_text(e: &std::io::Error) -> String {
    e.to_string()
}

/// `Display` of `quick_xml::Error`.  Nothing is claimed of the text.
#[verifier::external_body]
fn xml_error_text(e: &quick_xml::Error) -> String {
    e.to_string()
}

impl UsxError {
    /// The message of the error, prefixed by its kind.
    pub fn to_display_string(&self) -> (r: String)
        ensures
            self is Xml ==> "XML serialization error: "@.is_prefix_of(r@),
            self is Io ==> "I/O error: "@.is_prefix_of(r@),
    {
        let mut s = String::new();
        match self {
            UsxError::Xml(e) => {
                push_str(&mut s, "XML serialization error: ");
                let ghost p = s@;
                push_str(&mut s, xml_error_text(e).as_str());
                assert(s@.subrange(0, p.len() as int) =~= p);
            },
            UsxError::Io(e) => {
                push_str(&mut s, "I/O error: ");
                let ghost p = s@;
                push_str(&mut s, io_error_text(e).as_str());
                assert(s@.subrange(0, p.len() as int) =~= p);
            },
        }
        proof {
            reveal_strlit("XML serialization error: ");
            reveal_strlit("I/O error: ");
        }
        s
    }
}

/// Attribute names and values, each by its chars.
pub open spec fn attrs_view(attrs: Seq<(String, String)>) -> Seq<(Seq<char>, Seq<char>)> {
    attrs.map_values(|a: (String, String)| (a.0@, a.1@))
}

/// What `quick_xml::Writer` writes for an XML declaration with this
/// version and encoding.
pub uninterp spec fn xml_decl_text(version: Seq<char>, encoding: Seq<char>) -> Seq<char>;

/// What `quick_xml::Writer` writes for a start tag with this name and
/// these attributes, values escaped.
pub uninterp spec fn xml_start_text(name: Seq<char>, attrs: Seq<(Seq<char>, Seq<char>)>) -> Seq<char>;

/// What `quick_xml::Writer` writes for an empty element with this name
/// and these attributes, values escaped.
pub uninterp spec fn xml_empty_text(name: Seq<char>, attrs: Seq<(Seq<char>, Seq<char>)>) -> Seq<char>;

/// What `quick_xml::Writer` writes for this text, escaped.
pub uninterp spec fn xml_escaped_text(text: Seq<char>) -> Seq<char>;

/// `Writer::write_event` of `Event::Decl(BytesDecl::new(version,
/// Some(encoding), None))` into an empty buffer, the buffer read as text.
/// The text is named `xml_decl_text`.
#[verifier::external_body]
pub(crate) fn xml_declaration(version: &str, encoding: &str) -> (r: Result<String, std::io::Error>)
    ensures
        r is Ok,
        r matches Ok(t) ==> t@ == xml_decl_text(version@, encoding@),
{
    let mut w = quick_xml::Writer::new(Vec::new());
    match w.write_event(Event::Decl(BytesDecl::new(version, Some(encoding), None))) {
        Ok(()) => Ok(String::from_utf8_lossy(&w.into_inner()).into_owned()),
        Err(e) => Err(e),
    }
}

/// `Writer::write_event` of `Event::Start` for `BytesStart::new(name)`
/// with each attribute pushed in order, into an empty buffer.  The text is
/// named `xml_start_text`.
#[verifier::external_body]
pub(crate) fn xml_start_tag(name: &str, attrs: &Vec<(String, String)>) -> (r: Result<String, std::io::Error>)
    ensures
        r is Ok,
        r matches Ok(t) ==> t@ == xml_start_text(name@, attrs_view(attrs@)),
{
    let mut elem = BytesStart::new(name);
    for (k, v) in attrs.iter() {
        elem.push_attribute((k.as_str(), v.as_str()));
    }
    let mut w = quick_xml::Writer::new(Vec::new());
    match w.write_event(Event::Start(elem)) {
        Ok(()) => Ok(String::from_utf8_lossy(&w.into_inner()).into_owned()),
        Err(e) => Err(e),
    }
}

/// `Writer::write_event` of `Event::Empty` for `BytesStart::new(name)`
/// with each attribute pushed in order, into an empty buffer.  The text is
/// named `xml_empty_text`.
#[verifier::external_body]
pub(crate) fn xml_empty_tag(name: &str, attrs: &Vec<(String, String)>) -> (r: Result<String, std::io::Error>)
    ensures
        r is Ok,
        r matches Ok(t) ==> t@ == xml_empty_text(name@, attrs_view(attrs@)),
{
    let mut elem = BytesStart::new(name);
    for (k, v) in attrs.iter() {
        elem.push_attribute((k.as_str(), v.as_str()));
    }
    let mut w = quick_xml::Writer::new(Vec::new());
    match w.write_event(Event::Empty(elem)) {
        Ok(()) => Ok(String::from_utf8_lossy(&w.into_inner()).into_owned()),
        Err(e) => Err(e),
    }
}

/// `Writer::write_event` of `Event::End(BytesEnd::new(name))` into an
/// empty buffer: `</name>`.
#[verifier::external_body]
pub(crate) fn xml_end_tag(name: &str) -> (r: Result<String, std::io::Error>)
    ensures
        r is Ok,
        r matches Ok(t) ==> t@ == "</"@ + name@ + ">"@,
{
    let mut w = quick_xml::Writer::new(Vec::new());
    match w.write_event(Event::End(BytesEnd::new(name))) {
        Ok(()) => Ok(String::from_utf8_lossy(&w.into_inner()).into_owned()),
        Err(e) => Err(e),
    }
}

/// `Writer::write_event` of `Event::Text(BytesText::new(text))` into an
/// empty buffer.  The text is named `xml_escaped_text`.
#[verifier::external_body]
pub(crate) fn xml_text(text: &str) -> (r: Result<String, std::io::Error>)
    ensures
        r is Ok,
        r matches Ok(t) ==> t@ == xml_escaped_text(text@),
{
    let mut w = quick_xml::Writer::new(Vec::new());
    match w.write_event(Event::Text(BytesText::new(text))) {
        Ok(()) => Ok(String::from_utf8_lossy(&w.into_inner()).into_owned()),
        Err(e) => Err(e),
    }
}

// Each wrapper above writes one event into a fresh `Vec<u8>`.  In
// `Writer::write_event` every error comes from writing to the underlying
// writer, and writes to a `Vec<u8>` never fail, so each call succeeds.

// ---------------------------------------------------------------------------
// What a document becomes
// ---------------------------------------------------------------------------

/// One piece of XML output.
pub enum XmlPiece {
    Start(Seq<char>, Seq<(Seq<char>, Seq<char>)>),
    Empty(Seq<char>, Seq<(Seq<char>, Seq<char>)>),
    End(Seq<char>),
    Text(Seq<char>),
}

pub open spec fn piece_text(p: XmlPiece) -> Seq<char> {
    match p {
        XmlPiece::Start(n, a) => xml_start_text(n, a),
        XmlPiece::Empty(n, a) => xml_empty_text(n, a),
        XmlPiece::End(n) => "</"@ + n + ">"@,
        XmlPiece::Text(t) => xml_escaped_text(t),
    }
}

pub open spec fn pieces_text(ps: Seq<XmlPiece>) -> Seq<char>
    decreases ps.len(),
{
    if ps.len() == 0 {
        seq![]
    } else {
        pieces_text(ps.drop_last()) + piece_text(ps.last())
    }
}

pub proof fn lemma_pieces_text_concat(a: Seq<XmlPiece>, b: Seq<XmlPiece>)
    ensures
        pieces_text(a + b) == pieces_text(a) + pieces_text(b),
    decreases b.len(),
{
    if b.len() == 0 {
        assert(a + b =~= a);
    } else {
        lemma_pieces_text_concat(a, b.drop_last());
        assert((a + b).drop_last() =~= a + b.drop_last());
    }
}

/// The sids of the chapter and verse still open, whose end milestones are
/// still to be written.
pub struct UsxScan {
    pub chapter_sid: Option<Seq<char>>,
    pub verse_sid: Option<Seq<char>>,
}

pub open spec fn close_verse(st: UsxScan) -> (Seq<XmlPiece>, UsxScan) {
    match st.verse_sid {
        Some(s) => (
            seq![XmlPiece::Empty("verse"@, seq![("eid"@, s)])],
            UsxScan { chapter_sid: st.chapter_sid, verse_sid: None },
        ),
        None => (seq![], st),
    }
}

pub open spec fn close_chapter(st: UsxScan) -> (Seq<XmlPiece>, UsxScan) {
    match st.chapter_sid {
        Some(s) => (
            seq![XmlPiece::Empty("chapter"@, seq![("eid"@, s)])],
            UsxScan { chapter_sid: None, verse_sid: st.verse_sid },
        ),
        None => (seq![], st),
    }
}

pub open spec fn opt_attr(key: Seq<char>, v: Option<String>) -> Seq<(Seq<char>, Seq<char>)> {
    match v {
        Some(s) => seq![(key, s@)],
        None => seq![],
    }
}

pub open spec fn sid_or_empty(sid: Option<String>) -> Seq<char> {
    match sid {
        Some(s) => s@,
        None => seq![],
    }
}

pub open spec fn attribute_pairs(attrs: Seq<Attribute>) -> Seq<(Seq<char>, Seq<char>)> {
    Seq::new(attrs.len(), |i: int| (attrs[i].key@, attrs[i].value@))
}

/// An element with children: empty when it has none, else its start tag,
/// its children and its end tag.
pub open spec fn usx_element(
    tag: Seq<char>,
    attrs: Seq<(Seq<char>, Seq<char>)>,
    content: Seq<Node>,
    st: UsxScan,
) -> (Seq<XmlPiece>, UsxScan)
    decreases content, 2int,
{
    if content.len() == 0 {
        (seq![XmlPiece::Empty(tag, attrs)], st)
    } else {
        usx_wrapped(tag, attrs, content, st)
    }
}

/// An element always written with start and end tags.
pub open spec fn usx_wrapped(
    tag: Seq<char>,
    attrs: Seq<(Seq<char>, Seq<char>)>,
    content: Seq<Node>,
    st: UsxScan,
) -> (Seq<XmlPiece>, UsxScan)
    decreases content, 1int,
{
    let inner = usx_nodes(content, st);
    (seq![XmlPiece::Start(tag, attrs)] + inner.0 + seq![XmlPiece::End(tag)], inner.1)
}

/// A node in USX, with the open chapter and verse before and after it.
/// A chapter first ends the open verse and chapter, a verse the open
/// verse; unknown markers become `char` elements.
pub open spec fn usx_node(n: Node, st: UsxScan) -> (Seq<XmlPiece>, UsxScan)
    decreases n, 3int,
{
    match n {
        Node::Book { marker, code, content, .. } => usx_element(
            "book"@,
            seq![("code"@, code@), ("style"@, marker@)],
            content@,
            st,
        ),
        Node::Chapter { number, sid, altnumber, pubnumber, .. } => {
            let (v, s1) = close_verse(st);
            let (c, s2) = close_chapter(s1);
            let attrs = seq![("number"@, number@), ("style"@, "c"@), ("sid"@, sid_or_empty(sid))]
                + opt_attr("altnumber"@, altnumber) + opt_attr("pubnumber"@, pubnumber);
            (
                v + c + seq![XmlPiece::Empty("chapter"@, attrs)],
                UsxScan { chapter_sid: Some(sid_or_empty(sid)), verse_sid: s2.verse_sid },
            )
        },
        Node::Verse { number, sid, altnumber, pubnumber, .. } => {
            let (v, s1) = close_verse(st);
            let attrs = seq![("number"@, number@), ("style"@, "v"@), ("sid"@, sid_or_empty(sid))]
                + opt_attr("altnumber"@, altnumber) + opt_attr("pubnumber"@, pubnumber);
            (
                v + seq![XmlPiece::Empty("verse"@, attrs)],
                UsxScan { chapter_sid: s1.chapter_sid, verse_sid: Some(sid_or_empty(sid)) },
            )
        },
        Node::Para { marker, content, .. } => usx_element("para"@, seq![("style"@, marker@)], content@, st),
        Node::Char { marker, content, attributes, .. } => usx_element(
            "char"@,
            seq![("style"@, marker@)] + attribute_pairs(attributes@),
            content@,
            st,
        ),
        Node::Note { marker, caller, content, .. } => usx_element(
            "note"@,
            seq![("caller"@, caller@), ("style"@, marker@)],
            content@,
            st,
        ),
        Node::Milestone { marker, attributes, .. } => (
            seq![XmlPiece::Empty("ms"@, seq![("style"@, marker@)] + attribute_pairs(attributes@))],
            st,
        ),
        Node::Figure { marker, content, attributes, .. } => usx_element(
            "figure"@,
            seq![("style"@, marker@)] + attribute_pairs(attributes@),
            content@,
            st,
        ),
        Node::Sidebar { marker, content, .. } => usx_element(
            "sidebar"@,
            seq![("style"@, marker@)],
            content@,
            st,
        ),
        Node::Text(s) => (seq![XmlPiece::Text(s@)], st),
        Node::Periph { content, .. } => usx_wrapped("periph"@, seq![], content@, st),
        Node::Table { content, .. } => usx_wrapped("table"@, seq![], content@, st),
        Node::TableRow { content, .. } => usx_wrapped("row"@, seq![], content@, st),
        Node::TableCell { marker, align, content, .. } => usx_element(
            "cell"@,
            seq![("style"@, marker@), ("align"@, align@)],
            content@,
            st,
        ),
        Node::Unknown { marker, content, .. } => usx_element(
            "char"@,
            seq![("style"@, marker@)],
            content@,
            st,
        ),
    }
}

pub open spec fn usx_nodes(nodes: Seq<Node>, st: UsxScan) -> (Seq<XmlPiece>, UsxScan)
    decreases nodes, 0int,
{
    if nodes.len() == 0 {
        (seq![], st)
    } else {
        let before = usx_nodes(nodes.drop_last(), st);
        let last = usx_node(nodes.last(), before.1);
        (before.0 + last.0, last.1)
    }
}

/// The `usx` root element of a document: its nodes, then the end
/// milestones of the verse and chapter still open.
pub open spec fn usx_document(content: Seq<Node>) -> Seq<XmlPiece> {
    let body = usx_nodes(content, UsxScan { chapter_sid: None, verse_sid: None });
    let (v, s1) = close_verse(body.1);
    let (c, _s2) = close_chapter(s1);
    seq![XmlPiece::Start("usx"@, seq![("version"@, "3.0"@)])] + body.0 + v + c + seq![XmlPiece::End("usx"@)]
}

// ---------------------------------------------------------------------------
// Writing
// ---------------------------------------------------------------------------

pub(crate) struct UsxState {
    pub(crate) chapter_sid: Option<String>,
    pub(crate) verse_sid: Option<String>,
}

pub open spec fn opt_view(o: Option<String>) -> Option<Seq<char>> {
    match o {
        Some(s) => Some(s@),
        None => None,
    }
}

impl UsxState {
    pub(crate) open spec fn scan(&self) -> UsxScan {
        UsxScan { chapter_sid: opt_view(self.chapter_sid), verse_sid: opt_view(self.verse_sid) }
    }
}

pub(crate) fn emit(out: &mut String, piece: Result<String, std::io::Error>, Ghost(p): Ghost<XmlPiece>) -> (r: Result<(), UsxError>)
    requires
        piece matches Ok(t) ==> t@ == piece_text(p),
    ensures
        r is Ok <==> piece is Ok,
        piece is Ok ==> final(out)@ == old(out)@ + piece_text(p),
        piece is Err ==> final(out)@ == old(out)@,
        piece matches Err(e) ==> r matches Err(UsxError::Io(e2)) && e2 == e,
{
    match piece {
        Ok(t) => {
            push_str(out, t.as_str());
            Ok(())
        },
        Err(e) => Err(UsxError::Io(e)),
    }
}

pub(crate) proof fn lemma_one(p: XmlPiece)
    ensures
        pieces_text(seq![p]) == piece_text(p),
{
    reveal_with_fuel(pieces_text, 2);
    assert(seq![p].drop_last() =~= Seq::<XmlPiece>::empty());
    assert(pieces_text(Seq::<XmlPiece>::empty()) == Seq::<char>::empty());
    assert(Seq::<char>::empty() + piece_text(p) =~= piece_text(p));
}

fn pair(k: &str, v: &str) -> (r: (String, String))
    ensures
        r.0@ == k@,
        r.1@ == v@,
{
    (str_to_string(k), str_to_string(v))
}

proof fn lemma_attrs_push(a: Seq<(String, String)>, x: (String, String))
    ensures
        attrs_view(a.push(x)) == attrs_view(a).push((x.0@, x.1@)),
{
    assert(attrs_view(a.push(x)) =~= attrs_view(a).push((x.0@, x.1@)));
}

pub(crate) fn push_attr(attrs: &mut Vec<(String, String)>, k: &str, v: &str)
    ensures
        attrs_view(final(attrs)@) == attrs_view(old(attrs)@).push((k@, v@)),
{
    let x = pair(k, v);
    proof {
        lemma_attrs_push(attrs@, x);
    }
    attrs.push(x);
}

pub(crate) fn push_opt_attr(attrs: &mut Vec<(String, String)>, k: &str, v: &Option<String>)
    ensures
        attrs_view(final(attrs)@) == attrs_view(old(attrs)@) + opt_attr(k@, *v),
{
    match v {
        Some(s) => {
            push_attr(attrs, k, s.as_str());
            assert(attrs_view(old(attrs)@).push((k@, s@)) =~= attrs_view(old(attrs)@) + opt_attr(k@, *v));
        },
        None => {
            assert(attrs_view(attrs@) + opt_attr(k@, *v) =~= attrs_view(attrs@));
        },
    }
}

fn push_attribute_pairs(attrs: &mut Vec<(String, String)>, list: &Vec<Attribute>)
    ensures
        attrs_view(final(attrs)@) == attrs_view(old(attrs)@) + attribute_pairs(list@),
{
    let mut i: usize = 0;
    while i < list.len()
        invariant
            i <= list@.len(),
            attrs_view(attrs@) =~= attrs_view(old(attrs)@) + attribute_pairs(list@.subrange(0, i as int)),
        decreases list@.len() - i,
    {
        push_attr(attrs, list[i].key.as_str(), list[i].value.as_str());
        assert(attribute_pairs(list@.subrange(0, i + 1)) =~= attribute_pairs(list@.subrange(0, i as int)).push(
            (list@[i as int].key@, list@[i as int].value@),
        ));
        i += 1;
    }
    assert(list@.subrange(0, list@.len() as int) =~= list@);
}

pub(crate) fn close_verse_exec(st: &mut UsxState, out: &mut String) -> (r: Result<(), UsxError>)
    ensures
        r is Ok,
        final(out)@ == old(out)@ + pieces_text(close_verse(old(st).scan()).0),
        final(st).scan() == close_verse(old(st).scan()).1,
{
    match st.verse_sid.take() {
        Some(sid) => {
            let mut attrs: Vec<(String, String)> = Vec::new();
            assert(attrs_view(attrs@) =~= seq![]);
            push_attr(&mut attrs, "eid", sid.as_str());
            let ghost p = XmlPiece::Empty("verse"@, seq![("eid"@, sid@)]);
            assert(attrs_view(attrs@) =~= seq![("eid"@, sid@)]);
            proof {
                lemma_one(p);
            }
            emit(out, xml_empty_tag("verse", &attrs), Ghost(p))
        },
        None => {
            assert(out@ + pieces_text(seq![]) =~= out@);
            Ok(())
        },
    }
}

pub(crate) fn close_chapter_exec(st: &mut UsxState, out: &mut String) -> (r: Result<(), UsxError>)
    ensures
        r is Ok,
        final(out)@ == old(out)@ + pieces_text(close_chapter(old(st).scan()).0),
        final(st).scan() == close_chapter(old(st).scan()).1,
{
    match st.chapter_sid.take() {
        Some(sid) => {
            let mut attrs: Vec<(String, String)> = Vec::new();
            assert(attrs_view(attrs@) =~= seq![]);
            push_attr(&mut attrs, "eid", sid.as_str());
            let ghost p = XmlPiece::Empty("chapter"@, seq![("eid"@, sid@)]);
            assert(attrs_view(attrs@) =~= seq![("eid"@, sid@)]);
            proof {
                lemma_one(p);
            }
            emit(out, xml_empty_tag("chapter", &attrs), Ghost(p))
        },
        None => {
            assert(out@ + pieces_text(seq![]) =~= out@);
            Ok(())
        },
    }
}

fn write_wrapped(
    tag: &str,
    attrs: &Vec<(String, String)>,
    content: &Vec<Node>,
    st: &mut UsxState,
    out: &mut String,
) -> (r: Result<(), UsxError>)
    ensures
        r is Ok,
        final(out)@ == old(out)@ + pieces_text(
            usx_wrapped(tag@, attrs_view(attrs@), content@, old(st).scan()).0,
        ),
        final(st).scan() == usx_wrapped(tag@, attrs_view(attrs@), content@, old(st).scan()).1,
    decreases content@, 1int,
{
    let ghost start = out@;
    let ghost s0 = st.scan();
    let ghost ps = XmlPiece::Start(tag@, attrs_view(attrs@));
    let ghost pe = XmlPiece::End(tag@);
    if let Err(e) = emit(out, xml_start_tag(tag, attrs), Ghost(ps)) {
        return Err(e);
    }
    if let Err(e) = write_nodes(content, st, out) {
        return Err(e);
    }
    if let Err(e) = emit(out, xml_end_tag(tag), Ghost(pe)) {
        return Err(e);
    }
    proof {
        let inner = usx_nodes(content@, s0);
        lemma_one(ps);
        lemma_one(pe);
        lemma_pieces_text_concat(seq![ps], inner.0);
        lemma_pieces_text_concat(seq![ps] + inner.0, seq![pe]);
    }
    Ok(())
}

fn write_element(
    tag: &str,
    attrs: &Vec<(String, String)>,
    content: &Vec<Node>,
    st: &mut UsxState,
    out: &mut String,
) -> (r: Result<(), UsxError>)
    ensures
        r is Ok,
        final(out)@ == old(out)@ + pieces_text(
            usx_element(tag@, attrs_view(attrs@), content@, old(st).scan()).0,
        ),
        final(st).scan() == usx_element(tag@, attrs_view(attrs@), content@, old(st).scan()).1,
    decreases content@, 2int,
{
    if content.len() == 0 {
        let ghost p = XmlPiece::Empty(tag@, attrs_view(attrs@));
        proof {
            lemma_one(p);
        }
        emit(out, xml_empty_tag(tag, attrs), Ghost(p))
    } else {
        write_wrapped(tag, attrs, content, st, out)
    }
}

fn write_nodes(nodes: &Vec<Node>, st: &mut UsxState, out: &mut String) -> (r: Result<(), UsxError>)
    ensures
        r is Ok,
        final(out)@ == old(out)@ + pieces_text(usx_nodes(nodes@, old(st).scan()).0),
        final(st).scan() == usx_nodes(nodes@, old(st).scan()).1,
    decreases nodes@, 0int,
{
    let ghost start = out@;
    let ghost s0 = st.scan();
    let mut i: usize = 0;
    assert(nodes@.subrange(0, 0) =~= Seq::<Node>::empty());
    assert(out@ + pieces_text(seq![]) =~= out@);
    while i < nodes.len()
        invariant
            i <= nodes@.len(),
            out@ == start + pieces_text(usx_nodes(nodes@.subrange(0, i as int), s0).0),
            st.scan() == usx_nodes(nodes@.subrange(0, i as int), s0).1,
        decreases nodes@.len() - i,
    {
        assert(decreases_to!(nodes@ => nodes@[i as int]));
        let ghost sub = nodes@.subrange(0, i + 1);
        assert(sub.drop_last() =~= nodes@.subrange(0, i as int));
        let ghost before = usx_nodes(nodes@.subrange(0, i as int), s0);
        if let Err(e) = write_node(&nodes[i], st, out) {
            return Err(e);
        }
        proof {
            lemma_pieces_text_concat(before.0, usx_node(nodes@[i as int], before.1).0);
        }
        i += 1;
    }
    assert(nodes@.subrange(0, nodes@.len() as int) =~= nodes@);
    Ok(())
}

fn write_node(node: &Node, st: &mut UsxState, out: &mut String) -> (r: Result<(), UsxError>)
    ensures
        r is Ok,
        final(out)@ == old(out)@ + pieces_text(usx_node(*node, old(st).scan()).0),
        final(st).scan() == usx_node(*node, old(st).scan()).1,
    decreases *node, 3int,
{
    let mut attrs: Vec<(String, String)> = Vec::new();
    assert(attrs_view(attrs@) =~= seq![]);
    match node {
        Node::Book { marker, code, content, .. } => {
            push_attr(&mut attrs, "code", code.as_str());
            push_attr(&mut attrs, "style", marker.as_str());
            assert(attrs_view(attrs@) =~= seq![("code"@, code@), ("style"@, marker@)]);
            write_element("book", &attrs, content, st, out)
        },
        Node::Chapter { number, sid, altnumber, pubnumber, .. } => {
            let ghost start = out@;
            let ghost s0 = st.scan();
            if let Err(e) = close_verse_exec(st, out) {
                return Err(e);
            }
            let ghost mid = out@;
            if let Err(e) = close_chapter_exec(st, out) {
                return Err(e);
            }
            let sid_str = match sid {
                Some(s) => str_to_string(s.as_str()),
                None => String::new(),
            };
            assert(sid_str@ =~= sid_or_empty(*sid));
            push_attr(&mut attrs, "number", number.as_str());
            push_attr(&mut attrs, "style", "c");
            push_attr(&mut attrs, "sid", sid_str.as_str());
            push_opt_attr(&mut attrs, "altnumber", altnumber);
            push_opt_attr(&mut attrs, "pubnumber", pubnumber);
            let ghost a = seq![("number"@, number@), ("style"@, "c"@), ("sid"@, sid_or_empty(*sid))]
                + opt_attr("altnumber"@, *altnumber) + opt_attr("pubnumber"@, *pubnumber);
            assert(attrs_view(attrs@) =~= a);
            let ghost p = XmlPiece::Empty("chapter"@, a);
            proof {
                lemma_one(p);
            }
            if let Err(e) = emit(out, xml_empty_tag("chapter", &attrs), Ghost(p)) {
                return Err(e);
            }
            st.chapter_sid = Some(sid_str);
            proof {
                let (v, s1) = close_verse(s0);
                let (c, s2) = close_chapter(s1);
                lemma_pieces_text_concat(v, c);
                lemma_pieces_text_concat(v + c, seq![p]);
            }
            Ok(())
        },
        Node::Verse { number, sid, altnumber, pubnumber, .. } => {
            let ghost s0 = st.scan();
            if let Err(e) = close_verse_exec(st, out) {
                return Err(e);
            }
            let sid_str = match sid {
                Some(s) => str_to_string(s.as_str()),
                None => String::new(),
            };
            assert(sid_str@ =~= sid_or_empty(*sid));
            push_attr(&mut attrs, "number", number.as_str());
            push_attr(&mut attrs, "style", "v");
            push_attr(&mut attrs, "sid", sid_str.as_str());
            push_opt_attr(&mut attrs, "altnumber", altnumber);
            push_opt_attr(&mut attrs, "pubnumber", pubnumber);
            let ghost a = seq![("number"@, number@), ("style"@, "v"@), ("sid"@, sid_or_empty(*sid))]
                + opt_attr("altnumber"@, *altnumber) + opt_attr("pubnumber"@, *pubnumber);
            assert(attrs_view(attrs@) =~= a);
            let ghost p = XmlPiece::Empty("verse"@, a);
            proof {
                lemma_one(p);
            }
            if let Err(e) = emit(out, xml_empty_tag("verse", &attrs), Ghost(p)) {
                return Err(e);
            }
            st.verse_sid = Some(sid_str);
            proof {
                let (v, s1) = close_verse(s0);
                lemma_pieces_text_concat(v, seq![p]);
            }
            Ok(())
        },
        Node::Para { marker, content, .. } => {
            push_attr(&mut attrs, "style", marker.as_str());
            assert(attrs_view(attrs@) =~= seq![("style"@, marker@)]);
            write_element("para", &attrs, content, st, out)
        },
        Node::Char { marker, content, attributes, .. } => {
            push_attr(&mut attrs, "style", marker.as_str());
            push_attribute_pairs(&mut attrs, attributes);
            assert(attrs_view(attrs@) =~= seq![("style"@, marker@)] + attribute_pairs(attributes@));
            write_element("char", &attrs, content, st, out)
        },
        Node::Note { marker, caller, content, .. } => {
            push_attr(&mut attrs, "caller", caller.as_str());
            push_attr(&mut attrs, "style", marker.as_str());
            assert(attrs_view(attrs@) =~= seq![("caller"@, caller@), ("style"@, marker@)]);
            write_element("note", &attrs, content, st, out)
        },
        Node::Milestone { marker, attributes, .. } => {
            push_attr(&mut attrs, "style", marker.as_str());
            push_attribute_pairs(&mut attrs, attributes);
            let ghost p = XmlPiece::Empty("ms"@, seq![("style"@, marker@)] + attribute_pairs(attributes@));
            assert(attrs_view(attrs@) =~= seq![("style"@, marker@)] + attribute_pairs(attributes@));
            proof {
                lemma_one(p);
            }
            emit(out, xml_empty_tag("ms", &attrs), Ghost(p))
        },
        Node::Figure { marker, content, attributes, .. } => {
            push_attr(&mut attrs, "style", marker.as_str());
            push_attribute_pairs(&mut attrs, attributes);
            assert(attrs_view(attrs@) =~= seq![("style"@, marker@)] + attribute_pairs(attributes@));
            write_element("figure", &attrs, content, st, out)
        },
        Node::Sidebar { marker, content, .. } => {
            push_attr(&mut attrs, "style", marker.as_str());
            assert(attrs_view(attrs@) =~= seq![("style"@, marker@)]);
            write_element("sidebar", &attrs, content, st, out)
        },
        Node::Text(s) => {
            let ghost p = XmlPiece::Text(s@);
            proof {
                lemma_one(p);
            }
            emit(out, xml_text(s.as_str()), Ghost(p))
        },
        Node::Periph { content, .. } => write_wrapped("periph", &attrs, content, st, out),
        Node::Table { content, .. } => write_wrapped("table", &attrs, content, st, out),
        Node::TableRow { content, .. } => write_wrapped("row", &attrs, content, st, out),
        Node::TableCell { marker, align, content, .. } => {
            push_attr(&mut attrs, "style", marker.as_str());
            push_attr(&mut attrs, "align", align.as_str());
            assert(attrs_view(attrs@) =~= seq![("style"@, marker@), ("align"@, align@)]);
            write_element("cell", &attrs, content, st, out)
        },
        Node::Unknown { marker, content, .. } => {
            push_attr(&mut attrs, "style", marker.as_str());
            assert(attrs_view(attrs@) =~= seq![("style"@, marker@)]);
            write_element("char", &attrs, content, st, out)
        },
    }
}

/// The USX text of `doc`: an XML declaration, then the `usx` root element
/// (version 3.0) with the document's nodes, chapter and verse end
/// milestones added where the next chapter or verse, or the end, closes
/// them.  The XML writer writes into memory, which never fails, so the
/// result is always `Ok`.
pub fn to_usx_string(doc: &Document) -> (r: Result<String, UsxError>)
    ensures
        r is Ok,
        r matches Ok(t) ==> t@ == xml_decl_text("1.0"@, "utf-8"@) + pieces_text(usx_document(doc.content@)),
{
    let mut out = String::new();
    if let Err(e) = emit_decl(&mut out) {
        return Err(e);
    }
    let ghost after_decl = out@;
    let mut attrs: Vec<(String, String)> = Vec::new();
    assert(attrs_view(attrs@) =~= seq![]);
    push_attr(&mut attrs, "version", "3.0");
    assert(attrs_view(attrs@) =~= seq![("version"@, "3.0"@)]);
    let ghost ps = XmlPiece::Start("usx"@, seq![("version"@, "3.0"@)]);
    proof {
        lemma_one(ps);
    }
    if let Err(e) = emit(&mut out, xml_start_tag("usx", &attrs), Ghost(ps)) {
        return Err(e);
    }
    let mut st = UsxState { chapter_sid: None, verse_sid: None };
    let ghost s0 = st.scan();
    if let Err(e) = write_nodes(&doc.content, &mut st, &mut out) {
        return Err(e);
    }
    let ghost body = usx_nodes(doc.content@, s0);
    if let Err(e) = close_verse_exec(&mut st, &mut out) {
        return Err(e);
    }
    if let Err(e) = close_chapter_exec(&mut st, &mut out) {
        return Err(e);
    }
    let ghost pe = XmlPiece::End("usx"@);
    proof {
        lemma_one(pe);
    }
    if let Err(e) = emit(&mut out, xml_end_tag("usx"), Ghost(pe)) {
        return Err(e);
    }
    proof {
        let (v, s1) = close_verse(body.1);
        let (c, _s2) = close_chapter(s1);
        lemma_pieces_text_concat(seq![ps], body.0);
        lemma_pieces_text_concat(seq![ps] + body.0, v);
        lemma_pieces_text_concat(seq![ps] + body.0 + v, c);
        lemma_pieces_text_concat(seq![ps] + body.0 + v + c, seq![pe]);
        assert(usx_document(doc.content@) =~= seq![ps] + body.0 + v + c + seq![pe]);
    }
    Ok(out)
}

pub(crate) fn emit_decl(out: &mut String) -> (r: Result<(), UsxError>)
    ensures
        r is Ok,
        final(out)@ == old(out)@ + xml_decl_text("1.0"@, "utf-8"@),
{
    match xml_declaration("1.0", "utf-8") {
        Ok(t) => {
            push_str(out, t.as_str());
            Ok(())
        },
        Err(e) => Err(UsxError::Io(e)),
    }
}

} // verus!
