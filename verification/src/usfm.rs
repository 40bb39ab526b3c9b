//! Serialization of a [`Document`] back to normalized USFM text.
use vstd::prelude::*;

use crate::ast::{Attribute, Document, Node};
use crate::text::{chars_to_string, str_chars, trim, trimmed_end_len_exec, ws_prefix_len_exec,
    lemma_ws_prefix_len_bounds, lemma_trimmed_end_len_bounds};

verus! {

/// Serializer state: the output so far and whether it is at the start of a line.
pub struct SerState {
    pub out: Seq<char>,
    pub bol: bool,
}

pub open spec fn ends_with_char(s: Seq<char>, c: char) -> bool {
    s.len() > 0 && s.last() == c
}

pub open spec fn emit(st: SerState, s: Seq<char>) -> SerState {
    SerState { out: st.out + s, bol: st.bol }
}

pub open spec fn with_bol(st: SerState, bol: bool) -> SerState {
    SerState { out: st.out, bol }
}

pub open spec fn ensure_newline(st: SerState) -> SerState {
    if !st.bol {
        SerState { out: st.out.push('\n'), bol: true }
    } else {
        st
    }
}

pub open spec fn ensure_space(st: SerState) -> SerState {
    if !st.bol && !ends_with_char(st.out, ' ') && !ends_with_char(st.out, '\n') {
        emit(st, seq![' '])
    } else {
        st
    }
}

/// `s` without its trailing spaces.
pub open spec fn drop_trailing_spaces(s: Seq<char>) -> Seq<char>
    decreases s.len(),
{
    if ends_with_char(s, ' ') {
        drop_trailing_spaces(s.drop_last())
    } else {
        s
    }
}

/// `s` without its leading spaces.
pub open spec fn drop_leading_spaces(s: Seq<char>) -> Seq<char>
    decreases s.len(),
{
    if s.len() > 0 && s[0] == ' ' {
        drop_leading_spaces(s.subrange(1, s.len() as int))
    } else {
        s
    }
}

pub open spec fn ser_attribute(st: SerState, a: Attribute, first: bool) -> SerState {
    let st1 = if first {
        st
    } else {
        emit(st, seq![' '])
    };
    emit(emit(emit(emit(st1, a.key@), "=\""@), a.value@), seq!['"'])
}

pub open spec fn ser_attribute_list(st: SerState, attrs: Seq<Attribute>) -> SerState
    decreases attrs.len(),
{
    if attrs.len() == 0 {
        st
    } else {
        ser_attribute(ser_attribute_list(st, attrs.drop_last()), attrs.last(), attrs.len() == 1)
    }
}

/// An attribute list is written as its attributes, each as `key="value"`,
/// with one space between two of them and none before the first: the
/// first attribute alone writes `key="value"`, and each further attribute
/// adds a space and its own `key="value"` to what the list before it
/// wrote; the line state stays as it was.
pub proof fn law_attribute_list(st: SerState, attrs: Seq<Attribute>, a: Attribute)
    ensures
        ser_attribute_list(st, seq![a]).out == st.out + a.key@ + seq!['=', '"'] + a.value@ + seq!['"'],
        attrs.len() > 0 ==> ser_attribute_list(st, attrs.push(a)).out == ser_attribute_list(st, attrs).out
            + seq![' '] + a.key@ + seq!['=', '"'] + a.value@ + seq!['"'],
        ser_attribute_list(st, attrs).bol == st.bol,
    decreases attrs.len(),
{
    reveal_strlit("=\"");
    assert("=\""@ =~= seq!['=', '"']);
    assert(seq![a].drop_last() =~= Seq::<Attribute>::empty());
    assert(seq![a].last() == a);
    assert(ser_attribute_list(st, Seq::<Attribute>::empty()) == st);
    assert(ser_attribute_list(st, seq![a]) == ser_attribute(st, a, true));
    assert(attrs.push(a).drop_last() =~= attrs);
    assert(ser_attribute_list(st, seq![a]).out =~= st.out + a.key@ + seq!['=', '"'] + a.value@ + seq!['"']);
    if attrs.len() > 0 {
        let p = ser_attribute_list(st, attrs);
        assert(ser_attribute_list(st, attrs.push(a)).out =~= p.out + seq![' '] + a.key@ + seq!['=', '"'] + a.value@
            + seq!['"']);
        law_attribute_list(st, attrs.drop_last(), attrs.last());
    }
}

/// The attributes of a marker are written as `|` and then the list.
pub proof fn law_attributes_bar(st: SerState, attrs: Seq<Attribute>)
    ensures
        ser_attributes(st, attrs).out == st.out + seq!['|'] + (ser_attribute_list(
            SerState { out: seq![], bol: st.bol },
            attrs,
        ).out),
    decreases attrs.len(),
{
    lemma_attribute_list_prefix(SerState { out: st.out + seq!['|'], bol: st.bol }, attrs);
    assert(emit(st, seq!['|']) == SerState { out: st.out + seq!['|'], bol: st.bol });
}

/// The text a list adds does not depend on what came before it.
proof fn lemma_attribute_list_prefix(st: SerState, attrs: Seq<Attribute>)
    ensures
        ser_attribute_list(st, attrs).out == st.out + ser_attribute_list(
            SerState { out: seq![], bol: st.bol },
            attrs,
        ).out,
    decreases attrs.len(),
{
    if attrs.len() > 0 {
        lemma_attribute_list_prefix(st, attrs.drop_last());
        let e = SerState { out: seq![], bol: st.bol };
        let p = ser_attribute_list(st, attrs.drop_last());
        let q = ser_attribute_list(e, attrs.drop_last());
        assert(p.bol == q.bol) by {
            law_attribute_list(st, attrs.drop_last(), attrs.last());
            law_attribute_list(e, attrs.drop_last(), attrs.last());
        }
        assert(ser_attribute_list(st, attrs).out =~= st.out + ser_attribute_list(e, attrs).out);
    }
}

pub open spec fn ser_attributes(st: SerState, attrs: Seq<Attribute>) -> SerState {
    ser_attribute_list(emit(st, seq!['|']), attrs)
}

pub open spec fn ser_opt_attributes(st: SerState, attrs: Seq<Attribute>) -> SerState {
    if attrs.len() > 0 {
        ser_attributes(st, attrs)
    } else {
        st
    }
}

pub open spec fn open_inline(st: SerState, marker: Seq<char>) -> SerState {
    with_bol(emit(emit(emit(st, seq!['\\']), marker), seq![' ']), false)
}

pub open spec fn close_inline(st: SerState, marker: Seq<char>) -> SerState {
    emit(emit(emit(st, seq!['\\']), marker), seq!['*'])
}

/// Serializes an inline element `\m content|attrs\m*`.
pub open spec fn ser_inline(st: SerState, marker: Seq<char>, content: Seq<Node>, attrs: Seq<Attribute>) -> SerState
    decreases content, 2int,
{
    close_inline(ser_opt_attributes(ser_nodes(open_inline(st, marker), content), attrs), marker)
}

pub open spec fn ser_para(st: SerState, marker: Seq<char>, content: Seq<Node>) -> SerState
    decreases content, 2int,
{
    let st1 = with_bol(emit(emit(ensure_newline(st), seq!['\\']), marker), false);
    if content.len() == 0 {
        st1
    } else {
        let st2 = if content[0] is Verse {
            st1
        } else {
            emit(st1, seq![' '])
        };
        let st3 = ser_nodes(st2, content);
        SerState { out: drop_trailing_spaces(st3.out), bol: st3.bol }
    }
}

pub open spec fn ser_book_child(st: SerState, n: Node) -> SerState
    decreases n, 4int,
{
    match n {
        Node::Text(s) => if trim(s@).len() > 0 {
            emit(emit(st, seq![' ']), trim(s@))
        } else {
            st
        },
        _ => ser_node(with_bol(emit(st, seq![' ']), false), n),
    }
}

pub open spec fn ser_book_children(st: SerState, ns: Seq<Node>) -> SerState
    decreases ns, 2int,
{
    if ns.len() == 0 {
        st
    } else {
        ser_book_child(ser_book_children(st, ns.drop_last()), ns.last())
    }
}

pub open spec fn ser_nodes(st: SerState, ns: Seq<Node>) -> SerState
    decreases ns, 1int,
{
    if ns.len() == 0 {
        st
    } else {
        ser_node(ser_nodes(st, ns.drop_last()), ns.last())
    }
}

pub open spec fn ser_opt_suffix(st: SerState, o: Option<String>, pre: Seq<char>, post: Seq<char>) -> SerState {
    match o {
        Some(x) => emit(emit(emit(st, pre), x@), post),
        None => st,
    }
}

pub open spec fn ser_opt_prefixed(st: SerState, o: Option<String>, pre: Seq<char>) -> SerState {
    match o {
        Some(x) => emit(emit(st, pre), x@),
        None => st,
    }
}

/// The serializer state after emitting node `n` in state `st`.
pub open spec fn ser_node(st: SerState, n: Node) -> SerState
    decreases n, 3int,
{
    match n {
        Node::Book { code, content, .. } => {
            let st1 = emit(emit(ensure_newline(st), "\\id "@), code@);
            let st2 = ser_book_children(st1, content@);
            with_bol(emit(st2, seq!['\n']), true)
        },
        Node::Chapter(data) => {
            let st1 = with_bol(emit(emit(emit(ensure_newline(st), "\\c "@), data.number@), seq!['\n']), true);
            let st2 = ser_opt_suffix(st1, data.altnumber, " \\ca "@, "\\ca*"@);
            ser_opt_prefixed(st2, data.pubnumber, " \\cp "@)
        },
        Node::Verse(data) => {
            let st0 = if !st.bol {
                ensure_space(st)
            } else {
                st
            };
            let st1 = with_bol(emit(emit(emit(st0, "\\v "@), data.number@), seq![' ']), false);
            let st2 = ser_opt_suffix(st1, data.altnumber, "\\va "@, "\\va*"@);
            ser_opt_suffix(st2, data.pubnumber, "\\vp "@, "\\vp*"@)
        },
        Node::Para { marker, content } => ser_para(st, marker@, content@),
        Node::Char(data) => ser_inline(st, data.marker@, data.content@, data.attributes@),
        Node::Note { marker, caller, content, .. } => {
            let st1 = with_bol(emit(emit(open_inline(st, marker@), caller@), seq![' ']), false);
            close_inline(ser_nodes(st1, content@), marker@)
        },
        Node::Milestone { marker, attributes } => {
            let st1 = ser_opt_attributes(emit(emit(st, seq!['\\']), marker@), attributes@);
            with_bol(emit(st1, "\\*"@), false)
        },
        Node::Figure { marker, content, attributes } => ser_inline(st, marker@, content@, attributes@),
        Node::Sidebar { content, .. } => {
            let st1 = with_bol(emit(emit(ensure_newline(st), "\\esb"@), seq!['\n']), true);
            let st2 = ser_nodes(st1, content@);
            with_bol(emit(emit(ensure_newline(st2), "\\esbe"@), seq!['\n']), true)
        },
        Node::Periph { content, .. } => {
            let st1 = with_bol(emit(ensure_newline(st), "\\periph"@), false);
            ser_nodes(st1, content@)
        },
        Node::Table { content } => ser_nodes(st, content@),
        Node::TableRow { marker, content } => ser_para(st, marker@, content@),
        Node::TableCell { marker, content, .. } => ser_inline(st, marker@, content@, seq![]),
        Node::Text(s) => {
            let text = if ends_with_char(st.out, ' ') {
                drop_leading_spaces(s@)
            } else {
                s@
            };
            SerState { out: st.out + text, bol: ends_with_char(text, '\n') }
        },
        Node::Ref { content, attributes } => ser_inline(st, "ref"@, content@, attributes@),
        Node::Unknown { marker, content } => close_inline(ser_nodes(open_inline(st, marker@), content@), marker@),
        Node::OptBreak => emit(st, "//"@),
    }
}

/// The normalized USFM text of a document.
pub open spec fn usfm_of(doc: Document) -> Seq<char> {
    let st = ser_nodes(SerState { out: seq![], bol: true }, doc.content@);
    if st.out.len() > 0 && !ends_with_char(st.out, '\n') {
        st.out.push('\n')
    } else {
        st.out
    }
}

/// Serialize a [`Document`] to a normalized USFM 3.x string.
///
/// The output is *normalized* -- it produces valid, well-formed USFM but does
/// not attempt round-trip fidelity with the text it was parsed from.  Whitespace
/// and formatting are regularized according to common USFM conventions:
///
/// * Paragraph-level markers (`\p`, `\q1`, `\m`, ...) start on a new line.
/// * `\c N` gets its own line.
/// * `\v N` is inline within paragraph content.
/// * Character markers (`\nd`, `\bk`, ...) are inline with closing markers.
/// * Notes (`\f`, `\x`) are inline with closing markers.
/// * Milestones are inline.
/// * The `\id` line is always first.
/// * Sidebars use `\esb` / `\esbe` each on their own line.
pub fn to_usfm_string(doc: &Document) -> (r: String)
    ensures
        r@ == usfm_of(*doc),
{
    let mut ser = UsfmSerializer { output: Vec::new(), at_line_start: true };
    ser.serialize_document(doc);
    chars_to_string(&ser.output)
}

struct UsfmSerializer {
    output: Vec<char>,
    /// True when the write cursor is at column 0 of a fresh line.
    at_line_start: bool,
}

impl UsfmSerializer {
    spec fn state(&self) -> SerState {
        SerState { out: self.output@, bol: self.at_line_start }
    }

    fn serialize_document(&mut self, doc: &Document)
        requires
            old(self).state() == (SerState { out: seq![], bol: true }),
        ensures
            final(self).output@ == usfm_of(*doc),
    {
        self.serialize_nodes(&doc.content);
        if self.output.len() > 0 && self.output[self.output.len() - 1] != '\n' {
            self.output.push('\n');
        }
    }

    fn push_lit(&mut self, s: &str)
        ensures
            final(self).state() == emit(old(self).state(), s@),
    {
        let v = str_chars(s);
        self.push_chars(&v);
    }

    fn push_chars(&mut self, v: &[char])
        ensures
            final(self).state() == emit(old(self).state(), v@),
    {
        let mut i: usize = 0;
        while i < v.len()
            invariant
                i <= v@.len(),
                self.at_line_start == old(self).at_line_start,
                self.output@ == old(self).output@ + v@.subrange(0, i as int),
            decreases v@.len() - i,
        {
            self.output.push(v[i]);
            assert(v@.subrange(0, i as int + 1) =~= v@.subrange(0, i as int).push(v@[i as int]));
            i += 1;
        }
        assert(v@.subrange(0, v@.len() as int) =~= v@);
    }

    fn push_char(&mut self, c: char)
        ensures
            final(self).state() == emit(old(self).state(), seq![c]),
    {
        self.output.push(c);
        assert(self.output@ =~= old(self).output@ + seq![c]);
    }

    fn set_bol(&mut self, b: bool)
        ensures
            final(self).state() == with_bol(old(self).state(), b),
    {
        self.at_line_start = b;
    }

    fn push_opt_suffix(&mut self, o: &Option<String>, pre: &str, post: &str)
        ensures
            final(self).state() == ser_opt_suffix(old(self).state(), *o, pre@, post@),
    {
        match o {
            Some(x) => {
                self.push_lit(pre);
                self.push_string(x);
                self.push_lit(post);
            },
            None => {},
        }
    }

    fn open_inline(&mut self, marker: &[char])
        ensures
            final(self).state() == open_inline(old(self).state(), marker@),
    {
        self.push_char('\\');
        self.push_chars(marker);
        self.push_char(' ');
        self.set_bol(false);
    }

    fn close_inline(&mut self, marker: &[char])
        ensures
            final(self).state() == close_inline(old(self).state(), marker@),
    {
        self.push_char('\\');
        self.push_chars(marker);
        self.push_char('*');
    }

    fn push_string(&mut self, s: &String)
        ensures
            final(self).state() == emit(old(self).state(), s@),
    {
        let v = str_chars(s.as_str());
        self.push_chars(&v);
    }

    fn ends_with(&self, c: char) -> (r: bool)
        ensures
            r == ends_with_char(self.output@, c),
    {
        self.output.len() > 0 && self.output[self.output.len() - 1] == c
    }

    /// Ensure we are at the start of a new line.  If we are not, emit a
    /// newline character first.
    fn ensure_newline(&mut self)
        ensures
            final(self).state() == ensure_newline(old(self).state()),
    {
        if !self.at_line_start {
            self.output.push('\n');
            self.at_line_start = true;
        }
    }

    /// Ensure a single space separator exists before the next token, unless
    /// we are already at line-start or the output already ends with a space.
    fn ensure_space(&mut self)
        ensures
            final(self).state() == ensure_space(old(self).state()),
    {
        if !self.at_line_start && !self.ends_with(' ') && !self.ends_with('\n') {
            self.push_char(' ');
        }
    }

    fn serialize_nodes(&mut self, nodes: &Vec<Node>)
        ensures
            final(self).state() == ser_nodes(old(self).state(), nodes@),
        decreases nodes@, 1int,
    {
        let mut i: usize = 0;
        assert(nodes@.subrange(0, 0) =~= Seq::<Node>::empty());
        while i < nodes.len()
            invariant
                i <= nodes@.len(),
                self.state() == ser_nodes(old(self).state(), nodes@.subrange(0, i as int)),
            decreases nodes@.len() - i,
        {
            assert(nodes@.subrange(0, i as int + 1).drop_last() =~= nodes@.subrange(0, i as int));
            assert(decreases_to!(nodes@ => nodes@[i as int]));
            self.serialize_node(&nodes[i]);
            i += 1;
        }
        assert(nodes@.subrange(0, nodes@.len() as int) =~= nodes@);
    }

    fn serialize_node(&mut self, node: &Node)
        ensures
            final(self).state() == ser_node(old(self).state(), *node),
        decreases *node, 3int,
    {
        match node {
            Node::Book { code, content, .. } => {
                self.ensure_newline();
                self.push_lit("\\id ");
                self.push_string(code);
                assert(decreases_to!(*node => content@));
                self.serialize_book_children(content);
                self.push_char('\n');
                self.set_bol(true);
            },
            Node::Chapter(data) => {
                self.ensure_newline();
                self.push_lit("\\c ");
                self.push_string(&data.number);
                self.push_char('\n');
                self.set_bol(true);
                self.push_opt_suffix(&data.altnumber, " \\ca ", "\\ca*");
                if let Some(p) = &data.pubnumber {
                    self.push_lit(" \\cp ");
                    self.push_string(p);
                }
            },
            Node::Verse(data) => {
                if !self.at_line_start {
                    self.ensure_space();
                }
                self.push_lit("\\v ");
                self.push_string(&data.number);
                self.push_char(' ');
                self.set_bol(false);
                self.push_opt_suffix(&data.altnumber, "\\va ", "\\va*");
                self.push_opt_suffix(&data.pubnumber, "\\vp ", "\\vp*");
            },
            Node::Para { marker, content } => {
                let m = marker.to_chars();
                assert(decreases_to!(*node => content@));
                self.serialize_para(&m, content);
            },
            Node::Char(data) => {
                let m = data.marker.to_chars();
                assert(decreases_to!(*node => data.content@));
                self.serialize_inline(&m, &data.content, &data.attributes);
            },
            Node::Note { marker, caller, content, .. } => {
                let m = marker.to_chars();
                self.open_inline(&m);
                self.push_string(caller);
                self.push_char(' ');
                self.set_bol(false);
                assert(decreases_to!(*node => content@));
                self.serialize_nodes(content);
                self.close_inline(&m);
            },
            Node::Milestone { marker, attributes } => {
                let m = marker.to_chars();
                self.push_char('\\');
                self.push_chars(&m);
                if attributes.len() > 0 {
                    self.serialize_attributes(attributes);
                }
                self.push_lit("\\*");
                self.set_bol(false);
            },
            Node::Figure { marker, content, attributes } => {
                let m = marker.to_chars();
                assert(decreases_to!(*node => content@));
                self.serialize_inline(&m, content, attributes);
            },
            Node::Sidebar { content, .. } => {
                self.ensure_newline();
                self.push_lit("\\esb");
                self.push_char('\n');
                self.set_bol(true);
                assert(decreases_to!(*node => content@));
                self.serialize_nodes(content);
                self.ensure_newline();
                self.push_lit("\\esbe");
                self.push_char('\n');
                self.set_bol(true);
            },
            Node::Periph { content, .. } => {
                self.ensure_newline();
                self.push_lit("\\periph");
                self.set_bol(false);
                assert(decreases_to!(*node => content@));
                self.serialize_nodes(content);
            },
            Node::Table { content } => {
                assert(decreases_to!(*node => content@));
                self.serialize_nodes(content);
            },
            Node::TableRow { marker, content } => {
                let m = marker.to_chars();
                assert(decreases_to!(*node => content@));
                self.serialize_para(&m, content);
            },
            Node::TableCell { marker, content, .. } => {
                let m = marker.to_chars();
                let none: Vec<Attribute> = Vec::new();
                assert(decreases_to!(*node => content@));
                self.serialize_inline(&m, content, &none);
            },
            Node::Text(s) => {
                let v = str_chars(s.as_str());
                let start = if self.ends_with(' ') {
                    leading_spaces(&v)
                } else {
                    0
                };
                proof {
                    assert(v@.subrange(0, v@.len() as int) =~= v@);
                }
                let ghost text = v@.subrange(start as int, v@.len() as int);
                let mut i = start;
                let ghost out0 = self.output@;
                while i < v.len()
                    invariant
                        start <= i <= v@.len(),
                        self.output@ == out0 + v@.subrange(start as int, i as int),
                    decreases v@.len() - i,
                {
                    self.output.push(v[i]);
                    assert(v@.subrange(start as int, i as int + 1) =~= v@.subrange(start as int, i as int).push(v@[i as int]));
                    i += 1;
                }
                self.at_line_start = start < v.len() && v[v.len() - 1] == '\n';
                proof {
                    if start < v.len() {
                        assert(text.last() == v@.last());
                    }
                    assert(self.output@ == old(self).output@ + text);
                    if ends_with_char(old(self).output@, ' ') {
                        assert(text == drop_leading_spaces(s@));
                    } else {
                        assert(text == s@);
                    }
                }
            },
            Node::Ref { content, attributes } => {
                let m = str_chars("ref");
                assert(decreases_to!(*node => content@));
                self.serialize_inline(&m, content, attributes);
            },
            Node::Unknown { marker, content } => {
                let m = marker.to_chars();
                self.open_inline(&m);
                assert(decreases_to!(*node => content@));
                self.serialize_nodes(content);
                self.close_inline(&m);
            },
            Node::OptBreak => {
                self.push_lit("//");
            },
        }
    }

    fn serialize_book_children(&mut self, content: &Vec<Node>)
        ensures
            final(self).state() == ser_book_children(old(self).state(), content@),
        decreases content@, 2int,
    {
        let mut i: usize = 0;
        assert(content@.subrange(0, 0) =~= Seq::<Node>::empty());
        while i < content.len()
            invariant
                i <= content@.len(),
                self.state() == ser_book_children(old(self).state(), content@.subrange(0, i as int)),
            decreases content@.len() - i,
        {
            assert(content@.subrange(0, i as int + 1).drop_last() =~= content@.subrange(0, i as int));
            let child = &content[i];
            let ghost st_before = self.state();
            assert(st_before == ser_book_children(old(self).state(), content@.subrange(0, i as int + 1).drop_last()));
            match child {
                Node::Text(s) => {
                    let v = str_chars(s.as_str());
                    let a = ws_prefix_len_exec(&v);
                    proof {
                        lemma_ws_prefix_len_bounds(v@);
                    }
                    let rest = crate::text::slice_chars(&v, a, v.len());
                    let b = trimmed_end_len_exec(&rest);
                    proof {
                        lemma_trimmed_end_len_bounds(rest@);
                    }
                    let trimmed = crate::text::slice_chars(&rest, 0, b);
                    assert(trimmed@ == trim(s@));
                    if trimmed.len() > 0 {
                        self.push_char(' ');
                        self.push_chars(&trimmed);
                    }
                    assert(self.state() == ser_book_child(st_before, *child));
                },
                _ => {
                    self.push_char(' ');
                    self.set_bol(false);
                    assert(decreases_to!(content@ => content@[i as int]));
                    self.serialize_node(child);
                    assert(self.state() == ser_book_child(st_before, *child));
                },
            }
            assert(content@.subrange(0, i as int + 1).last() == *child);
            assert(self.state() == ser_book_children(old(self).state(), content@.subrange(0, i as int + 1)));
            i += 1;
        }
        assert(content@.subrange(0, content@.len() as int) =~= content@);
    }

    fn serialize_para(&mut self, marker: &[char], content: &Vec<Node>)
        ensures
            final(self).state() == ser_para(old(self).state(), marker@, content@),
        decreases content@, 2int,
    {
        self.ensure_newline();
        self.push_char('\\');
        self.push_chars(marker);
        self.set_bol(false);
        if content.len() == 0 {
            return;
        }
        let first_is_verse = match &content[0] {
            Node::Verse(_) => true,
            _ => false,
        };
        if !first_is_verse {
            self.push_char(' ');
        }
        self.serialize_nodes(content);
        let ghost before = self.output@;
        let ghost bol = self.at_line_start;
        while self.ends_with(' ')
            invariant
                self.at_line_start == bol,
                drop_trailing_spaces(self.output@) == drop_trailing_spaces(before),
            decreases self.output@.len(),
        {
            self.output.pop();
        }
    }

    fn serialize_inline(&mut self, marker: &[char], content: &Vec<Node>, attributes: &Vec<Attribute>)
        ensures
            final(self).state() == ser_inline(old(self).state(), marker@, content@, attributes@),
        decreases content@, 2int,
    {
        self.open_inline(marker);
        self.serialize_nodes(content);
        if attributes.len() > 0 {
            self.serialize_attributes(attributes);
        }
        self.close_inline(marker);
    }

    /// Serialize a `|key="value" ...` attribute list.
    fn serialize_attributes(&mut self, attributes: &Vec<Attribute>)
        ensures
            final(self).state() == ser_attributes(old(self).state(), attributes@),
    {
        self.push_char('|');
        let ghost st0 = self.state();
        let mut i: usize = 0;
        assert(attributes@.subrange(0, 0) =~= Seq::<Attribute>::empty());
        while i < attributes.len()
            invariant
                i <= attributes@.len(),
                self.state() == ser_attribute_list(st0, attributes@.subrange(0, i as int)),
            decreases attributes@.len() - i,
        {
            assert(attributes@.subrange(0, i as int + 1).drop_last() =~= attributes@.subrange(0, i as int));
            if i > 0 {
                self.push_char(' ');
            }
            self.push_string(&attributes[i].key);
            self.push_lit("=\"");
            self.push_string(&attributes[i].value);
            self.push_char('"');
            i += 1;
        }
        assert(attributes@.subrange(0, attributes@.len() as int) =~= attributes@);
    }
}

/// Number of leading spaces of `v`.
fn leading_spaces(v: &[char]) -> (r: usize)
    ensures
        r <= v@.len(),
        drop_leading_spaces(v@) == v@.subrange(r as int, v@.len() as int),
{
    let mut i: usize = 0;
    assert(v@.subrange(0, v@.len() as int) =~= v@);
    while i < v.len() && v[i] == ' '
        invariant
            i <= v@.len(),
            drop_leading_spaces(v@) == drop_leading_spaces(v@.subrange(i as int, v@.len() as int)),
        decreases v@.len() - i,
    {
        let ghost t = v@.subrange(i as int, v@.len() as int);
        assert(t.subrange(1, t.len() as int) =~= v@.subrange(i as int + 1, v@.len() as int));
        i += 1;
    }
    i
}

} // verus!
