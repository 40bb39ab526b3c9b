//! JSON values and their text, compact and indented.
use vstd::prelude::*;

use crate::text::{decimal, decimal_usize, push_chars, push_str, str_to_string};

verus! {

#[verifier::external_type_specification]
#[verifier::external_body]
pub struct ExJsonError(serde_json::Error);

/// A JSON value whose objects keep their keys in insertion order.
#[derive(Debug, PartialEq)]
pub enum JsonValue {
    String(String),
    Number(usize),
    Array(Vec<JsonValue>),
    Object(Vec<Member>),
}

/// A key of an object with its value.
#[derive(Debug, PartialEq)]
pub struct Member {
    pub key: String,
    pub value: JsonValue,
}

/// The mathematical form of a JSON value.
pub enum Json {
    String(Seq<char>),
    Number(nat),
    Array(Seq<Json>),
    Object(Seq<(Seq<char>, Json)>),
}

pub open spec fn json_view(v: JsonValue) -> Json
    decreases v, 2int,
{
    match v {
        JsonValue::String(s) => Json::String(s@),
        JsonValue::Number(n) => Json::Number(n as nat),
        JsonValue::Array(items) => Json::Array(json_views(items@)),
        JsonValue::Object(es) => Json::Object(entry_views(es@)),
    }
}

pub open spec fn json_views(items: Seq<JsonValue>) -> Seq<Json>
    decreases items, 1int,
{
    if items.len() == 0 {
        seq![]
    } else {
        json_views(items.drop_last()).push(json_view(items.last()))
    }
}

pub open spec fn entry_views(es: Seq<Member>) -> Seq<(Seq<char>, Json)>
    decreases es, 1int,
{
    if es.len() == 0 {
        seq![]
    } else {
        proof {
            assert(decreases_to!(es => es.last()));
        }
        entry_views(es.drop_last()).push((es.last().key@, json_view(es.last().value)))
    }
}

impl View for JsonValue {
    type V = Json;

    open spec fn view(&self) -> Json {
        json_view(*self)
    }
}

/// What `serde_json::to_string` gives for the string `s`: `s` as a JSON
/// string literal, quoted and escaped.
pub uninterp spec fn json_quoted(s: Seq<char>) -> Seq<char>;

/// `serde_json::to_string` on a string slice: the slice as a quoted,
/// escaped JSON string literal.  Its text is named `json_quoted`.  A string
/// slice serializes through `serialize_str` into a `Vec<u8>`, whose writes
/// never fail, so the call always succeeds.
#[verifier::external_body]
fn quote(s: &str) -> (r: Result<String, serde_json::Error>)
    ensures
        r is Ok,
        r matches Ok(q) ==> q@ == json_quoted(s@),
{
    serde_json::to_string(s)
}

/// The text of `v` with no whitespace: members in the order the object
/// holds them, separated by `,`, keys and values by `:`, and strings
/// quoted as `json_quoted` gives them.
pub open spec fn compact(v: Json) -> Seq<char>
    decreases v, 2int,
{
    match v {
        Json::String(s) => json_quoted(s),
        Json::Number(n) => decimal(n),
        Json::Array(items) => "["@ + compact_items(items) + "]"@,
        Json::Object(es) => "{"@ + compact_entries(es) + "}"@,
    }
}

pub open spec fn compact_items(items: Seq<Json>) -> Seq<char>
    decreases items, 1int,
{
    if items.len() == 0 {
        seq![]
    } else {
        let pre = compact_items(items.drop_last());
        (if items.len() > 1 {
            pre + ","@
        } else {
            pre
        }) + compact(items.last())
    }
}

pub open spec fn compact_entries(es: Seq<(Seq<char>, Json)>) -> Seq<char>
    decreases es, 1int,
{
    if es.len() == 0 {
        seq![]
    } else {
        proof {
            assert(decreases_to!(es => es.last()));
        }
        let pre = compact_entries(es.drop_last());
        (if es.len() > 1 {
            pre + ","@
        } else {
            pre
        }) + json_quoted(es.last().0) + ":"@ + compact(es.last().1)
    }
}

/// The text of `v` with each member and item on a line of its own,
/// indented by two spaces a level, `": "` between key and value, empty
/// arrays and objects as `[]` and `{}`, and `ind` the indentation of the
/// line it starts on.
pub open spec fn pretty(v: Json, ind: Seq<char>) -> Seq<char>
    decreases v, 2int,
{
    match v {
        Json::String(s) => json_quoted(s),
        Json::Number(n) => decimal(n),
        Json::Array(items) => if items.len() == 0 {
            "[]"@
        } else {
            "[\n"@ + pretty_items(items, ind + "  "@) + "\n"@ + ind + "]"@
        },
        Json::Object(es) => if es.len() == 0 {
            "{}"@
        } else {
            "{\n"@ + pretty_entries(es, ind + "  "@) + "\n"@ + ind + "}"@
        },
    }
}

pub open spec fn pretty_items(items: Seq<Json>, ind: Seq<char>) -> Seq<char>
    decreases items, 1int,
{
    if items.len() == 0 {
        seq![]
    } else {
        let pre = pretty_items(items.drop_last(), ind);
        (if items.len() > 1 {
            pre + ",\n"@
        } else {
            pre
        }) + ind + pretty(items.last(), ind)
    }
}

pub open spec fn pretty_entries(es: Seq<(Seq<char>, Json)>, ind: Seq<char>) -> Seq<char>
    decreases es, 1int,
{
    if es.len() == 0 {
        seq![]
    } else {
        proof {
            assert(decreases_to!(es => es.last()));
        }
        let pre = pretty_entries(es.drop_last(), ind);
        (if es.len() > 1 {
            pre + ",\n"@
        } else {
            pre
        }) + ind + json_quoted(es.last().0) + ": "@ + pretty(es.last().1, ind)
    }
}

/// Appends the JSON string literal of `s`.
fn write_quoted(s: &str, out: &mut String) -> (r: Result<(), serde_json::Error>)
    ensures
        r is Ok,
        final(out)@ == old(out)@ + json_quoted(s@),
{
    match quote(s) {
        Ok(q) => {
            push_str(out, q.as_str());
            Ok(())
        },
        Err(e) => Err(e),
    }
}

/// Appends the compact text of `v`.
fn write_compact(v: &JsonValue, out: &mut String) -> (r: Result<(), serde_json::Error>)
    ensures
        r is Ok,
        final(out)@ == old(out)@ + compact(v@),
    decreases *v, 2int,
{
    match v {
        JsonValue::String(s) => write_quoted(s.as_str(), out),
        JsonValue::Number(n) => {
            push_chars(out, &decimal_usize(*n));
            Ok(())
        },
        JsonValue::Array(items) => {
            let ghost start = out@;
            push_str(out, "[");
            let mut i: usize = 0;
            assert(items@.subrange(0, 0) =~= Seq::<JsonValue>::empty());
            assert(decreases_to!(*v => items@));
            while i < items.len()
                invariant
                    i <= items@.len(),
                    decreases_to!(*v => items@),
                    out@ == start + "["@ + compact_items(json_views(items@.subrange(0, i as int))),
                decreases items@.len() - i,
            {
                let ghost sub = items@.subrange(0, i + 1);
                assert(sub.drop_last() =~= items@.subrange(0, i as int));
                assert(json_views(sub).drop_last() =~= json_views(items@.subrange(0, i as int)));
                if i > 0 {
                    push_str(out, ",");
                }
                assert(decreases_to!(items@ => items@[i as int]));
                let res = write_compact(&items[i], out);
                if res.is_err() {
                    return res;
                }
                i += 1;
            }
            assert(items@.subrange(0, items@.len() as int) =~= items@);
            push_str(out, "]");
            Ok(())
        },
        JsonValue::Object(es) => {
            let ghost start = out@;
            push_str(out, "{");
            let mut i: usize = 0;
            assert(es@.subrange(0, 0) =~= Seq::<Member>::empty());
            assert(decreases_to!(*v => es@));
            while i < es.len()
                invariant
                    i <= es@.len(),
                    decreases_to!(*v => es@),
                    out@ == start + "{"@ + compact_entries(entry_views(es@.subrange(0, i as int))),
                decreases es@.len() - i,
            {
                let ghost sub = es@.subrange(0, i + 1);
                assert(sub.drop_last() =~= es@.subrange(0, i as int));
                assert(entry_views(sub).drop_last() =~= entry_views(es@.subrange(0, i as int)));
                if i > 0 {
                    push_str(out, ",");
                }
                let res = write_quoted(es[i].key.as_str(), out);
                if res.is_err() {
                    return res;
                }
                push_str(out, ":");
                assert(decreases_to!(es@ => es@[i as int]));
                assert(decreases_to!(es@[i as int] => es@[i as int].value));
                let res = write_compact(&es[i].value, out);
                if res.is_err() {
                    return res;
                }
                i += 1;
            }
            assert(es@.subrange(0, es@.len() as int) =~= es@);
            push_str(out, "}");
            Ok(())
        },
    }
}

/// Appends the indented text of `v`, starting on a line indented by `ind`.
fn write_pretty(v: &JsonValue, ind: &Vec<char>, out: &mut String) -> (r: Result<(), serde_json::Error>)
    ensures
        r is Ok,
        final(out)@ == old(out)@ + pretty(v@, ind@),
    decreases *v, 2int,
{
    match v {
        JsonValue::String(s) => write_quoted(s.as_str(), out),
        JsonValue::Number(n) => {
            push_chars(out, &decimal_usize(*n));
            Ok(())
        },
        JsonValue::Array(items) => {
            if items.len() == 0 {
                push_str(out, "[]");
                return Ok(());
            }
            let ghost start = out@;
            let mut inner = ind.clone();
            inner.push(' ');
            inner.push(' ');
            proof {
                reveal_strlit("  ");
            }
            assert(inner@ =~= ind@ + "  "@);
            push_str(out, "[\n");
            let mut i: usize = 0;
            assert(items@.subrange(0, 0) =~= Seq::<JsonValue>::empty());
            assert(decreases_to!(*v => items@));
            while i < items.len()
                invariant
                    i <= items@.len(),
                    decreases_to!(*v => items@),
                    inner@ == ind@ + "  "@,
                    out@ == start + "[\n"@ + pretty_items(
                        json_views(items@.subrange(0, i as int)),
                        inner@,
                    ),
                decreases items@.len() - i,
            {
                let ghost sub = items@.subrange(0, i + 1);
                assert(sub.drop_last() =~= items@.subrange(0, i as int));
                assert(json_views(sub).drop_last() =~= json_views(items@.subrange(0, i as int)));
                if i > 0 {
                    push_str(out, ",\n");
                }
                push_chars(out, &inner);
                assert(decreases_to!(items@ => items@[i as int]));
                let res = write_pretty(&items[i], &inner, out);
                if res.is_err() {
                    return res;
                }
                i += 1;
            }
            assert(items@.subrange(0, items@.len() as int) =~= items@);
            push_str(out, "\n");
            push_chars(out, ind);
            push_str(out, "]");
            Ok(())
        },
        JsonValue::Object(es) => {
            if es.len() == 0 {
                push_str(out, "{}");
                return Ok(());
            }
            let ghost start = out@;
            let mut inner = ind.clone();
            inner.push(' ');
            inner.push(' ');
            proof {
                reveal_strlit("  ");
            }
            assert(inner@ =~= ind@ + "  "@);
            push_str(out, "{\n");
            let mut i: usize = 0;
            assert(es@.subrange(0, 0) =~= Seq::<Member>::empty());
            assert(decreases_to!(*v => es@));
            while i < es.len()
                invariant
                    i <= es@.len(),
                    decreases_to!(*v => es@),
                    inner@ == ind@ + "  "@,
                    out@ == start + "{\n"@ + pretty_entries(
                        entry_views(es@.subrange(0, i as int)),
                        inner@,
                    ),
                decreases es@.len() - i,
            {
                let ghost sub = es@.subrange(0, i + 1);
                assert(sub.drop_last() =~= es@.subrange(0, i as int));
                assert(entry_views(sub).drop_last() =~= entry_views(es@.subrange(0, i as int)));
                if i > 0 {
                    push_str(out, ",\n");
                }
                push_chars(out, &inner);
                let res = write_quoted(es[i].key.as_str(), out);
                if res.is_err() {
                    return res;
                }
                push_str(out, ": ");
                assert(decreases_to!(es@ => es@[i as int]));
                assert(decreases_to!(es@[i as int] => es@[i as int].value));
                let res = write_pretty(&es[i].value, &inner, out);
                if res.is_err() {
                    return res;
                }
                i += 1;
            }
            assert(es@.subrange(0, es@.len() as int) =~= es@);
            push_str(out, "\n");
            push_chars(out, ind);
            push_str(out, "}");
            Ok(())
        },
    }
}

/// The compact JSON text of `v`; the string encoder never fails here.
pub fn to_compact_string(v: &JsonValue) -> (r: Result<String, serde_json::Error>)
    ensures
        r is Ok,
        r matches Ok(t) ==> t@ == compact(v@),
{
    let mut out = String::new();
    match write_compact(v, &mut out) {
        Ok(()) => Ok(out),
        Err(e) => Err(e),
    }
}

/// The indented JSON text of `v`; the string encoder never fails here.
pub fn to_pretty_string(v: &JsonValue) -> (r: Result<String, serde_json::Error>)
    ensures
        r is Ok,
        r matches Ok(t) ==> t@ == pretty(v@, seq![]),
{
    let mut out = String::new();
    let ind: Vec<char> = Vec::new();
    assert(ind@ =~= seq![]);
    match write_pretty(v, &ind, &mut out) {
        Ok(()) => Ok(out),
        Err(e) => Err(e),
    }
}

impl JsonValue {
    /// The value filed under `key`, for an object that has one.
    pub fn get(&self, key: &str) -> (r: Option<&JsonValue>)
        ensures
            r matches Some(x) ==> self is Object && exists|i: int|
                0 <= i < self->Object_0@.len() && (#[trigger] self->Object_0@[i]).key@ == key@
                    && self->Object_0@[i].value == *x,
            r is None ==> !(self is Object) || forall|i: int|
                0 <= i < self->Object_0@.len() ==> (#[trigger] self->Object_0@[i]).key@ != key@,
    {
        match self {
            JsonValue::Object(es) => {
                let mut i: usize = 0;
                while i < es.len()
                    invariant
                        i <= es@.len(),
                        forall|j: int| 0 <= j < i ==> (#[trigger] es@[j]).key@ != key@,
                        self is Object && self->Object_0 == *es,
                    decreases es@.len() - i,
                {
                    if crate::text::str_eq(es[i].key.as_str(), key) {
                        assert(self->Object_0@[i as int].key@ == key@);
                        return Some(&es[i].value);
                    }
                    i += 1;
                }
                None
            },
            _ => None,
        }
    }

    /// The `i`th item, for an array that has one.
    pub fn at(&self, i: usize) -> (r: Option<&JsonValue>)
        ensures
            r matches Some(x) ==> self is Array && i < self->Array_0@.len() && *x
                == self->Array_0@[i as int],
            r is None ==> !(self is Array) || i >= self->Array_0@.len(),
    {
        match self {
            JsonValue::Array(items) => if i < items.len() {
                Some(&items[i])
            } else {
                None
            },
            _ => None,
        }
    }

    /// The text of a string value.
    pub fn as_str(&self) -> (r: Option<&str>)
        ensures
            r matches Some(s) ==> self is String && s@ == self->String_0@,
            r is None ==> !(self is String),
    {
        match self {
            JsonValue::String(s) => Some(s.as_str()),
            _ => None,
        }
    }

    /// A string value holding `s`.
    pub fn string(s: &str) -> (r: JsonValue)
        ensures
            r@ == Json::String(s@),
    {
        JsonValue::String(str_to_string(s))
    }
}

} // verus!
