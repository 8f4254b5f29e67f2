//! JSON at the plugin's pipe boundary.
//!
//! Incoming documents are parsed by `serde_json` into a flat view that holds what the
//! protocol decoders read: the members of a top-level object, or the elements of a top-level
//! array, each one a scalar. A record may come in either form, as `serde` reads structs:
//! by member names, or as an array of its fields in declaration order. Outgoing
//! messages are framed here, field by field, with `serde_json`'s string escaping.

use vstd::prelude::*;
use crate::text::chars_of;
use crate::text_map::find;
use serde_json::Value as J;
use serde_json::Value::{Array as JArray, Bool as JBool, Null as JNull, Number as JNumber, Object as JObject,
    String as JString};

verus! {

/// One member value of a JSON object, as far as the decoders read it.
#[derive(Clone, Debug, PartialEq, Eq)]
pub enum JsonScalar {
    Null,
    Bool(bool),
    /// A number, with its value when it is a non-negative integer that fits in `u64`.
    Number(Option<u64>),
    Text(String),
    /// An object: each member's name, and whether its value is `null`.
    Members(Vec<(String, bool)>),
    /// An array.
    Compound,
}

/// A parsed JSON document: the members of a top-level object, the elements of a top-level
/// array, or some other value.
#[derive(Clone, Debug, PartialEq, Eq)]
pub enum JsonDoc {
    Object(Vec<(String, JsonScalar)>),
    Array(Vec<JsonScalar>),
    Other,
}

/// The flat view of the document that `serde_json::from_str::<serde_json::Value>` parses
/// from `text`, or `None` when it rejects the text.
pub uninterp spec fn json_document(text: Seq<char>) -> Option<JsonDoc>;

#[verifier::external_type_specification]
#[verifier::external_body]
pub struct ExJsonValue(serde_json::Value);

/// Parses `text` with `serde_json::from_str::<serde_json::Value>` and keeps, for a top-level
/// object, each member's key and scalar value, and for a top-level array each element's
/// scalar value. Of an object one level down it keeps the member names and which values are
/// `null`. The result is named `json_document(text@)`; nothing more is claimed of
/// serde_json's grammar.
#[verifier::external_body]
pub(crate) fn parse_json(text: &str) -> (r: Option<JsonDoc>)
    ensures
        r == json_document(text@),
{
    let s = |x: J| match x {
        JNull => JsonScalar::Null,
        JBool(b) => JsonScalar::Bool(b),
        JNumber(n) => JsonScalar::Number(n.as_u64()),
        JString(t) => JsonScalar::Text(t),
        JObject(m) => JsonScalar::Members(m.into_iter().map(|(k, x)| (k, x.is_null())).collect()),
        _ => JsonScalar::Compound,
    };
    serde_json::from_str(text).ok().map(|v: J| match v {
        JObject(m) => JsonDoc::Object(m.into_iter().map(|(k, x)| (k, s(x))).collect()),
        JArray(a) => JsonDoc::Array(a.into_iter().map(s).collect()),
        _ => JsonDoc::Other,
    })
}

/// The members of an object, keyed by the views of their names.
pub open spec fn members(obj: Seq<(String, JsonScalar)>) -> Seq<(Seq<char>, JsonScalar)> {
    obj.map_values(|e: (String, JsonScalar)| (e.0@, e.1))
}

/// The value of member `key` of a document, if the document is an object that has it.
pub open spec fn member(doc: JsonDoc, key: Seq<char>) -> Option<JsonScalar> {
    match doc {
        JsonDoc::Object(obj) => find(members(obj@), key),
        _ => None,
    }
}

/// Field `key` of a record, declared at position `pos`: the member of that name when the
/// document is an object, the element at that position when it is an array.
pub open spec fn record_field(doc: JsonDoc, key: Seq<char>, pos: int) -> Option<JsonScalar> {
    match doc {
        JsonDoc::Object(obj) => find(members(obj@), key),
        JsonDoc::Array(a) => if 0 <= pos < a@.len() {
            Some(a@[pos])
        } else {
            None
        },
        JsonDoc::Other => None,
    }
}

/// Whether a document can hold a record of `n` fields: any object, or an array of exactly
/// `n` elements.
pub open spec fn record_shaped(doc: JsonDoc, n: int) -> bool {
    match doc {
        JsonDoc::Object(_) => true,
        JsonDoc::Array(a) => a@.len() == n,
        JsonDoc::Other => false,
    }
}

/// Field `key` of a record, declared at position `pos`.
pub fn get_record_field<'a>(doc: &'a JsonDoc, key: &str, pos: usize) -> (r: Option<&'a JsonScalar>)
    ensures
        match r {
            Some(v) => record_field(*doc, key@, pos as int) == Some(*v),
            None => record_field(*doc, key@, pos as int) is None,
        },
{
    match doc {
        JsonDoc::Object(o) => get_member(o, key),
        JsonDoc::Array(a) => if pos < a.len() {
            Some(&a[pos])
        } else {
            None
        },
        JsonDoc::Other => None,
    }
}

/// Whether a document can hold a record of `n` fields.
pub fn has_record_shape(doc: &JsonDoc, n: usize) -> (r: bool)
    ensures
        r == record_shaped(*doc, n as int),
{
    match doc {
        JsonDoc::Object(_) => true,
        JsonDoc::Array(a) => a.len() == n,
        JsonDoc::Other => false,
    }
}

/// The value of member `key`.
pub fn get_member<'a>(obj: &'a Vec<(String, JsonScalar)>, key: &str) -> (r: Option<&'a JsonScalar>)
    ensures
        match r {
            Some(v) => find(members(obj@), key@) == Some(*v),
            None => find(members(obj@), key@) is None,
        },
{
    let kv = chars_of(key);
    let mut i: usize = 0;
    assert(members(obj@).skip(0) =~= members(obj@));
    while i < obj.len()
        invariant
            i <= obj@.len(),
            kv@ == key@,
            find(members(obj@), key@) == find(members(obj@).skip(i as int), key@),
        decreases obj@.len() - i,
    {
        let ev = chars_of(obj[i].0.as_str());
        assert(members(obj@).skip(i as int)[0] == (obj@[i as int].0@, obj@[i as int].1));
        if crate::text::same_chars(&ev, &kv) {
            return Some(&obj[i].1);
        }
        assert(members(obj@).skip(i as int).drop_first() =~= members(obj@).skip(i + 1));
        i = i + 1;
    }
    assert(members(obj@).skip(i as int) =~= Seq::<(Seq<char>, JsonScalar)>::empty());
    None
}

/// The escape `serde_json` writes for `c` inside a string.
pub open spec fn escape_char(c: char) -> Seq<char> {
    let u = c as u32;
    if c == '"' {
        seq!['\\', '"']
    } else if c == '\\' {
        seq!['\\', '\\']
    } else if c == '\n' {
        seq!['\\', 'n']
    } else if c == '\r' {
        seq!['\\', 'r']
    } else if c == '\t' {
        seq!['\\', 't']
    } else if u == 0x08 {
        seq!['\\', 'b']
    } else if u == 0x0c {
        seq!['\\', 'f']
    } else if u < 0x20 {
        seq!['\\', 'u', '0', '0', hex_digit(u / 16), hex_digit(u % 16)]
    } else {
        seq![c]
    }
}

/// A lower-case hexadecimal digit.
pub open spec fn hex_digit(d: u32) -> char {
    if d < 10 {
        ((d + 48) as u8) as char
    } else {
        ((d + 87) as u8) as char
    }
}

/// The characters of `s` with JSON string escapes applied.
pub open spec fn escaped(s: Seq<char>) -> Seq<char>
    decreases s.len(),
{
    if s.len() == 0 {
        Seq::empty()
    } else {
        escaped(s.drop_last()) + escape_char(s.last())
    }
}

/// `s` as a JSON string literal.
pub open spec fn json_string(s: Seq<char>) -> Seq<char> {
    seq!['"'] + escaped(s) + seq!['"']
}

fn hex(d: u32) -> (c: char)
    requires
        d < 16,
    ensures
        c == hex_digit(d),
{
    let b: u8 = if d < 10 {
        (d + 48) as u8
    } else {
        (d + 87) as u8
    };
    b as char
}

/// Appends `s` as a JSON string literal to `out`.
pub fn push_json_string(out: &mut Vec<char>, s: &str)
    ensures
        final(out)@ == old(out)@ + json_string(s@),
{
    let ghost start = out@;
    let v = chars_of(s);
    out.push('"');
    let mut i: usize = 0;
    while i < v.len()
        invariant
            i <= v@.len(),
            v@ == s@,
            out@ == start + seq!['"'] + escaped(v@.take(i as int)),
        decreases v@.len() - i,
    {
        let c = v[i];
        let u = c as u32;
        let ghost before = out@;
        if c == '"' {
            out.push('\\');
            out.push('"');
        } else if c == '\\' {
            out.push('\\');
            out.push('\\');
        } else if c == '\n' {
            out.push('\\');
            out.push('n');
        } else if c == '\r' {
            out.push('\\');
            out.push('r');
        } else if c == '\t' {
            out.push('\\');
            out.push('t');
        } else if u == 0x08 {
            out.push('\\');
            out.push('b');
        } else if u == 0x0c {
            out.push('\\');
            out.push('f');
        } else if u < 0x20 {
            out.push('\\');
            out.push('u');
            out.push('0');
            out.push('0');
            out.push(hex(u / 16));
            out.push(hex(u % 16));
        } else {
            out.push(c);
        }
        assert(out@ =~= before + escape_char(c));
        assert(v@.take(i + 1).drop_last() =~= v@.take(i as int));
        assert(escaped(v@.take(i + 1)) == escaped(v@.take(i as int)) + escape_char(c));
        i = i + 1;
    }
    out.push('"');
    assert(v@.take(i as int) =~= s@);
    assert(out@ =~= start + json_string(s@));
}

} // verus!
