//! JSON values as the contract language sees them.

use crate::digest::hex_char;
use crate::text::str_eq;
use vstd::prelude::*;
use vstd::string::*;

verus! {

/// A JSON number: its source spelling, and what it reads as in each machine type. The
/// float readings are bit patterns; the second is the first rounded to 32 bits.
#[derive(Debug)]
pub struct JsonNumber {
    pub text: String,
    pub as_i64: Option<i64>,
    pub as_u64: Option<u64>,
    pub as_float64: Option<u64>,
    pub as_float32: u32,
}

/// A JSON value. The members of an object stand in the order in which they are read.
#[derive(Debug)]
pub enum Json {
    Null,
    Bool(bool),
    Number(JsonNumber),
    Text(String),
    Array(Vec<Json>),
    Object(Vec<(String, Json)>),
}

/// The first member of an object with a key.
pub open spec fn member(object: Seq<(String, Json)>, key: Seq<char>) -> Option<Json>
    decreases object.len(),
{
    if object.len() == 0 {
        None
    } else if object[0].0@ == key {
        Some(object[0].1)
    } else {
        member(object.drop_first(), key)
    }
}

/// The first member of an object with a key.
pub fn get<'a>(object: &'a Vec<(String, Json)>, key: &str) -> (r: Option<&'a Json>)
    ensures
        match member(object@, key@) {
            Some(v) => r matches Some(x) && *x == v,
            None => r is None,
        },
{
    let mut i: usize = 0;
    assert(object@.skip(0) =~= object@);
    while i < object.len()
        invariant
            i <= object@.len(),
            member(object@, key@) == member(object@.skip(i as int), key@),
        decreases object@.len() - i,
    {
        assert(object@.skip(i as int)[0] == object@[i as int]);
        if str_eq(object[i].0.as_str(), key) {
            return Some(&object[i].1);
        }
        assert(object@.skip(i as int).drop_first() =~= object@.skip(i + 1));
        i = i + 1;
    }
    None
}

impl Json {
    /// The members of an object.
    pub open spec fn object(self) -> Option<Seq<(String, Json)>> {
        match self {
            Json::Object(o) => Some(o@),
            _ => None,
        }
    }

    /// A member of an object; nothing for any other value.
    pub open spec fn spec_field(self, key: Seq<char>) -> Option<Json> {
        match self {
            Json::Object(o) => member(o@, key),
            _ => None,
        }
    }

    /// A member of an object; nothing for any other value.
    pub fn field(&self, key: &str) -> (r: Option<&Json>)
        ensures
            match self.spec_field(key@) {
                Some(v) => r matches Some(x) && *x == v,
                None => r is None,
            },
    {
        match self {
            Json::Object(o) => get(o, key),
            _ => None,
        }
    }
}

/// How a character stands in a JSON string.
pub open spec fn escaped_char(c: char) -> Seq<char> {
    if c == '"' {
        seq!['\\', '"']
    } else if c == '\\' {
        seq!['\\', '\\']
    } else if c as u32 == 8 {
        seq!['\\', 'b']
    } else if c as u32 == 9 {
        seq!['\\', 't']
    } else if c as u32 == 10 {
        seq!['\\', 'n']
    } else if c as u32 == 12 {
        seq!['\\', 'f']
    } else if c as u32 == 13 {
        seq!['\\', 'r']
    } else if (c as u32) < 32 {
        seq!['\\', 'u', '0', '0', hex_char((c as u32 / 16) as nat), hex_char((c as u32 % 16) as nat)]
    } else {
        seq![c]
    }
}

/// How a text stands in a JSON string, without its quotes.
pub open spec fn escaped(s: Seq<char>) -> Seq<char>
    decreases s.len(),
{
    if s.len() == 0 {
        Seq::empty()
    } else {
        escaped(s.drop_last()) + escaped_char(s.last())
    }
}

/// The JSON string of a text.
pub open spec fn json_quoted(s: Seq<char>) -> Seq<char> {
    seq!['"'] + escaped(s) + seq!['"']
}

/// `serde_json::to_string` on a string slice: the text between quotes, with quotes,
/// backslashes and control characters escaped. It never fails on a string.
#[verifier::external_body]
pub(crate) fn json_string(value: &str) -> (r: String)
    ensures
        r@ == json_quoted(value@),
{
    serde_json::to_string(value).expect("a string always serializes")
}

} // verus!
