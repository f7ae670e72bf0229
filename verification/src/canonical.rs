//! JSON texts, and their canonical form.

use crate::contract::json::{json_quoted, json_string, Json};
use crate::digest::{blake3_digest, digest_of, hex, tagged_hex};
use crate::error::{ErrorView, ProofFrameError};
use crate::text::{cat2, cat3, cat4, decimal, decimal_u64, join, joined, texts, utf8};
use vstd::prelude::*;
use vstd::string::*;

verus! {

/// What `serde_json_canonicalizer::pipe` makes of a JSON text: the text in the JSON
/// Canonicalization Scheme, or the message of its error.
pub uninterp spec fn canonical_form(json: Seq<char>) -> Result<Seq<char>, Seq<char>>;

/// A JSON document of texts, whole numbers, truth values, arrays and objects.
pub enum Document {
    Text(Seq<char>),
    Whole(nat),
    Truth(bool),
    List(Seq<Document>),
    Object(Seq<(Seq<char>, Document)>),
}

/// The text of a document that is nested no deeper than so many levels, without blanks.
pub open spec fn document_text(d: Document, levels: nat) -> Seq<char>
    decreases levels, 0nat,
{
    match d {
        Document::Text(s) => json_quoted(s),
        Document::Whole(n) => decimal(n),
        Document::Truth(b) => bool_text(b),
        Document::List(a) => if levels == 0 {
            Seq::empty()
        } else {
            "["@ + joined(document_texts(a, (levels - 1) as nat), ","@) + "]"@
        },
        Document::Object(m) => if levels == 0 {
            Seq::empty()
        } else {
            object_text(document_members(m, (levels - 1) as nat))
        },
    }
}

/// The texts of the items of an array.
pub open spec fn document_texts(a: Seq<Document>, levels: nat) -> Seq<Seq<char>>
    decreases levels, 1nat,
{
    Seq::new(a.len(), |i: int| document_text(a[i], levels))
}

/// The texts of the members of an object.
pub open spec fn document_members(m: Seq<(Seq<char>, Document)>, levels: nat) -> Seq<Seq<char>>
    decreases levels, 1nat,
{
    Seq::new(m.len(), |i: int| json_quoted(m[i].0) + ":"@ + document_text(m[i].1, levels))
}

/// Whether a document is nested no deeper than so many levels, and its numbers have sixty-four
/// bits.
pub open spec fn proper_document(d: Document, levels: nat) -> bool
    decreases levels,
{
    match d {
        Document::Text(_) => true,
        Document::Whole(n) => n <= u64::MAX,
        Document::Truth(_) => true,
        Document::List(a) => levels > 0 && forall|i: int|
            0 <= i < a.len() ==> proper_document(#[trigger] a[i], (levels - 1) as nat),
        Document::Object(m) => levels > 0 && forall|i: int|
            #![trigger m[i]]
            0 <= i < m.len() ==> proper_document(m[i].1, (levels - 1) as nat),
    }
}

/// Whether a text is that of a document of at most a hundred levels.
pub open spec fn is_document(json: Seq<char>) -> bool {
    exists|d: Document, n: nat|
        n <= 100 && proper_document(d, n) && #[trigger] document_text(d, n) == json
}

/// `serde_json_canonicalizer::pipe`: reads a JSON text and writes the value in canonical
/// form, with members in the order of their keys and numbers as doubles. Reading follows 127
/// levels and takes every number of sixty-four bits, and writing fails only on what no such
/// document holds, so that documents have a canonical form. Beyond that nothing is said here
/// of the canonical form but that it is a function of the text.
#[verifier::external_body]
pub(crate) fn canonical_json(json: &str) -> (r: Result<String, String>)
    ensures
        match r {
            Ok(s) => canonical_form(json@) == Ok::<Seq<char>, Seq<char>>(s@),
            Err(e) => canonical_form(json@) == Err::<Seq<char>, Seq<char>>(e@),
        },
        is_document(json@) ==> r is Ok,
{
    match serde_json_canonicalizer::pipe(json) {
        Ok(s) => Ok(s),
        Err(e) => Err(e.to_string()),
    }
}

/// The text of a JSON value, without blanks.
pub open spec fn json_text(value: Json) -> Seq<char>
    decreases value, 0nat,
{
    match value {
        Json::Null => "null"@,
        Json::Bool(b) => if b {
            "true"@
        } else {
            "false"@
        },
        Json::Number(n) => n.text@,
        Json::Text(s) => json_quoted(s@),
        Json::Array(a) => "["@ + items_text(a@, a@.len()) + "]"@,
        Json::Object(o) => "{"@ + members_text(o@, o@.len()) + "}"@,
    }
}

/// The texts of the first `n` items of an array, with commas between them.
pub open spec fn items_text(items: Seq<Json>, n: nat) -> Seq<char>
    decreases items, n,
{
    if n == 0 || n > items.len() {
        Seq::empty()
    } else {
        items_text(items, (n - 1) as nat) + (if n > 1 {
            ","@
        } else {
            Seq::empty()
        }) + json_text(items[n - 1])
    }
}

/// The texts of the first `n` members of an object, with commas between them.
pub open spec fn members_text(members: Seq<(String, Json)>, n: nat) -> Seq<char>
    decreases members, n,
{
    if n == 0 || n > members.len() {
        Seq::empty()
    } else {
        members_text(members, (n - 1) as nat) + (if n > 1 {
            ","@
        } else {
            Seq::empty()
        }) + json_quoted(members[n - 1].0@) + ":"@ + json_text(members[n - 1].1)
    }
}

/// Writes a JSON value as a text.
pub fn render(value: &Json) -> (r: String)
    ensures
        r@ == json_text(*value),
    decreases *value, 0nat,
{
    match value {
        Json::Null => "null".to_owned(),
        Json::Bool(b) => if *b {
            "true".to_owned()
        } else {
            "false".to_owned()
        },
        Json::Number(n) => n.text.clone(),
        Json::Text(s) => json_string(s.as_str()),
        Json::Array(a) => {
            let items = render_items(a, a.len());
            cat3("[", items.as_str(), "]")
        },
        Json::Object(o) => {
            let members = render_members(o, o.len());
            cat3("{", members.as_str(), "}")
        },
    }
}

fn render_items(items: &Vec<Json>, n: usize) -> (r: String)
    requires
        n <= items@.len(),
    ensures
        r@ == items_text(items@, n as nat),
    decreases items@, n as nat,
{
    if n == 0 {
        return String::new();
    }
    let rest = render_items(items, n - 1);
    let last = render(&items[n - 1]);
    if n > 1 {
        cat3(rest.as_str(), ",", last.as_str())
    } else {
        let r = cat2(rest.as_str(), last.as_str());
        assert(rest@ + Seq::<char>::empty() =~= rest@);
        r
    }
}

fn render_members(members: &Vec<(String, Json)>, n: usize) -> (r: String)
    requires
        n <= members@.len(),
    ensures
        r@ == members_text(members@, n as nat),
    decreases members@, n as nat,
{
    if n == 0 {
        return String::new();
    }
    let rest = render_members(members, n - 1);
    let key = json_string(members[n - 1].0.as_str());
    let last = render(&members[n - 1].1);
    if n > 1 {
        let start = cat3(rest.as_str(), ",", key.as_str());
        cat3(start.as_str(), ":", last.as_str())
    } else {
        assert(rest@ + Seq::<char>::empty() =~= rest@);
        cat4(rest.as_str(), key.as_str(), ":", last.as_str())
    }
}

/// One member of an object: its key between quotes, and the text of its value.
pub open spec fn member_text(key: Seq<char>, value: Seq<char>) -> Seq<char> {
    "\""@ + key + "\":"@ + value
}

/// An object of members.
pub open spec fn object_text(members: Seq<Seq<char>>) -> Seq<char> {
    "{"@ + joined(members, ","@) + "}"@
}

/// One member of an object. The key needs no escapes.
pub fn member_of(key: &str, value: &str) -> (r: String)
    ensures
        r@ == member_text(key@, value@),
{
    cat4("\"", key, "\":", value)
}

/// An object of members.
pub fn object_of(members: &Vec<String>) -> (r: String)
    ensures
        r@ == object_text(texts(members@)),
{
    let all = join(members, ",");
    cat3("{", all.as_str(), "}")
}

/// The texts of bytes as numbers.
pub open spec fn byte_texts(bytes: Seq<u8>) -> Seq<Seq<char>> {
    Seq::new(bytes.len(), |i: int| decimal(bytes[i] as nat))
}

/// An array of bytes as numbers.
pub open spec fn bytes_text(bytes: Seq<u8>) -> Seq<char> {
    "["@ + joined(byte_texts(bytes), ","@) + "]"@
}

/// An array of bytes as numbers.
pub fn bytes_of(bytes: &[u8]) -> (r: String)
    ensures
        r@ == bytes_text(bytes@),
{
    let mut parts: Vec<String> = Vec::new();
    let mut i: usize = 0;
    while i < bytes.len()
        invariant
            i <= bytes@.len(),
            parts@.len() == i,
            forall|k: int| 0 <= k < i ==> (#[trigger] parts@[k])@ == decimal(bytes@[k] as nat),
        decreases bytes@.len() - i,
    {
        parts.push(decimal_u64(bytes[i] as u64));
        i = i + 1;
    }
    assert(texts(parts@) =~= byte_texts(bytes@));
    let all = join(&parts, ",");
    cat3("[", all.as_str(), "]")
}

/// The text of a truth value.
pub open spec fn bool_text(b: bool) -> Seq<char> {
    if b {
        "true"@
    } else {
        "false"@
    }
}

/// The text of a truth value.
pub fn bool_of(b: bool) -> (r: &'static str)
    ensures
        r@ == bool_text(b),
{
    if b {
        "true"
    } else {
        "false"
    }
}

/// The digest of a JSON text in canonical form, behind a domain.
pub open spec fn canonical_digest(domain: Seq<char>, json: Seq<char>) -> Result<
    Seq<u8>,
    Seq<char>,
> {
    match canonical_form(json) {
        Ok(c) => Ok(blake3_digest(utf8(domain) + utf8(c))),
        Err(e) => Err(e),
    }
}

/// The digest of a JSON text in canonical form, behind a domain.
pub fn digest_json(domain: &str, json: &str) -> (r: Result<[u8; 32], String>)
    ensures
        match r {
            Ok(d) => canonical_digest(domain@, json@) == Ok::<Seq<u8>, Seq<char>>(d@),
            Err(e) => canonical_digest(domain@, json@) == Err::<Seq<u8>, Seq<char>>(e@),
        },
        is_document(json@) ==> r is Ok,
{
    match canonical_json(json) {
        Ok(c) => {
            let mut out: Vec<u8> = Vec::new();
            crate::bytes::push_all(&mut out, domain.as_bytes());
            crate::bytes::push_all(&mut out, c.as_str().as_bytes());
            assert(out@ =~= utf8(domain@) + utf8(c@));
            Ok(digest_of(out.as_slice()))
        },
        Err(e) => Err(e),
    }
}

/// A tagged digest of a JSON text in canonical form.
pub fn tagged_canonical_digest(prefix: &str, domain: &str, json: &str) -> (r: Result<
    String,
    ProofFrameError,
>)
    ensures
        match canonical_digest(domain@, json@) {
            Ok(d) => r matches Ok(s) && s@ == prefix@ + hex(d),
            Err(t) => r matches Err(e) && e@ == ErrorView::InvalidReceipt(t),
        },
        is_document(json@) ==> r is Ok,
{
    match digest_json(domain, json) {
        Ok(d) => Ok(tagged_hex(prefix, d.as_slice())),
        Err(e) => Err(ProofFrameError::InvalidReceipt(e)),
    }
}

} // verus!
