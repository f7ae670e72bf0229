//! JSON on indented lines and in ASCII, as the declared rules are disclosed.

use crate::contract::json::Json;
use crate::digest::hex_char;
use crate::text::{cat2, chars_of, text};
use vstd::prelude::*;
use vstd::string::*;

verus! {

/// The escape of a UTF-16 unit.
pub open spec fn unit_text(n: nat) -> Seq<char> {
    seq![
        '\\',
        'u',
        hex_char(n / 4096 % 16),
        hex_char(n / 256 % 16),
        hex_char(n / 16 % 16),
        hex_char(n % 16),
    ]
}

/// How a character stands in an ASCII string.
pub open spec fn ascii_char(c: char) -> Seq<char> {
    let u = c as u32;
    if c == '"' {
        seq!['\\', '"']
    } else if c == '\\' {
        seq!['\\', '\\']
    } else if u == 10 {
        seq!['\\', 'n']
    } else if u == 13 {
        seq!['\\', 'r']
    } else if u == 9 {
        seq!['\\', 't']
    } else if u == 8 {
        seq!['\\', 'b']
    } else if u == 12 {
        seq!['\\', 'f']
    } else if 32 <= u < 127 {
        seq![c]
    } else if u < 65536 {
        unit_text(u as nat)
    } else {
        unit_text((55296 + (u - 65536) / 1024) as nat) + unit_text(
            (56320 + (u - 65536) % 1024) as nat,
        )
    }
}

/// The characters of a text in an ASCII string.
pub open spec fn ascii_chars(s: Seq<char>) -> Seq<char>
    decreases s.len(),
{
    if s.len() == 0 {
        Seq::empty()
    } else {
        ascii_chars(s.drop_last()) + ascii_char(s.last())
    }
}

/// A text as an ASCII string, with each other character as an escape.
pub open spec fn ascii_string(s: Seq<char>) -> Seq<char> {
    "\""@ + ascii_chars(s) + "\""@
}

fn hex_digit(n: u32) -> (c: char)
    requires
        n < 16,
    ensures
        c == hex_char(n as nat),
{
    if n < 10 {
        (48 + n) as u8 as char
    } else {
        (87 + n) as u8 as char
    }
}

fn push_unit(out: &mut String, n: u32)
    ensures
        final(out)@ == old(out)@ + unit_text(n as nat),
{
    out.push('\\');
    out.push('u');
    out.push(hex_digit(n / 4096 % 16));
    out.push(hex_digit(n / 256 % 16));
    out.push(hex_digit(n / 16 % 16));
    out.push(hex_digit(n % 16));
    assert(out@ =~= old(out)@ + unit_text(n as nat));
}

fn push_pair(out: &mut String, c: char)
    ensures
        final(out)@ == old(out)@ + seq!['\\', c],
{
    out.push('\\');
    out.push(c);
    assert(out@ =~= old(out)@ + seq!['\\', c]);
}

fn push_ascii(out: &mut String, c: char)
    ensures
        final(out)@ == old(out)@ + ascii_char(c),
{
    let u: u32 = c as u32;
    if c == '"' {
        push_pair(out, '"');
    } else if c == '\\' {
        push_pair(out, '\\');
    } else if u == 10 {
        push_pair(out, 'n');
    } else if u == 13 {
        push_pair(out, 'r');
    } else if u == 9 {
        push_pair(out, 't');
    } else if u == 8 {
        push_pair(out, 'b');
    } else if u == 12 {
        push_pair(out, 'f');
    } else if 32 <= u && u < 127 {
        out.push(c);
        assert(out@ =~= old(out)@ + seq![c]);
    } else if u < 65536 {
        push_unit(out, u);
    } else {
        push_unit(out, 55296 + (u - 65536) / 1024);
        push_unit(out, 56320 + (u - 65536) % 1024);
        assert(out@ =~= old(out)@ + ascii_char(c));
    }
}

/// Writes a text as an ASCII string.
pub fn python_string(value: &str) -> (r: String)
    ensures
        r@ == ascii_string(value@),
{
    let chars = chars_of(value);
    let mut out = text("\"");
    let mut i: usize = 0;
    assert("\""@ + ascii_chars(value@.take(0)) =~= "\""@);
    while i < chars.len()
        invariant
            i <= chars@.len(),
            chars@ == value@,
            out@ == "\""@ + ascii_chars(value@.take(i as int)),
        decreases chars@.len() - i,
    {
        let ghost before = ascii_chars(value@.take(i as int));
        push_ascii(&mut out, chars[i]);
        proof {
            assert(value@.take(i + 1).drop_last() =~= value@.take(i as int));
            assert("\""@ + before + ascii_char(value@[i as int]) =~= "\""@ + (before + ascii_char(
                value@[i as int],
            )));
        }
        i = i + 1;
    }
    assert(value@.take(value@.len() as int) =~= value@);
    out.append("\"");
    out
}

/// A value on lines that each start with at least some blanks.
pub open spec fn indented(value: Json, before: Seq<char>) -> Seq<char>
    decreases value, 0nat,
{
    match value {
        Json::Null => "null"@,
        Json::Bool(b) => if b {
            "true"@
        } else {
            "false"@
        },
        Json::Number(n) => n.text@,
        Json::Text(s) => ascii_string(s@),
        Json::Array(a) => if a@.len() == 0 {
            "[]"@
        } else {
            "[\n"@ + indented_items(a@, before + "  "@, a@.len()) + "\n"@ + before + "]"@
        },
        Json::Object(o) => if o@.len() == 0 {
            "{}"@
        } else {
            "{\n"@ + indented_members(o@, before + "  "@, o@.len()) + "\n"@ + before + "}"@
        },
    }
}

/// The first `n` items on lines of their own.
pub open spec fn indented_items(items: Seq<Json>, before: Seq<char>, n: nat) -> Seq<char>
    decreases items, n,
{
    if n == 0 || n > items.len() {
        Seq::empty()
    } else {
        indented_items(items, before, (n - 1) as nat) + (if n > 1 {
            ",\n"@
        } else {
            Seq::empty()
        }) + before + indented(items[n - 1], before)
    }
}

/// The first `n` members on lines of their own.
pub open spec fn indented_members(members: Seq<(String, Json)>, before: Seq<char>, n: nat) -> Seq<char>
    decreases members, n,
{
    if n == 0 || n > members.len() {
        Seq::empty()
    } else {
        indented_members(members, before, (n - 1) as nat) + (if n > 1 {
            ",\n"@
        } else {
            Seq::empty()
        }) + before + ascii_string(members[n - 1].0@) + ": "@ + indented(members[n - 1].1, before)
    }
}

/// Writes a value on indented lines.
pub fn python_json(value: &Json, before: &str) -> (r: String)
    ensures
        r@ == indented(*value, before@),
    decreases *value, 0nat,
{
    match value {
        Json::Null => text("null"),
        Json::Bool(b) => if *b {
            text("true")
        } else {
            text("false")
        },
        Json::Number(n) => n.text.clone(),
        Json::Text(s) => python_string(s.as_str()),
        Json::Array(a) => {
            if a.len() == 0 {
                return text("[]");
            }
            let deeper = cat2(before, "  ");
            let items = python_items(a, deeper.as_str(), a.len());
            let mut out = text("[\n");
            out.append(items.as_str());
            out.append("\n");
            out.append(before);
            out.append("]");
            out
        },
        Json::Object(o) => {
            if o.len() == 0 {
                return text("{}");
            }
            let deeper = cat2(before, "  ");
            let members = python_members(o, deeper.as_str(), o.len());
            let mut out = text("{\n");
            out.append(members.as_str());
            out.append("\n");
            out.append(before);
            out.append("}");
            out
        },
    }
}

fn python_items(items: &Vec<Json>, before: &str, n: usize) -> (r: String)
    requires
        n <= items@.len(),
    ensures
        r@ == indented_items(items@, before@, n as nat),
    decreases items@, n as nat,
{
    if n == 0 {
        return String::new();
    }
    let mut out = python_items(items, before, n - 1);
    if n > 1 {
        out.append(",\n");
    } else {
        assert(out@ + Seq::<char>::empty() =~= out@);
    }
    out.append(before);
    let last = python_json(&items[n - 1], before);
    out.append(last.as_str());
    out
}

fn python_members(members: &Vec<(String, Json)>, before: &str, n: usize) -> (r: String)
    requires
        n <= members@.len(),
    ensures
        r@ == indented_members(members@, before@, n as nat),
    decreases members@, n as nat,
{
    if n == 0 {
        return String::new();
    }
    let mut out = python_members(members, before, n - 1);
    if n > 1 {
        out.append(",\n");
    } else {
        assert(out@ + Seq::<char>::empty() =~= out@);
    }
    out.append(before);
    let key = python_string(members[n - 1].0.as_str());
    out.append(key.as_str());
    out.append(": ");
    let last = python_json(&members[n - 1].1, before);
    out.append(last.as_str());
    out
}

/// An ASCII string holds no character beyond ASCII.
pub proof fn ascii_string_is_ascii(s: Seq<char>)
    ensures
        forall|i: int| 0 <= i < ascii_string(s).len() ==> (#[trigger] ascii_string(s)[i]) as u32 <= 127,
    decreases s.len(),
{
    reveal_strlit("\"");
    ascii_chars_are_ascii(s);
    assert forall|i: int| 0 <= i < ascii_string(s).len() implies (#[trigger] ascii_string(s)[i]) as u32
        <= 127 by {
        if 1 <= i < 1 + ascii_chars(s).len() {
            assert(ascii_string(s)[i] == ascii_chars(s)[i - 1]);
        }
    }
}

proof fn ascii_chars_are_ascii(s: Seq<char>)
    ensures
        forall|i: int| 0 <= i < ascii_chars(s).len() ==> (#[trigger] ascii_chars(s)[i]) as u32 <= 127,
    decreases s.len(),
{
    if s.len() > 0 {
        ascii_chars_are_ascii(s.drop_last());
        let before = ascii_chars(s.drop_last());
        assert forall|i: int| 0 <= i < ascii_chars(s).len() implies (#[trigger] ascii_chars(s)[i]) as u32
            <= 127 by {
            if i < before.len() {
                assert(ascii_chars(s)[i] == before[i]);
            } else {
                assert(ascii_chars(s)[i] == ascii_char(s.last())[i - before.len()]);
            }
        }
    }
}

} // verus!
