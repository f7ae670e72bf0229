//! What the JSON texts of evidence tell apart.

use crate::canonical::{
    bool_text, byte_texts, bytes_text, member_text, object_text,
};
use crate::contract::json::{escaped, escaped_char, json_quoted};
use crate::digest::hex_char;
use crate::evidence::partition::{
    partition_texts, PartitionEvidenceV1, PartitionManifestV1,
};
use crate::evidence::{limits_text, version_text, EvidenceV2};
use crate::fingerprint::FingerprintVersion;
use crate::resource::ResourceLimits;
use crate::text::{decimal, digit_char, joined};
use vstd::prelude::*;

verus! {

/// What may follow a value within an object or an array.
pub open spec fn follows(p: Seq<char>) -> bool {
    p.len() > 0 && (p[0] == ',' || p[0] == '}' || p[0] == ']')
}

/// Whether two texts of values are told apart wherever they stand: with more behind them they
/// are equal only as they are alone.
pub open spec fn apart(s: Seq<char>, t: Seq<char>) -> bool {
    forall|p: Seq<char>, q: Seq<char>|
        #![trigger follows(p), follows(q)]
        follows(p) && follows(q) && s + p == t + q ==> s == t && p == q
}

proof fn cancelled(lead: Seq<char>, x: Seq<char>, y: Seq<char>)
    requires
        lead + x == lead + y,
    ensures
        x == y,
{
    assert((lead + x).skip(lead.len() as int) =~= x);
    assert((lead + y).skip(lead.len() as int) =~= y);
}

/// Texts of one length are told apart.
pub proof fn equally_long(s: Seq<char>, t: Seq<char>)
    requires
        s.len() == t.len(),
    ensures
        apart(s, t),
{
    assert forall|p: Seq<char>, q: Seq<char>|
        #![trigger follows(p), follows(q)]
        follows(p) && follows(q) && s + p == t + q implies s == t && p == q by {
        assert((s + p).take(s.len() as int) =~= s);
        assert((t + q).take(s.len() as int) =~= t);
        assert((s + p).skip(s.len() as int) =~= p);
        assert((t + q).skip(s.len() as int) =~= q);
    }
}

/// Texts without a character that may follow a value are told apart.
proof fn unstopped(s: Seq<char>, t: Seq<char>)
    requires
        forall|i: int| 0 <= i < s.len() ==> !stops(#[trigger] s[i]),
        forall|i: int| 0 <= i < t.len() ==> !stops(#[trigger] t[i]),
    ensures
        apart(s, t),
{
    assert forall|p: Seq<char>, q: Seq<char>|
        #![trigger follows(p), follows(q)]
        follows(p) && follows(q) && s + p == t + q implies s == t && p == q by {
        if s.len() < t.len() {
            assert((s + p)[s.len() as int] == p[0]);
            assert((t + q)[s.len() as int] == t[s.len() as int]);
        } else if t.len() < s.len() {
            assert((t + q)[t.len() as int] == q[0]);
            assert((s + p)[t.len() as int] == s[t.len() as int]);
        } else {
            equally_long(s, t);
        }
    }
}

spec fn stops(c: char) -> bool {
    c == ',' || c == '}' || c == ']'
}

proof fn decimal_digits(n: nat)
    ensures
        decimal(n).len() > 0,
        forall|i: int|
            0 <= i < decimal(n).len() ==> '0' <= #[trigger] decimal(n)[i] && decimal(n)[i] <= '9',
    decreases n,
{
    if n >= 10 {
        decimal_digits(n / 10);
    }
}

proof fn digits_apart(m: nat, n: nat)
    requires
        m < 10,
        n < 10,
        digit_char(m) == digit_char(n),
    ensures
        m == n,
{
    assert((48 + m) as u8 as char as u32 == 48 + m);
    assert((48 + n) as u8 as char as u32 == 48 + n);
}

/// Numbers of one decimal spelling are equal.
pub proof fn decimal_injective(m: nat, n: nat)
    requires
        decimal(m) == decimal(n),
    ensures
        m == n,
    decreases m,
{
    decimal_digits(m / 10);
    decimal_digits(n / 10);
    if m < 10 {
        if n >= 10 {
            assert(decimal(n).len() > 1);
        } else {
            assert(decimal(m)[0] == digit_char(m));
            assert(decimal(n)[0] == digit_char(n));
            digits_apart(m, n);
        }
    } else if n < 10 {
        assert(decimal(m).len() > 1);
    } else {
        assert(decimal(m).drop_last() =~= decimal(m / 10));
        assert(decimal(n).drop_last() =~= decimal(n / 10));
        assert(decimal(m) == decimal(m / 10).push(digit_char(m % 10)));
        assert(decimal(n) == decimal(n / 10).push(digit_char(n % 10)));
        assert(decimal(m).last() == digit_char(m % 10));
        assert(decimal(n).last() == digit_char(n % 10));
        digits_apart(m % 10, n % 10);
        decimal_injective(m / 10, n / 10);
    }
}

/// Decimal spellings are told apart.
pub proof fn decimals_apart(m: nat, n: nat)
    ensures
        apart(decimal(m), decimal(n)),
{
    decimal_digits(m);
    decimal_digits(n);
    unstopped(decimal(m), decimal(n));
}

proof fn escaped_front(s: Seq<char>)
    requires
        s.len() > 0,
    ensures
        escaped(s) == escaped_char(s[0]) + escaped(s.drop_first()),
    decreases s.len(),
{
    let rest = s.drop_first();
    if s.len() == 1 {
        assert(s.drop_last() =~= Seq::empty());
        assert(rest =~= Seq::empty());
        assert(escaped(s.drop_last()) =~= Seq::empty());
        assert(escaped(rest) =~= Seq::empty());
        assert(escaped(s) =~= escaped_char(s[0]) + escaped(rest));
    } else {
        escaped_front(s.drop_last());
        assert(s.drop_last().drop_first() =~= rest.drop_last());
        assert(escaped(s) =~= escaped_char(s[0]) + escaped(rest));
    }
}

/// Two characters whose escapes begin alike are one.
proof fn escapes_apart(c: char, d: char, x: Seq<char>, y: Seq<char>)
    requires
        escaped_char(c) + x == escaped_char(d) + y,
    ensures
        c == d,
        x == y,
{
    let s = escaped_char(c) + x;
    let t = escaped_char(d) + y;
    assert(s[0] == escaped_char(c)[0]);
    assert(t[0] == escaped_char(d)[0]);
    if escaped_char(c)[0] == '\\' {
        assert(s[1] == escaped_char(c)[1]);
        assert(t[1] == escaped_char(d)[1]);
        if escaped_char(c)[1] == 'u' {
            assert(s[4] == escaped_char(c)[4] && s[5] == escaped_char(c)[5]);
            assert(t[4] == escaped_char(d)[4] && t[5] == escaped_char(d)[5]);
            assert(hex_char((c as u32 / 16) as nat) == hex_char((d as u32 / 16) as nat));
            assert(hex_char((c as u32 % 16) as nat) == hex_char((d as u32 % 16) as nat));
            assert(c as u32 == d as u32);
        }
    }
    assert(c == d);
    cancelled(escaped_char(c), x, y);
}

proof fn quotes_close(a: Seq<char>, b: Seq<char>, x: Seq<char>, y: Seq<char>)
    requires
        escaped(a) + (seq!['"'] + x) == escaped(b) + (seq!['"'] + y),
    ensures
        a == b,
        x == y,
    decreases a.len(),
{
    let s = escaped(a) + (seq!['"'] + x);
    let t = escaped(b) + (seq!['"'] + y);
    if a.len() == 0 && b.len() == 0 {
        assert(s =~= seq!['"'] + x);
        assert(t =~= seq!['"'] + y);
        cancelled(seq!['"'], x, y);
        assert(a =~= b);
    } else if a.len() == 0 {
        escaped_front(b);
        assert(s[0] == '"');
        assert(t[0] == escaped_char(b[0])[0]);
    } else if b.len() == 0 {
        escaped_front(a);
        assert(t[0] == '"');
        assert(s[0] == escaped_char(a[0])[0]);
    } else {
        escaped_front(a);
        escaped_front(b);
        let more_a = escaped(a.drop_first()) + (seq!['"'] + x);
        let more_b = escaped(b.drop_first()) + (seq!['"'] + y);
        assert(s =~= escaped_char(a[0]) + more_a);
        assert(t =~= escaped_char(b[0]) + more_b);
        escapes_apart(a[0], b[0], more_a, more_b);
        quotes_close(a.drop_first(), b.drop_first(), x, y);
        assert(a =~= seq![a[0]] + a.drop_first());
        assert(b =~= seq![b[0]] + b.drop_first());
    }
}

/// Texts of one JSON string are equal, and JSON strings are told apart.
pub proof fn quoted_apart(a: Seq<char>, b: Seq<char>)
    ensures
        apart(json_quoted(a), json_quoted(b)),
        json_quoted(a) == json_quoted(b) ==> a == b,
{
    assert forall|p: Seq<char>, q: Seq<char>|
        #![trigger follows(p), follows(q)]
        follows(p) && follows(q) && json_quoted(a) + p == json_quoted(b) + q implies json_quoted(a)
        == json_quoted(b) && p == q by {
        quotes_split(a, b, p, q);
    }
    if json_quoted(a) == json_quoted(b) {
        quotes_split(a, b, Seq::empty(), Seq::empty());
    }
}

proof fn quotes_split(a: Seq<char>, b: Seq<char>, p: Seq<char>, q: Seq<char>)
    requires
        json_quoted(a) + p == json_quoted(b) + q,
    ensures
        a == b,
        p == q,
{
    let one = seq!['"'];
    assert(json_quoted(a) + p =~= one + (escaped(a) + (one + p)));
    assert(json_quoted(b) + q =~= one + (escaped(b) + (one + q)));
    cancelled(one, escaped(a) + (one + p), escaped(b) + (one + q));
    quotes_close(a, b, p, q);
}

proof fn joined_front(parts: Seq<Seq<char>>, separator: Seq<char>)
    requires
        parts.len() > 1,
    ensures
        joined(parts, separator) == parts[0] + (separator + joined(parts.drop_first(), separator)),
    decreases parts.len(),
{
    let rest = parts.drop_first();
    if parts.len() == 2 {
        assert(parts.drop_last().len() == 1);
        assert(joined(parts.drop_last(), separator) == parts[0]);
        assert(joined(rest, separator) == parts[1]);
        assert(joined(parts, separator) =~= parts[0] + (separator + joined(rest, separator)));
    } else {
        joined_front(parts.drop_last(), separator);
        assert(parts.drop_last().drop_first() =~= rest.drop_last());
        assert(joined(parts, separator) =~= parts[0] + (separator + joined(rest, separator)));
    }
}

/// The members of an object with given keys and values.
pub open spec fn members(keys: Seq<Seq<char>>, values: Seq<Seq<char>>) -> Seq<Seq<char>> {
    Seq::new(keys.len(), |i: int| member_text(keys[i], values[i]))
}

proof fn members_split(
    keys: Seq<Seq<char>>,
    a: Seq<Seq<char>>,
    b: Seq<Seq<char>>,
    x: Seq<char>,
    y: Seq<char>,
)
    requires
        keys.len() > 0,
        a.len() == keys.len(),
        b.len() == keys.len(),
        forall|i: int| 0 <= i < a.len() ==> apart(#[trigger] a[i], b[i]),
        joined(members(keys, a), ","@) + ("}"@ + x) == joined(members(keys, b), ","@) + ("}"@ + y),
    ensures
        a == b,
        x == y,
    decreases keys.len(),
{
    reveal_strlit(",");
    reveal_strlit("}");
    let ma = members(keys, a);
    let mb = members(keys, b);
    let lead = "\""@ + keys[0] + "\":"@;
    assert(apart(a[0], b[0]));
    if keys.len() == 1 {
        let (p, q) = ("}"@ + x, "}"@ + y);
        assert(joined(ma, ","@) + p =~= lead + (a[0] + p));
        assert(joined(mb, ","@) + q =~= lead + (b[0] + q));
        cancelled(lead, a[0] + p, b[0] + q);
        assert(follows(p) && follows(q));
        cancelled("}"@, x, y);
        assert(a =~= b);
    } else {
        joined_front(ma, ","@);
        joined_front(mb, ","@);
        let (ka, va, vb) = (keys.drop_first(), a.drop_first(), b.drop_first());
        assert(ma.drop_first() =~= members(ka, va));
        assert(mb.drop_first() =~= members(ka, vb));
        let more_a = joined(members(ka, va), ","@) + ("}"@ + x);
        let more_b = joined(members(ka, vb), ","@) + ("}"@ + y);
        let (p, q) = (","@ + more_a, ","@ + more_b);
        assert(joined(ma, ","@) + ("}"@ + x) =~= lead + (a[0] + p));
        assert(joined(mb, ","@) + ("}"@ + y) =~= lead + (b[0] + q));
        cancelled(lead, a[0] + p, b[0] + q);
        assert(follows(p) && follows(q));
        cancelled(","@, more_a, more_b);
        assert forall|i: int| 0 <= i < va.len() implies apart(#[trigger] va[i], vb[i]) by {
            assert(apart(a[i + 1], b[i + 1]));
        }
        members_split(ka, va, vb, x, y);
        assert(a =~= seq![a[0]] + va);
        assert(b =~= seq![b[0]] + vb);
    }
}

/// Objects with the same keys, whose values are told apart, are told apart; and equal objects
/// have equal values.
pub proof fn objects_apart(keys: Seq<Seq<char>>, a: Seq<Seq<char>>, b: Seq<Seq<char>>)
    requires
        keys.len() > 0,
        a.len() == keys.len(),
        b.len() == keys.len(),
        forall|i: int| 0 <= i < a.len() ==> apart(#[trigger] a[i], b[i]),
    ensures
        apart(object_text(members(keys, a)), object_text(members(keys, b))),
        object_text(members(keys, a)) == object_text(members(keys, b)) ==> a == b,
{
    let ta = object_text(members(keys, a));
    let tb = object_text(members(keys, b));
    assert forall|p: Seq<char>, q: Seq<char>| ta + p == tb + q implies a == b && #[trigger] (ta
        + p) == ta + p && #[trigger] (tb + q) == tb + q && p == q by {
        let ja = joined(members(keys, a), ","@) + ("}"@ + p);
        let jb = joined(members(keys, b), ","@) + ("}"@ + q);
        assert(ta + p =~= "{"@ + ja);
        assert(tb + q =~= "{"@ + jb);
        cancelled("{"@, ja, jb);
        members_split(keys, a, b, p, q);
    }
    let none: Seq<char> = Seq::empty();
    assert(ta + none =~= ta);
    assert(tb + none =~= tb);
    assert forall|p: Seq<char>, q: Seq<char>|
        #![trigger follows(p), follows(q)]
        follows(p) && follows(q) && ta + p == tb + q implies ta == tb && p == q by {}
}

proof fn elements_split(a: Seq<Seq<char>>, b: Seq<Seq<char>>, x: Seq<char>, y: Seq<char>)
    requires
        forall|i: int| 0 <= i < a.len() && i < b.len() ==> apart(#[trigger] a[i], b[i]),
        forall|i: int| 0 <= i < a.len() ==> (#[trigger] a[i]).len() > 0 && a[i][0] != ']',
        forall|i: int| 0 <= i < b.len() ==> (#[trigger] b[i]).len() > 0 && b[i][0] != ']',
        joined(a, ","@) + ("]"@ + x) == joined(b, ","@) + ("]"@ + y),
    ensures
        a == b,
        x == y,
    decreases a.len(),
{
    reveal_strlit(",");
    reveal_strlit("]");
    let s = joined(a, ","@) + ("]"@ + x);
    let t = joined(b, ","@) + ("]"@ + y);
    if a.len() > 1 {
        joined_front(a, ","@);
    }
    if b.len() > 1 {
        joined_front(b, ","@);
    }
    let p = if a.len() <= 1 {
        "]"@ + x
    } else {
        ","@ + (joined(a.drop_first(), ","@) + ("]"@ + x))
    };
    let q = if b.len() <= 1 {
        "]"@ + y
    } else {
        ","@ + (joined(b.drop_first(), ","@) + ("]"@ + y))
    };
    if a.len() > 0 {
        assert(s =~= a[0] + p);
        assert(s[0] == a[0][0]);
    } else {
        assert(s =~= "]"@ + x);
    }
    if b.len() > 0 {
        assert(t =~= b[0] + q);
        assert(t[0] == b[0][0]);
    } else {
        assert(t =~= "]"@ + y);
    }
    if a.len() == 0 && b.len() == 0 {
        cancelled("]"@, x, y);
        assert(a =~= b);
    } else if a.len() == 0 || b.len() == 0 {
        assert(false);
    } else {
        assert(apart(a[0], b[0]));
        assert(follows(p) && follows(q));
        assert(p[0] == q[0]);
        if a.len() == 1 {
            cancelled("]"@, x, y);
            assert(a =~= b);
        } else {
            let (va, vb) = (a.drop_first(), b.drop_first());
            cancelled(","@, joined(va, ","@) + ("]"@ + x), joined(vb, ","@) + ("]"@ + y));
            assert forall|i: int| 0 <= i < va.len() && i < vb.len() implies apart(
                #[trigger] va[i],
                vb[i],
            ) by {
                assert(apart(a[i + 1], b[i + 1]));
            }
            assert forall|i: int| 0 <= i < va.len() implies (#[trigger] va[i]).len() > 0 && va[i][0]
                != ']' by {
                assert(va[i] == a[i + 1]);
            }
            assert forall|i: int| 0 <= i < vb.len() implies (#[trigger] vb[i]).len() > 0 && vb[i][0]
                != ']' by {
                assert(vb[i] == b[i + 1]);
            }
            elements_split(va, vb, x, y);
            assert(a =~= seq![a[0]] + va);
            assert(b =~= seq![b[0]] + vb);
        }
    }
}

spec fn array_text(elements: Seq<Seq<char>>) -> Seq<char> {
    "["@ + joined(elements, ","@) + "]"@
}

/// Arrays whose elements are told apart are told apart; and equal arrays have equal elements.
proof fn arrays_apart(a: Seq<Seq<char>>, b: Seq<Seq<char>>)
    requires
        forall|i: int| 0 <= i < a.len() && i < b.len() ==> apart(#[trigger] a[i], b[i]),
        forall|i: int| 0 <= i < a.len() ==> (#[trigger] a[i]).len() > 0 && a[i][0] != ']',
        forall|i: int| 0 <= i < b.len() ==> (#[trigger] b[i]).len() > 0 && b[i][0] != ']',
    ensures
        apart(array_text(a), array_text(b)),
        array_text(a) == array_text(b) ==> a == b,
{
    let ta = array_text(a);
    let tb = array_text(b);
    assert forall|p: Seq<char>, q: Seq<char>| ta + p == tb + q implies a == b && #[trigger] (ta
        + p) == ta + p && #[trigger] (tb + q) == tb + q && p == q by {
        let ja = joined(a, ","@) + ("]"@ + p);
        let jb = joined(b, ","@) + ("]"@ + q);
        assert(ta + p =~= "["@ + ja);
        assert(tb + q =~= "["@ + jb);
        cancelled("["@, ja, jb);
        elements_split(a, b, p, q);
    }
    let none: Seq<char> = Seq::empty();
    assert(ta + none =~= ta);
    assert(tb + none =~= tb);
    assert forall|p: Seq<char>, q: Seq<char>|
        #![trigger follows(p), follows(q)]
        follows(p) && follows(q) && ta + p == tb + q implies ta == tb && p == q by {}
}

/// Arrays of bytes are told apart, and equal ones hold the same bytes.
pub proof fn bytes_apart(a: Seq<u8>, b: Seq<u8>)
    ensures
        apart(bytes_text(a), bytes_text(b)),
        bytes_text(a) == bytes_text(b) ==> a == b,
{
    let (ea, eb) = (byte_texts(a), byte_texts(b));
    assert forall|i: int| 0 <= i < ea.len() && i < eb.len() implies apart(#[trigger] ea[i], eb[i]) by {
        decimals_apart(a[i] as nat, b[i] as nat);
    }
    assert forall|i: int| 0 <= i < ea.len() implies (#[trigger] ea[i]).len() > 0 && ea[i][0] != ']' by {
        decimal_digits(a[i] as nat);
    }
    assert forall|i: int| 0 <= i < eb.len() implies (#[trigger] eb[i]).len() > 0 && eb[i][0] != ']' by {
        decimal_digits(b[i] as nat);
    }
    arrays_apart(ea, eb);
    if bytes_text(a) == bytes_text(b) {
        assert(ea.len() == eb.len());
        assert forall|i: int| 0 <= i < a.len() implies a[i] == b[i] by {
            assert(ea[i] == eb[i]);
            decimal_injective(a[i] as nat, b[i] as nat);
        }
        assert(a =~= b);
    }
}

proof fn versions_apart(a: FingerprintVersion, b: FingerprintVersion)
    ensures
        apart(version_text(a), version_text(b)),
        version_text(a) == version_text(b) ==> a == b,
{
    reveal_strlit("\"v1\"");
    reveal_strlit("\"v2\"");
    assert("\"v1\""@[2] != "\"v2\""@[2]);
    equally_long(version_text(a), version_text(b));
}

proof fn truths_apart(a: bool, b: bool)
    ensures
        apart(bool_text(a), bool_text(b)),
        bool_text(a) == bool_text(b) ==> a == b,
{
    reveal_strlit("true");
    reveal_strlit("false");
    assert("true"@.len() != "false"@.len());
    unstopped(bool_text(a), bool_text(b));
}

proof fn limits_apart(a: ResourceLimits, b: ResourceLimits)
    ensures
        apart(limits_text(a), limits_text(b)),
        limits_text(a) == limits_text(b) ==> a == b,
{
    let keys = seq!["max_memory_bytes"@, "max_temp_bytes"@, "max_output_records"@, "max_samples"@];
    let va = seq![
        decimal(a.max_memory_bytes as nat),
        decimal(a.max_temp_bytes as nat),
        decimal(a.max_output_records as nat),
        decimal(a.max_samples as nat),
    ];
    let vb = seq![
        decimal(b.max_memory_bytes as nat),
        decimal(b.max_temp_bytes as nat),
        decimal(b.max_output_records as nat),
        decimal(b.max_samples as nat),
    ];
    decimals_apart(a.max_memory_bytes as nat, b.max_memory_bytes as nat);
    decimals_apart(a.max_temp_bytes as nat, b.max_temp_bytes as nat);
    decimals_apart(a.max_output_records as nat, b.max_output_records as nat);
    decimals_apart(a.max_samples as nat, b.max_samples as nat);
    assert(limits_text(a) == object_text(members(keys, va))) by {
        assert(members(keys, va) =~= seq![
            member_text(keys[0], va[0]),
            member_text(keys[1], va[1]),
            member_text(keys[2], va[2]),
            member_text(keys[3], va[3]),
        ]);
    }
    assert(limits_text(b) == object_text(members(keys, vb))) by {
        assert(members(keys, vb) =~= seq![
            member_text(keys[0], vb[0]),
            member_text(keys[1], vb[1]),
            member_text(keys[2], vb[2]),
            member_text(keys[3], vb[3]),
        ]);
    }
    objects_apart(keys, va, vb);
    if limits_text(a) == limits_text(b) {
        assert(va[0] == vb[0] && va[1] == vb[1] && va[2] == vb[2] && va[3] == vb[3]);
        decimal_injective(a.max_memory_bytes as nat, b.max_memory_bytes as nat);
        decimal_injective(a.max_temp_bytes as nat, b.max_temp_bytes as nat);
        decimal_injective(a.max_output_records as nat, b.max_output_records as nat);
        decimal_injective(a.max_samples as nat, b.max_samples as nat);
    }
}

/// Whether two partitions bind the same.
pub open spec fn same_partition(a: PartitionEvidenceV1, b: PartitionEvidenceV1) -> bool {
    &&& a.index == b.index
    &&& a.schema_digest@ == b.schema_digest@
    &&& a.contract_source_digest@ == b.contract_source_digest@
    &&& a.compiled_plan_digest@ == b.compiled_plan_digest@
    &&& a.rows == b.rows
    &&& a.fingerprint_version == b.fingerprint_version
    &&& a.fingerprint_digest@ == b.fingerprint_digest@
    &&& a.result_digest@ == b.result_digest@
}

spec fn partition_keys() -> Seq<Seq<char>> {
    seq![
        "index"@,
        "schema_digest"@,
        "contract_source_digest"@,
        "compiled_plan_digest"@,
        "rows"@,
        "fingerprint_version"@,
        "fingerprint_digest"@,
        "result_digest"@,
    ]
}

spec fn partition_values(a: PartitionEvidenceV1) -> Seq<Seq<char>> {
    seq![
        decimal(a.index as nat),
        json_quoted(a.schema_digest@),
        json_quoted(a.contract_source_digest@),
        json_quoted(a.compiled_plan_digest@),
        decimal(a.rows as nat),
        version_text(a.fingerprint_version),
        bytes_text(a.fingerprint_digest@),
        json_quoted(a.result_digest@),
    ]
}

spec fn eight(k: Seq<Seq<char>>, v: Seq<Seq<char>>) -> Seq<Seq<char>> {
    seq![
        member_text(k[0], v[0]),
        member_text(k[1], v[1]),
        member_text(k[2], v[2]),
        member_text(k[3], v[3]),
        member_text(k[4], v[4]),
        member_text(k[5], v[5]),
        member_text(k[6], v[6]),
        member_text(k[7], v[7]),
    ]
}

proof fn partition_members(a: PartitionEvidenceV1)
    ensures
        a.json() == object_text(members(partition_keys(), partition_values(a))),
{
    let (k, v) = (partition_keys(), partition_values(a));
    assert(members(k, v) =~= eight(k, v));
}

/// Partitions of one JSON text bind the same.
pub proof fn partitions_apart(a: PartitionEvidenceV1, b: PartitionEvidenceV1)
    ensures
        apart(a.json(), b.json()),
        a.json() == b.json() ==> same_partition(a, b),
{
    partition_members(a);
    partition_members(b);
    let (va, vb) = (partition_values(a), partition_values(b));
    decimals_apart(a.index as nat, b.index as nat);
    decimals_apart(a.rows as nat, b.rows as nat);
    quoted_apart(a.schema_digest@, b.schema_digest@);
    quoted_apart(a.contract_source_digest@, b.contract_source_digest@);
    quoted_apart(a.compiled_plan_digest@, b.compiled_plan_digest@);
    quoted_apart(a.result_digest@, b.result_digest@);
    versions_apart(a.fingerprint_version, b.fingerprint_version);
    bytes_apart(a.fingerprint_digest@, b.fingerprint_digest@);
    objects_apart(partition_keys(), va, vb);
    if a.json() == b.json() {
        assert(va[0] == vb[0] && va[1] == vb[1] && va[2] == vb[2] && va[3] == vb[3]);
        assert(va[4] == vb[4] && va[5] == vb[5] && va[6] == vb[6] && va[7] == vb[7]);
        decimal_injective(a.index as nat, b.index as nat);
        decimal_injective(a.rows as nat, b.rows as nat);
    }
}

/// Whether two manifests say the same, their roots aside.
pub open spec fn same_body(one: PartitionManifestV1, other: PartitionManifestV1) -> bool {
    &&& one.partitions@.len() == other.partitions@.len()
    &&& forall|i: int|
        #![trigger one.partitions@[i]]
        0 <= i < one.partitions@.len() ==> same_partition(one.partitions@[i], other.partitions@[i])
    &&& one.global_result_digest@ == other.global_result_digest@
    &&& one.resources == other.resources
}

/// Manifests whose bodies have one JSON text say the same: whatever is changed in a manifest
/// changes the text that its root is the digest of.
pub proof fn bodies_tell_manifests_apart(one: PartitionManifestV1, other: PartitionManifestV1)
    requires
        one.body() == other.body(),
    ensures
        same_body(one, other),
{
    let keys = seq!["schema"@, "partitions"@, "global_result_digest"@, "resources"@];
    let schema = "\"proofframe.partition-manifest.v1\""@;
    let (pa, pb) = (partition_texts(one.partitions@), partition_texts(other.partitions@));
    let va = seq![
        schema,
        array_text(pa),
        json_quoted(one.global_result_digest@),
        limits_text(one.resources),
    ];
    let vb = seq![
        schema,
        array_text(pb),
        json_quoted(other.global_result_digest@),
        limits_text(other.resources),
    ];
    assert(members(keys, va) =~= seq![
        member_text(keys[0], va[0]),
        member_text(keys[1], va[1]),
        member_text(keys[2], va[2]),
        member_text(keys[3], va[3]),
    ]);
    assert(members(keys, vb) =~= seq![
        member_text(keys[0], vb[0]),
        member_text(keys[1], vb[1]),
        member_text(keys[2], vb[2]),
        member_text(keys[3], vb[3]),
    ]);
    equally_long(schema, schema);
    assert forall|i: int| 0 <= i < pa.len() && i < pb.len() implies apart(#[trigger] pa[i], pb[i]) by {
        partitions_apart(one.partitions@[i], other.partitions@[i]);
    }
    reveal_strlit("{");
    assert forall|i: int| 0 <= i < pa.len() implies (#[trigger] pa[i]).len() > 0 && pa[i][0]
        != ']' by {
        assert(pa[i][0] == '{');
    }
    assert forall|i: int| 0 <= i < pb.len() implies (#[trigger] pb[i]).len() > 0 && pb[i][0]
        != ']' by {
        assert(pb[i][0] == '{');
    }
    arrays_apart(pa, pb);
    quoted_apart(one.global_result_digest@, other.global_result_digest@);
    limits_apart(one.resources, other.resources);
    objects_apart(keys, va, vb);
    assert(va[1] == vb[1] && va[2] == vb[2] && va[3] == vb[3]);
    assert(pa.len() == pb.len());
    assert forall|i: int|
        #![trigger one.partitions@[i]]
        0 <= i < one.partitions@.len() implies same_partition(
        one.partitions@[i],
        other.partitions@[i],
    ) by {
        assert(pa[i] == pb[i]);
        partitions_apart(one.partitions@[i], other.partitions@[i]);
    }
}

/// Whether two envelopes say the same.
pub open spec fn same_envelope(one: EvidenceV2, other: EvidenceV2) -> bool {
    &&& one.dataset.fingerprint_version == other.dataset.fingerprint_version
    &&& one.dataset.fingerprint_digest@ == other.dataset.fingerprint_digest@
    &&& one.dataset.rows == other.dataset.rows
    &&& one.contract_source_digest@ == other.contract_source_digest@
    &&& one.compiled_plan_digest@ == other.compiled_plan_digest@
    &&& one.schema_digest@ == other.schema_digest@
    &&& one.engine.name@ == other.engine.name@
    &&& one.engine.version@ == other.engine.version@
    &&& one.execution.operation@ == other.execution.operation@
    &&& one.execution.resources == other.execution.resources
    &&& one.result.valid == other.result.valid
    &&& one.result.violation_count == other.result.violation_count
    &&& one.result.output_records == other.result.output_records
    &&& one.result.truncated == other.result.truncated
    &&& one.result.result_digest@ == other.result.result_digest@
    &&& one.result.report_digest@ == other.result.report_digest@
    &&& one.result.findings_digest@ == other.result.findings_digest@
    &&& one.result.metrics_digest@ == other.result.metrics_digest@
}

proof fn datasets_apart(one: EvidenceV2, other: EvidenceV2)
    ensures
        apart(one.dataset_text(), other.dataset_text()),
        one.dataset_text() == other.dataset_text() ==> {
            &&& one.dataset.fingerprint_version == other.dataset.fingerprint_version
            &&& one.dataset.fingerprint_digest@ == other.dataset.fingerprint_digest@
            &&& one.dataset.rows == other.dataset.rows
        },
{
    let keys = seq!["fingerprint_version"@, "fingerprint_digest"@, "rows"@];
    let va = seq![
        version_text(one.dataset.fingerprint_version),
        bytes_text(one.dataset.fingerprint_digest@),
        decimal(one.dataset.rows as nat),
    ];
    let vb = seq![
        version_text(other.dataset.fingerprint_version),
        bytes_text(other.dataset.fingerprint_digest@),
        decimal(other.dataset.rows as nat),
    ];
    assert(members(keys, va) =~= seq![
        member_text(keys[0], va[0]),
        member_text(keys[1], va[1]),
        member_text(keys[2], va[2]),
    ]);
    assert(members(keys, vb) =~= seq![
        member_text(keys[0], vb[0]),
        member_text(keys[1], vb[1]),
        member_text(keys[2], vb[2]),
    ]);
    versions_apart(one.dataset.fingerprint_version, other.dataset.fingerprint_version);
    bytes_apart(one.dataset.fingerprint_digest@, other.dataset.fingerprint_digest@);
    decimals_apart(one.dataset.rows as nat, other.dataset.rows as nat);
    objects_apart(keys, va, vb);
    if one.dataset_text() == other.dataset_text() {
        assert(va[0] == vb[0] && va[1] == vb[1] && va[2] == vb[2]);
        decimal_injective(one.dataset.rows as nat, other.dataset.rows as nat);
    }
}

proof fn engines_apart(one: EvidenceV2, other: EvidenceV2)
    ensures
        apart(one.engine_text(), other.engine_text()),
        one.engine_text() == other.engine_text() ==> one.engine.name@ == other.engine.name@
            && one.engine.version@ == other.engine.version@,
{
    let keys = seq!["name"@, "version"@];
    let va = seq![json_quoted(one.engine.name@), json_quoted(one.engine.version@)];
    let vb = seq![json_quoted(other.engine.name@), json_quoted(other.engine.version@)];
    assert(members(keys, va) =~= seq![
        member_text(keys[0], va[0]),
        member_text(keys[1], va[1]),
    ]);
    assert(members(keys, vb) =~= seq![
        member_text(keys[0], vb[0]),
        member_text(keys[1], vb[1]),
    ]);
    quoted_apart(one.engine.name@, other.engine.name@);
    quoted_apart(one.engine.version@, other.engine.version@);
    objects_apart(keys, va, vb);
    if one.engine_text() == other.engine_text() {
        assert(va[0] == vb[0] && va[1] == vb[1]);
    }
}

proof fn executions_apart(one: EvidenceV2, other: EvidenceV2)
    ensures
        apart(one.execution_text(), other.execution_text()),
        one.execution_text() == other.execution_text() ==> one.execution.operation@
            == other.execution.operation@ && one.execution.resources == other.execution.resources,
{
    let keys = seq!["operation"@, "resources"@];
    let va = seq![json_quoted(one.execution.operation@), limits_text(one.execution.resources)];
    let vb = seq![json_quoted(other.execution.operation@), limits_text(other.execution.resources)];
    assert(members(keys, va) =~= seq![
        member_text(keys[0], va[0]),
        member_text(keys[1], va[1]),
    ]);
    assert(members(keys, vb) =~= seq![
        member_text(keys[0], vb[0]),
        member_text(keys[1], vb[1]),
    ]);
    quoted_apart(one.execution.operation@, other.execution.operation@);
    limits_apart(one.execution.resources, other.execution.resources);
    objects_apart(keys, va, vb);
    if one.execution_text() == other.execution_text() {
        assert(va[0] == vb[0] && va[1] == vb[1]);
    }
}

spec fn result_values(e: EvidenceV2) -> Seq<Seq<char>> {
    seq![
        bool_text(e.result.valid),
        decimal(e.result.violation_count as nat),
        decimal(e.result.output_records as nat),
        bool_text(e.result.truncated),
        json_quoted(e.result.result_digest@),
        json_quoted(e.result.report_digest@),
        json_quoted(e.result.findings_digest@),
        json_quoted(e.result.metrics_digest@),
    ]
}

proof fn results_apart(one: EvidenceV2, other: EvidenceV2)
    ensures
        apart(one.result_text(), other.result_text()),
        one.result_text() == other.result_text() ==> {
            &&& one.result.valid == other.result.valid
            &&& one.result.violation_count == other.result.violation_count
            &&& one.result.output_records == other.result.output_records
            &&& one.result.truncated == other.result.truncated
            &&& one.result.result_digest@ == other.result.result_digest@
            &&& one.result.report_digest@ == other.result.report_digest@
            &&& one.result.findings_digest@ == other.result.findings_digest@
            &&& one.result.metrics_digest@ == other.result.metrics_digest@
        },
{
    let (va, vb) = (result_values(one), result_values(other));
    let keys = seq![
        "valid"@,
        "violation_count"@,
        "output_records"@,
        "truncated"@,
        "result_digest"@,
        "report_digest"@,
        "findings_digest"@,
        "metrics_digest"@,
    ];
    assert(members(keys, va) =~= eight(keys, va));
    assert(members(keys, vb) =~= eight(keys, vb));
    truths_apart(one.result.valid, other.result.valid);
    decimals_apart(one.result.violation_count as nat, other.result.violation_count as nat);
    decimals_apart(one.result.output_records as nat, other.result.output_records as nat);
    truths_apart(one.result.truncated, other.result.truncated);
    quoted_apart(one.result.result_digest@, other.result.result_digest@);
    quoted_apart(one.result.report_digest@, other.result.report_digest@);
    quoted_apart(one.result.findings_digest@, other.result.findings_digest@);
    quoted_apart(one.result.metrics_digest@, other.result.metrics_digest@);
    objects_apart(keys, va, vb);
    if one.result_text() == other.result_text() {
        assert(va[0] == vb[0] && va[1] == vb[1] && va[2] == vb[2] && va[3] == vb[3]);
        assert(va[4] == vb[4] && va[5] == vb[5] && va[6] == vb[6] && va[7] == vb[7]);
        decimal_injective(one.result.violation_count as nat, other.result.violation_count as nat);
        decimal_injective(one.result.output_records as nat, other.result.output_records as nat);
    }
}

/// Envelopes of one JSON text say the same: whatever is changed in an envelope changes the text
/// that its digest is taken of.
pub proof fn texts_tell_envelopes_apart(one: EvidenceV2, other: EvidenceV2)
    requires
        one.json() == other.json(),
    ensures
        same_envelope(one, other),
{
    envelopes_apart(one, other);
}

/// Envelopes are told apart wherever their texts stand, and those of one text say the same.
pub proof fn envelopes_apart(one: EvidenceV2, other: EvidenceV2)
    ensures
        apart(one.json(), other.json()),
        one.json() == other.json() ==> same_envelope(one, other),
{
    let keys = seq![
        "schema"@,
        "dataset"@,
        "contract_source_digest"@,
        "compiled_plan_digest"@,
        "schema_digest"@,
        "engine"@,
        "execution"@,
        "result"@,
    ];
    let schema = "\"proofframe.evidence.v2\""@;
    let va = seq![
        schema,
        one.dataset_text(),
        json_quoted(one.contract_source_digest@),
        json_quoted(one.compiled_plan_digest@),
        json_quoted(one.schema_digest@),
        one.engine_text(),
        one.execution_text(),
        one.result_text(),
    ];
    let vb = seq![
        schema,
        other.dataset_text(),
        json_quoted(other.contract_source_digest@),
        json_quoted(other.compiled_plan_digest@),
        json_quoted(other.schema_digest@),
        other.engine_text(),
        other.execution_text(),
        other.result_text(),
    ];
    assert(members(keys, va) =~= eight(keys, va));
    assert(members(keys, vb) =~= eight(keys, vb));
    equally_long(schema, schema);
    datasets_apart(one, other);
    quoted_apart(one.contract_source_digest@, other.contract_source_digest@);
    quoted_apart(one.compiled_plan_digest@, other.compiled_plan_digest@);
    quoted_apart(one.schema_digest@, other.schema_digest@);
    engines_apart(one, other);
    executions_apart(one, other);
    results_apart(one, other);
    objects_apart(keys, va, vb);
    if one.json() == other.json() {
        assert(va[1] == vb[1] && va[2] == vb[2] && va[3] == vb[3] && va[4] == vb[4]);
        assert(va[5] == vb[5] && va[6] == vb[6] && va[7] == vb[7]);
    }
}

} // verus!
