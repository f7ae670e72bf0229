//! What the signed texts of receipts tell apart.

use crate::canonical::{bytes_text, json_text, member_text, object_text};
use crate::contract::json::{json_quoted, Json};
use crate::evidence::apart::{
    bytes_apart, decimal_injective, decimals_apart, envelopes_apart, equally_long, members,
    objects_apart, quoted_apart, same_envelope,
};
use crate::receipt::{
    safe_items, safe_json, safe_members, safe_number, verification, verification_any,
    verification_v2, ReceiptDocument, SignedReceipt, SignedReceiptV2, UnsignedReceipt,
    UnsignedReceiptV2,
};
use crate::receipt::crypto::signature_holds;
use crate::receipt::trust::{TrustPolicy, TrustStore};
use crate::text::decimal;
use vstd::prelude::*;

verus! {

spec fn receipt_keys() -> Seq<Seq<char>> {
    seq![
        "schema"@,
        "algorithm"@,
        "engine_version"@,
        "issued_at_unix_ms"@,
        "report_hash"@,
        "report"@,
        "public_key"@,
    ]
}

spec fn receipt_values(r: UnsignedReceipt) -> Seq<Seq<char>> {
    seq![
        json_quoted(r.schema@),
        json_quoted(r.algorithm@),
        json_quoted(r.engine_version@),
        decimal(r.issued_at_unix_ms as nat),
        json_quoted(r.report_hash@),
        json_text(r.report),
        json_quoted(r.public_key@),
    ]
}

spec fn seven(k: Seq<Seq<char>>, v: Seq<Seq<char>>) -> Seq<Seq<char>> {
    seq![
        member_text(k[0], v[0]),
        member_text(k[1], v[1]),
        member_text(k[2], v[2]),
        member_text(k[3], v[3]),
        member_text(k[4], v[4]),
        member_text(k[5], v[5]),
        member_text(k[6], v[6]),
    ]
}

/// Whatever is changed in a receipt beside its report changes the text that is signed: its
/// schema, its algorithm, its engine, its time, the hash of its report and its key are all in
/// it.
pub proof fn signed_texts_tell_receipts_apart(one: UnsignedReceipt, other: UnsignedReceipt)
    requires
        json_text(one.report) == json_text(other.report),
        object_text(one.members()) == object_text(other.members()),
    ensures
        one.schema@ == other.schema@,
        one.algorithm@ == other.algorithm@,
        one.engine_version@ == other.engine_version@,
        one.issued_at_unix_ms == other.issued_at_unix_ms,
        one.report_hash@ == other.report_hash@,
        one.public_key@ == other.public_key@,
{
    let (k, va, vb) = (receipt_keys(), receipt_values(one), receipt_values(other));
    assert(members(k, va) =~= seven(k, va));
    assert(members(k, vb) =~= seven(k, vb));
    quoted_apart(one.schema@, other.schema@);
    quoted_apart(one.algorithm@, other.algorithm@);
    quoted_apart(one.engine_version@, other.engine_version@);
    decimals_apart(one.issued_at_unix_ms as nat, other.issued_at_unix_ms as nat);
    quoted_apart(one.report_hash@, other.report_hash@);
    equally_long(json_text(one.report), json_text(other.report));
    quoted_apart(one.public_key@, other.public_key@);
    objects_apart(k, va, vb);
    assert(va[0] == vb[0] && va[1] == vb[1] && va[2] == vb[2] && va[3] == vb[3]);
    assert(va[4] == vb[4] && va[6] == vb[6]);
    decimal_injective(one.issued_at_unix_ms as nat, other.issued_at_unix_ms as nat);
}

/// A receipt with another report, all else being equal, has another text that is signed.
pub proof fn signed_texts_tell_reports_apart(one: UnsignedReceipt, other: UnsignedReceipt)
    requires
        one.schema@ == other.schema@,
        one.algorithm@ == other.algorithm@,
        one.engine_version@ == other.engine_version@,
        one.issued_at_unix_ms == other.issued_at_unix_ms,
        one.report_hash@ == other.report_hash@,
        one.public_key@ == other.public_key@,
        object_text(one.members()) == object_text(other.members()),
    ensures
        json_text(one.report) == json_text(other.report),
{
    let (m, n) = (one.members(), other.members());
    let (a, b) = (json_text(one.report), json_text(other.report));
    sixth_of_seven(m);
    sixth_of_seven(n);
    between_the_same(lead_of(m), m[5], tail_of(m), n[5]);
    let key = "\""@ + "report"@ + "\":"@;
    let none = Seq::<char>::empty();
    assert(m[5] =~= key + a + none);
    assert(n[5] =~= key + b + none);
    between_the_same(key, a, none, b);
}

spec fn lead_of(m: Seq<Seq<char>>) -> Seq<char> {
    "{"@ + (m[0] + ","@ + m[1] + ","@ + m[2] + ","@ + m[3] + ","@ + m[4] + ","@)
}

spec fn tail_of(m: Seq<Seq<char>>) -> Seq<char> {
    ","@ + m[6] + "}"@
}

proof fn between_the_same(p: Seq<char>, x: Seq<char>, q: Seq<char>, y: Seq<char>)
    requires
        p + x + q == p + y + q,
    ensures
        x == y,
{
    let (s, t) = (p + x + q, p + y + q);
    assert(s.len() == p.len() + x.len() + q.len());
    assert(t.len() == p.len() + y.len() + q.len());
    assert(s.subrange(p.len() as int, p.len() as int + x.len()) =~= x);
    assert(t.subrange(p.len() as int, p.len() as int + x.len()) =~= y);
}

#[verifier::spinoff_prover]
proof fn sixth_of_seven(m: Seq<Seq<char>>)
    requires
        m.len() == 7,
    ensures
        object_text(m) == lead_of(m) + m[5] + tail_of(m),
{
    seven_joined(m);
    let x = m[0] + ","@ + m[1] + ","@ + m[2] + ","@ + m[3] + ","@ + m[4] + ","@;
    assert("{"@ + (x + m[5] + ","@ + m[6]) + "}"@ =~= ("{"@ + x) + m[5] + (","@ + m[6] + "}"@));
}

proof fn seven_joined(m: Seq<Seq<char>>)
    requires
        m.len() == 7,
    ensures
        crate::text::joined(m, ","@) == m[0] + ","@ + m[1] + ","@ + m[2] + ","@ + m[3] + ","@ + m[4]
            + ","@ + m[5] + ","@ + m[6],
{
    reveal_with_fuel(crate::text::joined, 7);
    assert(m.drop_last().drop_last().drop_last().drop_last().drop_last().drop_last().len() == 1);
}

spec fn evidence_receipt_keys() -> Seq<Seq<char>> {
    seq![
        "schema"@,
        "algorithm"@,
        "engine_version"@,
        "issued_at_unix_ms"@,
        "evidence_hash"@,
        "evidence"@,
        "public_key"@,
    ]
}

spec fn evidence_receipt_values(r: UnsignedReceiptV2) -> Seq<Seq<char>> {
    seq![
        "\"proofframe.receipt.v2\""@,
        json_quoted(r.algorithm@),
        json_quoted(r.engine_version@),
        decimal(r.issued_at_unix_ms as nat),
        bytes_text(r.evidence_hash@),
        r.evidence.json(),
        json_quoted(r.public_key@),
    ]
}

/// Whatever is changed in a receipt of evidence changes the text that is signed.
pub proof fn signed_texts_tell_evidence_apart(one: UnsignedReceiptV2, other: UnsignedReceiptV2)
    requires
        one.json() == other.json(),
    ensures
        one.algorithm@ == other.algorithm@,
        one.engine_version@ == other.engine_version@,
        one.issued_at_unix_ms == other.issued_at_unix_ms,
        one.evidence_hash@ == other.evidence_hash@,
        same_envelope(one.evidence, other.evidence),
        one.public_key@ == other.public_key@,
{
    let k = evidence_receipt_keys();
    let (va, vb) = (evidence_receipt_values(one), evidence_receipt_values(other));
    assert(members(k, va) =~= seven(k, va));
    assert(members(k, vb) =~= seven(k, vb));
    equally_long(va[0], vb[0]);
    quoted_apart(one.algorithm@, other.algorithm@);
    quoted_apart(one.engine_version@, other.engine_version@);
    decimals_apart(one.issued_at_unix_ms as nat, other.issued_at_unix_ms as nat);
    bytes_apart(one.evidence_hash@, other.evidence_hash@);
    envelopes_apart(one.evidence, other.evidence);
    quoted_apart(one.public_key@, other.public_key@);
    objects_apart(k, va, vb);
    assert(va[1] == vb[1] && va[2] == vb[2] && va[3] == vb[3] && va[4] == vb[4]);
    assert(va[5] == vb[5] && va[6] == vb[6]);
    decimal_injective(one.issued_at_unix_ms as nat, other.issued_at_unix_ms as nat);
}

/// An integer is safe exactly where a double holds it and both its neighbours: its size is less
/// than two to the power of fifty-three.
pub proof fn safe_integers_fit_doubles(x: i64, u: u64)
    ensures
        safe_number(Some(x), None) <==> -0x20_0000_0000_0000 < x < 0x20_0000_0000_0000,
        safe_number(None, Some(u)) <==> u < 0x20_0000_0000_0000,
        safe_number(None, None),
{
}

/// A report is safe exactly where everything in it is: every item of a list, and the value of
/// every member.
pub proof fn safe_reports_hold_safe_integers(value: Json)
    ensures
        value matches Json::Array(a) ==> (safe_json(value) <==> forall|i: int|
            0 <= i < a@.len() ==> safe_json(#[trigger] a@[i])),
        value matches Json::Object(o) ==> (safe_json(value) <==> forall|i: int|
            0 <= i < o@.len() ==> safe_json((#[trigger] o@[i]).1)),
        value matches Json::Number(n) ==> (safe_json(value) <==> safe_number(n.as_i64, n.as_u64)),
{
    match value {
        Json::Array(a) => safe_one_by_one(a@, a@.len()),
        Json::Object(o) => safe_member_by_member(o@, o@.len()),
        _ => {},
    }
}

proof fn safe_one_by_one(items: Seq<Json>, n: nat)
    requires
        n <= items.len(),
    ensures
        safe_items(items, n) <==> forall|i: int| 0 <= i < n ==> safe_json(#[trigger] items[i]),
    decreases n,
{
    if n > 0 {
        safe_one_by_one(items, (n - 1) as nat);
    }
}

proof fn safe_member_by_member(members: Seq<(String, Json)>, n: nat)
    requires
        n <= members.len(),
    ensures
        safe_members(members, n) <==> forall|i: int|
            0 <= i < n ==> safe_json((#[trigger] members[i]).1),
    decreases n,
{
    if n > 0 {
        safe_member_by_member(members, (n - 1) as nat);
    }
}

/// A policy trusts exactly the keys that it names: none, one, or those of its store.
pub proof fn policies_trust_the_keys_they_name(
    key: Seq<u8>,
    expected: [u8; 32],
    store: TrustStore,
)
    ensures
        !TrustPolicy::SignatureOnly.trusts(key),
        TrustPolicy::ExpectedKey(expected).trusts(key) <==> key == expected@,
        TrustPolicy::TrustStore(store).trusts(key) <==> store@.contains(key),
{
}

/// A receipt whose signature does not hold over its text under its own key is not valid, nor is
/// one whose report has another hash, or whose schema or algorithm is another.
pub proof fn forged_receipts_are_not_valid(
    receipt: SignedReceipt,
    message: Seq<u8>,
    key: Seq<u8>,
    signature: Seq<u8>,
)
    requires
        verification(receipt) is Ok,
        receipt.unsigned.message() == Ok::<Seq<u8>, crate::error::ErrorView>(message),
        crate::receipt::decoded_public(receipt.unsigned.public_key@) == Ok::<
            Seq<u8>,
            crate::error::ErrorView,
        >(key),
        crate::receipt::decoded_exact(receipt.signature@, "signature"@, 64) == Ok::<
            Seq<u8>,
            crate::error::ErrorView,
        >(signature),
    ensures
        ({
            let v = verification(receipt)->Ok_0;
            &&& v.valid <==> signature_holds(key, message, signature)
                && crate::receipt::report_hash(receipt.unsigned.report) == Ok::<
                Seq<char>,
                crate::error::ErrorView,
            >(receipt.unsigned.report_hash@) && receipt.unsigned.schema@ == "proofframe.receipt.v1"@
                && receipt.unsigned.algorithm@ == "Ed25519"@
            &&& v.signature_valid <==> signature_holds(key, message, signature)
            &&& v.report_hash_matches <==> crate::receipt::report_hash(receipt.unsigned.report)
                == Ok::<Seq<char>, crate::error::ErrorView>(receipt.unsigned.report_hash@)
        }),
{
}

/// A receipt of evidence is valid only where its evidence is, has the digest that was signed,
/// is signed under its own key, and the policy trusts that key.
pub proof fn forged_evidence_is_not_valid(receipt: SignedReceiptV2, trust: TrustPolicy)
    requires
        verification_v2(receipt, trust) is Ok,
    ensures
        ({
            let v = verification_v2(receipt, trust)->Ok_0;
            let unsigned = receipt.unsigned;
            v.valid ==> {
                &&& unsigned.evidence.evidence_error() is None
                &&& unsigned.evidence.spec_digest() == Ok::<Seq<u8>, crate::error::ErrorView>(
                    unsigned.evidence_hash@,
                )
                &&& signature_holds(
                    crate::receipt::decoded_public(unsigned.public_key@)->Ok_0,
                    unsigned.message()->Ok_0,
                    crate::receipt::decoded_exact(receipt.signature@, "signature"@, 64)->Ok_0,
                )
                &&& trust.trusts(crate::receipt::decoded_public(unsigned.public_key@)->Ok_0)
            }
        }),
        verification_any(ReceiptDocument::V2(receipt), trust) == verification_v2(receipt, trust),
        verification_any(ReceiptDocument::Unsupported, trust) matches Ok(v) && !v.valid,
{
}

} // verus!
