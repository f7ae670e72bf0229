//! Ed25519-signed proof receipts over canonical JSON reports. A receipt binds a report to
//! an accountable signer by the hash of its canonical form. Verification is fail-closed:
//! the schema, the hash and the signature must all hold, and the signer must be trusted.

pub mod crypto;
pub mod texts;
pub mod trust;

use crate::canonical::{
    bytes_of, bytes_text, canonical_form, canonical_json, json_text, member_of, member_text,
    object_of, object_text, render,
};
use crate::contract::ast::outcome;
use crate::contract::json::{json_quoted, json_string, Json};
use crate::digest::{blake3_digest, digest_of, hex, hex_injective, tagged_hex};
use crate::error::{ErrorView, ProofFrameError};
use crate::evidence::{EvidenceV2, gives};
use crate::text::{bytes_eq, cat2, cat3, cat4, decimal, decimal_u64, str_eq, text, texts, utf8};
pub use trust::{TrustPolicy, TrustStore};
use crypto::{
    base64_decode, base64_decoded, base64_encode, base64_encoded, ed25519_public,
    ed25519_signature, key_error, key_refusal, neutral_point, public_key, random_seed,
    sign_message, signature_holds, verify_message,
};
use vstd::prelude::*;
use vstd::string::*;

verus! {

/// The largest integer that every JSON reader takes exactly.
pub const MAX_SAFE_INTEGER: u64 = 9007199254740991;

/// An Ed25519 signing keypair in URL-safe Base64.
#[derive(Debug)]
pub struct Keypair {
    /// The signature algorithm, `Ed25519`.
    pub algorithm: &'static str,
    /// The private signing key; it belongs in a secret manager.
    pub private_key: String,
    /// The public verifying key.
    pub public_key: String,
}

/// A receipt of a report, before it is signed.
#[derive(Debug)]
pub struct UnsignedReceipt {
    pub schema: String,
    pub algorithm: String,
    pub engine_version: String,
    pub issued_at_unix_ms: u64,
    pub report_hash: String,
    pub report: Json,
    pub public_key: String,
}

/// A signed receipt of a report.
#[derive(Debug)]
pub struct SignedReceipt {
    pub unsigned: UnsignedReceipt,
    pub signature: String,
}

/// The result of verifying a signed receipt.
#[derive(Debug, Clone, Copy, PartialEq, Eq, Structural)]
pub struct Verification {
    /// Whether the schema, the report hash and the signature all hold.
    pub valid: bool,
    /// Whether the signature holds under the public key.
    pub signature_valid: bool,
    /// Whether the report has the hash that the receipt names.
    pub report_hash_matches: bool,
    /// Whether the schema and the algorithm are supported.
    pub schema_supported: bool,
}

/// The schema of a receipt of evidence.
#[derive(Debug, Clone, Copy, PartialEq, Eq, Structural)]
pub enum ReceiptSchema {
    V2,
}

/// A receipt of evidence, before it is signed.
#[derive(Debug)]
pub struct UnsignedReceiptV2 {
    pub schema: ReceiptSchema,
    pub algorithm: String,
    pub engine_version: String,
    pub issued_at_unix_ms: u64,
    pub evidence_hash: [u8; 32],
    pub evidence: EvidenceV2,
    pub public_key: String,
}

/// A signed receipt of evidence.
#[derive(Debug)]
pub struct SignedReceiptV2 {
    pub schema: ReceiptSchema,
    pub unsigned: UnsignedReceiptV2,
    pub signature: String,
}

/// The result of verifying a receipt of either schema.
#[derive(Debug, Clone, Copy, PartialEq, Eq, Structural)]
pub struct ReceiptVerification {
    pub valid: bool,
    pub signature_valid: bool,
    pub report_hash_matches: bool,
    pub schema_supported: bool,
    pub signer_trusted: bool,
    pub legacy: bool,
}

impl ReceiptVerification {
    /// Whether the receipt is unaltered, whoever signed it.
    pub open spec fn is_intact(self) -> bool {
        self.schema_supported && self.report_hash_matches && self.signature_valid
    }

    /// Whether the receipt is unaltered, whoever signed it.
    pub fn intact(&self) -> (r: bool)
        ensures
            r == self.is_intact(),
    {
        self.schema_supported && self.report_hash_matches && self.signature_valid
    }
}

/// Whether a number is no integer, or an integer within the I-JSON safe range.
pub open spec fn safe_number(as_i64: Option<i64>, as_u64: Option<u64>) -> bool {
    match as_i64 {
        Some(x) => -MAX_SAFE_INTEGER <= x <= MAX_SAFE_INTEGER,
        None => match as_u64 {
            Some(x) => x <= MAX_SAFE_INTEGER,
            None => true,
        },
    }
}

/// Whether all integers in a value are within the I-JSON safe range.
pub open spec fn safe_json(value: Json) -> bool
    decreases value, 0nat,
{
    match value {
        Json::Number(n) => safe_number(n.as_i64, n.as_u64),
        Json::Array(a) => safe_items(a@, a@.len()),
        Json::Object(o) => safe_members(o@, o@.len()),
        _ => true,
    }
}

/// Whether all integers in the first `n` items are within the safe range.
pub open spec fn safe_items(items: Seq<Json>, n: nat) -> bool
    decreases items, n,
{
    n == 0 || n > items.len() || (safe_items(items, (n - 1) as nat) && safe_json(items[n - 1]))
}

/// Whether all integers in the first `n` members are within the safe range.
pub open spec fn safe_members(members: Seq<(String, Json)>, n: nat) -> bool
    decreases members, n,
{
    n == 0 || n > members.len() || (safe_members(members, (n - 1) as nat) && safe_json(
        members[n - 1].1,
    ))
}

/// Whether all integers in a value are within the I-JSON safe range.
fn is_safe_json(value: &Json) -> (r: bool)
    ensures
        r == safe_json(*value),
    decreases *value, 0nat,
{
    match value {
        Json::Number(n) => match n.as_i64 {
            Some(x) => -9007199254740991 <= x && x <= 9007199254740991,
            None => match n.as_u64 {
                Some(x) => x <= MAX_SAFE_INTEGER,
                None => true,
            },
        },
        Json::Array(a) => are_safe_items(a, a.len()),
        Json::Object(o) => are_safe_members(o, o.len()),
        _ => true,
    }
}

fn are_safe_items(items: &Vec<Json>, n: usize) -> (r: bool)
    requires
        n <= items@.len(),
    ensures
        r == safe_items(items@, n as nat),
    decreases items@, n as nat,
{
    n == 0 || (are_safe_items(items, n - 1) && is_safe_json(&items[n - 1]))
}

fn are_safe_members(members: &Vec<(String, Json)>, n: usize) -> (r: bool)
    requires
        n <= members@.len(),
    ensures
        r == safe_members(members@, n as nat),
    decreases members@, n as nat,
{
    n == 0 || (are_safe_members(members, n - 1) && is_safe_json(&members[n - 1].1))
}

/// The error of a report with an integer outside the safe range.
pub open spec fn i_json_error(value: Json) -> Option<ErrorView> {
    if safe_json(value) {
        None
    } else {
        Some(
            ErrorView::InvalidReceipt("Receipt integers must be within the I-JSON safe range"@),
        )
    }
}

/// Rejects integers outside the I-JSON safe range, so that canonical numbers are
/// unambiguous.
pub fn validate_i_json(value: &Json) -> (r: Result<(), ProofFrameError>)
    ensures
        outcome(r, i_json_error(*value)),
{
    if is_safe_json(value) {
        Ok(())
    } else {
        Err(
            ProofFrameError::InvalidReceipt(
                text("Receipt integers must be within the I-JSON safe range"),
            ),
        )
    }
}

/// The bytes of an encoded text that are to be `n`, or the error.
pub open spec fn decoded_exact(encoded: Seq<char>, label: Seq<char>, n: nat) -> Result<
    Seq<u8>,
    ErrorView,
> {
    match base64_decoded(encoded) {
        Err(t) => Err(ErrorView::InvalidReceipt("Invalid "@ + label + ": "@ + t)),
        Ok(b) => if b.len() == n {
            Ok(b)
        } else {
            Err(ErrorView::InvalidReceipt("Invalid "@ + label + " length"@))
        },
    }
}

fn decode_exact(encoded: &str, label: &str, n: usize) -> (r: Result<Vec<u8>, ProofFrameError>)
    ensures
        match decoded_exact(encoded@, label@, n as nat) {
            Ok(b) => r matches Ok(x) && x@ == b && b.len() == n,
            Err(v) => r matches Err(e) && e@ == v,
        },
{
    match base64_decode(encoded) {
        Err(t) => Err(
            ProofFrameError::InvalidReceipt(cat4("Invalid ", label, ": ", t.as_str())),
        ),
        Ok(b) => {
            if b.len() == n {
                Ok(b)
            } else {
                Err(ProofFrameError::InvalidReceipt(cat3("Invalid ", label, " length")))
            }
        },
    }
}

/// The 32 bytes of a key in Base64.
pub fn decode_key(encoded: &str, label: &str) -> (r: Result<[u8; 32], ProofFrameError>)
    ensures
        match decoded_exact(encoded@, label@, 32) {
            Ok(b) => r matches Ok(x) && x@ == b,
            Err(v) => r matches Err(e) && e@ == v,
        },
{
    let bytes = decode_exact(encoded, label, 32)?;
    let mut out = [0u8;32];
    let mut i: usize = 0;
    while i < 32
        invariant
            i <= 32,
            bytes@.len() == 32,
            forall|k: int| 0 <= k < i ==> #[trigger] out@[k] == bytes@[k],
        decreases 32 - i,
    {
        out[i] = bytes[i];
        i = i + 1;
    }
    assert(out@ =~= bytes@);
    Ok(out)
}

/// The 64 bytes of a signature in Base64.
pub fn decode_signature(encoded: &str) -> (r: Result<[u8; 64], ProofFrameError>)
    ensures
        match decoded_exact(encoded@, "signature"@, 64) {
            Ok(b) => r matches Ok(x) && x@ == b,
            Err(v) => r matches Err(e) && e@ == v,
        },
{
    let bytes = decode_exact(encoded, "signature", 64)?;
    let mut out = [0u8;64];
    let mut i: usize = 0;
    while i < 64
        invariant
            i <= 64,
            bytes@.len() == 64,
            forall|k: int| 0 <= k < i ==> #[trigger] out@[k] == bytes@[k],
        decreases 64 - i,
    {
        out[i] = bytes[i];
        i = i + 1;
    }
    assert(out@ =~= bytes@);
    Ok(out)
}

/// The verifying key that a text encodes, or the error.
pub open spec fn decoded_public(encoded: Seq<char>) -> Result<Seq<u8>, ErrorView> {
    match decoded_exact(encoded, "public key"@, 32) {
        Err(v) => Err(v),
        Ok(b) => match key_refusal(b) {
            Some(t) => Err(ErrorView::InvalidReceipt("Invalid public key: "@ + t)),
            None => Ok(b),
        },
    }
}

/// The verifying key that a text encodes.
pub fn decode_public_key(encoded: &str) -> (r: Result<[u8; 32], ProofFrameError>)
    ensures
        match decoded_public(encoded@) {
            Ok(b) => r matches Ok(x) && x@ == b,
            Err(v) => r matches Err(e) && e@ == v,
        },
{
    let bytes = decode_key(encoded, "public key")?;
    match key_error(&bytes) {
        Some(t) => Err(
            ProofFrameError::InvalidReceipt(cat2("Invalid public key: ", t.as_str())),
        ),
        None => Ok(bytes),
    }
}

/// A timestamp in milliseconds, where it fits a receipt.
pub fn timestamp_of(millis: u128) -> (r: Result<u64, ProofFrameError>)
    ensures
        if millis <= u64::MAX {
            r matches Ok(t) && t == millis
        } else {
            r matches Err(e) && e@ == ErrorView::InvalidReceipt(
                "System timestamp is outside the supported range"@,
            )
        },
{
    if millis <= 0xFFFF_FFFF_FFFF_FFFF {
        Ok(millis as u64)
    } else {
        Err(
            ProofFrameError::InvalidReceipt(
                text("System timestamp is outside the supported range"),
            ),
        )
    }
}

/// The keypair of a secret.
pub fn keypair_of(secret: &[u8; 32]) -> (r: Keypair)
    ensures
        r.algorithm@ == "Ed25519"@,
        r.private_key@ == base64_encoded(secret@),
        r.public_key@ == base64_encoded(ed25519_public(secret@)),
        decoded_exact(r.private_key@, "private key"@, 32) == Ok::<Seq<u8>, ErrorView>(secret@),
        decoded_public(r.public_key@) == Ok::<Seq<u8>, ErrorView>(ed25519_public(secret@)),
{
    let public = public_key(secret);
    Keypair {
        algorithm: "Ed25519",
        private_key: base64_encode(secret.as_slice()),
        public_key: base64_encode(public.as_slice()),
    }
}

impl Keypair {
    /// The keypair in JSON.
    pub open spec fn json(self) -> Seq<char> {
        object_text(
            seq![
                member_text("algorithm"@, json_quoted(self.algorithm@)),
                member_text("private_key"@, json_quoted(self.private_key@)),
                member_text("public_key"@, json_quoted(self.public_key@)),
            ],
        )
    }

    /// The keypair in JSON.
    pub fn to_json(&self) -> (r: String)
        ensures
            r@ == self.json(),
    {
        let algorithm = json_string(self.algorithm);
        let private = json_string(self.private_key.as_str());
        let public = json_string(self.public_key.as_str());
        let mut parts: Vec<String> = Vec::new();
        parts.push(member_of("algorithm", algorithm.as_str()));
        parts.push(member_of("private_key", private.as_str()));
        parts.push(member_of("public_key", public.as_str()));
        assert(texts(parts@) =~= seq![
            member_text("algorithm"@, json_quoted(self.algorithm@)),
            member_text("private_key"@, json_quoted(self.private_key@)),
            member_text("public_key"@, json_quoted(self.public_key@)),
        ]);
        object_of(&parts)
    }
}

/// Whether a text is the JSON of the keypair of a secret.
pub open spec fn keypair_json_of(json: Seq<char>, secret: Seq<u8>) -> bool {
    json == object_text(
        seq![
            member_text("algorithm"@, json_quoted("Ed25519"@)),
            member_text("private_key"@, json_quoted(base64_encoded(secret))),
            member_text("public_key"@, json_quoted(base64_encoded(ed25519_public(secret)))),
        ],
    )
}

/// Whether a text is the JSON of the keypair of some secret.
pub open spec fn is_keypair_json(json: Seq<char>) -> bool {
    exists|secret: Seq<u8>| secret.len() == 32 && #[trigger] keypair_json_of(json, secret)
}

/// Makes a keypair by chance, in JSON.
pub fn generate_keypair_json() -> (r: Result<String, ProofFrameError>)
    ensures
        r matches Ok(s) ==> is_keypair_json(s@),
        r matches Err(e) ==> e@ is InvalidReceipt,
{
    match random_seed() {
        Ok(seed) => {
            let pair = keypair_of(&seed);
            let json = pair.to_json();
            proof {
                let secret = seed@;
                assert(keypair_json_of(json@, secret) && secret.len() == 32);
            }
            Ok(json)
        },
        Err(e) => Err(ProofFrameError::InvalidReceipt(e)),
    }
}

/// The canonical bytes of a JSON text, or the error.
pub open spec fn canonical_bytes(json: Seq<char>) -> Result<Seq<u8>, ErrorView> {
    match canonical_form(json) {
        Ok(c) => Ok(utf8(c)),
        Err(t) => Err(ErrorView::InvalidReceipt(t)),
    }
}

fn canonical(json: &str) -> (r: Result<Vec<u8>, ProofFrameError>)
    ensures
        match canonical_bytes(json@) {
            Ok(b) => r matches Ok(x) && x@ == b,
            Err(v) => r matches Err(e) && e@ == v,
        },
{
    match canonical_json(json) {
        Ok(c) => {
            let mut out: Vec<u8> = Vec::new();
            crate::bytes::push_all(&mut out, c.as_str().as_bytes());
            assert(out@ =~= utf8(c@));
            Ok(out)
        },
        Err(t) => Err(ProofFrameError::InvalidReceipt(t)),
    }
}

/// The hash of a report, in hexadecimal, or the error of its canonical form.
pub open spec fn report_hash(report: Json) -> Result<Seq<char>, ErrorView> {
    match canonical_bytes(json_text(report)) {
        Ok(b) => Ok(hex(blake3_digest(b))),
        Err(v) => Err(v),
    }
}

fn hash_report(report: &Json) -> (r: Result<String, ProofFrameError>)
    ensures
        gives(r, report_hash(*report)),
{
    let shown = render(report);
    let bytes = canonical(shown.as_str())?;
    let digest = digest_of(bytes.as_slice());
    let r = tagged_hex("", digest.as_slice());
    proof {
        reveal_strlit("");
        assert(r@ =~= hex(digest@));
    }
    Ok(r)
}

/// The members of a receipt in JSON.
pub open spec fn receipt_members(
    schema: Seq<char>,
    algorithm: Seq<char>,
    engine_version: Seq<char>,
    issued_at_unix_ms: u64,
    report_hash: Seq<char>,
    report: Json,
    public_key: Seq<char>,
) -> Seq<Seq<char>> {
    seq![
        member_text("schema"@, json_quoted(schema)),
        member_text("algorithm"@, json_quoted(algorithm)),
        member_text("engine_version"@, json_quoted(engine_version)),
        member_text("issued_at_unix_ms"@, decimal(issued_at_unix_ms as nat)),
        member_text("report_hash"@, json_quoted(report_hash)),
        member_text("report"@, json_text(report)),
        member_text("public_key"@, json_quoted(public_key)),
    ]
}

impl UnsignedReceipt {
    /// The members of the receipt in JSON.
    pub open spec fn members(self) -> Seq<Seq<char>> {
        receipt_members(
            self.schema@,
            self.algorithm@,
            self.engine_version@,
            self.issued_at_unix_ms,
            self.report_hash@,
            self.report,
            self.public_key@,
        )
    }

    fn parts(&self) -> (r: Vec<String>)
        ensures
            texts(r@) == self.members(),
    {
        let schema = json_string(self.schema.as_str());
        let algorithm = json_string(self.algorithm.as_str());
        let engine = json_string(self.engine_version.as_str());
        let issued = decimal_u64(self.issued_at_unix_ms);
        let hash = json_string(self.report_hash.as_str());
        let report = render(&self.report);
        let key = json_string(self.public_key.as_str());
        let mut parts: Vec<String> = Vec::new();
        parts.push(member_of("schema", schema.as_str()));
        parts.push(member_of("algorithm", algorithm.as_str()));
        parts.push(member_of("engine_version", engine.as_str()));
        parts.push(member_of("issued_at_unix_ms", issued.as_str()));
        parts.push(member_of("report_hash", hash.as_str()));
        parts.push(member_of("report", report.as_str()));
        parts.push(member_of("public_key", key.as_str()));
        assert(texts(parts@) =~= self.members());
        parts
    }

    /// The bytes that are signed, or the error of their canonical form.
    pub open spec fn message(self) -> Result<Seq<u8>, ErrorView> {
        canonical_bytes(object_text(self.members()))
    }

    fn signed_bytes(&self) -> (r: Result<Vec<u8>, ProofFrameError>)
        ensures
            match self.message() {
                Ok(b) => r matches Ok(x) && x@ == b,
                Err(v) => r matches Err(e) && e@ == v,
            },
    {
        let parts = self.parts();
        let json = object_of(&parts);
        canonical(json.as_str())
    }
}

impl SignedReceipt {
    /// The receipt in JSON.
    pub open spec fn json(self) -> Seq<char> {
        object_text(
            self.unsigned.members().push(member_text("signature"@, json_quoted(self.signature@))),
        )
    }

    /// The receipt in JSON.
    pub fn to_json(&self) -> (r: String)
        ensures
            r@ == self.json(),
    {
        let mut parts = self.unsigned.parts();
        let signature = json_string(self.signature.as_str());
        let ghost before = parts@;
        parts.push(member_of("signature", signature.as_str()));
        assert(texts(parts@) =~= texts(before).push(
            member_text("signature"@, json_quoted(self.signature@)),
        ));
        object_of(&parts)
    }
}

/// The bytes that are signed for a report with a hash, or the error of their canonical
/// form.
pub open spec fn report_message(
    report: Json,
    hash: Seq<char>,
    secret: Seq<u8>,
    engine_version: Seq<char>,
    issued_at_unix_ms: u64,
) -> Result<Seq<u8>, ErrorView> {
    canonical_bytes(
        object_text(
            receipt_members(
                "proofframe.receipt.v1"@,
                "Ed25519"@,
                engine_version,
                issued_at_unix_ms,
                hash,
                report,
                base64_encoded(ed25519_public(secret)),
            ),
        ),
    )
}

/// The error of a report that is to be signed.
pub open spec fn signing_error(
    report: Json,
    private_key: Seq<char>,
    engine_version: Seq<char>,
    issued_at_unix_ms: u64,
) -> Option<ErrorView> {
    match i_json_error(report) {
        Some(v) => Some(v),
        None => match decoded_exact(private_key, "private key"@, 32) {
            Err(v) => Some(v),
            Ok(secret) => match report_hash(report) {
                Err(v) => Some(v),
                Ok(hash) => match report_message(
                    report,
                    hash,
                    secret,
                    engine_version,
                    issued_at_unix_ms,
                ) {
                    Err(v) => Some(v),
                    Ok(_) => None,
                },
            },
        },
    }
}

/// Whether a receipt is the one of a report, under a secret.
pub open spec fn receipt_of(
    receipt: SignedReceipt,
    report: Json,
    secret: Seq<u8>,
    engine_version: Seq<char>,
    issued_at_unix_ms: u64,
) -> bool {
    &&& receipt.unsigned.schema@ == "proofframe.receipt.v1"@
    &&& receipt.unsigned.algorithm@ == "Ed25519"@
    &&& receipt.unsigned.engine_version@ == engine_version
    &&& receipt.unsigned.issued_at_unix_ms == issued_at_unix_ms
    &&& report_hash(report) == Ok::<Seq<char>, ErrorView>(receipt.unsigned.report_hash@)
    &&& receipt.unsigned.report == report
    &&& receipt.unsigned.public_key@ == base64_encoded(ed25519_public(secret))
    &&& receipt.unsigned.message() is Ok
    &&& receipt.signature@ == base64_encoded(
        ed25519_signature(secret, receipt.unsigned.message()->Ok_0),
    )
}

/// Whether the signature of a secret on a message has a commitment that the strict check
/// takes.
pub open spec fn committed(secret: Seq<u8>, message: Seq<u8>) -> bool {
    ed25519_signature(secret, message).take(32) != neutral_point()
}

/// Signs a report. A receipt that comes out verifies.
pub fn sign_report(
    report: Json,
    private_key: &str,
    engine_version: &str,
    issued_at_unix_ms: u64,
) -> (r: Result<SignedReceipt, ProofFrameError>)
    ensures
        outcome(r, signing_error(report, private_key@, engine_version@, issued_at_unix_ms)),
        r matches Ok(s) ==> receipt_of(
            s,
            report,
            decoded_exact(private_key@, "private key"@, 32)->Ok_0,
            engine_version@,
            issued_at_unix_ms,
        ),
        r matches Ok(s) ==> committed(
            decoded_exact(private_key@, "private key"@, 32)->Ok_0,
            s.unsigned.message()->Ok_0,
        ) ==> verification(s) == Ok::<Verification, ErrorView>(
            Verification {
                valid: true,
                signature_valid: true,
                report_hash_matches: true,
                schema_supported: true,
            },
        ),
{
    validate_i_json(&report)?;
    let secret = decode_key(private_key, "private key")?;
    let hash = hash_report(&report)?;
    let public = public_key(&secret);
    let unsigned = UnsignedReceipt {
        schema: text("proofframe.receipt.v1"),
        algorithm: text("Ed25519"),
        engine_version: text(engine_version),
        issued_at_unix_ms,
        report_hash: hash,
        report,
        public_key: base64_encode(public.as_slice()),
    };
    let message = unsigned.signed_bytes()?;
    let signature = sign_message(&secret, message.as_slice());
    let encoded = base64_encode(signature.as_slice());
    Ok(SignedReceipt { unsigned, signature: encoded })
}

/// Signs a report, as a receipt in JSON.
pub fn sign_json(
    report: Json,
    private_key: &str,
    engine_version: &str,
    issued_at_unix_ms: u64,
) -> (r: Result<String, ProofFrameError>)
    ensures
        outcome(r, signing_error(report, private_key@, engine_version@, issued_at_unix_ms)),
        r matches Ok(s) ==> exists|receipt: SignedReceipt| #[trigger]
            receipt.json() == s@ && receipt_of(
                receipt,
                report,
                decoded_exact(private_key@, "private key"@, 32)->Ok_0,
                engine_version@,
                issued_at_unix_ms,
            ),
{
    let receipt = sign_report(report, private_key, engine_version, issued_at_unix_ms)?;
    Ok(receipt.to_json())
}

/// The result of verifying a receipt, or the error.
pub open spec fn verification(receipt: SignedReceipt) -> Result<Verification, ErrorView> {
    let unsigned = receipt.unsigned;
    if i_json_error(unsigned.report) is Some {
        Err(i_json_error(unsigned.report).unwrap())
    } else if report_hash(unsigned.report) is Err {
        Err(report_hash(unsigned.report)->Err_0)
    } else if decoded_public(unsigned.public_key@) is Err {
        Err(decoded_public(unsigned.public_key@)->Err_0)
    } else if decoded_exact(receipt.signature@, "signature"@, 64) is Err {
        Err(decoded_exact(receipt.signature@, "signature"@, 64)->Err_0)
    } else if unsigned.message() is Err {
        Err(unsigned.message()->Err_0)
    } else {
        let schema_supported = unsigned.schema@ == "proofframe.receipt.v1"@ && unsigned.algorithm@
            == "Ed25519"@;
        let report_hash_matches = report_hash(unsigned.report)->Ok_0 == unsigned.report_hash@;
        let signature_valid = signature_holds(
            decoded_public(unsigned.public_key@)->Ok_0,
            unsigned.message()->Ok_0,
            decoded_exact(receipt.signature@, "signature"@, 64)->Ok_0,
        );
        Ok(
            Verification {
                valid: schema_supported && report_hash_matches && signature_valid,
                signature_valid,
                report_hash_matches,
                schema_supported,
            },
        )
    }
}

/// Verifies the schema, the report hash and the signature of a receipt.
pub fn verify_json(receipt: &SignedReceipt) -> (r: Result<Verification, ProofFrameError>)
    ensures
        match verification(*receipt) {
            Ok(v) => r matches Ok(x) && x == v,
            Err(v) => r matches Err(e) && e@ == v,
        },
{
    validate_i_json(&receipt.unsigned.report)?;
    let schema_supported = str_eq(receipt.unsigned.schema.as_str(), "proofframe.receipt.v1")
        && str_eq(receipt.unsigned.algorithm.as_str(), "Ed25519");
    let expected = hash_report(&receipt.unsigned.report)?;
    let report_hash_matches = str_eq(expected.as_str(), receipt.unsigned.report_hash.as_str());
    let public = decode_public_key(receipt.unsigned.public_key.as_str())?;
    let signature = decode_signature(receipt.signature.as_str())?;
    let message = receipt.unsigned.signed_bytes()?;
    let signature_valid = verify_message(&public, message.as_slice(), &signature);
    Ok(
        Verification {
            valid: schema_supported && report_hash_matches && signature_valid,
            signature_valid,
            report_hash_matches,
            schema_supported,
        },
    )
}

/// A receipt of evidence in JSON, before it is signed.
pub open spec fn evidence_receipt_text(
    algorithm: Seq<char>,
    engine_version: Seq<char>,
    issued_at_unix_ms: u64,
    evidence_hash: Seq<u8>,
    evidence: EvidenceV2,
    public_key: Seq<char>,
) -> Seq<char> {
    object_text(
        seq![
            member_text("schema"@, "\"proofframe.receipt.v2\""@),
            member_text("algorithm"@, json_quoted(algorithm)),
            member_text("engine_version"@, json_quoted(engine_version)),
            member_text("issued_at_unix_ms"@, decimal(issued_at_unix_ms as nat)),
            member_text("evidence_hash"@, bytes_text(evidence_hash)),
            member_text("evidence"@, evidence.json()),
            member_text("public_key"@, json_quoted(public_key)),
        ],
    )
}

/// The bytes that are signed for the text of a receipt: a domain and the canonical form,
/// or the error of that.
pub open spec fn evidence_message(json: Seq<char>) -> Result<Seq<u8>, ErrorView> {
    match canonical_bytes(json) {
        Ok(b) => Ok(utf8("proofframe:receipt:v2\0"@) + b),
        Err(v) => Err(v),
    }
}

impl UnsignedReceiptV2 {
    /// The receipt in JSON.
    pub open spec fn json(self) -> Seq<char> {
        evidence_receipt_text(
            self.algorithm@,
            self.engine_version@,
            self.issued_at_unix_ms,
            self.evidence_hash@,
            self.evidence,
            self.public_key@,
        )
    }

    fn to_json(&self) -> (r: String)
        ensures
            r@ == self.json(),
    {
        let algorithm = json_string(self.algorithm.as_str());
        let engine = json_string(self.engine_version.as_str());
        let issued = decimal_u64(self.issued_at_unix_ms);
        let hash = bytes_of(self.evidence_hash.as_slice());
        let evidence = self.evidence.to_json();
        let key = json_string(self.public_key.as_str());
        let mut parts: Vec<String> = Vec::new();
        parts.push(member_of("schema", "\"proofframe.receipt.v2\""));
        parts.push(member_of("algorithm", algorithm.as_str()));
        parts.push(member_of("engine_version", engine.as_str()));
        parts.push(member_of("issued_at_unix_ms", issued.as_str()));
        parts.push(member_of("evidence_hash", hash.as_str()));
        parts.push(member_of("evidence", evidence.as_str()));
        parts.push(member_of("public_key", key.as_str()));
        assert(texts(parts@) =~= seq![
            member_text("schema"@, "\"proofframe.receipt.v2\""@),
            member_text("algorithm"@, json_quoted(self.algorithm@)),
            member_text("engine_version"@, json_quoted(self.engine_version@)),
            member_text("issued_at_unix_ms"@, decimal(self.issued_at_unix_ms as nat)),
            member_text("evidence_hash"@, bytes_text(self.evidence_hash@)),
            member_text("evidence"@, self.evidence.json()),
            member_text("public_key"@, json_quoted(self.public_key@)),
        ]);
        object_of(&parts)
    }

    /// The bytes that are signed: a domain and the canonical form, or the error of that.
    pub open spec fn message(self) -> Result<Seq<u8>, ErrorView> {
        evidence_message(self.json())
    }

    fn signed_bytes(&self) -> (r: Result<Vec<u8>, ProofFrameError>)
        ensures
            match self.message() {
                Ok(b) => r matches Ok(x) && x@ == b,
                Err(v) => r matches Err(e) && e@ == v,
            },
    {
        let json = self.to_json();
        let bytes = canonical(json.as_str())?;
        let mut message: Vec<u8> = Vec::new();
        crate::bytes::push_all(&mut message, "proofframe:receipt:v2\0".as_bytes());
        crate::bytes::push_all(&mut message, bytes.as_slice());
        assert(message@ =~= utf8("proofframe:receipt:v2\0"@) + bytes@);
        Ok(message)
    }
}

impl SignedReceiptV2 {
    /// The receipt in JSON.
    pub open spec fn json(self) -> Seq<char> {
        object_text(
            seq![
                member_text("schema"@, "\"proofframe.receipt.v2\""@),
                member_text("unsigned"@, self.unsigned.json()),
                member_text("signature"@, json_quoted(self.signature@)),
            ],
        )
    }

    /// The receipt in JSON.
    pub fn to_json(&self) -> (r: String)
        ensures
            r@ == self.json(),
    {
        let unsigned = self.unsigned.to_json();
        let signature = json_string(self.signature.as_str());
        let mut parts: Vec<String> = Vec::new();
        parts.push(member_of("schema", "\"proofframe.receipt.v2\""));
        parts.push(member_of("unsigned", unsigned.as_str()));
        parts.push(member_of("signature", signature.as_str()));
        assert(texts(parts@) =~= seq![
            member_text("schema"@, "\"proofframe.receipt.v2\""@),
            member_text("unsigned"@, self.unsigned.json()),
            member_text("signature"@, json_quoted(self.signature@)),
        ]);
        object_of(&parts)
    }
}

/// The error of evidence that is to be signed.
pub open spec fn evidence_signing_error(
    evidence: EvidenceV2,
    secret: Seq<u8>,
    engine_version: Seq<char>,
    issued_at_unix_ms: u64,
) -> Option<ErrorView> {
    match evidence.evidence_error() {
        Some(v) => Some(v),
        None => match evidence.spec_digest() {
            Err(v) => Some(v),
            Ok(hash) => match evidence_message(
                evidence_receipt_text(
                    "Ed25519"@,
                    engine_version,
                    issued_at_unix_ms,
                    hash,
                    evidence,
                    base64_encoded(ed25519_public(secret)),
                ),
            ) {
                Err(v) => Some(v),
                Ok(_) => None,
            },
        },
    }
}

/// Whether a receipt is the one of evidence, under a secret.
pub open spec fn evidence_receipt_of(
    receipt: SignedReceiptV2,
    evidence: EvidenceV2,
    secret: Seq<u8>,
    engine_version: Seq<char>,
    issued_at_unix_ms: u64,
) -> bool {
    &&& receipt.unsigned.algorithm@ == "Ed25519"@
    &&& receipt.unsigned.engine_version@ == engine_version
    &&& receipt.unsigned.issued_at_unix_ms == issued_at_unix_ms
    &&& evidence.spec_digest() == Ok::<Seq<u8>, ErrorView>(receipt.unsigned.evidence_hash@)
    &&& receipt.unsigned.evidence == evidence
    &&& receipt.unsigned.public_key@ == base64_encoded(ed25519_public(secret))
    &&& receipt.unsigned.message() is Ok
    &&& receipt.signature@ == base64_encoded(
        ed25519_signature(secret, receipt.unsigned.message()->Ok_0),
    )
}

/// Signs valid evidence with a secret that is managed elsewhere. A receipt that comes out
/// is valid under every policy that trusts the key of the secret, and intact under any.
pub fn sign_v2(
    evidence: EvidenceV2,
    secret: &[u8; 32],
    engine_version: &str,
    issued_at_unix_ms: u64,
) -> (r: Result<SignedReceiptV2, ProofFrameError>)
    ensures
        outcome(
            r,
            evidence_signing_error(evidence, secret@, engine_version@, issued_at_unix_ms),
        ),
        r matches Ok(s) ==> evidence_receipt_of(
            s,
            evidence,
            secret@,
            engine_version@,
            issued_at_unix_ms,
        ),
        r matches Ok(s) ==> committed(secret@, s.unsigned.message()->Ok_0) ==> forall|
            trust: TrustPolicy,
        | #[trigger]
            verification_v2(s, trust) == Ok::<ReceiptVerification, ErrorView>(
                ReceiptVerification {
                    valid: trust.trusts(ed25519_public(secret@)),
                    signature_valid: true,
                    report_hash_matches: true,
                    schema_supported: true,
                    signer_trusted: trust.trusts(ed25519_public(secret@)),
                    legacy: false,
                },
            ),
{
    let evidence_hash = evidence.digest()?;
    let public = public_key(secret);
    let unsigned = UnsignedReceiptV2 {
        schema: ReceiptSchema::V2,
        algorithm: text("Ed25519"),
        engine_version: text(engine_version),
        issued_at_unix_ms,
        evidence_hash,
        evidence,
        public_key: base64_encode(public.as_slice()),
    };
    let message = unsigned.signed_bytes()?;
    let signature = sign_message(secret, message.as_slice());
    let encoded = base64_encode(signature.as_slice());
    Ok(SignedReceiptV2 { schema: ReceiptSchema::V2, unsigned, signature: encoded })
}

/// Signs valid evidence with an encoded private key, as a receipt in JSON.
pub fn sign_v2_json(
    evidence: EvidenceV2,
    private_key: &str,
    engine_version: &str,
    issued_at_unix_ms: u64,
) -> (r: Result<String, ProofFrameError>)
    ensures
        match decoded_exact(private_key@, "private key"@, 32) {
            Err(v) => r matches Err(e) && e@ == v,
            Ok(secret) => {
                &&& outcome(
                    r,
                    evidence_signing_error(evidence, secret, engine_version@, issued_at_unix_ms),
                )
                &&& r matches Ok(s) ==> exists|receipt: SignedReceiptV2| #[trigger]
                    receipt.json() == s@ && evidence_receipt_of(
                        receipt,
                        evidence,
                        secret,
                        engine_version@,
                        issued_at_unix_ms,
                    )
            },
        },
{
    let secret = decode_key(private_key, "private key")?;
    let receipt = sign_v2(evidence, &secret, engine_version, issued_at_unix_ms)?;
    Ok(receipt.to_json())
}

/// The result of verifying a receipt of evidence under a policy, or the error.
pub open spec fn verification_v2(receipt: SignedReceiptV2, trust: TrustPolicy) -> Result<
    ReceiptVerification,
    ErrorView,
> {
    let unsigned = receipt.unsigned;
    if unsigned.evidence.spec_digest() is Err {
        Err(unsigned.evidence.spec_digest()->Err_0)
    } else if decoded_public(unsigned.public_key@) is Err {
        Err(decoded_public(unsigned.public_key@)->Err_0)
    } else if decoded_exact(receipt.signature@, "signature"@, 64) is Err {
        Err(decoded_exact(receipt.signature@, "signature"@, 64)->Err_0)
    } else if unsigned.message() is Err {
        Err(unsigned.message()->Err_0)
    } else {
        let public = decoded_public(unsigned.public_key@)->Ok_0;
        let schema_supported = unsigned.algorithm@ == "Ed25519"@
            && unsigned.evidence.evidence_error() is None;
        let report_hash_matches = unsigned.evidence.spec_digest()->Ok_0 == unsigned.evidence_hash@;
        let signature_valid = signature_holds(
            public,
            unsigned.message()->Ok_0,
            decoded_exact(receipt.signature@, "signature"@, 64)->Ok_0,
        );
        let signer_trusted = trust.trusts(public);
        Ok(
            ReceiptVerification {
                valid: schema_supported && report_hash_matches && signature_valid
                    && signer_trusted,
                signature_valid,
                report_hash_matches,
                schema_supported,
                signer_trusted,
                legacy: false,
            },
        )
    }
}

/// Verifies the integrity of a receipt of evidence, and apart from that whether the policy
/// trusts its signer.
pub fn verify_v2(receipt: &SignedReceiptV2, trust: &TrustPolicy) -> (r: Result<
    ReceiptVerification,
    ProofFrameError,
>)
    ensures
        verified(r, verification_v2(*receipt, *trust)),
{
    let semantics_valid = receipt.unsigned.evidence.validate().is_ok();
    let schema_supported = str_eq(receipt.unsigned.algorithm.as_str(), "Ed25519")
        && semantics_valid;
    let expected = receipt.unsigned.evidence.digest_unchecked()?;
    let report_hash_matches = bytes_eq(
        expected.as_slice(),
        receipt.unsigned.evidence_hash.as_slice(),
    );
    let public = decode_public_key(receipt.unsigned.public_key.as_str())?;
    let signature = decode_signature(receipt.signature.as_str())?;
    let message = receipt.unsigned.signed_bytes()?;
    let signature_valid = verify_message(&public, message.as_slice(), &signature);
    let signer_trusted = trust.accepts(&public);
    Ok(
        ReceiptVerification {
            valid: schema_supported && report_hash_matches && signature_valid && signer_trusted,
            signature_valid,
            report_hash_matches,
            schema_supported,
            signer_trusted,
            legacy: false,
        },
    )
}

/// Whether a result is a verification, or an error.
pub open spec fn verified(
    r: Result<ReceiptVerification, ProofFrameError>,
    wanted: Result<ReceiptVerification, ErrorView>,
) -> bool {
    match wanted {
        Ok(v) => r matches Ok(x) && x == v,
        Err(v) => r matches Err(e) && e@ == v,
    }
}

/// A receipt of either schema, or a document of neither.
#[derive(Debug)]
pub enum ReceiptDocument {
    V1(SignedReceipt),
    V2(SignedReceiptV2),
    Unsupported,
}

/// The schema that a document names.
#[derive(Debug, Clone, Copy, PartialEq, Eq, Structural)]
pub enum ReceiptVersion {
    V1,
    V2,
    Unsupported,
}

/// The schema that a document names.
pub open spec fn receipt_version(value: Json) -> ReceiptVersion {
    match value.spec_field("schema"@) {
        Some(Json::Text(t)) => if t@ == "proofframe.receipt.v2"@ {
            ReceiptVersion::V2
        } else if t@ == "proofframe.receipt.v1"@ {
            ReceiptVersion::V1
        } else {
            ReceiptVersion::Unsupported
        },
        _ => ReceiptVersion::Unsupported,
    }
}

/// The schema that a document names: which of the two receipts it is to be read as.
pub fn version_of_receipt(value: &Json) -> (r: ReceiptVersion)
    ensures
        r == receipt_version(*value),
{
    match value.field("schema") {
        Some(Json::Text(t)) => {
            if str_eq(t.as_str(), "proofframe.receipt.v2") {
                ReceiptVersion::V2
            } else if str_eq(t.as_str(), "proofframe.receipt.v1") {
                ReceiptVersion::V1
            } else {
                ReceiptVersion::Unsupported
            }
        },
        _ => ReceiptVersion::Unsupported,
    }
}

/// The result of verifying a document under a policy, or the error.
pub open spec fn verification_any(receipt: ReceiptDocument, trust: TrustPolicy) -> Result<
    ReceiptVerification,
    ErrorView,
> {
    match receipt {
        ReceiptDocument::V2(s) => verification_v2(s, trust),
        ReceiptDocument::V1(s) => match decoded_public(s.unsigned.public_key@) {
            Err(v) => Err(v),
            Ok(public) => match verification(s) {
                Err(v) => Err(v),
                Ok(found) => Ok(
                    ReceiptVerification {
                        valid: found.valid && trust.trusts(public),
                        signature_valid: found.signature_valid,
                        report_hash_matches: found.report_hash_matches,
                        schema_supported: found.schema_supported,
                        signer_trusted: trust.trusts(public),
                        legacy: true,
                    },
                ),
            },
        },
        ReceiptDocument::Unsupported => Ok(
            ReceiptVerification {
                valid: false,
                signature_valid: false,
                report_hash_matches: false,
                schema_supported: false,
                signer_trusted: false,
                legacy: false,
            },
        ),
    }
}

/// Verifies a receipt of either schema under a policy.
pub fn verify_json_with_policy(receipt: &ReceiptDocument, trust: &TrustPolicy) -> (r: Result<
    ReceiptVerification,
    ProofFrameError,
>)
    ensures
        verified(r, verification_any(*receipt, *trust)),
{
    match receipt {
        ReceiptDocument::V2(s) => verify_v2(s, trust),
        ReceiptDocument::V1(s) => {
            let public = decode_public_key(s.unsigned.public_key.as_str())?;
            let found = verify_json(s)?;
            let signer_trusted = trust.accepts(&public);
            Ok(
                ReceiptVerification {
                    valid: found.valid && signer_trusted,
                    signature_valid: found.signature_valid,
                    report_hash_matches: found.report_hash_matches,
                    schema_supported: found.schema_supported,
                    signer_trusted,
                    legacy: true,
                },
            )
        },
        ReceiptDocument::Unsupported => Ok(
            ReceiptVerification {
                valid: false,
                signature_valid: false,
                report_hash_matches: false,
                schema_supported: false,
                signer_trusted: false,
                legacy: false,
            },
        ),
    }
}

/// Verifies a receipt of either schema with an optional key that its signer is to have.
/// Without one, no signer is trusted.
pub fn verify_json_with_expected_key(
    receipt: &ReceiptDocument,
    expected_public_key: Option<&str>,
) -> (r: Result<ReceiptVerification, ProofFrameError>)
    ensures
        match expected_public_key {
            None => verified(r, verification_any(*receipt, TrustPolicy::SignatureOnly)),
            Some(key) => match decoded_public(key@) {
                Err(v) => r matches Err(e) && e@ == v,
                Ok(bytes) => exists|trust: TrustPolicy|
                    trust is ExpectedKey && trust->ExpectedKey_0@ == bytes && #[trigger] verified(
                        r,
                        verification_any(*receipt, trust),
                    ),
            },
        },
{
    match expected_public_key {
        Some(key) => {
            let bytes = decode_public_key(key)?;
            verify_json_with_policy(receipt, &TrustPolicy::ExpectedKey(bytes))
        },
        None => verify_json_with_policy(receipt, &TrustPolicy::SignatureOnly),
    }
}

/// Without a key or a store of keys no receipt is valid, intact as it may be.
pub proof fn signature_alone_is_never_valid(receipt: ReceiptDocument)
    ensures
        verification_any(receipt, TrustPolicy::SignatureOnly) matches Ok(v) ==> !v.valid
            && !v.signer_trusted,
{
}

/// A receipt is valid exactly where it is intact and its signer is trusted.
pub proof fn valid_means_intact_and_trusted(receipt: ReceiptDocument, trust: TrustPolicy)
    ensures
        verification_any(receipt, trust) matches Ok(v) ==> (v.valid <==> v.is_intact()
            && v.signer_trusted),
{
}

/// A valid receipt of evidence holds evidence whose claims are consistent, whatever its
/// signature says.
pub proof fn valid_receipts_hold_valid_evidence(receipt: SignedReceiptV2, trust: TrustPolicy)
    requires
        verification_v2(receipt, trust) matches Ok(v) && v.valid,
    ensures
        receipt.unsigned.evidence.evidence_error() is None,
        receipt.unsigned.evidence.spec_digest() == Ok::<Seq<u8>, ErrorView>(
            receipt.unsigned.evidence_hash@,
        ),
{
}

/// Reports that pass the hash check of one and the same hash have canonical forms that
/// BLAKE3 does not tell apart: to alter the report of a valid receipt takes a collision.
pub proof fn altered_reports_need_a_collision(one: SignedReceipt, other: SignedReceipt)
    requires
        one.unsigned.report_hash@ == other.unsigned.report_hash@,
        verification(one) matches Ok(v) && v.report_hash_matches,
        verification(other) matches Ok(w) && w.report_hash_matches,
    ensures
        canonical_bytes(json_text(one.unsigned.report)) is Ok,
        canonical_bytes(json_text(other.unsigned.report)) is Ok,
        blake3_digest(canonical_bytes(json_text(one.unsigned.report))->Ok_0) == blake3_digest(
            canonical_bytes(json_text(other.unsigned.report))->Ok_0,
        ),
{
    hex_injective(
        blake3_digest(canonical_bytes(json_text(one.unsigned.report))->Ok_0),
        blake3_digest(canonical_bytes(json_text(other.unsigned.report))->Ok_0),
    );
}

} // verus!
