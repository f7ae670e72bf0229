//! Manifests that bind the partitions of a dataset to one result.

use crate::canonical::{
    bytes_of, bytes_text, canonical_digest, canonical_form, digest_json, member_of, member_text,
    object_of, object_text, tagged_canonical_digest,
};
use crate::contract::ast::{or_error, outcome};
use crate::contract::json::{json_quoted, json_string};
use crate::digest::{
    blake3_digest, hex, hex_char, hex_digits, hex_injective, hex_is_tagged, tagged_digest,
};
use crate::error::{ErrorView, ProofFrameError};
use crate::evidence::documents::{bodies_are_documents, results_are_documents};
use crate::evidence::{
    digest_error, digest_error_any, digests, gives, limits_of, limits_text, tagged,
    validate_tagged_digest, validate_tagged_digest_any, version_of, version_text,
};
use crate::fingerprint::{Fingerprint, FingerprintVersion};
use crate::resource::ResourceLimits;
use crate::text::{cat3, decimal, decimal_u64, join, joined, str_eq, strip_prefix, text, texts, utf8};
use vstd::prelude::*;
use vstd::string::*;

verus! {

/// The most bytes that the JSON text of a manifest may have.
pub const MAX_MANIFEST_JSON_BYTES: usize = 1048576;

/// The schema of a partition manifest.
#[derive(Debug, Clone, Copy, PartialEq, Eq, Structural)]
pub enum PartitionManifestSchema {
    V1,
}

/// What one partition binds.
#[derive(Debug)]
pub struct PartitionEvidenceV1 {
    pub index: u64,
    pub schema_digest: String,
    pub contract_source_digest: String,
    pub compiled_plan_digest: String,
    pub rows: u64,
    pub fingerprint_version: FingerprintVersion,
    pub fingerprint_digest: [u8; 32],
    pub result_digest: String,
}

/// The manifest of a dataset's partitions.
#[derive(Debug)]
pub struct PartitionManifestV1 {
    pub schema: PartitionManifestSchema,
    pub partitions: Vec<PartitionEvidenceV1>,
    pub global_result_digest: String,
    pub resources: ResourceLimits,
    pub root_digest: String,
}

impl PartitionEvidenceV1 {
    /// The error of a partition at a position.
    pub open spec fn partition_error(self, position: int, first: PartitionEvidenceV1) -> Option<
        ErrorView,
    > {
        if self.index != position {
            Some(
                ErrorView::InvalidReceipt(
                    "Partition indices must be contiguous, unique, and logically ordered"@,
                ),
            )
        } else if self.fingerprint_version != FingerprintVersion::V2 {
            Some(ErrorView::InvalidReceipt("Partition evidence requires V2 fingerprints"@))
        } else {
            or_error(
                digest_error(self.schema_digest@, "pf-schema-v1:"@, "partition schema"@),
                or_error(
                    digest_error_any(
                        self.contract_source_digest@,
                        "pf-contract-v1:"@,
                        "pf-contract-v2:"@,
                        "partition contract source"@,
                    ),
                    or_error(
                        digest_error_any(
                            self.compiled_plan_digest@,
                            "pf-plan-v1:"@,
                            "pf-plan-v2:"@,
                            "partition compiled plan"@,
                        ),
                        or_error(
                            digest_error(
                                self.result_digest@,
                                "pf-partition-result-v1:"@,
                                "partition result"@,
                            ),
                            if self.schema_digest@ != first.schema_digest@
                                || self.contract_source_digest@ != first.contract_source_digest@
                                || self.compiled_plan_digest@ != first.compiled_plan_digest@ {
                                Some(
                                    ErrorView::InvalidReceipt(
                                        "Every partition must bind the same schema, contract, and compiled plan"@,
                                    ),
                                )
                            } else {
                                None
                            },
                        ),
                    ),
                ),
            )
        }
    }

    fn validate(&self, position: usize, first: &PartitionEvidenceV1) -> (r: Result<
        (),
        ProofFrameError,
    >)
        ensures
            outcome(r, self.partition_error(position as int, *first)),
    {
        if self.index != position as u64 {
            return invalid("Partition indices must be contiguous, unique, and logically ordered");
        }
        if self.fingerprint_version != FingerprintVersion::V2 {
            return invalid("Partition evidence requires V2 fingerprints");
        }
        validate_tagged_digest(self.schema_digest.as_str(), "pf-schema-v1:", "partition schema")?;
        validate_tagged_digest_any(
            self.contract_source_digest.as_str(),
            "pf-contract-v1:",
            "pf-contract-v2:",
            "partition contract source",
        )?;
        validate_tagged_digest_any(
            self.compiled_plan_digest.as_str(),
            "pf-plan-v1:",
            "pf-plan-v2:",
            "partition compiled plan",
        )?;
        validate_tagged_digest(
            self.result_digest.as_str(),
            "pf-partition-result-v1:",
            "partition result",
        )?;
        if !str_eq(self.schema_digest.as_str(), first.schema_digest.as_str()) || !str_eq(
            self.contract_source_digest.as_str(),
            first.contract_source_digest.as_str(),
        ) || !str_eq(self.compiled_plan_digest.as_str(), first.compiled_plan_digest.as_str()) {
            return invalid(
                "Every partition must bind the same schema, contract, and compiled plan",
            );
        }
        Ok(())
    }

    /// A partition in JSON.
    pub open spec fn json(self) -> Seq<char> {
        object_text(
            seq![
                member_text("index"@, decimal(self.index as nat)),
                member_text("schema_digest"@, json_quoted(self.schema_digest@)),
                member_text("contract_source_digest"@, json_quoted(self.contract_source_digest@)),
                member_text("compiled_plan_digest"@, json_quoted(self.compiled_plan_digest@)),
                member_text("rows"@, decimal(self.rows as nat)),
                member_text("fingerprint_version"@, version_text(self.fingerprint_version)),
                member_text("fingerprint_digest"@, bytes_text(self.fingerprint_digest@)),
                member_text("result_digest"@, json_quoted(self.result_digest@)),
            ],
        )
    }

    fn to_json(&self) -> (r: String)
        ensures
            r@ == self.json(),
    {
        let index = decimal_u64(self.index);
        let schema = json_string(self.schema_digest.as_str());
        let source = json_string(self.contract_source_digest.as_str());
        let plan = json_string(self.compiled_plan_digest.as_str());
        let rows = decimal_u64(self.rows);
        let bytes = bytes_of(self.fingerprint_digest.as_slice());
        let result = json_string(self.result_digest.as_str());
        let mut parts: Vec<String> = Vec::new();
        parts.push(member_of("index", index.as_str()));
        parts.push(member_of("schema_digest", schema.as_str()));
        parts.push(member_of("contract_source_digest", source.as_str()));
        parts.push(member_of("compiled_plan_digest", plan.as_str()));
        parts.push(member_of("rows", rows.as_str()));
        parts.push(member_of("fingerprint_version", version_of(self.fingerprint_version)));
        parts.push(member_of("fingerprint_digest", bytes.as_str()));
        parts.push(member_of("result_digest", result.as_str()));
        assert(texts(parts@) =~= seq![
            member_text("index"@, decimal(self.index as nat)),
            member_text("schema_digest"@, json_quoted(self.schema_digest@)),
            member_text("contract_source_digest"@, json_quoted(self.contract_source_digest@)),
            member_text("compiled_plan_digest"@, json_quoted(self.compiled_plan_digest@)),
            member_text("rows"@, decimal(self.rows as nat)),
            member_text("fingerprint_version"@, version_text(self.fingerprint_version)),
            member_text("fingerprint_digest"@, bytes_text(self.fingerprint_digest@)),
            member_text("result_digest"@, json_quoted(self.result_digest@)),
        ]);
        object_of(&parts)
    }
}

/// The first error of the first `n` partitions.
pub open spec fn partitions_error(partitions: Seq<PartitionEvidenceV1>, n: nat) -> Option<ErrorView>
    decreases n,
{
    if n == 0 || n > partitions.len() {
        None
    } else {
        or_error(
            partitions_error(partitions, (n - 1) as nat),
            partitions[n - 1].partition_error(n - 1, partitions[0]),
        )
    }
}

/// Where an early partition has an error, no later one changes it.
proof fn partitions_error_stays(partitions: Seq<PartitionEvidenceV1>, early: nat, late: nat)
    requires
        early <= late <= partitions.len(),
        partitions_error(partitions, early) is Some,
    ensures
        partitions_error(partitions, late) == partitions_error(partitions, early),
    decreases late,
{
    if early < late {
        partitions_error_stays(partitions, early, (late - 1) as nat);
    }
}

/// The partitions of a manifest in JSON, one by one.
pub open spec fn partition_texts(partitions: Seq<PartitionEvidenceV1>) -> Seq<Seq<char>> {
    Seq::new(partitions.len(), |i: int| partitions[i].json())
}

/// The body of a manifest in JSON: all but its root.
pub open spec fn body_text(
    partitions: Seq<PartitionEvidenceV1>,
    global_result_digest: Seq<char>,
    resources: ResourceLimits,
) -> Seq<char> {
    object_text(
        seq![
            member_text("schema"@, "\"proofframe.partition-manifest.v1\""@),
            member_text("partitions"@, "["@ + joined(partition_texts(partitions), ","@) + "]"@),
            member_text("global_result_digest"@, json_quoted(global_result_digest)),
            member_text("resources"@, limits_text(resources)),
        ],
    )
}

/// The error of the body of a manifest.
pub open spec fn body_error(
    partitions: Seq<PartitionEvidenceV1>,
    global_result_digest: Seq<char>,
) -> Option<ErrorView> {
    if partitions.len() == 0 {
        Some(
            ErrorView::InvalidReceipt("Partition manifest must contain at least one partition"@),
        )
    } else {
        or_error(
            digest_error(global_result_digest, "pf-result-v1:"@, "global partition result"@),
            partitions_error(partitions, partitions.len()),
        )
    }
}

/// The root of a manifest's body: a tagged digest, or the error of the canonical form.
pub open spec fn root_of(
    partitions: Seq<PartitionEvidenceV1>,
    global_result_digest: Seq<char>,
    resources: ResourceLimits,
) -> Result<Seq<char>, ErrorView> {
    tagged(
        "pf-partition-root-v1:"@,
        "proofframe:partition-manifest:v1\0"@,
        body_text(partitions, global_result_digest, resources),
    )
}

impl PartitionManifestV1 {
    /// Rejects a JSON text of a manifest that is too long to be read.
    pub fn check_source(source: &str) -> (r: Result<(), ProofFrameError>)
        ensures
            outcome(
                r,
                if utf8(source@).len() > MAX_MANIFEST_JSON_BYTES {
                    Some(
                        ErrorView::ResourceLimit {
                            resource: "partition manifest JSON"@,
                            requested: utf8(source@).len() as u64,
                            used: 0,
                            limit: MAX_MANIFEST_JSON_BYTES as u64,
                        },
                    )
                } else {
                    None
                },
            ),
    {
        let bytes = source.as_bytes();
        if bytes.len() > MAX_MANIFEST_JSON_BYTES {
            return Err(
                ProofFrameError::ResourceLimit {
                    resource: "partition manifest JSON",
                    requested: bytes.len() as u64,
                    used: 0,
                    limit: MAX_MANIFEST_JSON_BYTES as u64,
                },
            );
        }
        Ok(())
    }

    /// The manifest of partitions, with its root.
    pub fn new(
        partitions: Vec<PartitionEvidenceV1>,
        global_result_digest: String,
        resources: ResourceLimits,
    ) -> (r: Result<Self, ProofFrameError>)
        ensures
            match body_error(partitions@, global_result_digest@) {
                Some(v) => r matches Err(e) && e@ == v,
                None => match root_of(partitions@, global_result_digest@, resources) {
                    Err(v) => r matches Err(e) && e@ == v,
                    Ok(root) => {
                        &&& r matches Ok(m)
                        &&& m.partitions == partitions
                        &&& m.global_result_digest == global_result_digest
                        &&& m.resources == resources
                        &&& m.root_digest@ == root
                        &&& m.manifest_error() is None
                    },
                },
            },
            r is Ok <==> body_error(partitions@, global_result_digest@) is None,
    {
        let mut manifest = PartitionManifestV1 {
            schema: PartitionManifestSchema::V1,
            partitions,
            global_result_digest,
            resources,
            root_digest: String::new(),
        };
        manifest.validate_body()?;
        let root = manifest.compute_root_digest()?;
        manifest.root_digest = root;
        Ok(manifest)
    }

    /// The body of a manifest in JSON.
    pub open spec fn body(self) -> Seq<char> {
        body_text(self.partitions@, self.global_result_digest@, self.resources)
    }

    /// The first error of a manifest.
    pub open spec fn manifest_error(self) -> Option<ErrorView> {
        or_error(
            body_error(self.partitions@, self.global_result_digest@),
            or_error(
                digest_error(self.root_digest@, "pf-partition-root-v1:"@, "partition root"@),
                match root_of(self.partitions@, self.global_result_digest@, self.resources) {
                    Err(v) => Some(v),
                    Ok(root) => if root == self.root_digest@ {
                        None
                    } else {
                        Some(
                            ErrorView::InvalidReceipt(
                                "Partition manifest root digest does not match its body"@,
                            ),
                        )
                    },
                },
            ),
        )
    }

    /// Rejects a manifest with an inconsistent body, or with a root that is not its own.
    pub fn validate(&self) -> (r: Result<(), ProofFrameError>)
        ensures
            outcome(r, self.manifest_error()),
    {
        self.validate_body()?;
        validate_tagged_digest(
            self.root_digest.as_str(),
            "pf-partition-root-v1:",
            "partition root",
        )?;
        let root = self.compute_root_digest()?;
        if !str_eq(self.root_digest.as_str(), root.as_str()) {
            return invalid("Partition manifest root digest does not match its body");
        }
        Ok(())
    }

    /// The bytes of the root of a manifest's body, or the error of the canonical form.
    pub open spec fn spec_digest(self) -> Result<Seq<u8>, ErrorView> {
        match canonical_digest(
            "proofframe:partition-manifest:v1\0"@,
            body_text(self.partitions@, self.global_result_digest@, self.resources),
        ) {
            Ok(d) => Ok(d),
            Err(t) => Err(ErrorView::InvalidReceipt(t)),
        }
    }

    /// The bytes of the root of a valid manifest.
    pub fn digest(&self) -> (r: Result<[u8; 32], ProofFrameError>)
        ensures
            match self.manifest_error() {
                Some(v) => r matches Err(e) && e@ == v,
                None => r is Ok && digests(r, self.spec_digest()),
            },
    {
        self.validate()?;
        self.digest_unchecked()
    }

    /// The bytes of the root that the body of a manifest has.
    pub(crate) fn digest_unchecked(&self) -> (r: Result<[u8; 32], ProofFrameError>)
        ensures
            r is Ok,
            digests(r, self.spec_digest()),
    {
        let root = self.compute_root_digest()?;
        let ghost bytes = self.spec_digest()->Ok_0;
        let mut digest = [0u8;32];
        match strip_prefix(root.as_str(), "pf-partition-root-v1:") {
            None => {
                proof {
                    assert("pf-partition-root-v1:"@ =~= root@.subrange(
                        0,
                        "pf-partition-root-v1:"@.len() as int,
                    ));
                }
                invalid("Partition root contains invalid hexadecimal")?;
            },
            Some(digits) => {
                assert(digits@ =~= hex(bytes));
                proof {
                    hex_digits(bytes);
                }
                let mut i: usize = 0;
                while i < 32
                    invariant
                        i <= 32,
                        bytes.len() == 32,
                        digits@ == hex(bytes),
                        digits@.len() == 64,
                        self.spec_digest() == Ok::<Seq<u8>, ErrorView>(bytes),
                        forall|k: int|
                            0 <= k < 32 ==> hex(bytes)[2 * k] == hex_char(
                                (#[trigger] bytes[k] / 16) as nat,
                            ) && hex(bytes)[2 * k + 1] == hex_char((bytes[k] % 16) as nat),
                        forall|k: int| 0 <= k < i ==> #[trigger] digest@[k] == bytes[k],
                    decreases 32 - i,
                {
                    let ghost b = bytes[i as int];
                    let high = decode_hex(digits[2 * i])?;
                    let low = decode_hex(digits[2 * i + 1])?;
                    proof {
                        hex_value_of_digit((b / 16) as nat);
                        hex_value_of_digit((b % 16) as nat);
                    }
                    digest[i] = high * 16 + low;
                    i = i + 1;
                }
                assert(digest@ =~= bytes);
            },
        }
        Ok(digest)
    }

    fn validate_body(&self) -> (r: Result<(), ProofFrameError>)
        ensures
            outcome(r, body_error(self.partitions@, self.global_result_digest@)),
    {
        if self.partitions.len() == 0 {
            return invalid("Partition manifest must contain at least one partition");
        }
        validate_tagged_digest(
            self.global_result_digest.as_str(),
            "pf-result-v1:",
            "global partition result",
        )?;
        let mut i: usize = 0;
        while i < self.partitions.len()
            invariant
                i <= self.partitions@.len(),
                self.partitions@.len() > 0,
                digest_error(
                    self.global_result_digest@,
                    "pf-result-v1:"@,
                    "global partition result"@,
                ) is None,
                partitions_error(self.partitions@, i as nat) is None,
            decreases self.partitions@.len() - i,
        {
            proof {
                let step = self.partitions@[i as int].partition_error(
                    i as int,
                    self.partitions@[0],
                );
                assert(partitions_error(self.partitions@, (i + 1) as nat) == step);
                if step is Some {
                    partitions_error_stays(
                        self.partitions@,
                        (i + 1) as nat,
                        self.partitions@.len(),
                    );
                }
            }
            self.partitions[i].validate(i, &self.partitions[0])?;
            i = i + 1;
        }
        Ok(())
    }

    fn compute_root_digest(&self) -> (r: Result<String, ProofFrameError>)
        ensures
            r is Ok,
            gives(r, root_of(self.partitions@, self.global_result_digest@, self.resources)),
            r matches Ok(s) ==> tagged_digest(s@, "pf-partition-root-v1:"@)
                && self.spec_digest() is Ok && self.spec_digest()->Ok_0.len() == 32 && s@
                == "pf-partition-root-v1:"@ + hex(self.spec_digest()->Ok_0),
    {
        let mut each: Vec<String> = Vec::new();
        let mut i: usize = 0;
        while i < self.partitions.len()
            invariant
                i <= self.partitions@.len(),
                each@.len() == i,
                forall|k: int|
                    0 <= k < i ==> (#[trigger] each@[k])@ == self.partitions@[k].json(),
            decreases self.partitions@.len() - i,
        {
            each.push(self.partitions[i].to_json());
            i = i + 1;
        }
        assert(texts(each@) =~= partition_texts(self.partitions@));
        let all = join(&each, ",");
        let list = cat3("[", all.as_str(), "]");
        let global = json_string(self.global_result_digest.as_str());
        let limits = limits_of(&self.resources);
        let mut parts: Vec<String> = Vec::new();
        parts.push(member_of("schema", "\"proofframe.partition-manifest.v1\""));
        parts.push(member_of("partitions", list.as_str()));
        parts.push(member_of("global_result_digest", global.as_str()));
        parts.push(member_of("resources", limits.as_str()));
        assert(texts(parts@) =~= seq![
            member_text("schema"@, "\"proofframe.partition-manifest.v1\""@),
            member_text(
                "partitions"@,
                "["@ + joined(partition_texts(self.partitions@), ","@) + "]"@,
            ),
            member_text("global_result_digest"@, json_quoted(self.global_result_digest@)),
            member_text("resources"@, limits_text(self.resources)),
        ]);
        let body = object_of(&parts);
        proof {
            bodies_are_documents(self.partitions@, self.global_result_digest@, self.resources);
        }
        match digest_json("proofframe:partition-manifest:v1\0", body.as_str()) {
            Ok(d) => {
                proof {
                    hex_is_tagged("pf-partition-root-v1:"@, d@);
                }
                Ok(crate::digest::tagged_hex("pf-partition-root-v1:", d.as_slice()))
            },
            Err(e) => Err(ProofFrameError::InvalidReceipt(e)),
        }
    }
}

/// The value of a lower-case hexadecimal digit.
pub open spec fn hex_value(c: char) -> Option<u8> {
    if '0' <= c && c <= '9' {
        Some((c as u8 - 48) as u8)
    } else if 'a' <= c && c <= 'f' {
        Some((c as u8 - 87) as u8)
    } else {
        None
    }
}

/// The value of the digit of a number is the number.
proof fn hex_value_of_digit(n: nat)
    requires
        n < 16,
    ensures
        hex_value(hex_char(n)) == Some(n as u8),
{
}

/// The value of a lower-case hexadecimal digit.
pub fn decode_hex(c: char) -> (r: Result<u8, ProofFrameError>)
    ensures
        match hex_value(c) {
            Some(v) => r matches Ok(x) && x == v,
            None => r matches Err(e) && e@ == ErrorView::InvalidReceipt(
                "Partition root contains invalid hexadecimal"@,
            ),
        },
{
    if '0' <= c && c <= '9' {
        Ok(c as u8 - 48)
    } else if 'a' <= c && c <= 'f' {
        Ok(c as u8 - 87)
    } else {
        Err(
            ProofFrameError::InvalidReceipt(text("Partition root contains invalid hexadecimal")),
        )
    }
}

/// An error about a manifest.
fn invalid(message: &str) -> (r: Result<(), ProofFrameError>)
    ensures
        r matches Err(e) && e@ == ErrorView::InvalidReceipt(message@),
{
    Err(ProofFrameError::InvalidReceipt(text(message)))
}

/// The result of one partition in JSON.
pub open spec fn partition_result_text(
    index: u64,
    fingerprint: Fingerprint,
    schema_digest: Seq<char>,
    contract_source_digest: Seq<char>,
    compiled_plan_digest: Seq<char>,
) -> Seq<char> {
    object_text(
        seq![
            member_text("index"@, decimal(index as nat)),
            member_text("rows"@, decimal(fingerprint.spec_rows() as nat)),
            member_text("fingerprint_version"@, version_text(fingerprint.spec_version())),
            member_text("fingerprint_digest"@, bytes_text(fingerprint.bytes())),
            member_text("schema_digest"@, json_quoted(schema_digest)),
            member_text("contract_source_digest"@, json_quoted(contract_source_digest)),
            member_text("compiled_plan_digest"@, json_quoted(compiled_plan_digest)),
        ],
    )
}

/// The identity of the result of one partition.
pub fn partition_result_digest(
    index: u64,
    fingerprint: &Fingerprint,
    schema_digest: &str,
    contract_source_digest: &str,
    compiled_plan_digest: &str,
) -> (r: Result<String, ProofFrameError>)
    ensures
        r is Ok,
        gives(
            r,
            tagged(
                "pf-partition-result-v1:"@,
                "proofframe:partition-result:v1\0"@,
                partition_result_text(
                    index,
                    *fingerprint,
                    schema_digest@,
                    contract_source_digest@,
                    compiled_plan_digest@,
                ),
            ),
        ),
{
    let place = decimal_u64(index);
    let rows = decimal_u64(fingerprint.rows());
    let bytes = bytes_of(fingerprint.digest().as_slice());
    let schema = json_string(schema_digest);
    let source = json_string(contract_source_digest);
    let plan = json_string(compiled_plan_digest);
    let mut parts: Vec<String> = Vec::new();
    parts.push(member_of("index", place.as_str()));
    parts.push(member_of("rows", rows.as_str()));
    parts.push(member_of("fingerprint_version", version_of(fingerprint.version())));
    parts.push(member_of("fingerprint_digest", bytes.as_str()));
    parts.push(member_of("schema_digest", schema.as_str()));
    parts.push(member_of("contract_source_digest", source.as_str()));
    parts.push(member_of("compiled_plan_digest", plan.as_str()));
    assert(texts(parts@) =~= seq![
        member_text("index"@, decimal(index as nat)),
        member_text("rows"@, decimal(fingerprint.spec_rows() as nat)),
        member_text("fingerprint_version"@, version_text(fingerprint.spec_version())),
        member_text("fingerprint_digest"@, bytes_text(fingerprint.bytes())),
        member_text("schema_digest"@, json_quoted(schema_digest@)),
        member_text("contract_source_digest"@, json_quoted(contract_source_digest@)),
        member_text("compiled_plan_digest"@, json_quoted(compiled_plan_digest@)),
    ]);
    let value = object_of(&parts);
    proof {
        results_are_documents(
            index,
            *fingerprint,
            schema_digest@,
            contract_source_digest@,
            compiled_plan_digest@,
        );
    }
    tagged_canonical_digest(
        "pf-partition-result-v1:",
        "proofframe:partition-result:v1\0",
        value.as_str(),
    )
}

/// The identity of the result of one partition: a tagged digest, or the error of the canonical
/// form.
pub open spec fn partition_identity(
    index: u64,
    fingerprint: Fingerprint,
    schema_digest: Seq<char>,
    contract_source_digest: Seq<char>,
    compiled_plan_digest: Seq<char>,
) -> Result<Seq<char>, ErrorView> {
    tagged(
        "pf-partition-result-v1:"@,
        "proofframe:partition-result:v1\0"@,
        partition_result_text(
            index,
            fingerprint,
            schema_digest,
            contract_source_digest,
            compiled_plan_digest,
        ),
    )
}

/// Why the partition at a position cannot be bound: its fingerprint is missing, or its identity
/// has no canonical form.
pub open spec fn unbound(
    index: int,
    print: Option<Fingerprint>,
    schema_digest: Seq<char>,
    contract_source_digest: Seq<char>,
    compiled_plan_digest: Seq<char>,
) -> Option<ErrorView> {
    match print {
        None => Some(
            ErrorView::CorruptData(
                "partition fingerprint "@ + decimal(index as nat) + " was not finalized"@,
            ),
        ),
        Some(f) => match partition_identity(
            index as u64,
            f,
            schema_digest,
            contract_source_digest,
            compiled_plan_digest,
        ) {
            Err(v) => Some(v),
            Ok(_) => None,
        },
    }
}

/// Why the first of the first `n` partitions that cannot be bound cannot be.
pub open spec fn first_unbound(
    prints: Seq<Option<Fingerprint>>,
    schema_digest: Seq<char>,
    contract_source_digest: Seq<char>,
    compiled_plan_digest: Seq<char>,
    n: nat,
) -> Option<ErrorView>
    decreases n,
{
    if n == 0 {
        None
    } else {
        or_error(
            first_unbound(
                prints,
                schema_digest,
                contract_source_digest,
                compiled_plan_digest,
                (n - 1) as nat,
            ),
            unbound(
                n - 1,
                prints[n - 1],
                schema_digest,
                contract_source_digest,
                compiled_plan_digest,
            ),
        )
    }
}

proof fn first_unbound_stays(
    prints: Seq<Option<Fingerprint>>,
    schema_digest: Seq<char>,
    contract_source_digest: Seq<char>,
    compiled_plan_digest: Seq<char>,
    early: nat,
    late: nat,
)
    requires
        early <= late,
        first_unbound(
            prints,
            schema_digest,
            contract_source_digest,
            compiled_plan_digest,
            early,
        ) is Some,
    ensures
        first_unbound(prints, schema_digest, contract_source_digest, compiled_plan_digest, late)
            == first_unbound(
            prints,
            schema_digest,
            contract_source_digest,
            compiled_plan_digest,
            early,
        ),
    decreases late,
{
    if early < late {
        first_unbound_stays(
            prints,
            schema_digest,
            contract_source_digest,
            compiled_plan_digest,
            early,
            (late - 1) as nat,
        );
    }
}

/// Whether evidence binds the partition at a position.
pub open spec fn binds(
    evidence: PartitionEvidenceV1,
    index: int,
    fingerprint: Fingerprint,
    schema_digest: Seq<char>,
    contract_source_digest: Seq<char>,
    compiled_plan_digest: Seq<char>,
) -> bool {
    &&& evidence.index == index
    &&& evidence.schema_digest@ == schema_digest
    &&& evidence.contract_source_digest@ == contract_source_digest
    &&& evidence.compiled_plan_digest@ == compiled_plan_digest
    &&& evidence.rows == fingerprint.spec_rows()
    &&& evidence.fingerprint_version == fingerprint.spec_version()
    &&& evidence.fingerprint_digest@ == fingerprint.bytes()
    &&& partition_identity(
        index as u64,
        fingerprint,
        schema_digest,
        contract_source_digest,
        compiled_plan_digest,
    ) == Ok::<Seq<char>, ErrorView>(evidence.result_digest@)
}

/// Whether evidence binds the partition at a position, whose fingerprint there is.
pub open spec fn bound(
    evidence: PartitionEvidenceV1,
    index: int,
    print: Option<Fingerprint>,
    schema_digest: Seq<char>,
    contract_source_digest: Seq<char>,
    compiled_plan_digest: Seq<char>,
) -> bool {
    match print {
        Some(f) => binds(
            evidence,
            index,
            f,
            schema_digest,
            contract_source_digest,
            compiled_plan_digest,
        ),
        None => false,
    }
}

/// What the partitions of a dataset bind, given their fingerprints in order. A partition
/// whose fingerprint is missing was not read to its end.
pub fn bind_partitions(
    prints: &Vec<Option<Fingerprint>>,
    schema_digest: &str,
    contract_source_digest: &str,
    compiled_plan_digest: &str,
) -> (r: Result<Vec<PartitionEvidenceV1>, ProofFrameError>)
    ensures
        outcome(
            r,
            first_unbound(
                prints@,
                schema_digest@,
                contract_source_digest@,
                compiled_plan_digest@,
                prints@.len(),
            ),
        ),
        r matches Ok(list) ==> list@.len() == prints@.len() && forall|i: int|
            #![trigger list@[i]]
            0 <= i < list@.len() ==> bound(
                list@[i],
                i,
                prints@[i],
                schema_digest@,
                contract_source_digest@,
                compiled_plan_digest@,
            ),
{
    let mut list: Vec<PartitionEvidenceV1> = Vec::new();
    let mut i: usize = 0;
    while i < prints.len()
        invariant
            i <= prints@.len(),
            list@.len() == i,
            first_unbound(
                prints@,
                schema_digest@,
                contract_source_digest@,
                compiled_plan_digest@,
                i as nat,
            ) is None,
            forall|k: int|
                #![trigger list@[k]]
                0 <= k < i ==> bound(
                    list@[k],
                    k,
                    prints@[k],
                    schema_digest@,
                    contract_source_digest@,
                    compiled_plan_digest@,
                ),
        decreases prints@.len() - i,
    {
        proof {
            if unbound(
                i as int,
                prints@[i as int],
                schema_digest@,
                contract_source_digest@,
                compiled_plan_digest@,
            ) is Some {
                first_unbound_stays(
                    prints@,
                    schema_digest@,
                    contract_source_digest@,
                    compiled_plan_digest@,
                    (i + 1) as nat,
                    prints@.len(),
                );
            }
        }
        let index: u64 = i as u64;
        match &prints[i] {
            None => {
                let place = decimal_u64(index);
                return Err(
                    ProofFrameError::CorruptData(
                        cat3("partition fingerprint ", place.as_str(), " was not finalized"),
                    ),
                );
            },
            Some(print) => {
                let result_digest = partition_result_digest(
                    index,
                    print,
                    schema_digest,
                    contract_source_digest,
                    compiled_plan_digest,
                )?;
                let fingerprint_digest: [u8; 32] = *print.digest();
                assert(fingerprint_digest@ =~= print.bytes());
                let ghost before = list@;
                list.push(
                    PartitionEvidenceV1 {
                        index,
                        schema_digest: text(schema_digest),
                        contract_source_digest: text(contract_source_digest),
                        compiled_plan_digest: text(compiled_plan_digest),
                        rows: print.rows(),
                        fingerprint_version: print.version(),
                        fingerprint_digest,
                        result_digest,
                    },
                );
                proof {
                    assert(bound(
                        list@[i as int],
                        i as int,
                        prints@[i as int],
                        schema_digest@,
                        contract_source_digest@,
                        compiled_plan_digest@,
                    ));
                    assert forall|k: int| #![trigger list@[k]] 0 <= k < i implies list@[k]
                        == before[k] by {}
                }
            },
        }
        i = i + 1;
    }
    Ok(list)
}

/// A valid manifest numbers its partitions from 0 in order, and all of them bind the
/// schema, the contract and the plan of the first.
pub proof fn valid_manifest_binds_one_contract(manifest: PartitionManifestV1, i: int)
    requires
        manifest.manifest_error() is None,
        0 <= i < manifest.partitions@.len(),
    ensures
        manifest.partitions@[i].index == i,
        manifest.partitions@[i].schema_digest@ == manifest.partitions@[0].schema_digest@,
        manifest.partitions@[i].contract_source_digest@
            == manifest.partitions@[0].contract_source_digest@,
        manifest.partitions@[i].compiled_plan_digest@
            == manifest.partitions@[0].compiled_plan_digest@,
{
    let all = manifest.partitions@;
    if partitions_error(all, (i + 1) as nat) is Some {
        partitions_error_stays(all, (i + 1) as nat, all.len());
    }
    let step = all[i].partition_error(i, all[0]);
    if partitions_error(all, i as nat) is Some {
        partitions_error_stays(all, i as nat, all.len());
    }
    assert(step is None);
}

/// Valid manifests under one root have bodies whose canonical forms BLAKE3 does not tell
/// apart: to alter a manifest and keep its root takes a collision.
pub proof fn altered_manifests_need_a_collision(one: PartitionManifestV1, other: PartitionManifestV1)
    requires
        one.manifest_error() is None,
        other.manifest_error() is None,
        one.root_digest@ == other.root_digest@,
    ensures
        canonical_form(one.body()) is Ok,
        canonical_form(other.body()) is Ok,
        blake3_digest(
            utf8("proofframe:partition-manifest:v1\0"@) + utf8(canonical_form(one.body())->Ok_0),
        ) == blake3_digest(
            utf8("proofframe:partition-manifest:v1\0"@) + utf8(canonical_form(other.body())->Ok_0),
        ),
{
    let lead = "pf-partition-root-v1:"@;
    let a = one.spec_digest()->Ok_0;
    let b = other.spec_digest()->Ok_0;
    assert(lead + hex(a) == one.root_digest@);
    assert(lead + hex(b) == other.root_digest@);
    assert((lead + hex(a)).skip(lead.len() as int) =~= hex(a));
    assert((lead + hex(b)).skip(lead.len() as int) =~= hex(b));
    hex_injective(a, b);
}

/// A manifest with the body of a valid one and another root is refused.
pub proof fn changed_root_is_refused(valid: PartitionManifestV1, other: PartitionManifestV1)
    requires
        valid.manifest_error() is None,
        other.partitions@ == valid.partitions@,
        other.global_result_digest@ == valid.global_result_digest@,
        other.resources == valid.resources,
        other.root_digest@ != valid.root_digest@,
    ensures
        other.manifest_error() matches Some(v) && v is InvalidReceipt,
{
}

} // verus!
