//! Evidence as JSON documents.

use crate::canonical::{
    byte_texts, bytes_text, document_members, document_text, document_texts, is_document, member_text, object_text, proper_document, Document,
};
use crate::contract::json::{escaped, escaped_char, json_quoted};
use crate::evidence::partition::{
    body_text, partition_result_text, partition_texts, PartitionEvidenceV1,
};
use crate::evidence::{limits_text, version_text, EvidenceV2};
use crate::fingerprint::{Fingerprint, FingerprintVersion};
use crate::resource::ResourceLimits;
use crate::text::joined;
use vstd::prelude::*;

verus! {

/// Whether a text stands unchanged between quotes.
pub open spec fn unescaped(s: Seq<char>) -> bool {
    forall|i: int| 0 <= i < s.len() ==> escaped_char(#[trigger] s[i]) == seq![s[i]]
}

proof fn stands_unchanged(s: Seq<char>)
    requires
        unescaped(s),
    ensures
        escaped(s) == s,
    decreases s.len(),
{
    if s.len() > 0 {
        assert forall|i: int| 0 <= i < s.drop_last().len() implies escaped_char(
            #[trigger] s.drop_last()[i],
        ) == seq![s.drop_last()[i]] by {
            assert(s.drop_last()[i] == s[i]);
        }
        stands_unchanged(s.drop_last());
        assert(escaped_char(s[s.len() - 1]) == seq![s[s.len() - 1]]);
        assert(escaped(s) =~= s);
    }
}

/// A member whose key needs no escapes.
proof fn member_stands(key: Seq<char>, value: Seq<char>)
    requires
        unescaped(key),
    ensures
        json_quoted(key) + ":"@ + value == member_text(key, value),
{
    stands_unchanged(key);
    reveal_strlit("\"");
    reveal_strlit("\":");
    reveal_strlit(":");
    assert(json_quoted(key) + ":"@ + value =~= member_text(key, value));
}

/// The keys of members, with their values as documents.
spec fn paired(keys: Seq<Seq<char>>, values: Seq<Document>) -> Seq<(Seq<char>, Document)> {
    Seq::new(keys.len(), |i: int| (keys[i], values[i]))
}

spec fn member_texts(
    keys: Seq<Seq<char>>,
    values: Seq<Document>,
    levels: nat,
) -> Seq<Seq<char>> {
    Seq::new(keys.len(), |i: int| member_text(keys[i], document_text(values[i], levels)))
}

/// An object whose keys differ and need no escapes is a document.
proof fn object_stands(
    keys: Seq<Seq<char>>,
    values: Seq<Document>,
    levels: nat,
)
    requires
        levels > 0,
        values.len() == keys.len(),
        forall|i: int| 0 <= i < keys.len() ==> unescaped(#[trigger] keys[i]),
        forall|i: int|
            0 <= i < keys.len() ==> proper_document(#[trigger] values[i], (levels - 1) as nat),
    ensures
        proper_document(Document::Object(paired(keys, values)), levels),
        document_text(Document::Object(paired(keys, values)), levels) == object_text(
            member_texts(keys, values, (levels - 1) as nat),
        ),
{
    let m = paired(keys, values);
    let below = (levels - 1) as nat;
    let texts = document_members(m, below);
    assert forall|i: int| 0 <= i < m.len() implies #[trigger] texts[i] == member_texts(
        keys,
        values,
        below,
    )[i] by {
        assert(unescaped(keys[i]));
        member_stands(keys[i], document_text(values[i], below));
    }
    assert(texts =~= member_texts(keys, values, below));
    assert forall|i: int| #![trigger m[i]] 0 <= i < m.len() implies proper_document(
        m[i].1,
        below,
    ) by {
        assert(proper_document(values[i], below));
    }
}

spec fn version_document(version: FingerprintVersion) -> Document {
    match version {
        FingerprintVersion::V1 => Document::Text("v1"@),
        FingerprintVersion::V2 => Document::Text("v2"@),
    }
}

proof fn version_stands(version: FingerprintVersion, levels: nat)
    ensures
        document_text(version_document(version), levels) == version_text(version),
{
    reveal_strlit("v1");
    reveal_strlit("v2");
    reveal_strlit("\"v1\"");
    reveal_strlit("\"v2\"");
    stands_unchanged("v1"@);
    stands_unchanged("v2"@);
    assert(document_text(version_document(version), levels) =~= version_text(version));
}

spec fn bytes_document(bytes: Seq<u8>) -> Document {
    Document::List(Seq::new(bytes.len(), |i: int| Document::Whole(bytes[i] as nat)))
}

proof fn bytes_stand(bytes: Seq<u8>, levels: nat)
    requires
        levels > 0,
    ensures
        proper_document(bytes_document(bytes), levels),
        document_text(bytes_document(bytes), levels) == bytes_text(bytes),
{
    let a = Seq::new(bytes.len(), |i: int| Document::Whole(bytes[i] as nat));
    reveal_with_fuel(document_text, 2);
    reveal_with_fuel(proper_document, 2);
    assert(document_texts(a, (levels - 1) as nat) =~= byte_texts(bytes));
}

spec fn limits_keys() -> Seq<Seq<char>> {
    seq!["max_memory_bytes"@, "max_temp_bytes"@, "max_output_records"@, "max_samples"@]
}

spec fn limits_values(limits: ResourceLimits) -> Seq<Document> {
    seq![
        Document::Whole(limits.max_memory_bytes as nat),
        Document::Whole(limits.max_temp_bytes as nat),
        Document::Whole(limits.max_output_records as nat),
        Document::Whole(limits.max_samples as nat),
    ]
}

spec fn limits_document(limits: ResourceLimits) -> Document {
    Document::Object(paired(limits_keys(), limits_values(limits)))
}

proof fn limits_stand(limits: ResourceLimits, levels: nat)
    requires
        levels > 0,
    ensures
        proper_document(limits_document(limits), levels),
        document_text(limits_document(limits), levels) == limits_text(limits),
{
    let (k, v) = (limits_keys(), limits_values(limits));
    reveal_strlit("max_memory_bytes");
    reveal_strlit("max_temp_bytes");
    reveal_strlit("max_output_records");
    reveal_strlit("max_samples");
    object_stands(k, v, levels);
    let t = member_texts(k, v, (levels - 1) as nat);
    assert(t =~= seq![t[0], t[1], t[2], t[3]]);
}

spec fn dataset_keys() -> Seq<Seq<char>> {
    seq!["fingerprint_version"@, "fingerprint_digest"@, "rows"@]
}

spec fn dataset_values(e: EvidenceV2) -> Seq<Document> {
    seq![
        version_document(e.dataset.fingerprint_version),
        bytes_document(e.dataset.fingerprint_digest@),
        Document::Whole(e.dataset.rows as nat),
    ]
}

#[verifier::opaque]
spec fn dataset_document(e: EvidenceV2) -> Document {
    Document::Object(paired(dataset_keys(), dataset_values(e)))
}

proof fn dataset_stands(e: EvidenceV2, levels: nat)
    requires
        levels > 1,
    ensures
        proper_document(
            dataset_document(e),
            levels,
            ),
        document_text(dataset_document(e), levels)
            == e.dataset_text(),
{
    reveal(dataset_document);
    let (k, v) = (dataset_keys(), dataset_values(e));
    let below = (levels - 1) as nat;
    reveal_strlit("fingerprint_version");
    reveal_strlit("fingerprint_digest");
    reveal_strlit("rows");
    version_stands(e.dataset.fingerprint_version, below);
    bytes_stand(e.dataset.fingerprint_digest@, below);
    object_stands(k, v, levels);
    let t = member_texts(k, v, below);
    assert(t =~= seq![t[0], t[1], t[2]]);
}

spec fn engine_keys() -> Seq<Seq<char>> {
    seq!["name"@, "version"@]
}

spec fn engine_values(e: EvidenceV2) -> Seq<Document> {
    seq![Document::Text(e.engine.name@), Document::Text(e.engine.version@)]
}

#[verifier::opaque]
spec fn engine_document(e: EvidenceV2) -> Document {
    Document::Object(paired(engine_keys(), engine_values(e)))
}

proof fn engine_stands(e: EvidenceV2, levels: nat)
    requires
        levels > 0,
    ensures
        proper_document(engine_document(e), levels),
        document_text(engine_document(e), levels)
            == e.engine_text(),
{
    reveal(engine_document);
    let (k, v) = (engine_keys(), engine_values(e));
    reveal_strlit("name");
    reveal_strlit("version");
    object_stands(k, v, levels);
    let t = member_texts(k, v, (levels - 1) as nat);
    assert(t =~= seq![t[0], t[1]]);
}

spec fn execution_keys() -> Seq<Seq<char>> {
    seq!["operation"@, "resources"@]
}

spec fn execution_values(e: EvidenceV2) -> Seq<Document> {
    seq![Document::Text(e.execution.operation@), limits_document(e.execution.resources)]
}

#[verifier::opaque]
spec fn execution_document(e: EvidenceV2) -> Document {
    Document::Object(paired(execution_keys(), execution_values(e)))
}

proof fn execution_stands(e: EvidenceV2, levels: nat)
    requires
        levels > 1,
    ensures
        proper_document(
            execution_document(e),
            levels,
            ),
        document_text(execution_document(e), levels)
            == e.execution_text(),
{
    reveal(execution_document);
    let (k, v) = (execution_keys(), execution_values(e));
    reveal_strlit("operation");
    reveal_strlit("resources");
    limits_stand(e.execution.resources, (levels - 1) as nat);
    object_stands(k, v, levels);
    let t = member_texts(k, v, (levels - 1) as nat);
    assert(t =~= seq![t[0], t[1]]);
}

spec fn result_keys() -> Seq<Seq<char>> {
    seq![
        "valid"@,
        "violation_count"@,
        "output_records"@,
        "truncated"@,
        "result_digest"@,
        "report_digest"@,
        "findings_digest"@,
        "metrics_digest"@,
    ]
}

spec fn result_values(e: EvidenceV2) -> Seq<Document> {
    seq![
        Document::Truth(e.result.valid),
        Document::Whole(e.result.violation_count as nat),
        Document::Whole(e.result.output_records as nat),
        Document::Truth(e.result.truncated),
        Document::Text(e.result.result_digest@),
        Document::Text(e.result.report_digest@),
        Document::Text(e.result.findings_digest@),
        Document::Text(e.result.metrics_digest@),
    ]
}

#[verifier::opaque]
spec fn result_document(e: EvidenceV2) -> Document {
    Document::Object(paired(result_keys(), result_values(e)))
}

proof fn result_stands(e: EvidenceV2, levels: nat)
    requires
        levels > 0,
    ensures
        proper_document(result_document(e), levels),
        document_text(result_document(e), levels)
            == e.result_text(),
{
    reveal(result_document);
    let (k, v) = (result_keys(), result_values(e));
    reveal_strlit("valid");
    reveal_strlit("violation_count");
    reveal_strlit("output_records");
    reveal_strlit("truncated");
    reveal_strlit("result_digest");
    reveal_strlit("report_digest");
    reveal_strlit("findings_digest");
    reveal_strlit("metrics_digest");
    object_stands(k, v, levels);
    let t = member_texts(k, v, (levels - 1) as nat);
    assert(t =~= seq![t[0], t[1], t[2], t[3], t[4], t[5], t[6], t[7]]);
}

spec fn envelope_keys() -> Seq<Seq<char>> {
    seq![
        "schema"@,
        "dataset"@,
        "contract_source_digest"@,
        "compiled_plan_digest"@,
        "schema_digest"@,
        "engine"@,
        "execution"@,
        "result"@,
    ]
}

spec fn envelope_values(e: EvidenceV2) -> Seq<Document> {
    seq![
        Document::Text("proofframe.evidence.v2"@),
        dataset_document(e),
        Document::Text(e.contract_source_digest@),
        Document::Text(e.compiled_plan_digest@),
        Document::Text(e.schema_digest@),
        engine_document(e),
        execution_document(e),
        result_document(e),
    ]
}

proof fn envelope_keys_stand()
    ensures
        forall|i: int| 0 <= i < 8 ==> unescaped(#[trigger] envelope_keys()[i]),
{
    reveal_strlit("schema");
    reveal_strlit("dataset");
    reveal_strlit("contract_source_digest");
    reveal_strlit("compiled_plan_digest");
    reveal_strlit("schema_digest");
    reveal_strlit("engine");
    reveal_strlit("execution");
    reveal_strlit("result");
}

proof fn schema_stands(levels: nat)
    ensures
        document_text(Document::Text("proofframe.evidence.v2"@), levels)
            == "\"proofframe.evidence.v2\""@,
{
    reveal_strlit("proofframe.evidence.v2");
    reveal_strlit("\"proofframe.evidence.v2\"");
    stands_unchanged("proofframe.evidence.v2"@);
    assert(document_text(Document::Text("proofframe.evidence.v2"@), levels)
        =~= "\"proofframe.evidence.v2\""@);
}

/// The JSON text of an envelope is that of a document.
#[verifier::spinoff_prover]
pub proof fn envelopes_are_documents(e: EvidenceV2)
    ensures
        is_document(e.json()),
{
    let (k, v) = (envelope_keys(), envelope_values(e));
    envelope_keys_stand();
    schema_stands(3);
    dataset_stands(e, 3);
    engine_stands(e, 3);
    execution_stands(e, 3);
    result_stands(e, 3);
    assert forall|i: int| 0 <= i < k.len() implies proper_document(#[trigger] v[i], 3) by {}
    object_stands(k, v, 4);
    let t = member_texts(k, v, 3);
    assert(t =~= seq![t[0], t[1], t[2], t[3], t[4], t[5], t[6], t[7]]);
    assert(document_text(Document::Object(paired(k, v)), 4) == e.json());
}

spec fn partition_keys() -> Seq<Seq<char>> {
    seq![
        "index"@,
        "schema_digest"@,
        "contract_source_digest"@,
        "compiled_plan_digest"@,
        "rows"@,
        "fingerprint_version"@,
        "fingerprint_digest"@,
        "result_digest"@,
    ]
}

spec fn partition_values(p: PartitionEvidenceV1) -> Seq<Document> {
    seq![
        Document::Whole(p.index as nat),
        Document::Text(p.schema_digest@),
        Document::Text(p.contract_source_digest@),
        Document::Text(p.compiled_plan_digest@),
        Document::Whole(p.rows as nat),
        version_document(p.fingerprint_version),
        bytes_document(p.fingerprint_digest@),
        Document::Text(p.result_digest@),
    ]
}

#[verifier::opaque]
spec fn partition_document(p: PartitionEvidenceV1) -> Document {
    Document::Object(paired(partition_keys(), partition_values(p)))
}

proof fn partition_keys_stand()
    ensures
        forall|i: int| 0 <= i < 8 ==> unescaped(#[trigger] partition_keys()[i]),
{
    reveal_strlit("index");
    reveal_strlit("schema_digest");
    reveal_strlit("contract_source_digest");
    reveal_strlit("compiled_plan_digest");
    reveal_strlit("rows");
    reveal_strlit("fingerprint_version");
    reveal_strlit("fingerprint_digest");
    reveal_strlit("result_digest");
}

#[verifier::spinoff_prover]
proof fn partition_stands(p: PartitionEvidenceV1, levels: nat)
    requires
        levels > 1,
    ensures
        proper_document(partition_document(p), levels),
        document_text(partition_document(p), levels) == p.json(),
{
    reveal(partition_document);
    let (k, v) = (partition_keys(), partition_values(p));
    let below = (levels - 1) as nat;
    partition_keys_stand();
    version_stands(p.fingerprint_version, below);
    bytes_stand(p.fingerprint_digest@, below);
    assert forall|i: int| 0 <= i < k.len() implies proper_document(#[trigger] v[i], below) by {}
    object_stands(k, v, levels);
    let t = member_texts(k, v, below);
    assert(t =~= seq![t[0], t[1], t[2], t[3], t[4], t[5], t[6], t[7]]);
}

spec fn list_document(partitions: Seq<PartitionEvidenceV1>) -> Document {
    Document::List(Seq::new(partitions.len(), |i: int| partition_document(partitions[i])))
}

proof fn list_stands(partitions: Seq<PartitionEvidenceV1>, levels: nat)
    requires
        levels > 2,
    ensures
        proper_document(list_document(partitions), levels),
        document_text(list_document(partitions), levels) == "["@ + joined(
            partition_texts(partitions),
            ","@,
        ) + "]"@,
{
    let a = Seq::new(partitions.len(), |i: int| partition_document(partitions[i]));
    let below = (levels - 1) as nat;
    assert forall|i: int| 0 <= i < a.len() implies proper_document(#[trigger] a[i], below) by {
        partition_stands(partitions[i], below);
    }
    assert forall|i: int| 0 <= i < a.len() implies #[trigger] document_texts(a, below)[i]
        == partition_texts(partitions)[i] by {
        partition_stands(partitions[i], below);
    }
    assert(document_texts(a, below) =~= partition_texts(partitions));
}

/// The JSON text of the body of a manifest is that of a document.
#[verifier::spinoff_prover]
pub proof fn bodies_are_documents(
    partitions: Seq<PartitionEvidenceV1>,
    global_result_digest: Seq<char>,
    resources: ResourceLimits,
)
    ensures
        is_document(body_text(partitions, global_result_digest, resources)),
{
    let k = seq!["schema"@, "partitions"@, "global_result_digest"@, "resources"@];
    let v = seq![
        Document::Text("proofframe.partition-manifest.v1"@),
        list_document(partitions),
        Document::Text(global_result_digest),
        limits_document(resources),
    ];
    assert(forall|i: int| 0 <= i < k.len() ==> unescaped(#[trigger] k[i])) by {
        reveal_strlit("schema");
        reveal_strlit("partitions");
        reveal_strlit("global_result_digest");
        reveal_strlit("resources");
    }
    manifest_schema_stands(3);
    list_stands(partitions, 3);
    limits_stand(resources, 3);
    assert forall|i: int| 0 <= i < k.len() implies proper_document(#[trigger] v[i], 3) by {}
    object_stands(k, v, 4);
    let t = member_texts(k, v, 3);
    assert(t =~= seq![t[0], t[1], t[2], t[3]]);
    assert(document_text(Document::Object(paired(k, v)), 4) == body_text(
        partitions,
        global_result_digest,
        resources,
    ));
}

proof fn manifest_schema_stands(levels: nat)
    ensures
        document_text(Document::Text("proofframe.partition-manifest.v1"@), levels)
            == "\"proofframe.partition-manifest.v1\""@,
{
    reveal_strlit("proofframe.partition-manifest.v1");
    reveal_strlit("\"proofframe.partition-manifest.v1\"");
    stands_unchanged("proofframe.partition-manifest.v1"@);
    assert(document_text(Document::Text("proofframe.partition-manifest.v1"@), levels)
        =~= "\"proofframe.partition-manifest.v1\""@);
}

/// The JSON text of the result of a partition is that of a document.
#[verifier::spinoff_prover]
pub proof fn results_are_documents(
    index: u64,
    fingerprint: Fingerprint,
    schema_digest: Seq<char>,
    contract_source_digest: Seq<char>,
    compiled_plan_digest: Seq<char>,
)
    ensures
        is_document(
            partition_result_text(
                index,
                fingerprint,
                schema_digest,
                contract_source_digest,
                compiled_plan_digest,
            ),
        ),
{
    let k = seq![
        "index"@,
        "rows"@,
        "fingerprint_version"@,
        "fingerprint_digest"@,
        "schema_digest"@,
        "contract_source_digest"@,
        "compiled_plan_digest"@,
    ];
    let v = seq![
        Document::Whole(index as nat),
        Document::Whole(fingerprint.spec_rows() as nat),
        version_document(fingerprint.spec_version()),
        bytes_document(fingerprint.bytes()),
        Document::Text(schema_digest),
        Document::Text(contract_source_digest),
        Document::Text(compiled_plan_digest),
    ];
    partition_keys_stand();
    assert(forall|i: int| 0 <= i < k.len() ==> unescaped(#[trigger] k[i])) by {
        let p = partition_keys();
        assert(unescaped(p[0]) && unescaped(p[1]) && unescaped(p[2]) && unescaped(p[3]));
        assert(unescaped(p[4]) && unescaped(p[5]) && unescaped(p[6]));
    }
    version_stands(fingerprint.spec_version(), 1);
    bytes_stand(fingerprint.bytes(), 1);
    assert forall|i: int| 0 <= i < k.len() implies proper_document(#[trigger] v[i], 1) by {}
    object_stands(k, v, 2);
    let t = member_texts(k, v, 1);
    assert(t =~= seq![t[0], t[1], t[2], t[3], t[4], t[5], t[6]]);
    assert(document_text(Document::Object(paired(k, v)), 2) == partition_result_text(
        index,
        fingerprint,
        schema_digest,
        contract_source_digest,
        compiled_plan_digest,
    ));
}

} // verus!
