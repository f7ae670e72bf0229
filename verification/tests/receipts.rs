use proofframe::canonical::{digest_json, render, tagged_canonical_digest};
use proofframe::contract::ast::ContractVersion;
use proofframe::contract::json::{Json, JsonNumber};
use proofframe::evidence::partition::{
    bind_partitions, decode_hex, partition_result_digest, PartitionEvidenceV1, PartitionManifestV1,
};
use proofframe::evidence::{
    contract_source_digest, validate_tagged_digest, validation_findings_digest,
    validation_report_digest, DatasetEvidence, EngineEvidence, EvidenceSchema, EvidenceV2,
    ExecutionEvidence, ResultEvidence,
};
use proofframe::fingerprint::{Fingerprint, FingerprintVersion};
use proofframe::receipt::trust::{TrustPolicy, TrustStore};
use proofframe::receipt::{
    decode_key, decode_public_key, decode_signature, generate_keypair_json, keypair_of, sign_json,
    sign_report, sign_v2, timestamp_of, verify_json, verify_json_with_expected_key,
    verify_json_with_policy, verify_v2, version_of_receipt, ReceiptDocument, ReceiptVersion,
};
use proofframe::{ErrorCode, ResourceLimits};

fn number(value: i64) -> Json {
    Json::Number(JsonNumber {
        text: value.to_string(),
        as_i64: Some(value),
        as_u64: u64::try_from(value).ok(),
        as_float64: Some((value as f64).to_bits()),
        as_float32: (value as f32).to_bits(),
    })
}

fn report(value: i64) -> Json {
    Json::Object(vec![("value".to_string(), number(value))])
}

fn private_key() -> String {
    keypair_of(&[5; 32]).private_key
}

#[test]
fn rejects_integers_outside_i_json_safe_range() {
    let private = private_key();
    assert!(sign_json(report(9007199254740992), &private, "1", 0).is_err());
    assert!(sign_json(report(9007199254740991), &private, "1", 0).is_ok());
    assert!(sign_json(report(-9007199254740991), &private, "1", 0).is_ok());
    assert!(sign_json(report(-9007199254740992), &private, "1", 0).is_err());
}

#[test]
fn signed_receipts_verify_and_tampering_fails() {
    for n in [0, 1, -1, 42, 9007199254740989, -9007199254740990] {
        let mut receipt = sign_report(report(n), &private_key(), "9.9.9", 77).unwrap();
        assert!(verify_json(&receipt).unwrap().valid);
        receipt.unsigned.report = report(n + 1);
        let tampered = verify_json(&receipt).unwrap();
        assert!(!tampered.valid);
        assert!(!tampered.report_hash_matches);
    }
}

#[test]
fn other_changes_to_a_receipt_break_its_signature() {
    let mut later = sign_report(report(1), &private_key(), "1", 10).unwrap();
    later.unsigned.issued_at_unix_ms = 11;
    let found = verify_json(&later).unwrap();
    assert!(found.report_hash_matches);
    assert!(!found.signature_valid);
    let mut other = sign_report(report(1), &private_key(), "1", 10).unwrap();
    other.unsigned.public_key = keypair_of(&[6; 32]).public_key;
    assert!(!verify_json(&other).unwrap().valid);
    let mut unknown = sign_report(report(1), &private_key(), "1", 10).unwrap();
    unknown.unsigned.schema = "proofframe.receipt.v9".to_string();
    assert!(!verify_json(&unknown).unwrap().schema_supported);
}

#[test]
fn keys_and_signatures_have_their_lengths() {
    let pair = keypair_of(&[5; 32]);
    assert_eq!(pair.algorithm, "Ed25519");
    assert_eq!(decode_key(&pair.private_key, "private key").unwrap(), [5; 32]);
    assert_ne!(pair.public_key, pair.private_key);
    assert!(decode_key("AAAA", "private key").is_err());
    assert!(decode_key("!", "private key").is_err());
    assert!(decode_public_key(&pair.public_key).is_ok());
    assert!(decode_signature("AAAA").is_err());
    let error = sign_json(report(1), "AAAA", "1", 0).unwrap_err();
    assert_eq!(error.code(), ErrorCode::ReceiptInvalid);
    assert!(generate_keypair_json().unwrap().contains("\"private_key\""));
    assert_ne!(generate_keypair_json().unwrap(), generate_keypair_json().unwrap());
    assert_eq!(timestamp_of(5).unwrap(), 5);
    assert!(timestamp_of(u128::from(u64::MAX) + 1).is_err());
}

const D: &str = "1111111111111111111111111111111111111111111111111111111111111111";

fn tagged(prefix: &str) -> String {
    format!("{}{}", prefix, D)
}

fn evidence() -> EvidenceV2 {
    EvidenceV2 {
        schema: EvidenceSchema::V2,
        dataset: DatasetEvidence {
            fingerprint_version: FingerprintVersion::V2,
            fingerprint_digest: [3; 32],
            rows: 4,
        },
        contract_source_digest: tagged("pf-contract-v2:"),
        compiled_plan_digest: tagged("pf-plan-v2:"),
        schema_digest: tagged("pf-schema-v1:"),
        engine: EngineEvidence { name: "proofframe".to_string(), version: "1".to_string() },
        execution: ExecutionEvidence {
            operation: "check".to_string(),
            resources: ResourceLimits::default(),
        },
        result: ResultEvidence {
            valid: true,
            violation_count: 0,
            output_records: 0,
            truncated: false,
            result_digest: tagged("pf-result-v1:"),
            report_digest: tagged("pf-report-v1:"),
            findings_digest: tagged("pf-findings-v1:"),
            metrics_digest: tagged("pf-metrics-v1:"),
        },
    }
}

#[test]
fn evidence_is_signed_and_verified() {
    assert!(evidence().validate().is_ok());
    let receipt = sign_v2(evidence(), &[5; 32], "1", 10).unwrap();
    let found = verify_v2(&receipt, &TrustPolicy::SignatureOnly).unwrap();
    assert!(found.signature_valid);
    assert!(found.report_hash_matches);
    assert!(found.intact());
    assert!(!found.signer_trusted);
    let key = decode_public_key(&keypair_of(&[5; 32]).public_key).unwrap();
    let expected = verify_v2(&receipt, &TrustPolicy::ExpectedKey(key)).unwrap();
    assert!(expected.valid);
    let mut store = TrustStore::new();
    assert!(store.insert(key));
    assert!(!store.insert(key));
    assert!(verify_v2(&receipt, &TrustPolicy::TrustStore(store)).unwrap().valid);
    let stranger = verify_v2(&receipt, &TrustPolicy::TrustStore(TrustStore::new())).unwrap();
    assert!(!stranger.signer_trusted);
    assert!(!stranger.valid);
}

#[test]
fn altered_evidence_is_not_intact() {
    let mut receipt = sign_v2(evidence(), &[5; 32], "1", 10).unwrap();
    receipt.unsigned.evidence.dataset.rows = 5;
    let found = verify_v2(&receipt, &TrustPolicy::SignatureOnly).unwrap();
    assert!(!found.valid);
    assert!(!found.intact());
    assert_ne!(evidence().digest().unwrap(), receipt.unsigned.evidence.digest().unwrap());
}

#[test]
fn inconsistent_evidence_is_refused() {
    let mut wrong = evidence();
    wrong.result.violation_count = 1;
    assert!(wrong.validate().is_err());
    let mut tag = evidence();
    tag.schema_digest = tagged("pf-plan-v2:");
    assert!(tag.validate().is_err());
    let mut engine = evidence();
    engine.engine.name = String::new();
    assert!(engine.validate().is_err());
    assert!(validate_tagged_digest(&tagged("x:"), "x:", "label").is_ok());
    assert!(validate_tagged_digest("x:11", "x:", "label").is_err());
}

#[test]
fn receipts_are_told_apart_by_their_schema() {
    let of = |schema: &str| {
        version_of_receipt(&Json::Object(vec![(
            "schema".to_string(),
            Json::Text(schema.to_string()),
        )]))
    };
    assert_eq!(of("proofframe.receipt.v1"), ReceiptVersion::V1);
    assert_eq!(of("proofframe.receipt.v2"), ReceiptVersion::V2);
    assert_eq!(of("proofframe.receipt.v3"), ReceiptVersion::Unsupported);
    let unknown =
        verify_json_with_policy(&ReceiptDocument::Unsupported, &TrustPolicy::SignatureOnly);
    if let Ok(found) = unknown {
        assert!(!found.schema_supported);
        assert!(!found.valid);
    }
    let pair = keypair_of(&[5; 32]);
    let legacy = sign_report(report(1), &pair.private_key, "1", 10).unwrap();
    let found =
        verify_json_with_expected_key(&ReceiptDocument::V1(legacy), Some(&pair.public_key)).unwrap();
    assert!(found.legacy);
    assert!(found.signer_trusted);
    let other = keypair_of(&[6; 32]);
    let legacy = sign_report(report(1), &pair.private_key, "1", 10).unwrap();
    let found =
        verify_json_with_expected_key(&ReceiptDocument::V1(legacy), Some(&other.public_key)).unwrap();
    assert!(!found.valid);
}

#[test]
fn canonical_digests_ignore_the_order_of_members() {
    let one = digest_json("domain", "{\"a\":1,\"b\":[true,null]}").unwrap();
    let two = digest_json("domain", "{ \"b\" : [true, null], \"a\" : 1 }").unwrap();
    let other = digest_json("other", "{\"a\":1,\"b\":[true,null]}").unwrap();
    assert_eq!(one, two);
    assert_ne!(one, other);
    assert!(digest_json("domain", "{").is_err());
    let tagged = tagged_canonical_digest("pf-x:", "domain", "{}").unwrap();
    assert_eq!(tagged.len(), 5 + 64);
    assert!(tagged.starts_with("pf-x:"));
    let text = render(&Json::Array(vec![
        Json::Null,
        Json::Bool(true),
        number(-3),
        Json::Text("a\"\n\u{1}\\".to_string()),
    ]));
    assert_eq!(text, "[null,true,-3,\"a\\\"\\n\\u0001\\\\\"]");
}

#[test]
fn contract_sources_have_one_digest() {
    let one = contract_source_digest("{\"a\":1,\"b\":2}", ContractVersion::V2).unwrap();
    let two = contract_source_digest("{\"b\":2,\"a\":1}", ContractVersion::V2).unwrap();
    assert_eq!(one, two);
    assert!(one.starts_with("pf-contract-v2:"));
    let first = contract_source_digest("{\"a\":1,\"b\":2}", ContractVersion::V1).unwrap();
    assert_ne!(one, first);
    assert!(contract_source_digest("[", ContractVersion::V1).is_err());
}

#[test]
fn report_parts_have_their_digests() {
    let report = Json::Object(vec![
        ("valid".to_string(), Json::Bool(true)),
        ("findings".to_string(), Json::Array(vec![])),
    ]);
    assert!(validation_report_digest(&report).unwrap().starts_with("pf-report-v1:"));
    assert!(validation_findings_digest(&report).unwrap().starts_with("pf-findings-v1:"));
    let none = Json::Object(vec![]);
    assert!(validation_findings_digest(&none).is_err());
}

fn partition(index: u64, rows: u64) -> PartitionEvidenceV1 {
    let print = Fingerprint::new(FingerprintVersion::V2, [index as u8; 32], rows);
    let result_digest = partition_result_digest(
        index,
        &print,
        &tagged("pf-schema-v1:"),
        &tagged("pf-contract-v2:"),
        &tagged("pf-plan-v2:"),
    )
    .unwrap();
    PartitionEvidenceV1 {
        index,
        schema_digest: tagged("pf-schema-v1:"),
        contract_source_digest: tagged("pf-contract-v2:"),
        compiled_plan_digest: tagged("pf-plan-v2:"),
        rows,
        fingerprint_version: FingerprintVersion::V2,
        fingerprint_digest: [index as u8; 32],
        result_digest,
    }
}

#[test]
fn manifests_bind_their_partitions() {
    let manifest = PartitionManifestV1::new(
        vec![partition(0, 1), partition(1, 2)],
        tagged("pf-result-v1:"),
        ResourceLimits::default(),
    )
    .unwrap();
    assert!(manifest.validate().is_ok());
    let mut moved = PartitionManifestV1::new(
        vec![partition(0, 1), partition(1, 2)],
        tagged("pf-result-v1:"),
        ResourceLimits::default(),
    )
    .unwrap();
    assert_eq!(moved.root_digest, manifest.root_digest);
    moved.partitions[0].rows = 9;
    assert!(moved.validate().is_err());
    let gap = PartitionManifestV1::new(
        vec![partition(0, 1), partition(2, 2)],
        tagged("pf-result-v1:"),
        ResourceLimits::default(),
    );
    assert!(gap.is_err());
    assert_eq!(decode_hex('f').unwrap(), 15);
    assert!(decode_hex('g').is_err());
}

#[test]
fn digests_of_evidence_follow_its_content() {
    assert_eq!(evidence().digest().unwrap(), evidence().digest().unwrap());
    let mut other = evidence();
    other.dataset.fingerprint_digest = [4; 32];
    assert_ne!(other.digest().unwrap(), evidence().digest().unwrap());
    let mut broken = evidence();
    broken.engine.name = String::new();
    assert!(broken.digest().is_err());
}

#[test]
fn partitions_are_bound_in_order() {
    let print = |index: u8| Fingerprint::new(FingerprintVersion::V2, [index; 32], 5);
    let bind = |prints: Vec<Option<Fingerprint>>| {
        bind_partitions(
            &prints,
            &tagged("pf-schema-v1:"),
            &tagged("pf-contract-v2:"),
            &tagged("pf-plan-v2:"),
        )
    };
    let bound = bind(vec![Some(print(0)), Some(print(1))]).unwrap();
    assert_eq!(bound.len(), 2);
    assert_eq!((bound[1].index, bound[1].rows), (1, 5));
    assert_eq!(bound[1].fingerprint_digest, [1; 32]);
    assert_eq!(bound[1].result_digest, partition(1, 5).result_digest);
    let missing = bind(vec![Some(print(0)), None]).err().unwrap();
    assert_eq!(missing.code(), ErrorCode::CorruptPartition);
    assert!(missing.to_message().contains("partition fingerprint 1 was not finalized"));
    let manifest =
        PartitionManifestV1::new(bound, tagged("pf-result-v1:"), ResourceLimits::default());
    assert!(manifest.unwrap().validate().is_ok());
}

#[test]
fn whatever_changes_in_a_manifest_changes_its_root() {
    let root = |rows: u64, result: &str, max_samples: usize| {
        PartitionManifestV1::new(
            vec![partition(0, 1), partition(1, rows)],
            result.to_string(),
            ResourceLimits { max_samples, ..ResourceLimits::default() },
        )
        .unwrap()
        .root_digest
    };
    let result = tagged("pf-result-v1:");
    let other = result.replace("11", "12");
    let plain = root(2, &result, 10);
    assert_eq!(plain, root(2, &result, 10));
    assert_ne!(plain, root(3, &result, 10));
    assert_ne!(plain, root(2, &other, 10));
    assert_ne!(plain, root(2, &result, 11));
}

#[test]
fn every_valid_envelope_has_a_digest() {
    let mut large = evidence();
    large.dataset.rows = u64::MAX;
    large.execution.resources = ResourceLimits {
        max_memory_bytes: u64::MAX,
        max_temp_bytes: u64::MAX,
        max_output_records: u64::MAX,
        max_samples: usize::MAX,
    };
    assert!(large.validate().is_ok());
    assert!(large.digest().is_ok());
    let mut odd = evidence();
    odd.engine.version = "a\u{1}\u{8}\t\n\u{c}\r\"\\/\u{7f}\u{2028}\u{1f600}".to_string();
    assert!(odd.validate().is_ok());
    assert!(odd.digest().is_ok());
    assert_ne!(odd.digest().unwrap(), evidence().digest().unwrap());
    let many = PartitionManifestV1::new(
        (0..300).map(|i| partition(i, u64::MAX)).collect(),
        tagged("pf-result-v1:"),
        ResourceLimits::default(),
    );
    assert!(many.unwrap().digest().is_ok());
}
