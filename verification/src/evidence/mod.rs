//! Versioned evidence envelopes that bind claims about data, execution and results.

pub mod apart;
pub mod claims;
pub mod documents;
pub mod partition;

use crate::canonical::{
    bool_of, bool_text, bytes_of, bytes_text, canonical_digest, canonical_form, digest_json,
    json_text, member_of, member_text, object_of, object_text, render, tagged_canonical_digest,
};
use crate::contract::ast::{or_error, outcome, ContractVersion};
use crate::contract::json::{json_quoted, json_string, Json};
use crate::digest::{blake3_digest, hex, is_tagged_digest, tagged_digest, tagged_hex};
use crate::error::{ErrorView, ProofFrameError};
use crate::evidence::documents::envelopes_are_documents;
use crate::fingerprint::FingerprintVersion;
use crate::numbers::{blank, is_blank};
use crate::resource::ResourceLimits;
use crate::text::{cat3, decimal, decimal_u64, str_eq, strip_prefix, text, texts, utf8};
use vstd::prelude::*;
use vstd::string::*;

verus! {

/// The schema of an evidence envelope.
#[derive(Debug, Clone, Copy, PartialEq, Eq, Structural)]
pub enum EvidenceSchema {
    V2,
}

/// The dataset that was read.
#[derive(Debug)]
pub struct DatasetEvidence {
    pub fingerprint_version: FingerprintVersion,
    pub fingerprint_digest: [u8; 32],
    pub rows: u64,
}

/// The engine that made the evidence.
#[derive(Debug)]
pub struct EngineEvidence {
    pub name: String,
    pub version: String,
}

/// The operation, and the limits that it ran under.
#[derive(Debug)]
pub struct ExecutionEvidence {
    pub operation: String,
    pub resources: ResourceLimits,
}

/// The result of a validation.
#[derive(Debug)]
pub struct ResultEvidence {
    pub valid: bool,
    pub violation_count: u64,
    pub output_records: u64,
    pub truncated: bool,
    pub result_digest: String,
    pub report_digest: String,
    pub findings_digest: String,
    pub metrics_digest: String,
}

/// An evidence envelope.
#[derive(Debug)]
pub struct EvidenceV2 {
    pub schema: EvidenceSchema,
    pub dataset: DatasetEvidence,
    pub contract_source_digest: String,
    pub compiled_plan_digest: String,
    pub schema_digest: String,
    pub engine: EngineEvidence,
    pub execution: ExecutionEvidence,
    pub result: ResultEvidence,
}

/// The name of a fingerprint's version in JSON.
pub open spec fn version_text(version: FingerprintVersion) -> Seq<char> {
    match version {
        FingerprintVersion::V1 => "\"v1\""@,
        FingerprintVersion::V2 => "\"v2\""@,
    }
}

/// The name of a fingerprint's version in JSON.
pub fn version_of(version: FingerprintVersion) -> (r: &'static str)
    ensures
        r@ == version_text(version),
{
    match version {
        FingerprintVersion::V1 => "\"v1\"",
        FingerprintVersion::V2 => "\"v2\"",
    }
}

/// Limits as a JSON object.
pub open spec fn limits_text(limits: ResourceLimits) -> Seq<char> {
    object_text(
        seq![
            member_text("max_memory_bytes"@, decimal(limits.max_memory_bytes as nat)),
            member_text("max_temp_bytes"@, decimal(limits.max_temp_bytes as nat)),
            member_text("max_output_records"@, decimal(limits.max_output_records as nat)),
            member_text("max_samples"@, decimal(limits.max_samples as nat)),
        ],
    )
}

/// Limits as a JSON object.
pub fn limits_of(limits: &ResourceLimits) -> (r: String)
    ensures
        r@ == limits_text(*limits),
{
    let memory = decimal_u64(limits.max_memory_bytes);
    let temp = decimal_u64(limits.max_temp_bytes);
    let records = decimal_u64(limits.max_output_records);
    let samples = decimal_u64(limits.max_samples as u64);
    let mut parts: Vec<String> = Vec::new();
    parts.push(member_of("max_memory_bytes", memory.as_str()));
    parts.push(member_of("max_temp_bytes", temp.as_str()));
    parts.push(member_of("max_output_records", records.as_str()));
    parts.push(member_of("max_samples", samples.as_str()));
    assert(texts(parts@) =~= seq![
        member_text("max_memory_bytes"@, decimal(limits.max_memory_bytes as nat)),
        member_text("max_temp_bytes"@, decimal(limits.max_temp_bytes as nat)),
        member_text("max_output_records"@, decimal(limits.max_output_records as nat)),
        member_text("max_samples"@, decimal(limits.max_samples as nat)),
    ]);
    object_of(&parts)
}

/// The error of a text that is no digest behind one tag.
pub open spec fn digest_error(
    value: Seq<char>,
    prefix: Seq<char>,
    label: Seq<char>,
) -> Option<ErrorView> {
    if !prefix.is_prefix_of(value) {
        Some(
            ErrorView::InvalidReceipt("Evidence "@ + label + " digest has the wrong prefix"@),
        )
    } else if !tagged_digest(value, prefix) {
        Some(
            ErrorView::InvalidReceipt(
                "Evidence "@ + label
                    + " digest must contain 64 lowercase hexadecimal characters"@,
            ),
        )
    } else {
        None
    }
}

/// Holds a text to be a digest behind one tag.
pub fn validate_tagged_digest(value: &str, prefix: &str, label: &str) -> (r: Result<
    (),
    ProofFrameError,
>)
    ensures
        outcome(r, digest_error(value@, prefix@, label@)),
{
    if strip_prefix(value, prefix).is_none() {
        return Err(
            ProofFrameError::InvalidReceipt(
                cat3("Evidence ", label, " digest has the wrong prefix"),
            ),
        );
    }
    if !is_tagged_digest(value, prefix) {
        return Err(
            ProofFrameError::InvalidReceipt(
                cat3(
                    "Evidence ",
                    label,
                    " digest must contain 64 lowercase hexadecimal characters",
                ),
            ),
        );
    }
    Ok(())
}

/// The error of a text that is no digest behind either of two tags.
pub open spec fn digest_error_any(
    value: Seq<char>,
    one: Seq<char>,
    other: Seq<char>,
    label: Seq<char>,
) -> Option<ErrorView> {
    if tagged_digest(value, one) || tagged_digest(value, other) {
        None
    } else {
        Some(
            ErrorView::InvalidReceipt(
                "Evidence "@ + label + " digest has an unsupported prefix or malformed digest"@,
            ),
        )
    }
}

/// Holds a text to be a digest behind either of two tags.
pub fn validate_tagged_digest_any(value: &str, one: &str, other: &str, label: &str) -> (r: Result<
    (),
    ProofFrameError,
>)
    ensures
        outcome(r, digest_error_any(value@, one@, other@, label@)),
{
    if is_tagged_digest(value, one) || is_tagged_digest(value, other) {
        Ok(())
    } else {
        Err(
            ProofFrameError::InvalidReceipt(
                cat3(
                    "Evidence ",
                    label,
                    " digest has an unsupported prefix or malformed digest",
                ),
            ),
        )
    }
}

/// The tag and the hash domain of a contract's source.
pub open spec fn source_tags(version: ContractVersion) -> (Seq<char>, Seq<char>) {
    match version {
        ContractVersion::V1 => ("pf-contract-v1:"@, "proofframe:contract-source:v1\0"@),
        ContractVersion::V2 => ("pf-contract-v2:"@, "proofframe:contract-source:v2\0"@),
    }
}

/// The digest of a contract's canonical source, apart from its compiled plan. The
/// version is the one of the document that the source was read into.
pub fn contract_source_digest(source: &str, version: ContractVersion) -> (r: Result<
    String,
    ProofFrameError,
>)
    ensures
        match canonical_digest(source_tags(version).1, source@) {
            Ok(d) => r matches Ok(s) && s@ == source_tags(version).0 + hex(d),
            Err(t) => r matches Err(e) && e@ == ErrorView::InvalidContract(t),
        },
{
    let (prefix, domain) = match version {
        ContractVersion::V1 => ("pf-contract-v1:", "proofframe:contract-source:v1\0"),
        ContractVersion::V2 => ("pf-contract-v2:", "proofframe:contract-source:v2\0"),
    };
    match digest_json(domain, source) {
        Ok(d) => Ok(tagged_hex(prefix, d.as_slice())),
        Err(e) => Err(ProofFrameError::InvalidContract(e)),
    }
}

/// The error of a report without a field.
pub open spec fn missing_field(field: Seq<char>) -> ErrorView {
    ErrorView::InvalidReceipt("Validation report is missing `"@ + field + "`"@)
}

/// A field of a validation report.
pub fn required_report_field<'a>(report: &'a Json, field: &str) -> (r: Result<
    &'a Json,
    ProofFrameError,
>)
    ensures
        match report.spec_field(field@) {
            Some(v) => r matches Ok(x) && *x == v,
            None => r matches Err(e) && e@ == missing_field(field@),
        },
{
    match report.field(field) {
        Some(v) => Ok(v),
        None => Err(
            ProofFrameError::InvalidReceipt(
                cat3("Validation report is missing `", field, "`"),
            ),
        ),
    }
}

/// The number of the findings that a report holds, if it holds a list of them.
pub open spec fn findings_len(report: Json) -> Option<nat> {
    match report.spec_field("findings"@) {
        Some(Json::Array(a)) => Some(a@.len()),
        _ => None,
    }
}

/// The summary of a report.
pub open spec fn summary_text(valid: Json, count: Json, truncated: Json, records: nat) -> Seq<char> {
    object_text(
        seq![
            member_text("valid"@, json_text(valid)),
            member_text("violation_count"@, json_text(count)),
            member_text("truncated"@, json_text(truncated)),
            member_text("output_records"@, decimal(records)),
        ],
    )
}

/// A tagged digest, or the error of the canonical form.
pub open spec fn tagged(prefix: Seq<char>, domain: Seq<char>, json: Seq<char>) -> Result<
    Seq<char>,
    ErrorView,
> {
    match canonical_digest(domain, json) {
        Ok(d) => Ok(prefix + hex(d)),
        Err(t) => Err(ErrorView::InvalidReceipt(t)),
    }
}

/// The identity of a report's result.
pub open spec fn result_identity(report: Json) -> Result<Seq<char>, ErrorView> {
    if findings_len(report) is None {
        Err(missing_field("findings"@))
    } else if report.spec_field("valid"@) is None {
        Err(missing_field("valid"@))
    } else if report.spec_field("violation_count"@) is None {
        Err(missing_field("violation_count"@))
    } else if report.spec_field("truncated"@) is None {
        Err(missing_field("truncated"@))
    } else {
        tagged(
            "pf-result-v1:"@,
            "proofframe:validation-result:v1\0"@,
            summary_text(
                report.spec_field("valid"@).unwrap(),
                report.spec_field("violation_count"@).unwrap(),
                report.spec_field("truncated"@).unwrap(),
                findings_len(report).unwrap(),
            ),
        )
    }
}

/// Whether a result is a text, or an error.
pub open spec fn gives(r: Result<String, ProofFrameError>, wanted: Result<Seq<char>, ErrorView>) -> bool {
    match wanted {
        Ok(t) => r matches Ok(s) && s@ == t,
        Err(v) => r matches Err(e) && e@ == v,
    }
}

/// Binds a validation report to one versioned result identity.
pub fn validation_result_digest(report: &Json) -> (r: Result<String, ProofFrameError>)
    ensures
        gives(r, result_identity(*report)),
{
    let records: u64 = match report.field("findings") {
        Some(Json::Array(a)) => a.len() as u64,
        _ => {
            return Err(
                ProofFrameError::InvalidReceipt(
                    cat3("Validation report is missing `", "findings", "`"),
                ),
            );
        },
    };
    let valid = required_report_field(report, "valid")?;
    let count = required_report_field(report, "violation_count")?;
    let truncated = required_report_field(report, "truncated")?;
    let valid_text = render(valid);
    let count_text = render(count);
    let truncated_text = render(truncated);
    let records_text = decimal_u64(records);
    let mut parts: Vec<String> = Vec::new();
    parts.push(member_of("valid", valid_text.as_str()));
    parts.push(member_of("violation_count", count_text.as_str()));
    parts.push(member_of("truncated", truncated_text.as_str()));
    parts.push(member_of("output_records", records_text.as_str()));
    assert(texts(parts@) =~= seq![
        member_text("valid"@, json_text(*valid)),
        member_text("violation_count"@, json_text(*count)),
        member_text("truncated"@, json_text(*truncated)),
        member_text("output_records"@, decimal(records as nat)),
    ]);
    let summary = object_of(&parts);
    tagged_canonical_digest("pf-result-v1:", "proofframe:validation-result:v1\0", summary.as_str())
}

/// Binds a complete validation report, with its metrics and digests.
pub fn validation_report_digest(report: &Json) -> (r: Result<String, ProofFrameError>)
    ensures
        gives(
            r,
            tagged("pf-report-v1:"@, "proofframe:validation-report:v1\0"@, json_text(*report)),
        ),
{
    let whole = render(report);
    tagged_canonical_digest("pf-report-v1:", "proofframe:validation-report:v1\0", whole.as_str())
}

/// The identity of one field of a report.
pub open spec fn field_identity(
    report: Json,
    field: Seq<char>,
    prefix: Seq<char>,
    domain: Seq<char>,
) -> Result<Seq<char>, ErrorView> {
    match report.spec_field(field) {
        Some(v) => tagged(prefix, domain, json_text(v)),
        None => Err(missing_field(field)),
    }
}

/// Binds the findings that a report retains, in their order.
pub fn validation_findings_digest(report: &Json) -> (r: Result<String, ProofFrameError>)
    ensures
        gives(
            r,
            field_identity(
                *report,
                "findings"@,
                "pf-findings-v1:"@,
                "proofframe:validation-findings:v1\0"@,
            ),
        ),
{
    let findings = required_report_field(report, "findings")?;
    let shown = render(findings);
    tagged_canonical_digest(
        "pf-findings-v1:",
        "proofframe:validation-findings:v1\0",
        shown.as_str(),
    )
}

/// Binds the measurements of a report.
pub fn validation_metrics_digest(report: &Json) -> (r: Result<String, ProofFrameError>)
    ensures
        gives(
            r,
            field_identity(
                *report,
                "metrics"@,
                "pf-metrics-v1:"@,
                "proofframe:validation-metrics:v1\0"@,
            ),
        ),
{
    let metrics = required_report_field(report, "metrics")?;
    let shown = render(metrics);
    tagged_canonical_digest(
        "pf-metrics-v1:",
        "proofframe:validation-metrics:v1\0",
        shown.as_str(),
    )
}

impl EvidenceV2 {
    /// The error of the digests of an envelope.
    pub open spec fn digests_error(self) -> Option<ErrorView> {
        or_error(
            digest_error_any(
                self.contract_source_digest@,
                "pf-contract-v1:"@,
                "pf-contract-v2:"@,
                "contract source"@,
            ),
            or_error(
                digest_error_any(
                    self.compiled_plan_digest@,
                    "pf-plan-v1:"@,
                    "pf-plan-v2:"@,
                    "compiled plan"@,
                ),
                or_error(
                    digest_error(self.schema_digest@, "pf-schema-v1:"@, "schema"@),
                    or_error(
                        digest_error(
                            self.result.result_digest@,
                            "pf-result-v1:"@,
                            "validation result"@,
                        ),
                        or_error(
                            digest_error(
                                self.result.report_digest@,
                                "pf-report-v1:"@,
                                "validation report"@,
                            ),
                            or_error(
                                digest_error(
                                    self.result.findings_digest@,
                                    "pf-findings-v1:"@,
                                    "validation findings"@,
                                ),
                                digest_error(
                                    self.result.metrics_digest@,
                                    "pf-metrics-v1:"@,
                                    "validation metrics"@,
                                ),
                            ),
                        ),
                    ),
                ),
            ),
        )
    }

    /// The error of the claims of an envelope about its result.
    pub open spec fn claims_error(self) -> Option<ErrorView> {
        if self.engine.name@ != "proofframe"@ || blank(self.engine.version@) {
            Some(
                ErrorView::InvalidReceipt(
                    "Evidence engine must be `proofframe` with a non-empty version"@,
                ),
            )
        } else if self.execution.operation@ != "check"@ {
            Some(ErrorView::InvalidReceipt("V2 evidence supports only the `check` operation"@))
        } else if self.result.valid != (self.result.violation_count == 0) {
            Some(
                ErrorView::InvalidReceipt("Evidence validity must equal a zero violation count"@),
            )
        } else if self.result.output_records > self.result.violation_count {
            Some(
                ErrorView::InvalidReceipt("Evidence output records exceed the violation count"@),
            )
        } else if self.result.output_records > self.execution.resources.max_samples {
            Some(
                ErrorView::InvalidReceipt(
                    "Evidence output records exceed the configured sample limit"@,
                ),
            )
        } else if self.result.truncated != (self.result.output_records
            < self.result.violation_count) {
            Some(
                ErrorView::InvalidReceipt(
                    "Evidence truncation does not match retained output records"@,
                ),
            )
        } else {
            None
        }
    }

    /// The first error of an envelope.
    pub open spec fn evidence_error(self) -> Option<ErrorView> {
        if self.dataset.fingerprint_version != FingerprintVersion::V2 {
            Some(ErrorView::InvalidReceipt("V2 evidence requires the V2 dataset fingerprint"@))
        } else {
            or_error(self.digests_error(), self.claims_error())
        }
    }

    fn validate_digests(&self) -> (r: Result<(), ProofFrameError>)
        ensures
            outcome(r, self.digests_error()),
    {
        validate_tagged_digest_any(
            self.contract_source_digest.as_str(),
            "pf-contract-v1:",
            "pf-contract-v2:",
            "contract source",
        )?;
        validate_tagged_digest_any(
            self.compiled_plan_digest.as_str(),
            "pf-plan-v1:",
            "pf-plan-v2:",
            "compiled plan",
        )?;
        validate_tagged_digest(self.schema_digest.as_str(), "pf-schema-v1:", "schema")?;
        validate_tagged_digest(
            self.result.result_digest.as_str(),
            "pf-result-v1:",
            "validation result",
        )?;
        validate_tagged_digest(
            self.result.report_digest.as_str(),
            "pf-report-v1:",
            "validation report",
        )?;
        validate_tagged_digest(
            self.result.findings_digest.as_str(),
            "pf-findings-v1:",
            "validation findings",
        )?;
        validate_tagged_digest(
            self.result.metrics_digest.as_str(),
            "pf-metrics-v1:",
            "validation metrics",
        )
    }

    /// Rejects an envelope whose claims are inconsistent.
    pub fn validate(&self) -> (r: Result<(), ProofFrameError>)
        ensures
            outcome(r, self.evidence_error()),
    {
        if self.dataset.fingerprint_version != FingerprintVersion::V2 {
            return invalid("V2 evidence requires the V2 dataset fingerprint");
        }
        self.validate_digests()?;
        if !str_eq(self.engine.name.as_str(), "proofframe") || is_blank(
            self.engine.version.as_str(),
        ) {
            return invalid("Evidence engine must be `proofframe` with a non-empty version");
        }
        if !str_eq(self.execution.operation.as_str(), "check") {
            return invalid("V2 evidence supports only the `check` operation");
        }
        if self.result.valid != (self.result.violation_count == 0) {
            return invalid("Evidence validity must equal a zero violation count");
        }
        if self.result.output_records > self.result.violation_count {
            return invalid("Evidence output records exceed the violation count");
        }
        if self.result.output_records > self.execution.resources.max_samples as u64 {
            return invalid("Evidence output records exceed the configured sample limit");
        }
        if self.result.truncated != (self.result.output_records < self.result.violation_count) {
            return invalid("Evidence truncation does not match retained output records");
        }
        Ok(())
    }

    /// The dataset of an envelope in JSON.
    pub open spec fn dataset_text(self) -> Seq<char> {
        object_text(
            seq![
                member_text(
                    "fingerprint_version"@,
                    version_text(self.dataset.fingerprint_version),
                ),
                member_text("fingerprint_digest"@, bytes_text(self.dataset.fingerprint_digest@)),
                member_text("rows"@, decimal(self.dataset.rows as nat)),
            ],
        )
    }

    /// The engine of an envelope in JSON.
    pub open spec fn engine_text(self) -> Seq<char> {
        object_text(
            seq![
                member_text("name"@, json_quoted(self.engine.name@)),
                member_text("version"@, json_quoted(self.engine.version@)),
            ],
        )
    }

    /// The execution of an envelope in JSON.
    pub open spec fn execution_text(self) -> Seq<char> {
        object_text(
            seq![
                member_text("operation"@, json_quoted(self.execution.operation@)),
                member_text("resources"@, limits_text(self.execution.resources)),
            ],
        )
    }

    /// The result of an envelope in JSON.
    pub open spec fn result_text(self) -> Seq<char> {
        object_text(
            seq![
                member_text("valid"@, bool_text(self.result.valid)),
                member_text("violation_count"@, decimal(self.result.violation_count as nat)),
                member_text("output_records"@, decimal(self.result.output_records as nat)),
                member_text("truncated"@, bool_text(self.result.truncated)),
                member_text("result_digest"@, json_quoted(self.result.result_digest@)),
                member_text("report_digest"@, json_quoted(self.result.report_digest@)),
                member_text("findings_digest"@, json_quoted(self.result.findings_digest@)),
                member_text("metrics_digest"@, json_quoted(self.result.metrics_digest@)),
            ],
        )
    }

    /// An envelope in JSON.
    pub open spec fn json(self) -> Seq<char> {
        object_text(
            seq![
                member_text("schema"@, "\"proofframe.evidence.v2\""@),
                member_text("dataset"@, self.dataset_text()),
                member_text("contract_source_digest"@, json_quoted(self.contract_source_digest@)),
                member_text("compiled_plan_digest"@, json_quoted(self.compiled_plan_digest@)),
                member_text("schema_digest"@, json_quoted(self.schema_digest@)),
                member_text("engine"@, self.engine_text()),
                member_text("execution"@, self.execution_text()),
                member_text("result"@, self.result_text()),
            ],
        )
    }

    /// The dataset of an envelope in JSON.
    fn dataset_json(&self) -> (r: String)
        ensures
            r@ == self.dataset_text(),
    {
        let bytes = bytes_of(self.dataset.fingerprint_digest.as_slice());
        let rows = decimal_u64(self.dataset.rows);
        let mut parts: Vec<String> = Vec::new();
        parts.push(
            member_of("fingerprint_version", version_of(self.dataset.fingerprint_version)),
        );
        parts.push(member_of("fingerprint_digest", bytes.as_str()));
        parts.push(member_of("rows", rows.as_str()));
        assert(texts(parts@) =~= seq![
            member_text("fingerprint_version"@, version_text(self.dataset.fingerprint_version)),
            member_text("fingerprint_digest"@, bytes_text(self.dataset.fingerprint_digest@)),
            member_text("rows"@, decimal(self.dataset.rows as nat)),
        ]);
        object_of(&parts)
    }

    /// The engine of an envelope in JSON.
    fn engine_json(&self) -> (r: String)
        ensures
            r@ == self.engine_text(),
    {
        let name = json_string(self.engine.name.as_str());
        let version = json_string(self.engine.version.as_str());
        let mut parts: Vec<String> = Vec::new();
        parts.push(member_of("name", name.as_str()));
        parts.push(member_of("version", version.as_str()));
        assert(texts(parts@) =~= seq![
            member_text("name"@, json_quoted(self.engine.name@)),
            member_text("version"@, json_quoted(self.engine.version@)),
        ]);
        object_of(&parts)
    }

    /// The execution of an envelope in JSON.
    fn execution_json(&self) -> (r: String)
        ensures
            r@ == self.execution_text(),
    {
        let operation = json_string(self.execution.operation.as_str());
        let resources = limits_of(&self.execution.resources);
        let mut parts: Vec<String> = Vec::new();
        parts.push(member_of("operation", operation.as_str()));
        parts.push(member_of("resources", resources.as_str()));
        assert(texts(parts@) =~= seq![
            member_text("operation"@, json_quoted(self.execution.operation@)),
            member_text("resources"@, limits_text(self.execution.resources)),
        ]);
        object_of(&parts)
    }

    /// The result of an envelope in JSON.
    fn result_json(&self) -> (r: String)
        ensures
            r@ == self.result_text(),
    {
        let count = decimal_u64(self.result.violation_count);
        let records = decimal_u64(self.result.output_records);
        let result = json_string(self.result.result_digest.as_str());
        let report = json_string(self.result.report_digest.as_str());
        let findings = json_string(self.result.findings_digest.as_str());
        let metrics = json_string(self.result.metrics_digest.as_str());
        let mut parts: Vec<String> = Vec::new();
        parts.push(member_of("valid", bool_of(self.result.valid)));
        parts.push(member_of("violation_count", count.as_str()));
        parts.push(member_of("output_records", records.as_str()));
        parts.push(member_of("truncated", bool_of(self.result.truncated)));
        parts.push(member_of("result_digest", result.as_str()));
        parts.push(member_of("report_digest", report.as_str()));
        parts.push(member_of("findings_digest", findings.as_str()));
        parts.push(member_of("metrics_digest", metrics.as_str()));
        assert(texts(parts@) =~= seq![
            member_text("valid"@, bool_text(self.result.valid)),
            member_text("violation_count"@, decimal(self.result.violation_count as nat)),
            member_text("output_records"@, decimal(self.result.output_records as nat)),
            member_text("truncated"@, bool_text(self.result.truncated)),
            member_text("result_digest"@, json_quoted(self.result.result_digest@)),
            member_text("report_digest"@, json_quoted(self.result.report_digest@)),
            member_text("findings_digest"@, json_quoted(self.result.findings_digest@)),
            member_text("metrics_digest"@, json_quoted(self.result.metrics_digest@)),
        ]);
        object_of(&parts)
    }

    /// The envelope as a JSON text.
    pub fn to_json(&self) -> (r: String)
        ensures
            r@ == self.json(),
    {
        let dataset = self.dataset_json();
        let source = json_string(self.contract_source_digest.as_str());
        let plan = json_string(self.compiled_plan_digest.as_str());
        let schema = json_string(self.schema_digest.as_str());
        let engine = self.engine_json();
        let execution = self.execution_json();
        let result = self.result_json();
        let mut parts: Vec<String> = Vec::new();
        parts.push(member_of("schema", "\"proofframe.evidence.v2\""));
        parts.push(member_of("dataset", dataset.as_str()));
        parts.push(member_of("contract_source_digest", source.as_str()));
        parts.push(member_of("compiled_plan_digest", plan.as_str()));
        parts.push(member_of("schema_digest", schema.as_str()));
        parts.push(member_of("engine", engine.as_str()));
        parts.push(member_of("execution", execution.as_str()));
        parts.push(member_of("result", result.as_str()));
        assert(texts(parts@) =~= seq![
            member_text("schema"@, "\"proofframe.evidence.v2\""@),
            member_text("dataset"@, self.dataset_text()),
            member_text("contract_source_digest"@, json_quoted(self.contract_source_digest@)),
            member_text("compiled_plan_digest"@, json_quoted(self.compiled_plan_digest@)),
            member_text("schema_digest"@, json_quoted(self.schema_digest@)),
            member_text("engine"@, self.engine_text()),
            member_text("execution"@, self.execution_text()),
            member_text("result"@, self.result_text()),
        ]);
        object_of(&parts)
    }

    /// The digest of an envelope: the bytes, or the error of the canonical form.
    pub open spec fn spec_digest(self) -> Result<Seq<u8>, ErrorView> {
        match canonical_digest("proofframe:evidence:v2\0"@, self.json()) {
            Ok(d) => Ok(d),
            Err(t) => Err(ErrorView::InvalidReceipt(t)),
        }
    }

    /// The digest of a valid envelope.
    pub fn digest(&self) -> (r: Result<[u8; 32], ProofFrameError>)
        ensures
            match self.evidence_error() {
                Some(v) => r matches Err(e) && e@ == v,
                None => r is Ok && digests(r, self.spec_digest()),
            },
    {
        self.validate()?;
        self.digest_unchecked()
    }

    /// The digest of an envelope, valid or not.
    pub(crate) fn digest_unchecked(&self) -> (r: Result<[u8; 32], ProofFrameError>)
        ensures
            r is Ok,
            digests(r, self.spec_digest()),
    {
        let json = self.to_json();
        proof {
            envelopes_are_documents(*self);
        }
        match digest_json("proofframe:evidence:v2\0", json.as_str()) {
            Ok(d) => Ok(d),
            Err(e) => Err(ProofFrameError::InvalidReceipt(e)),
        }
    }
}

/// Whether a result is a digest, or an error.
pub open spec fn digests(
    r: Result<[u8; 32], ProofFrameError>,
    wanted: Result<Seq<u8>, ErrorView>,
) -> bool {
    match wanted {
        Ok(d) => r matches Ok(s) && s@ == d,
        Err(v) => r matches Err(e) && e@ == v,
    }
}

/// An error about evidence.
fn invalid(message: &str) -> (r: Result<(), ProofFrameError>)
    ensures
        r matches Err(e) && e@ == ErrorView::InvalidReceipt(message@),
{
    Err(ProofFrameError::InvalidReceipt(text(message)))
}

/// A valid envelope claims validity exactly where it counts no violation, retains no
/// record then, and never retains more records than were counted or allowed.
pub proof fn valid_evidence_is_consistent(evidence: EvidenceV2)
    requires
        evidence.evidence_error() is None,
    ensures
        evidence.result.valid <==> evidence.result.violation_count == 0,
        evidence.result.valid ==> evidence.result.output_records == 0
            && !evidence.result.truncated,
        evidence.result.output_records <= evidence.execution.resources.max_samples,
        evidence.result.truncated <==> evidence.result.output_records
            < evidence.result.violation_count,
        tagged_digest(evidence.result.report_digest@, "pf-report-v1:"@),
{
}

/// What is wrong with an envelope without a digest is an invalid receipt; envelopes of one
/// content have one digest, and those of one digest have canonical forms that
/// BLAKE3 does not tell apart: to alter an envelope and keep its digest takes a collision.
pub proof fn digests_follow_the_content(one: EvidenceV2, other: EvidenceV2)
    ensures
        one.evidence_error() matches Some(v) ==> v is InvalidReceipt,
        one.json() == other.json() ==> one.spec_digest() == other.spec_digest(),
        one.spec_digest() is Ok && one.spec_digest() == other.spec_digest() ==> blake3_digest(
            utf8("proofframe:evidence:v2\0"@) + utf8(canonical_form(one.json())->Ok_0),
        ) == blake3_digest(
            utf8("proofframe:evidence:v2\0"@) + utf8(canonical_form(other.json())->Ok_0),
        ),
{
}

} // verus!
