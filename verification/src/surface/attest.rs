//! Evidence for a check whose report is at hand.

use crate::contract::ast::outcome;
use crate::contract::json::Json;
use crate::error::{ErrorView, ProofFrameError};
use crate::evidence::{
    field_identity, result_identity, tagged, validation_findings_digest, validation_metrics_digest,
    validation_report_digest, validation_result_digest, DatasetEvidence, EngineEvidence,
    EvidenceSchema, EvidenceV2, ExecutionEvidence, ResultEvidence,
};
use crate::canonical::json_text;
use crate::execution::report::FastValidationReport;
use crate::fingerprint::{Fingerprint, FingerprintVersion};
use crate::resource::ResourceLimits;
use crate::surface::members::{member_set, set_member};
use crate::text::{cat3, cat4, decimal, decimal_u64, str_eq, text};
use vstd::prelude::*;
use vstd::string::*;

verus! {

/// An unsigned integer of a report.
pub open spec fn field_u64(report: Json, field: Seq<char>) -> Option<u64> {
    match report.spec_field(field) {
        Some(Json::Number(n)) => n.as_u64,
        _ => None,
    }
}

/// A boolean of a report.
pub open spec fn field_bool(report: Json, field: Seq<char>) -> Option<bool> {
    match report.spec_field(field) {
        Some(Json::Bool(b)) => Some(b),
        _ => None,
    }
}

/// A text of a report.
pub open spec fn field_text(report: Json, field: Seq<char>) -> Option<Seq<char>> {
    match report.spec_field(field) {
        Some(Json::Text(t)) => Some(t@),
        _ => None,
    }
}

/// The error of a field that is not what it must be.
pub open spec fn wrong_field(field: Seq<char>, wanted: Seq<char>) -> ErrorView {
    ErrorView::InvalidReceipt("Validation report field `"@ + field + "` must be "@ + wanted)
}

/// An unsigned integer of a report.
pub fn report_u64(report: &Json, field: &str) -> (r: Result<u64, ProofFrameError>)
    ensures
        match field_u64(*report, field@) {
            Some(n) => r matches Ok(x) && x == n,
            None => r matches Err(e) && e@ == wrong_field(field@, "an unsigned integer"@),
        },
{
    let found: Option<u64> = match report.field(field) {
        Some(Json::Number(n)) => n.as_u64,
        _ => None,
    };
    match found {
        Some(n) => Ok(n),
        None => Err(
            ProofFrameError::InvalidReceipt(
                cat4("Validation report field `", field, "` must be ", "an unsigned integer"),
            ),
        ),
    }
}

/// A boolean of a report.
pub fn report_bool(report: &Json, field: &str) -> (r: Result<bool, ProofFrameError>)
    ensures
        match field_bool(*report, field@) {
            Some(b) => r matches Ok(x) && x == b,
            None => r matches Err(e) && e@ == wrong_field(field@, "a boolean"@),
        },
{
    match report.field(field) {
        Some(Json::Bool(b)) => Ok(*b),
        _ => Err(
            ProofFrameError::InvalidReceipt(
                cat4("Validation report field `", field, "` must be ", "a boolean"),
            ),
        ),
    }
}

/// The error of a digest of a report that is not the expected one.
pub open spec fn digest_mismatch(report: Json, field: Seq<char>, expected: Seq<char>) -> Option<
    ErrorView,
> {
    match field_text(report, field) {
        None => Some(wrong_field(field, "a digest string"@)),
        Some(t) => if t == expected {
            None
        } else {
            Some(
                ErrorView::InvalidReceipt(
                    "Validation report `"@ + field
                        + "` digest does not match the supplied data contract"@,
                ),
            )
        },
    }
}

/// Holds a digest of a report to the expected one.
pub fn require_report_digest(report: &Json, field: &str, expected: &str) -> (r: Result<
    (),
    ProofFrameError,
>)
    ensures
        outcome(r, digest_mismatch(*report, field@, expected@)),
{
    match report.field(field) {
        Some(Json::Text(t)) => if str_eq(t.as_str(), expected) {
            Ok(())
        } else {
            Err(
                ProofFrameError::InvalidReceipt(
                    cat3(
                        "Validation report `",
                        field,
                        "` digest does not match the supplied data contract",
                    ),
                ),
            )
        },
        _ => Err(
            ProofFrameError::InvalidReceipt(
                cat4("Validation report field `", field, "` must be ", "a digest string"),
            ),
        ),
    }
}

/// The error of a report about other rows than the data has.
pub open spec fn rows_error(report: Json, rows: u64) -> Option<ErrorView> {
    match field_u64(report, "rows"@) {
        None => Some(wrong_field("rows"@, "an unsigned integer"@)),
        Some(n) => if n == rows {
            None
        } else {
            Some(
                ErrorView::InvalidReceipt(
                    "Evidence data has "@ + decimal(rows as nat)
                        + " rows but the validation report claims "@ + decimal(n as nat),
                ),
            )
        },
    }
}

/// Holds the rows of a report to those of the data.
pub fn require_report_rows(report: &Json, rows: u64) -> (r: Result<(), ProofFrameError>)
    ensures
        outcome(r, rows_error(*report, rows)),
{
    let claimed: u64 = report_u64(report, "rows")?;
    if claimed != rows {
        let have = decimal_u64(rows);
        let want = decimal_u64(claimed);
        return Err(
            ProofFrameError::InvalidReceipt(
                cat4(
                    "Evidence data has ",
                    have.as_str(),
                    " rows but the validation report claims ",
                    want.as_str(),
                ),
            ),
        );
    }
    Ok(())
}

/// Whether the members of a report are those of another with the identity of a contract.
pub open spec fn bound_to(
    before: Seq<(String, Json)>,
    after: Seq<(String, Json)>,
    digest: Seq<char>,
) -> bool {
    exists|t: Json| #[trigger]
        member_set(before, after, "contract_source_digest"@, t) && (t matches Json::Text(s) && s@
            == digest)
}

/// A report with the identity of the contract that it was made for.
pub fn with_source_digest(report: Json, digest: &str) -> (r: Result<Json, ProofFrameError>)
    ensures
        match report {
            Json::Object(o) => {
                &&& r matches Ok(Json::Object(x))
                &&& bound_to(o@, x@, digest@)
            },
            _ => r matches Err(e) && e@ == ErrorView::InvalidReceipt(
                "Validation report is not a JSON object"@,
            ),
        },
{
    match report {
        Json::Object(mut members) => {
            let ghost before = members@;
            let shown = Json::Text(text(digest));
            let ghost kept = shown;
            set_member(&mut members, "contract_source_digest", shown);
            assert(member_set(before, members@, "contract_source_digest"@, kept));
            assert(bound_to(before, members@, digest@));
            Ok(Json::Object(members))
        },
        _ => Err(
            ProofFrameError::InvalidReceipt(text("Validation report is not a JSON object")),
        ),
    }
}

/// The identities that evidence carries.
pub struct Identities<'a> {
    pub source_digest: &'a str,
    pub compiled_plan_digest: &'a str,
    pub schema_digest: &'a str,
    pub engine_version: &'a str,
}

/// The identities that evidence carries.
pub struct IdentityView {
    pub source_digest: Seq<char>,
    pub compiled_plan_digest: Seq<char>,
    pub schema_digest: Seq<char>,
    pub engine_version: Seq<char>,
}

impl<'a> View for Identities<'a> {
    type V = IdentityView;

    open spec fn view(&self) -> IdentityView {
        IdentityView {
            source_digest: self.source_digest@,
            compiled_plan_digest: self.compiled_plan_digest@,
            schema_digest: self.schema_digest@,
            engine_version: self.engine_version@,
        }
    }
}

/// The number of findings that a report lists.
pub open spec fn listed(report: Json) -> nat {
    match report.spec_field("findings"@) {
        Some(Json::Array(a)) => a@.len(),
        _ => 0,
    }
}

/// The first error among the digests of a report.
pub open spec fn report_digests_error(report: Json) -> Option<ErrorView> {
    if result_identity(report) is Err {
        Some(result_identity(report)->Err_0)
    } else if report_identity(report) is Err {
        Some(report_identity(report)->Err_0)
    } else if findings_identity(report) is Err {
        Some(findings_identity(report)->Err_0)
    } else if metrics_identity(report) is Err {
        Some(metrics_identity(report)->Err_0)
    } else {
        None
    }
}

/// The identity of a report.
pub open spec fn report_identity(report: Json) -> Result<Seq<char>, ErrorView> {
    tagged("pf-report-v1:"@, "proofframe:validation-report:v1\0"@, json_text(report))
}

/// The identity of the findings of a report.
pub open spec fn findings_identity(report: Json) -> Result<Seq<char>, ErrorView> {
    field_identity(
        report,
        "findings"@,
        "pf-findings-v1:"@,
        "proofframe:validation-findings:v1\0"@,
    )
}

/// The identity of the measurements of a report.
pub open spec fn metrics_identity(report: Json) -> Result<Seq<char>, ErrorView> {
    field_identity(
        report,
        "metrics"@,
        "pf-metrics-v1:"@,
        "proofframe:validation-metrics:v1\0"@,
    )
}

/// Whether evidence says what a check found.
pub open spec fn attests(
    e: EvidenceV2,
    ids: IdentityView,
    resources: ResourceLimits,
    print: Fingerprint,
    report: Json,
    valid: bool,
    violation_count: u64,
    output_records: nat,
    truncated: bool,
) -> bool {
    &&& e.schema == EvidenceSchema::V2
    &&& e.dataset.fingerprint_version == FingerprintVersion::V2
    &&& e.dataset.fingerprint_digest@ == print.bytes()
    &&& e.dataset.rows == print.spec_rows()
    &&& e.contract_source_digest@ == ids.source_digest
    &&& e.compiled_plan_digest@ == ids.compiled_plan_digest
    &&& e.schema_digest@ == ids.schema_digest
    &&& e.engine.name@ == "proofframe"@
    &&& e.engine.version@ == ids.engine_version
    &&& e.execution.operation@ == "check"@
    &&& e.execution.resources == resources
    &&& e.result.valid == valid
    &&& e.result.violation_count == violation_count
    &&& e.result.output_records == output_records
    &&& e.result.truncated == truncated
    &&& result_identity(report) == Ok::<Seq<char>, ErrorView>(e.result.result_digest@)
    &&& report_identity(report) == Ok::<Seq<char>, ErrorView>(e.result.report_digest@)
    &&& findings_identity(report) == Ok::<Seq<char>, ErrorView>(e.result.findings_digest@)
    &&& metrics_identity(report) == Ok::<Seq<char>, ErrorView>(e.result.metrics_digest@)
}

/// Evidence of a result and its report, if the envelope holds together.
fn attest(
    ids: &Identities<'_>,
    resources: ResourceLimits,
    print: &Fingerprint,
    report: &Json,
    valid: bool,
    violation_count: u64,
    output_records: u64,
    truncated: bool,
) -> (r: Result<EvidenceV2, ProofFrameError>)
    ensures
        report_digests_error(*report) matches Some(v) ==> (r matches Err(e) && e@ == v),
        r matches Ok(e) ==> report_digests_error(*report) is None && e.evidence_error() is None
            && attests(
            e,
            ids@,
            resources,
            *print,
            *report,
            valid,
            violation_count,
            output_records as nat,
            truncated,
        ),
        report_digests_error(*report) is None ==> (r matches Err(x) ==> exists|e: EvidenceV2|
            #[trigger] attests(
                e,
                ids@,
                resources,
                *print,
                *report,
                valid,
                violation_count,
                output_records as nat,
                truncated,
            ) && e.evidence_error() == Some(x@)),
{
    let result_digest = validation_result_digest(report)?;
    let report_digest = validation_report_digest(report)?;
    let findings_digest = validation_findings_digest(report)?;
    let metrics_digest = validation_metrics_digest(report)?;
    let evidence = EvidenceV2 {
        schema: EvidenceSchema::V2,
        dataset: DatasetEvidence {
            fingerprint_version: FingerprintVersion::V2,
            fingerprint_digest: *print.digest(),
            rows: print.rows(),
        },
        contract_source_digest: text(ids.source_digest),
        compiled_plan_digest: text(ids.compiled_plan_digest),
        schema_digest: text(ids.schema_digest),
        engine: EngineEvidence { name: text("proofframe"), version: text(ids.engine_version) },
        execution: ExecutionEvidence { operation: text("check"), resources },
        result: ResultEvidence {
            valid,
            violation_count,
            output_records,
            truncated,
            result_digest,
            report_digest,
            findings_digest,
            metrics_digest,
        },
    };
    assert(attests(
        evidence,
        ids@,
        resources,
        *print,
        *report,
        valid,
        violation_count,
        output_records as nat,
        truncated,
    ));
    evidence.validate()?;
    Ok(evidence)
}

/// The first error of a report that evidence cannot be made from.
pub open spec fn assembly_error(report: Json, ids: IdentityView) -> Option<ErrorView> {
    if digest_mismatch(report, "contract_source_digest"@, ids.source_digest) is Some {
        digest_mismatch(report, "contract_source_digest"@, ids.source_digest)
    } else if digest_mismatch(report, "compiled_plan_digest"@, ids.compiled_plan_digest) is Some {
        digest_mismatch(report, "compiled_plan_digest"@, ids.compiled_plan_digest)
    } else if digest_mismatch(report, "schema_digest"@, ids.schema_digest) is Some {
        digest_mismatch(report, "schema_digest"@, ids.schema_digest)
    } else if field_bool(report, "valid"@) is None {
        Some(wrong_field("valid"@, "a boolean"@))
    } else if field_u64(report, "violation_count"@) is None {
        Some(wrong_field("violation_count"@, "an unsigned integer"@))
    } else if field_bool(report, "truncated"@) is None {
        Some(wrong_field("truncated"@, "a boolean"@))
    } else {
        report_digests_error(report)
    }
}

/// Evidence for a report that a caller hands in, if it is about the same contract and data.
pub fn assemble_evidence(
    report: &Json,
    ids: &Identities<'_>,
    resources: ResourceLimits,
    print: &Fingerprint,
) -> (r: Result<EvidenceV2, ProofFrameError>)
    ensures
        assembly_error(*report, ids@) matches Some(v) ==> (r matches Err(e) && e@ == v),
        r matches Ok(e) ==> assembly_error(*report, ids@) is None && e.evidence_error() is None
            && attests(
            e,
            ids@,
            resources,
            *print,
            *report,
            field_bool(*report, "valid"@).unwrap(),
            field_u64(*report, "violation_count"@).unwrap(),
            listed(*report),
            field_bool(*report, "truncated"@).unwrap(),
        ),
        assembly_error(*report, ids@) is None ==> (r matches Err(x) ==> exists|e: EvidenceV2|
            #[trigger] attests(
                e,
                ids@,
                resources,
                *print,
                *report,
                field_bool(*report, "valid"@).unwrap(),
                field_u64(*report, "violation_count"@).unwrap(),
                listed(*report),
                field_bool(*report, "truncated"@).unwrap(),
            ) && e.evidence_error() == Some(x@)),
{
    let output_records: u64 = match report.field("findings") {
        Some(Json::Array(a)) => a.len() as u64,
        _ => 0,
    };
    require_report_digest(report, "contract_source_digest", ids.source_digest)?;
    require_report_digest(report, "compiled_plan_digest", ids.compiled_plan_digest)?;
    require_report_digest(report, "schema_digest", ids.schema_digest)?;
    let valid = report_bool(report, "valid")?;
    let violation_count: u64 = report_u64(report, "violation_count")?;
    let truncated = report_bool(report, "truncated")?;
    let r = attest(
        ids,
        resources,
        print,
        report,
        valid,
        violation_count,
        output_records,
        truncated,
    );
    proof {
        if report_digests_error(*report) is None && r is Err {
            let x = r->Err_0;
            let e = choose|e: EvidenceV2| #[trigger]
                attests(
                    e,
                    ids@,
                    resources,
                    *print,
                    *report,
                    valid,
                    violation_count,
                    output_records as nat,
                    truncated,
                ) && e.evidence_error() == Some(x@);
            assert(attests(
                e,
                ids@,
                resources,
                *print,
                *report,
                field_bool(*report, "valid"@).unwrap(),
                field_u64(*report, "violation_count"@).unwrap(),
                listed(*report),
                field_bool(*report, "truncated"@).unwrap(),
            ));
        }
    }
    r
}

/// Evidence for a report of this engine. `report_value` is the report as JSON.
pub fn evidence_for_check(
    report: &FastValidationReport,
    report_value: &Json,
    print: &Fingerprint,
    source_digest: &str,
    engine_version: &str,
) -> (r: Result<EvidenceV2, ProofFrameError>)
    ensures
        report_digests_error(*report_value) matches Some(v) ==> (r matches Err(e) && e@ == v),
        ({
            let ids = IdentityView {
                source_digest: source_digest@,
                compiled_plan_digest: report.compiled_plan_digest@,
                schema_digest: report.schema_digest@,
                engine_version: engine_version@,
            };
            &&& r matches Ok(e) ==> report_digests_error(*report_value) is None
                && e.evidence_error() is None && attests(
                e,
                ids,
                report.resources,
                *print,
                *report_value,
                report.valid,
                report.violation_count,
                report.findings@.len(),
                report.truncated,
            )
            &&& report_digests_error(*report_value) is None ==> (r matches Err(x) ==> exists|
                e: EvidenceV2,
            | #[trigger]
                attests(
                    e,
                    ids,
                    report.resources,
                    *print,
                    *report_value,
                    report.valid,
                    report.violation_count,
                    report.findings@.len(),
                    report.truncated,
                ) && e.evidence_error() == Some(x@))
        }),
{
    let ids = Identities {
        source_digest,
        compiled_plan_digest: report.compiled_plan_digest.as_str(),
        schema_digest: report.schema_digest.as_str(),
        engine_version,
    };
    attest(
        &ids,
        report.resources,
        print,
        report_value,
        report.valid,
        report.violation_count,
        report.findings.len() as u64,
        report.truncated,
    )
}

} // verus!
