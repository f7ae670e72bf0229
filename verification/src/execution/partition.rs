//! Partitions of a dataset: which can be scanned by themselves, and their reports merged.

use crate::contract::compile::CompiledContract;
use crate::contract::plan_digest::{paired, plan_prefix, plan_stream};
use crate::digest::{blake3_digest, hex, is_tagged_digest, tagged_digest};
use crate::error::{ErrorCode, ErrorView, ProofFrameError};
use crate::execution::executor::ExecutionOptions;
use crate::execution::report::{ExecutionMetrics, FastValidationReport};
use crate::execution::validation::{capped, finding_views, Finding, FindingView};
use crate::fingerprint::schema_v2;
use crate::text::{cat2, decimal, decimal_u64, text, utf8};
use crate::value::{same_schema, schema_eq, Schema};
use vstd::prelude::*;

verus! {

/// Whether a rule of a contract needs to see the whole dataset.
pub open spec fn global_state(plan: CompiledContract) -> bool {
    !plan.dataset_plan.no_rules() || exists|i: int|
        0 <= i < plan.columns@.len() && (#[trigger] plan.columns@[i]).rules@.unique
}

/// Whether a rule of a contract needs to see the whole dataset.
pub fn requires_global_state(plan: &CompiledContract) -> (r: bool)
    ensures
        r == global_state(*plan),
{
    if !plan.dataset_plan.is_empty() {
        return true;
    }
    let mut i: usize = 0;
    while i < plan.columns.len()
        invariant
            i <= plan.columns@.len(),
            plan.dataset_plan.no_rules(),
            forall|k: int| 0 <= k < i ==> !(#[trigger] plan.columns@[k]).rules@.unique,
        decreases plan.columns@.len() - i,
    {
        if plan.columns[i].rules.unique() {
            return true;
        }
        i = i + 1;
    }
    false
}

/// Holds the schema of every partition to the contract.
pub fn check_partition_schemas(schemas: &Vec<Schema>, plan: &CompiledContract) -> (r: Result<
    (),
    ProofFrameError,
>)
    ensures
        if forall|i: int|
            0 <= i < schemas@.len() ==> same_schema(#[trigger] schemas@[i], plan.schema) {
            r is Ok
        } else {
            r matches Err(e) && e@ == ErrorView::SchemaMismatch(
                "partition schema differs from the schema used to compile the contract"@,
            )
        },
{
    let mut i: usize = 0;
    while i < schemas.len()
        invariant
            i <= schemas@.len(),
            forall|k: int| 0 <= k < i ==> same_schema(#[trigger] schemas@[k], plan.schema),
        decreases schemas@.len() - i,
    {
        if !schema_eq(&schemas[i], &plan.schema) {
            assert(!same_schema(schemas@[i as int], plan.schema));
            return Err(
                ProofFrameError::SchemaMismatch(
                    text("partition schema differs from the schema used to compile the contract"),
                ),
            );
        }
        i = i + 1;
    }
    Ok(())
}

/// How partitions are scanned: as one ordered stream, or each by itself.
#[derive(Debug, Clone, Copy, PartialEq, Eq, Structural)]
pub enum PartitionRoute {
    Ordered,
    Independent,
}

/// How partitions are scanned. A rule with global state takes one ordered pass, so that
/// what it says never depends on the number of workers. A dataset that is bound where no
/// reference rule can use it is an error.
pub fn route_partitions(plan: &CompiledContract, partitions: usize, unbound: bool) -> (r: Result<
    PartitionRoute,
    ProofFrameError,
>)
    ensures
        if partitions == 0 || global_state(*plan) {
            r matches Ok(route) && route == PartitionRoute::Ordered
        } else if unbound {
            r matches Ok(route) && route == PartitionRoute::Independent
        } else {
            r matches Err(e) && e@ == (ErrorView::Contract {
                code: ErrorCode::ReferenceUnbound,
                message: "No reference rule uses the bound reference datasets"@,
                path: None,
            })
        },
{
    if partitions == 0 || requires_global_state(plan) {
        return Ok(PartitionRoute::Ordered);
    }
    if !unbound {
        return Err(
            ProofFrameError::contract(
                ErrorCode::ReferenceUnbound,
                text("No reference rule uses the bound reference datasets"),
                None,
            ),
        );
    }
    Ok(PartitionRoute::Independent)
}

/// The number of workers: as many as wanted, or as the machine offers, but at least one and
/// at most one for each partition.
pub fn worker_count(requested: Option<usize>, available: usize, partitions: usize) -> (r: usize)
    requires
        partitions >= 1,
    ensures
        ({
            let wanted = match requested {
                Some(n) => n,
                None => available,
            };
            r == if wanted < 1 {
                1
            } else if wanted > partitions {
                partitions
            } else {
                wanted
            }
        }),
{
    let wanted: usize = match requested {
        Some(n) => n,
        None => available,
    };
    if wanted < 1 {
        1
    } else if wanted > partitions {
        partitions
    } else {
        wanted
    }
}

/// The result that every worker owes.
pub fn published(slots: Vec<Option<FastValidationReport>>) -> (r: Result<
    Vec<FastValidationReport>,
    ProofFrameError,
>)
    ensures
        match r {
            Ok(v) => v@.len() == slots@.len() && forall|i: int|
                0 <= i < v@.len() ==> slots@[i] == Some(#[trigger] v@[i]),
            Err(e) => exists|i: int|
                0 <= i < slots@.len() && #[trigger] slots@[i] is None && (forall|k: int|
                    0 <= k < i ==> #[trigger] slots@[k] is Some) && e@ == ErrorView::CorruptData(
                    "partition worker did not publish logical result "@ + decimal(i as nat),
                ),
        },
{
    let ghost given = slots@;
    let mut rest = slots;
    let mut out: Vec<FastValidationReport> = Vec::new();
    while rest.len() > 0
        invariant
            given == slots@,
            rest@.len() <= given.len(),
            out@.len() == given.len() - rest@.len(),
            rest@ == given.skip(out@.len() as int),
            forall|i: int| 0 <= i < out@.len() ==> given[i] == Some(#[trigger] out@[i]),
        decreases rest@.len(),
    {
        let i: usize = out.len();
        let slot = rest.remove(0);
        assert(slot == given[i as int]);
        assert(rest@ =~= given.skip(i + 1));
        match slot {
            Some(report) => out.push(report),
            None => {
                let index = decimal_u64(i as u64);
                assert forall|k: int| 0 <= k < i implies #[trigger] given[k] is Some by {
                    assert(given[k] == Some(out@[k]));
                }
                assert(given[i as int] is None);
                return Err(
                    ProofFrameError::CorruptData(
                        cat2(
                            "partition worker did not publish logical result ",
                            index.as_str(),
                        ),
                    ),
                );
            },
        }
    }
    Ok(out)
}

/// A finding of a partition that starts at a row of the dataset.
pub open spec fn moved(f: FindingView, offset: nat) -> FindingView {
    FindingView {
        row: match f.row {
            Some(r) => Some(capped(offset + r as nat) as u64),
            None => None,
        },
        ..f
    }
}

/// The findings of a partition that starts at a row of the dataset.
pub open spec fn moved_all(list: Seq<FindingView>, offset: nat) -> Seq<FindingView> {
    Seq::new(list.len(), |i: int| moved(list[i], offset))
}

/// The first so many of a list.
pub open spec fn at_most(list: Seq<FindingView>, n: nat) -> Seq<FindingView> {
    if list.len() <= n {
        list
    } else {
        list.take(n as int)
    }
}

/// Counts added place by place; the shorter list ends with zeros.
pub open spec fn added(a: Seq<u64>, b: Seq<u64>) -> Seq<u64> {
    Seq::new(
        if a.len() < b.len() {
            b.len()
        } else {
            a.len()
        },
        |i: int|
            capped(
                (if i < a.len() {
                    a[i] as nat
                } else {
                    0
                }) + (if i < b.len() {
                    b[i] as nat
                } else {
                    0
                }),
            ) as u64,
    )
}

/// The larger of two numbers.
pub open spec fn larger(a: u64, b: u64) -> u64 {
    if a > b {
        a
    } else {
        b
    }
}

/// Reports merged so far.
pub struct Merged {
    pub findings: Seq<FindingView>,
    pub count: nat,
    pub evaluated: Seq<u64>,
    pub indices: Seq<u32>,
    pub rows: nat,
    pub metrics: ExecutionMetrics,
}

/// The first `n` reports merged: rows are counted on, violations and offered values add,
/// and of the findings the first so many are kept.
pub open spec fn merged_reports(reports: Seq<FastValidationReport>, limit: nat, n: nat) -> Merged
    decreases n,
{
    if n == 0 {
        Merged {
            findings: Seq::empty(),
            count: 0,
            evaluated: Seq::empty(),
            indices: Seq::empty(),
            rows: 0,
            metrics: ExecutionMetrics {
                peak_memory_bytes: 0,
                peak_temp_bytes: 0,
                spill_bytes: 0,
                exact_runs: 0,
                capacity_growth_events: 0,
            },
        }
    } else {
        let m = merged_reports(reports, limit, (n - 1) as nat);
        let r = reports[n - 1];
        Merged {
            findings: at_most(
                m.findings + moved_all(finding_views(r.findings@), m.rows),
                limit,
            ),
            count: capped(m.count + r.violation_count as nat),
            evaluated: added(m.evaluated, r.evaluated_columns@),
            indices: if m.indices.len() < r.evaluated_indices@.len() {
                r.evaluated_indices@
            } else {
                m.indices
            },
            rows: capped(m.rows + r.rows as nat),
            metrics: ExecutionMetrics {
                peak_memory_bytes: larger(
                    m.metrics.peak_memory_bytes,
                    r.metrics.peak_memory_bytes,
                ),
                peak_temp_bytes: larger(m.metrics.peak_temp_bytes, r.metrics.peak_temp_bytes),
                spill_bytes: capped(
                    m.metrics.spill_bytes as nat + r.metrics.spill_bytes as nat,
                ) as u64,
                exact_runs: capped(
                    m.metrics.exact_runs as nat + r.metrics.exact_runs as nat,
                ) as u64,
                capacity_growth_events: capped(
                    m.metrics.capacity_growth_events as nat
                        + r.metrics.capacity_growth_events as nat,
                ) as u64,
            },
        }
    }
}

fn max_of(a: u64, b: u64) -> (r: u64)
    ensures
        r == larger(a, b),
{
    if a > b {
        a
    } else {
        b
    }
}

fn add_counts(a: &Vec<u64>, b: &Vec<u64>) -> (r: Vec<u64>)
    ensures
        r@ == added(a@, b@),
{
    let mut out: Vec<u64> = Vec::new();
    let n: usize = if a.len() < b.len() {
        b.len()
    } else {
        a.len()
    };
    let mut i: usize = 0;
    while i < n
        invariant
            i <= n,
            n == added(a@, b@).len(),
            out@.len() == i,
            forall|k: int| 0 <= k < i ==> #[trigger] out@[k] == added(a@, b@)[k],
        decreases n - i,
    {
        let x: u64 = if i < a.len() {
            a[i]
        } else {
            0
        };
        let y: u64 = if i < b.len() {
            b[i]
        } else {
            0
        };
        out.push(x.saturating_add(y));
        i = i + 1;
    }
    assert(out@ =~= added(a@, b@));
    out
}

fn copy_indices(v: &Vec<u32>) -> (r: Vec<u32>)
    ensures
        r@ == v@,
{
    let mut out: Vec<u32> = Vec::new();
    let mut i: usize = 0;
    while i < v.len()
        invariant
            i <= v@.len(),
            out@ == v@.take(i as int),
        decreases v@.len() - i,
    {
        out.push(v[i]);
        i = i + 1;
        assert(out@ =~= v@.take(i as int));
    }
    assert(out@ =~= v@);
    out
}

/// Takes the findings of a partition into a list, as many as the limit leaves.
fn take_findings(findings: &mut Vec<Finding>, more: &Vec<Finding>, offset: u64, limit: usize)
    requires
        old(findings)@.len() <= limit,
    ensures
        finding_views(final(findings)@) == at_most(
            finding_views(old(findings)@) + moved_all(finding_views(more@), offset as nat),
            limit as nat,
        ),
        final(findings)@.len() <= limit,
{
    let ghost start = finding_views(findings@);
    let ghost all = moved_all(finding_views(more@), offset as nat);
    let mut i: usize = 0;
    assert(all.take(0) =~= Seq::empty());
    assert(start + all.take(0) =~= start);
    while i < more.len() && findings.len() < limit
        invariant
            i <= more@.len(),
            all == moved_all(finding_views(more@), offset as nat),
            start == finding_views(old(findings)@),
            findings@.len() == start.len() + i,
            findings@.len() <= limit,
            finding_views(findings@) == start + all.take(i as int),
        decreases more@.len() - i,
    {
        let f = &more[i];
        let row = match f.row {
            Some(r) => Some(offset.saturating_add(r)),
            None => None,
        };
        let ghost had = findings@;
        findings.push(
            Finding {
                rule: f.rule,
                column: f.column.clone(),
                row,
                message: f.message.clone(),
            },
        );
        proof {
            assert(finding_views(more@)[i as int] == more@[i as int]@);
            assert(findings@.last()@ == all[i as int]);
            assert(finding_views(findings@) =~= finding_views(had).push(all[i as int]));
            assert(all.take(i + 1) =~= all.take(i as int).push(all[i as int]));
            assert(start + all.take(i + 1) =~= (start + all.take(i as int)).push(all[i as int]));
        }
        i = i + 1;
    }
    proof {
        assert(all.len() == more@.len());
        if i == more@.len() {
            assert(all.take(i as int) =~= all);
        } else {
            assert((start + all).take(limit as int) =~= start + all.take(i as int));
        }
    }
}

/// Merges the reports of partitions that were scanned by themselves, in their order.
pub fn merge_reports(
    reports: &Vec<FastValidationReport>,
    plan: &CompiledContract,
    options: &ExecutionOptions,
) -> (r: Result<FastValidationReport, ProofFrameError>)
    requires
        forall|i: int|
            0 <= i < plan.dataset_plan.references@.len() ==> paired(
                #[trigger] plan.dataset_plan.references@[i],
            ),
    ensures
        match schema_v2(plan.schema, Seq::empty()) {
            Err(t) => r matches Err(e) && e@ == ErrorView::UnsupportedType(t),
            Ok(b) => {
                &&& r is Ok
                &&& ({
                    let x = r->Ok_0;
                    let m = merged_reports(
                        reports@,
                        if plan.max_findings < options.resources.max_samples {
                            plan.max_findings as nat
                        } else {
                            options.resources.max_samples as nat
                        },
                        reports@.len(),
                    );
                    &&& x.valid == (m.count == 0)
                    &&& x.violation_count == m.count
                    &&& x.truncated == (m.findings.len() < m.count)
                    &&& finding_views(x.findings@) == m.findings
                    &&& x.evaluated_columns@ == m.evaluated
                    &&& x.evaluated_indices@ == m.indices
                    &&& x.references@.len() == 0
                    &&& x.rows == m.rows
                    &&& x.mode@ == "rules_only"@
                    &&& x.metrics == m.metrics
                    &&& x.resources == options.resources
                    &&& x.compiled_plan_digest@ == plan_prefix(plan.version) + hex(
                        blake3_digest(plan_stream(*plan, b)),
                    )
                    &&& x.schema_digest@ == "pf-schema-v1:"@ + hex(
                        blake3_digest(utf8("proofframe:schema:v1\0"@) + blake3_digest(b)),
                    )
                })
            },
        },
{
    let limit: usize = if plan.max_findings < options.resources.max_samples {
        plan.max_findings
    } else {
        options.resources.max_samples
    };
    let mut findings: Vec<Finding> = Vec::new();
    let mut rows: u64 = 0;
    let mut count: u64 = 0;
    let mut metrics = ExecutionMetrics {
        peak_memory_bytes: 0,
        peak_temp_bytes: 0,
        spill_bytes: 0,
        exact_runs: 0,
        capacity_growth_events: 0,
    };
    let mut evaluated: Vec<u64> = Vec::new();
    let mut indices: Vec<u32> = Vec::new();
    let mut i: usize = 0;
    assert(finding_views(findings@) =~= Seq::empty());
    while i < reports.len()
        invariant
            i <= reports@.len(),
            findings@.len() <= limit,
            ({
                let m = merged_reports(reports@, limit as nat, i as nat);
                &&& finding_views(findings@) == m.findings
                &&& rows == m.rows
                &&& count == m.count
                &&& metrics == m.metrics
                &&& evaluated@ == m.evaluated
                &&& indices@ == m.indices
            }),
        decreases reports@.len() - i,
    {
        let report = &reports[i];
        count = count.saturating_add(report.violation_count);
        if indices.len() < report.evaluated_indices.len() {
            indices = copy_indices(&report.evaluated_indices);
        }
        evaluated = add_counts(&evaluated, &report.evaluated_columns);
        take_findings(&mut findings, &report.findings, rows, limit);
        rows = rows.saturating_add(report.rows);
        metrics = ExecutionMetrics {
            peak_memory_bytes: max_of(metrics.peak_memory_bytes, report.metrics.peak_memory_bytes),
            peak_temp_bytes: max_of(metrics.peak_temp_bytes, report.metrics.peak_temp_bytes),
            spill_bytes: metrics.spill_bytes.saturating_add(report.metrics.spill_bytes),
            exact_runs: metrics.exact_runs.saturating_add(report.metrics.exact_runs),
            capacity_growth_events: metrics.capacity_growth_events.saturating_add(
                report.metrics.capacity_growth_events,
            ),
        };
        i = i + 1;
    }
    let compiled_plan_digest = match plan.compiled_plan_digest() {
        Ok(d) => d,
        Err(e) => return Err(e),
    };
    let schema_digest = match plan.schema_digest() {
        Ok(d) => d,
        Err(e) => return Err(e),
    };
    assert(finding_views(findings@).len() == findings@.len());
    Ok(
        FastValidationReport {
            references: Vec::new(),
            valid: count == 0,
            violation_count: count,
            truncated: (findings.len() as u64) < count,
            findings,
            evaluated_columns: evaluated,
            evaluated_indices: indices,
            rows,
            mode: "rules_only",
            metrics,
            resources: options.resources,
            compiled_plan_digest,
            schema_digest,
        },
    )
}

/// Keeping the first findings of each of two partitions loses none of the first findings of
/// both: merged reports list what one pass would have listed.
pub proof fn merging_keeps_the_first_findings(
    a: Seq<FindingView>,
    b: Seq<FindingView>,
    offset: nat,
    limit: nat,
)
    ensures
        at_most(at_most(a, limit) + moved_all(at_most(b, limit), offset), limit) == at_most(
            a + moved_all(b, offset),
            limit,
        ),
{
    let left = at_most(at_most(a, limit) + moved_all(at_most(b, limit), offset), limit);
    let right = at_most(a + moved_all(b, offset), limit);
    assert(left =~= right);
}

/// The rows of the first `n` reports.
pub open spec fn all_rows(reports: Seq<FastValidationReport>, n: nat) -> nat
    decreases n,
{
    if n == 0 {
        0
    } else {
        all_rows(reports, (n - 1) as nat) + reports[n - 1].rows as nat
    }
}

/// The violations of the first `n` reports.
pub open spec fn all_violations(reports: Seq<FastValidationReport>, n: nat) -> nat
    decreases n,
{
    if n == 0 {
        0
    } else {
        all_violations(reports, (n - 1) as nat) + reports[n - 1].violation_count as nat
    }
}

/// Merged reports count every row and every violation of their parts.
pub proof fn merging_adds_counts(reports: Seq<FastValidationReport>, limit: nat, n: nat)
    requires
        n <= reports.len(),
        all_rows(reports, n) <= u64::MAX,
        all_violations(reports, n) <= u64::MAX,
    ensures
        merged_reports(reports, limit, n).rows == all_rows(reports, n),
        merged_reports(reports, limit, n).count == all_violations(reports, n),
        merged_reports(reports, limit, n).findings.len() <= limit,
    decreases n,
{
    if n > 0 {
        merging_adds_counts(reports, limit, (n - 1) as nat);
    }
}

/// Holds the digest of a contract's source to its form.
pub fn validate_source_digest(value: &str) -> (r: Result<(), ProofFrameError>)
    ensures
        if tagged_digest(value@, "pf-contract-v1:"@) || tagged_digest(
            value@,
            "pf-contract-v2:"@,
        ) {
            r is Ok
        } else {
            r matches Err(e) && e@ == ErrorView::InvalidReceipt(
                "Partition contract source digest is malformed"@,
            )
        },
{
    if is_tagged_digest(value, "pf-contract-v1:") || is_tagged_digest(value, "pf-contract-v2:") {
        Ok(())
    } else {
        Err(
            ProofFrameError::InvalidReceipt(
                text("Partition contract source digest is malformed"),
            ),
        )
    }
}

} // verus!
