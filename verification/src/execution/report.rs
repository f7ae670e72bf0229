//! The end of an execution and its report.

use crate::contract::compile::{ColumnPlan, CompiledContract};
use crate::contract::plan_digest::{paired, plan_prefix, plan_stream};
use crate::digest::{blake3_digest, hex};
use crate::distinct::merge::DuplicateSample;
use crate::distinct::state::{damaged, not_merged, ExactState, ExactSummary};
use crate::error::{ErrorView, ProofFrameError};
use crate::execution::dataset_finish::{
    finishable, has_entries, plain_finding, summary_of, DatasetMetrics,
};
use crate::execution::exact_rules::same_account;
use crate::execution::executor::{settled, ExecutionOptions};
use crate::execution::reference_state::ReferenceOutcome;
use crate::execution::validation::{
    capped, counted_more, finding_views, recorded_all, Finding, FindingView, Found, ValidationState,
};
use crate::fingerprint::schema_v2;
use crate::distinct::budget::{
    column_storages, column_storages_grow, columns_restored, damage_has_room, end_has_room,
    room_for_columns, some_column_damaged, spare, spare_once_stored, told_and_whole,
    told_for_columns,
};
use crate::resource::{refusal, room, ResourceAccount, ResourceKind, ResourceLimits};
use crate::text::{text, utf8};
use vstd::prelude::*;

verus! {

/// Accounted engine state of an execution.
#[derive(Debug, Clone, Copy, PartialEq, Eq, Structural)]
pub struct ExecutionMetrics {
    pub peak_memory_bytes: u64,
    pub peak_temp_bytes: u64,
    pub spill_bytes: u64,
    pub exact_runs: u64,
    pub capacity_growth_events: u64,
}

/// The result of applying a contract without profiling.
#[derive(Debug)]
pub struct FastValidationReport {
    pub valid: bool,
    pub violation_count: u64,
    pub truncated: bool,
    pub findings: Vec<Finding>,
    pub evaluated_columns: Vec<u64>,
    pub evaluated_indices: Vec<u32>,
    pub references: Vec<ReferenceOutcome>,
    pub rows: u64,
    pub mode: &'static str,
    pub metrics: ExecutionMetrics,
    pub resources: ResourceLimits,
    pub compiled_plan_digest: String,
    pub schema_digest: String,
}

/// What the summary of a unique column must be.
pub open spec fn unique_summary(
    state: Option<ExactState>,
    stored: Seq<&[u8]>,
    max_samples: nat,
    summary: Option<ExactSummary>,
) -> bool {
    match state {
        Some(s) => summary is Some && summary_of(s, stored, max_samples, summary->0)
            && s.runs_metered(stored, summary->0.metrics) && !damaged(s.metas(), stored),
        None => summary is None,
    }
}

/// Merges the exact state of every unique column.
pub fn finish_unique_states(
    states: Vec<Option<ExactState>>,
    account: &mut ResourceAccount,
    stored: &Vec<Vec<&[u8]>>,
    cancelled: bool,
) -> (r: Result<Vec<Option<ExactSummary>>, ProofFrameError>)
    requires
        old(account).wf(),
        stored@.len() == states@.len(),
        forall|i: int|
            #![trigger states@[i]]
            0 <= i < states@.len() ==> (states@[i] matches Some(s) ==> s.wf() && s.spec_node()
                < old(account).nodes().len() && finishable(s, stored@[i]@)),
    ensures
        same_account(*old(account), *final(account)),
        r matches Ok(v) ==> v@.len() == states@.len() && forall|i: int|
            #![trigger v@[i]]
            0 <= i < v@.len() ==> unique_summary(
                states@[i],
                stored@[i]@,
                old(account).spec_limits().max_samples as nat,
                v@[i],
            ) && (states@[i] matches Some(s) ==> !(cancelled && has_entries(s))),
        (forall|i: int|
            #![trigger states@[i]]
            0 <= i < states@.len() ==> (states@[i] matches Some(s) ==> s.metas().len() == 0 && !(
            cancelled && s.in_memory().len() > 0))) ==> r is Ok,
        r matches Err(e) ==> (if cancelled {
            e@ == ErrorView::Cancelled
        } else {
            e@ is CorruptData || e@ is ResourceLimit
        }),
        !cancelled && columns_restored(states@, stored@) ==> (r matches Err(e) ==> not_merged(
            e@,
        )),
        some_column_damaged(states@, stored@) ==> r is Err,
        !cancelled && some_column_damaged(states@, stored@) ==> forall|m: int, t: int| #[trigger]
            told_for_columns(old(account).nodes(), states@, stored@, m, t) ==> (r matches Err(e)
                && e@ is CorruptData),
        (forall|i: int|
            #![trigger states@[i]]
            0 <= i < states@.len() ==> (states@[i] matches Some(s) ==> !(cancelled && has_entries(
                s,
            )))) ==> forall|m: int, t: int| #[trigger]
            room_for_columns(old(account).nodes(), states@, stored@, m, t) ==> r is Ok && spare(
                final(account).nodes(),
                m,
                t - column_storages(states@, states@.len()),
            ),
{
    let ghost given = states@;
    let mut rest = states;
    let mut out: Vec<Option<ExactSummary>> = Vec::new();
    let ghost on = forall|i: int|
        #![trigger given[i]]
        0 <= i < given.len() ==> (given[i] matches Some(s) ==> !(cancelled && has_entries(s)));
    while rest.len() > 0
        invariant
            given == states@,
            on == (forall|i: int|
                #![trigger given[i]]
                0 <= i < given.len() ==> (given[i] matches Some(s) ==> !(cancelled && has_entries(
                    s,
                )))),
            on ==> forall|m: int, t: int| #[trigger]
                room_for_columns(old(account).nodes(), given, stored@, m, t) ==> spare(
                    account.nodes(),
                    m,
                    t - column_storages(given, out@.len()),
                ),
            !cancelled ==> forall|m: int, t: int| #[trigger]
                told_for_columns(old(account).nodes(), given, stored@, m, t) ==> spare(
                    account.nodes(),
                    m,
                    t - column_storages(given, out@.len()),
                ),
            forall|i: int|
                #![trigger given[i]]
                0 <= i < out@.len() ==> !(given[i] matches Some(s) && damaged(
                    s.metas(),
                    stored@[i]@,
                )),
            rest@.len() <= given.len(),
            out@.len() == given.len() - rest@.len(),
            rest@ == given.skip(out@.len() as int),
            stored@.len() == given.len(),
            same_account(*old(account), *account),
            forall|i: int|
                #![trigger given[i]]
                0 <= i < given.len() ==> (given[i] matches Some(s) ==> s.wf() && s.spec_node()
                    < old(account).nodes().len() && finishable(s, stored@[i]@)),
            forall|i: int|
                #![trigger out@[i]]
                0 <= i < out@.len() ==> unique_summary(
                    given[i],
                    stored@[i]@,
                    old(account).spec_limits().max_samples as nat,
                    out@[i],
                ) && (given[i] matches Some(s) ==> !(cancelled && has_entries(
                    s,
                ))),
        decreases rest@.len(),
    {
        let i: usize = out.len();
        let state = rest.remove(0);
        assert(state == given[i as int]);
        assert(rest@ =~= given.skip(i + 1));
        let ghost before = account.nodes();
        proof {
            column_storages_grow(given, (i + 1) as nat, given.len());
            if on && state is Some && exists|m: int, t: int| #[trigger]
                room_for_columns(old(account).nodes(), given, stored@, m, t) {
                let (m, t) = choose|m: int, t: int| #[trigger]
                    room_for_columns(old(account).nodes(), given, stored@, m, t);
                assert(given[i as int] is Some);
                if state.unwrap().metas().len() > 0 {
                    end_has_room(
                        &state.unwrap(),
                        account,
                        stored@[i as int]@,
                        m,
                        t - column_storages(given, i as nat),
                    );
                }
            }
        }
        proof {
            let here = stored@[i as int]@;
            if !cancelled && state is Some && state.unwrap().metas().len() > 0 && exists|
                m: int,
                t: int,
            | #[trigger]
                told_for_columns(old(account).nodes(), given, stored@, m, t) {
                let (m, t) = choose|m: int, t: int| #[trigger]
                    told_for_columns(old(account).nodes(), given, stored@, m, t);
                let left = t - column_storages(given, i as nat);
                assert(given[i as int] is Some);
                damage_has_room(&state.unwrap(), account, here, m, left);
                if !damaged(state.unwrap().metas(), here) {
                    told_and_whole(state.unwrap(), here);
                    end_has_room(&state.unwrap(), account, here, m, left);
                }
            }
        }
        match state {
            Some(s) => match s.finish(account, &stored[i], cancelled) {
                Ok(summary) => {
                    proof {
                        assert forall|m: int, t: int| #[trigger]
                            told_for_columns(old(account).nodes(), given, stored@, m, t)
                                && !cancelled implies spare(
                            account.nodes(),
                            m,
                            t - column_storages(given, (i + 1) as nat),
                        ) by {
                            assert(given[i as int] is Some);
                            told_and_whole(s, stored@[i as int]@);
                            spare_once_stored(
                                before,
                                account.nodes(),
                                m,
                                t - column_storages(given, i as nat),
                                s.end_storage(),
                            );
                        }
                        assert forall|m: int, t: int| #[trigger]
                            room_for_columns(old(account).nodes(), given, stored@, m, t)
                                && on implies spare(
                            account.nodes(),
                            m,
                            t - column_storages(given, (i + 1) as nat),
                        ) by {
                            assert(given[i as int] is Some);
                            spare_once_stored(
                                before,
                                account.nodes(),
                                m,
                                t - column_storages(given, i as nat),
                                s.end_storage(),
                            );
                        }
                    }
                    out.push(Some(summary));
                },
                Err(e) => {
                    assert(forall|m: int, t: int|
                        on ==> !#[trigger] room_for_columns(
                            old(account).nodes(),
                            given,
                            stored@,
                            m,
                            t,
                        ));
                    assert(given[i as int] is Some);
                    return Err(e);
                },
            },
            None => out.push(None),
        }
    }
    Ok(out)
}

/// The findings on the sampled duplicates of a column.
pub open spec fn unique_findings(field: Seq<char>, samples: Seq<DuplicateSample>) -> Seq<
    FindingView,
> {
    Seq::new(
        samples.len(),
        |i: int|
            plain_finding(
                "unique"@,
                field,
                Some(samples[i].duplicate_row),
                "Duplicate value detected"@,
            ),
    )
}

/// What the duplicates of the first `n` columns add: a finding for each sample, paid for,
/// and the rest counted.
pub open spec fn with_unique(
    f: Found,
    columns: Seq<ColumnPlan>,
    summaries: Seq<Option<ExactSummary>>,
    n: nat,
) -> Found
    decreases n,
{
    if n == 0 {
        f
    } else {
        let before = with_unique(f, columns, summaries, (n - 1) as nat);
        match summaries[n - 1] {
            None => before,
            Some(s) => counted_more(
                settled(
                    recorded_all(
                        before,
                        unique_findings(columns[n - 1].field@, s.duplicate_samples@),
                    ),
                ),
                if s.duplicate_count >= s.duplicate_samples@.len() {
                    (s.duplicate_count - s.duplicate_samples@.len()) as nat
                } else {
                    0
                },
            ),
        }
    }
}

/// What the summaries of the first `n` columns cost.
pub open spec fn unique_cost(summaries: Seq<Option<ExactSummary>>, n: nat) -> DatasetMetrics
    decreases n,
{
    if n == 0 {
        DatasetMetrics { spill_bytes: 0, exact_runs: 0 }
    } else {
        let c = unique_cost(summaries, (n - 1) as nat);
        match summaries[n - 1] {
            None => c,
            Some(s) => DatasetMetrics {
                spill_bytes: capped(c.spill_bytes as nat + s.metrics.spill_bytes as nat) as u64,
                exact_runs: capped(c.exact_runs as nat + s.metrics.runs as nat) as u64,
            },
        }
    }
}

/// Reports the duplicates of every unique column.
pub fn report_unique(
    columns: &Vec<ColumnPlan>,
    summaries: &Vec<Option<ExactSummary>>,
    account: &mut ResourceAccount,
    node: usize,
    validation: &mut ValidationState,
) -> (r: Result<DatasetMetrics, ProofFrameError>)
    requires
        old(account).wf(),
        node < old(account).nodes().len(),
        old(validation).wf(),
        summaries@.len() == columns@.len(),
    ensures
        same_account(*old(account), *final(account)),
        final(validation).wf(),
        final(validation).offered() == old(validation).offered(),
        r matches Ok(m) ==> m == unique_cost(summaries@, summaries@.len()) && final(validation)@
            == with_unique(old(validation)@, columns@, summaries@, summaries@.len()),
        r matches Err(e) ==> e@ == refusal(
            final(account).nodes(),
            node as int,
            ResourceKind::Memory,
            final(validation)@.owed as u64,
        ) && !room(
            final(account).nodes(),
            node as int,
            ResourceKind::Memory,
            0,
            final(validation)@.owed as int,
        ),
        (forall|i: int|
            #![trigger summaries@[i]]
            0 <= i < summaries@.len() ==> summaries@[i] is None) ==> r is Ok,
{
    let mut metrics = DatasetMetrics { spill_bytes: 0, exact_runs: 0 };
    let mut i: usize = 0;
    while i < columns.len()
        invariant
            i <= columns@.len(),
            summaries@.len() == columns@.len(),
            same_account(*old(account), *account),
            node < account.nodes().len(),
            validation.wf(),
            validation.offered() == old(validation).offered(),
            metrics == unique_cost(summaries@, i as nat),
            validation@ == with_unique(old(validation)@, columns@, summaries@, i as nat),
        decreases columns@.len() - i,
    {
        match &summaries[i] {
            None => {},
            Some(s) => {
                metrics = DatasetMetrics {
                    spill_bytes: metrics.spill_bytes.saturating_add(s.metrics.spill_bytes),
                    exact_runs: metrics.exact_runs.saturating_add(s.metrics.runs),
                };
                let field = columns[i].field.as_str();
                let ghost base = validation@;
                let ghost list = unique_findings(field@, s.duplicate_samples@);
                let mut k: usize = 0;
                assert(list.take(0) =~= Seq::empty());
                while k < s.duplicate_samples.len()
                    invariant
                        k <= s.duplicate_samples@.len(),
                        list == unique_findings(field@, s.duplicate_samples@),
                        validation.wf(),
                        validation.offered() == old(validation).offered(),
                        validation@ == recorded_all(base, list.take(k as int)),
                    decreases s.duplicate_samples@.len() - k,
                {
                    assert(list.take(k + 1).drop_last() =~= list.take(k as int));
                    validation.record(
                        Finding {
                            rule: "unique",
                            column: text(field),
                            row: Some(s.duplicate_samples[k].duplicate_row),
                            message: text("Duplicate value detected"),
                        },
                    );
                    k = k + 1;
                }
                assert(list.take(list.len() as int) =~= list);
                match validation.check_resources(account, node) {
                    Ok(()) => {},
                    Err(e) => return Err(e),
                }
                let sampled: u64 = s.duplicate_samples.len() as u64;
                validation.count_more(s.duplicate_count.saturating_sub(sampled));
            },
        }
        i = i + 1;
    }
    Ok(metrics)
}

/// Two costs together.
pub open spec fn costs(a: DatasetMetrics, b: DatasetMetrics) -> DatasetMetrics {
    DatasetMetrics {
        spill_bytes: capped(a.spill_bytes as nat + b.spill_bytes as nat) as u64,
        exact_runs: capped(a.exact_runs as nat + b.exact_runs as nat) as u64,
    }
}

/// Adds two costs.
pub fn combine(a: DatasetMetrics, b: DatasetMetrics) -> (r: DatasetMetrics)
    ensures
        r == costs(a, b),
{
    DatasetMetrics {
        spill_bytes: a.spill_bytes.saturating_add(b.spill_bytes),
        exact_runs: a.exact_runs.saturating_add(b.exact_runs),
    }
}

/// The positions of the columns of a plan.
fn column_positions(columns: &Vec<ColumnPlan>) -> (r: Vec<u32>)
    requires
        forall|i: int|
            #![trigger columns@[i]]
            0 <= i < columns@.len() ==> columns@[i].column_index <= u32::MAX,
    ensures
        r@.len() == columns@.len(),
        forall|i: int| 0 <= i < r@.len() ==> #[trigger] r@[i] == columns@[i].column_index,
{
    let mut out: Vec<u32> = Vec::new();
    let mut i: usize = 0;
    while i < columns.len()
        invariant
            i <= columns@.len(),
            out@.len() == i,
            forall|k: int|
                #![trigger columns@[k]]
                0 <= k < columns@.len() ==> columns@[k].column_index <= u32::MAX,
            forall|k: int| 0 <= k < i ==> #[trigger] out@[k] == columns@[k].column_index,
        decreases columns@.len() - i,
    {
        out.push(columns[i].column_index as u32);
        i = i + 1;
    }
    out
}

/// The report of an execution: valid exactly where nothing was violated.
pub fn build_report(
    plan: &CompiledContract,
    options: &ExecutionOptions,
    account: &ResourceAccount,
    node: usize,
    validation: ValidationState,
    rows: u64,
    metrics: DatasetMetrics,
    references: Vec<ReferenceOutcome>,
) -> (r: Result<FastValidationReport, ProofFrameError>)
    requires
        node < account.nodes().len(),
        forall|i: int|
            0 <= i < plan.dataset_plan.references@.len() ==> paired(
                #[trigger] plan.dataset_plan.references@[i],
            ),
        forall|i: int|
            #![trigger plan.columns@[i]]
            0 <= i < plan.columns@.len() ==> plan.columns@[i].column_index <= u32::MAX,
    ensures
        match schema_v2(plan.schema, Seq::empty()) {
            Err(t) => r matches Err(e) && e@ == ErrorView::UnsupportedType(t),
            Ok(b) => {
                &&& r is Ok
                &&& ({
                    let x = r->Ok_0;
                    &&& x.valid == (validation@.count == 0)
                    &&& x.violation_count == validation@.count
                    &&& x.truncated == (validation@.count > validation@.findings.len())
                    &&& finding_views(x.findings@) == validation@.findings
                    &&& x.evaluated_columns@ == validation.offered()
                    &&& x.evaluated_indices@.len() == plan.columns@.len()
                    &&& forall|i: int|
                        0 <= i < plan.columns@.len() ==> #[trigger] x.evaluated_indices@[i]
                            == plan.columns@[i].column_index
                    &&& x.references == references
                    &&& x.rows == rows
                    &&& x.mode@ == "rules_only"@
                    &&& x.metrics.peak_memory_bytes == account.nodes()[node as int].peak(
                        ResourceKind::Memory,
                    )
                    &&& x.metrics.peak_temp_bytes == account.nodes()[node as int].peak(
                        ResourceKind::Temp,
                    )
                    &&& x.metrics.spill_bytes == metrics.spill_bytes
                    &&& x.metrics.exact_runs == metrics.exact_runs
                    &&& x.metrics.capacity_growth_events == 0
                    &&& x.resources == options.resources
                    &&& x.compiled_plan_digest@ == plan_prefix(plan.version) + hex(
                        blake3_digest(plan_stream(*plan, b)),
                    )
                    &&& x.schema_digest@ == "pf-schema-v1:"@ + hex(
                        blake3_digest(utf8("proofframe:schema:v1\0"@) + blake3_digest(b)),
                    )
                })
            },
        },
{
    let outcome = validation.finish();
    let compiled_plan_digest = match plan.compiled_plan_digest() {
        Ok(d) => d,
        Err(e) => return Err(e),
    };
    let schema_digest = match plan.schema_digest() {
        Ok(d) => d,
        Err(e) => return Err(e),
    };
    let evaluated_indices = column_positions(&plan.columns);
    Ok(
        FastValidationReport {
            valid: outcome.violation_count == 0,
            violation_count: outcome.violation_count,
            truncated: outcome.truncated,
            findings: outcome.findings,
            evaluated_columns: outcome.evaluated,
            evaluated_indices,
            references,
            rows,
            mode: "rules_only",
            metrics: ExecutionMetrics {
                peak_memory_bytes: account.peak_memory_used(node),
                peak_temp_bytes: account.peak_temp_used(node),
                spill_bytes: metrics.spill_bytes,
                exact_runs: metrics.exact_runs,
                capacity_growth_events: 0,
            },
            resources: options.resources,
            compiled_plan_digest,
            schema_digest,
        },
    )
}

} // verus!
