//! What a merged report says of the reports of its partitions.

use crate::contract::compile::CompiledContract;
use crate::execution::partition::{
    added, all_rows, all_violations, at_most, global_state, merged_reports, merging_adds_counts,
    moved_all,
};
use crate::execution::report::FastValidationReport;
use crate::execution::validation::{finding_views, FindingView};
use vstd::prelude::*;

verus! {

/// The findings of the first `n` reports, one report behind the other, each at its row of the
/// whole dataset.
pub open spec fn placed_findings(reports: Seq<FastValidationReport>, n: nat) -> Seq<FindingView>
    decreases n,
{
    if n == 0 {
        Seq::empty()
    } else {
        let own = finding_views(reports[n - 1].findings@);
        let before = all_rows(reports, (n - 1) as nat);
        placed_findings(reports, (n - 1) as nat) + Seq::new(
            own.len(),
            |i: int|
                FindingView {
                    rule: own[i].rule,
                    column: own[i].column,
                    message: own[i].message,
                    row: match own[i].row {
                        Some(r) => Some((before + r) as u64),
                        None => None,
                    },
                },
        )
    }
}

/// Merged reports keep the findings of their parts in the order of the parts, up to the limit,
/// and number the rows through: a row of a part stands behind all rows of the parts before it.
pub proof fn merged_findings_are_those_of_the_parts(
    reports: Seq<FastValidationReport>,
    limit: nat,
    n: nat,
)
    requires
        n <= reports.len(),
        all_rows(reports, n) <= u64::MAX,
        all_violations(reports, n) <= u64::MAX,
        forall|p: int, i: int|
            #![trigger reports[p].findings@[i]]
            0 <= p < n && 0 <= i < reports[p].findings@.len() ==> (
            reports[p].findings@[i].row matches Some(r) ==> r < reports[p].rows),
    ensures
        merged_reports(reports, limit, n).findings == at_most(placed_findings(reports, n), limit),
    decreases n,
{
    if n > 0 {
        let m = (n - 1) as nat;
        assert(all_rows(reports, n) == all_rows(reports, m) + reports[n - 1].rows as nat);
        assert(all_violations(reports, n) == all_violations(reports, m)
            + reports[n - 1].violation_count as nat);
        merged_findings_are_those_of_the_parts(reports, limit, m);
        merging_adds_counts(reports, limit, m);
        let before = all_rows(reports, m);
        let own = finding_views(reports[n - 1].findings@);
        let here = moved_all(own, before);
        let old_list = placed_findings(reports, m);
        let list = placed_findings(reports, n);
        assert forall|i: int| 0 <= i < own.len() implies #[trigger] here[i] == list[old_list.len()
            + i] by {
            let f = reports[n - 1].findings@[i];
            assert(own[i] == f@);
            assert(f.row matches Some(r) ==> r < reports[n - 1].rows);
        }
        assert(list =~= old_list + here);
        assert(at_most(at_most(old_list, limit) + here, limit) =~= at_most(list, limit));
    }
}

/// The values offered to a column are added up over the parts.
pub proof fn merged_counts_add_by_column(a: Seq<u64>, b: Seq<u64>, i: int)
    requires
        0 <= i < a.len(),
        0 <= i < b.len(),
        a[i] + b[i] <= u64::MAX,
    ensures
        added(a, b)[i] == a[i] + b[i],
        added(a, b).len() >= a.len() && added(a, b).len() >= b.len(),
{
}

/// A contract whose parts can be judged by themselves has no rule on the dataset as a whole and
/// no column whose values must be unique.
pub proof fn parts_are_judged_alone_only_without_global_rules(plan: CompiledContract)
    requires
        !global_state(plan),
    ensures
        forall|i: int|
            0 <= i < plan.columns@.len() ==> !(#[trigger] plan.columns@[i]).rules@.unique,
        plan.dataset_plan.row_count is None,
        plan.dataset_plan.null_ratios@.len() == 0,
        plan.dataset_plan.distinct_counts@.len() == 0,
        plan.dataset_plan.distinct_ratios@.len() == 0,
        plan.dataset_plan.composite_unique@.len() == 0,
        plan.dataset_plan.references@.len() == 0,
        plan.dataset_plan.monotonicity@.len() == 0,
        plan.dataset_plan.gap_detection@.len() == 0,
        plan.dataset_plan.mutually_exclusive@.len() == 0,
        plan.dataset_plan.sums@.len() == 0,
        plan.dataset_plan.statistics@.len() == 0,
        plan.dataset_plan.conditional_unique@.len() == 0,
        plan.dataset_plan.row_count_delta@.len() == 0,
{
}

/// Whether some of the first reports has a number as its peak of memory.
pub open spec fn memory_peak_of_one(
    reports: Seq<FastValidationReport>,
    n: nat,
    peak: u64,
) -> bool {
    exists|i: int| 0 <= i < n && (#[trigger] reports[i]).metrics.peak_memory_bytes == peak
}

/// Whether some of the first reports has a number as its peak of temporary storage.
pub open spec fn storage_peak_of_one(
    reports: Seq<FastValidationReport>,
    n: nat,
    peak: u64,
) -> bool {
    exists|i: int| 0 <= i < n && (#[trigger] reports[i]).metrics.peak_temp_bytes == peak
}

/// The peaks of a merged report are the largest peaks of its parts.
pub proof fn merged_peaks_are_the_largest(
    reports: Seq<FastValidationReport>,
    limit: nat,
    n: nat,
)
    requires
        0 < n <= reports.len(),
    ensures
        ({
            let m = merged_reports(reports, limit, n).metrics;
            &&& memory_peak_of_one(reports, n, m.peak_memory_bytes)
            &&& storage_peak_of_one(reports, n, m.peak_temp_bytes)
            &&& forall|i: int|
                0 <= i < n ==> (#[trigger] reports[i]).metrics.peak_memory_bytes
                    <= m.peak_memory_bytes && reports[i].metrics.peak_temp_bytes
                    <= m.peak_temp_bytes
        }),
    decreases n,
{
    let m = (n - 1) as nat;
    let last = reports[n - 1].metrics;
    let all = merged_reports(reports, limit, n).metrics;
    if m > 0 {
        merged_peaks_are_the_largest(reports, limit, m);
        let before = merged_reports(reports, limit, m).metrics;
        let i = choose|i: int|
            0 <= i < m && (#[trigger] reports[i]).metrics.peak_memory_bytes
                == before.peak_memory_bytes;
        let j = choose|j: int|
            0 <= j < m && (#[trigger] reports[j]).metrics.peak_temp_bytes == before.peak_temp_bytes;
        assert(reports[i].metrics.peak_memory_bytes == before.peak_memory_bytes);
        assert(reports[j].metrics.peak_temp_bytes == before.peak_temp_bytes);
    } else {
        assert(merged_reports(reports, limit, m).metrics.peak_memory_bytes == 0);
    }
    assert(all.peak_memory_bytes == last.peak_memory_bytes || memory_peak_of_one(
        reports,
        n,
        all.peak_memory_bytes,
    ));
    assert(all.peak_temp_bytes == last.peak_temp_bytes || storage_peak_of_one(
        reports,
        n,
        all.peak_temp_bytes,
    ));
}

/// What is added up over the first reports: spilled bytes, exact runs and growths.
pub open spec fn spilled(reports: Seq<FastValidationReport>, n: nat) -> (nat, nat, nat)
    decreases n,
{
    if n == 0 {
        (0, 0, 0)
    } else {
        let before = spilled(reports, (n - 1) as nat);
        let m = reports[n - 1].metrics;
        (
            before.0 + m.spill_bytes as nat,
            before.1 + m.exact_runs as nat,
            before.2 + m.capacity_growth_events as nat,
        )
    }
}

/// The work of a merged report is the work of its parts together, as far as it can be counted.
pub proof fn merged_work_adds_up(reports: Seq<FastValidationReport>, limit: nat, n: nat)
    requires
        n <= reports.len(),
    ensures
        ({
            let m = merged_reports(reports, limit, n).metrics;
            let all = spilled(reports, n);
            &&& all.0 <= u64::MAX ==> m.spill_bytes == all.0
            &&& all.0 > u64::MAX ==> m.spill_bytes == u64::MAX
            &&& all.1 <= u64::MAX ==> m.exact_runs == all.1
            &&& all.1 > u64::MAX ==> m.exact_runs == u64::MAX
            &&& all.2 <= u64::MAX ==> m.capacity_growth_events == all.2
            &&& all.2 > u64::MAX ==> m.capacity_growth_events == u64::MAX
        }),
    decreases n,
{
    if n > 0 {
        merged_work_adds_up(reports, limit, (n - 1) as nat);
    }
}

} // verus!
