//! That every rule of a plan is judged on every batch.

use crate::contract::compile::CompiledContract;
use crate::contract::dataset::{CountPlan, RatioPlan};
use crate::execution::dataset_state::{
    all_of, composite_feeds, conditional_feeds, exclusive_lists, gap_findings, last_count,
    last_ratio, order_findings, DatasetState,
};
use crate::execution::exclusive::exclusive_findings;
use crate::execution::executor::{batch_stages, column_stages, offered_after, row_stages, staged};
use crate::execution::kernels::column_findings;
use crate::execution::reference_state::{local_feed, local_findings};
use crate::execution::row_kernels::row_findings;
use crate::execution::validation::{recorded_all, recorded_in_parts, FindingView, Found};
use crate::execution::verdicts::nulls_are_counted;
use crate::value::{Batch, Cell};
use vstd::prelude::*;

verus! {

/// Whether every finding of one list is among those of another.
pub open spec fn among(some: Seq<FindingView>, all: Seq<FindingView>) -> bool {
    forall|k: int| 0 <= k < some.len() ==> all.contains(#[trigger] some[k])
}

proof fn among_both(some: Seq<FindingView>, a: Seq<FindingView>, b: Seq<FindingView>)
    requires
        among(some, a) || among(some, b),
    ensures
        among(some, a + b),
{
    let all = a + b;
    assert forall|k: int| 0 <= k < some.len() implies all.contains(#[trigger] some[k]) by {
        if among(some, a) {
            let i = choose|i: int| 0 <= i < a.len() && a[i] == some[k];
            assert(a.contains(some[k]));
            assert(all[i] == some[k]);
        } else {
            let i = choose|i: int| 0 <= i < b.len() && b[i] == some[k];
            assert(b.contains(some[k]));
            assert(all[a.len() + i] == some[k]);
        }
    }
}

proof fn among_itself(some: Seq<FindingView>)
    ensures
        among(some, some),
{
    assert forall|k: int| 0 <= k < some.len() implies some.contains(#[trigger] some[k]) by {}
}

proof fn among_all(lists: Seq<Seq<FindingView>>, n: nat, i: int)
    requires
        0 <= i < n <= lists.len(),
    ensures
        among(lists[i], all_of(lists, n)),
    decreases n,
{
    let m = (n - 1) as nat;
    if i < m {
        among_all(lists, m, i);
    } else {
        among_itself(lists[i]);
    }
    among_both(lists[i], all_of(lists, m), lists[n - 1]);
}

proof fn among_through(a: Seq<FindingView>, b: Seq<FindingView>, c: Seq<FindingView>)
    requires
        among(a, b),
        among(b, c),
    ensures
        among(a, c),
{
    assert forall|k: int| 0 <= k < a.len() implies c.contains(#[trigger] a[k]) by {
        assert(b.contains(a[k]));
        let i = choose|i: int| 0 <= i < b.len() && b[i] == a[k];
        assert(c.contains(b[i]));
    }
}

/// Everything that is found in a batch.
pub open spec fn found_in_batch(
    plan: CompiledContract,
    dataset: DatasetState,
    batch: Batch,
    long: Seq<Vec<bool>>,
    row_offset: int,
) -> Seq<FindingView> {
    all_of(
        batch_stages(plan, dataset, batch, long, row_offset),
        batch_stages(plan, dataset, batch, long, row_offset).len(),
    )
}

/// The rules of every column are judged on the cells of that column.
pub proof fn every_column_is_judged(
    plan: CompiledContract,
    dataset: DatasetState,
    batch: Batch,
    long: Seq<Vec<bool>>,
    row_offset: int,
    i: int,
)
    requires
        0 <= i < plan.columns@.len(),
    ensures
        among(
            column_findings(
                plan.columns@[i].rules@,
                plan.columns@[i].field@,
                batch.columns@[plan.columns@[i].column_index as int]@,
                row_offset,
                batch.rows as nat,
            ),
            found_in_batch(plan, dataset, batch, long, row_offset),
        ),
{
    let stages = batch_stages(plan, dataset, batch, long, row_offset);
    assert(stages[i] == column_stages(plan, batch, row_offset)[i]);
    among_all(stages, stages.len(), i);
}

/// Every row rule is judged on every row of a batch.
pub proof fn every_row_rule_is_judged(
    plan: CompiledContract,
    dataset: DatasetState,
    batch: Batch,
    long: Seq<Vec<bool>>,
    row_offset: int,
    i: int,
)
    requires
        0 <= i < plan.row_plans@.len(),
    ensures
        among(
            row_findings(plan.row_plans@[i]@, batch.columns@, row_offset, batch.rows as nat),
            found_in_batch(plan, dataset, batch, long, row_offset),
        ),
{
    let stages = batch_stages(plan, dataset, batch, long, row_offset);
    let at = plan.columns@.len() + i;
    assert(stages[at] == row_stages(plan, batch, row_offset)[i]);
    among_all(stages, stages.len(), at);
}

/// Every rule over rows of a dataset is judged on every batch: orders, steps, keys with and
/// without a condition, and columns that exclude one another.
pub proof fn every_dataset_rule_is_judged(
    plan: CompiledContract,
    dataset: DatasetState,
    batch: Batch,
    long: Seq<Vec<bool>>,
    row_offset: int,
    i: int,
)
    ensures
        ({
            let found = found_in_batch(plan, dataset, batch, long, row_offset);
            let rules = plan.dataset_plan;
            &&& 0 <= i < rules.monotonicity@.len() ==> among(
                order_findings(
                    rules.monotonicity@,
                    plan.schema,
                    batch,
                    row_offset,
                    dataset.ordering@,
                )[i],
                found,
            )
            &&& 0 <= i < rules.gap_detection@.len() ==> among(
                gap_findings(
                    rules.gap_detection@,
                    plan.schema,
                    batch,
                    long,
                    row_offset,
                    dataset.gaps@,
                )[i],
                found,
            )
            &&& 0 <= i < rules.mutually_exclusive@.len() ==> among(
                exclusive_findings(
                    rules.mutually_exclusive@[i],
                    batch.columns@,
                    row_offset,
                    batch.rows as nat,
                ),
                found,
            )
            &&& 0 <= i < rules.composite_unique@.len() ==> among(
                composite_feeds(
                    rules.composite_unique@,
                    plan.schema,
                    batch,
                    row_offset,
                ).findings[i],
                found,
            )
            &&& 0 <= i < rules.conditional_unique@.len() ==> among(
                conditional_feeds(
                    rules.conditional_unique@,
                    plan.schema,
                    batch,
                    row_offset,
                ).findings[i],
                found,
            )
        }),
{
    let stages = batch_stages(plan, dataset, batch, long, row_offset);
    let found = found_in_batch(plan, dataset, batch, long, row_offset);
    let rules = plan.dataset_plan;
    let at = plan.columns@.len() + plan.row_plans@.len();
    let own = dataset.batch_findings(rules, plan.schema, batch, long, row_offset);
    assert(stages[at as int] == own);
    among_all(stages, stages.len(), at as int);
    let orders = order_findings(
        rules.monotonicity@,
        plan.schema,
        batch,
        row_offset,
        dataset.ordering@,
    );
    let gaps = gap_findings(
        rules.gap_detection@,
        plan.schema,
        batch,
        long,
        row_offset,
        dataset.gaps@,
    );
    let conditional = conditional_feeds(
        rules.conditional_unique@,
        plan.schema,
        batch,
        row_offset,
    ).findings;
    let exclusive = exclusive_lists(rules.mutually_exclusive@, batch, row_offset);
    let composite = composite_feeds(rules.composite_unique@, plan.schema, batch, row_offset).findings;
    let a = all_of(orders, rules.monotonicity@.len());
    let b = all_of(gaps, rules.gap_detection@.len());
    let c = all_of(conditional, rules.conditional_unique@.len());
    let d = all_of(exclusive, rules.mutually_exclusive@.len());
    let e = all_of(composite, rules.composite_unique@.len());
    assert(own == a + b + c + d + e);
    if 0 <= i < rules.monotonicity@.len() {
        among_all(orders, rules.monotonicity@.len(), i);
        among_both(orders[i], a, b);
        among_both(orders[i], a + b, c);
        among_both(orders[i], a + b + c, d);
        among_both(orders[i], a + b + c + d, e);
        among_through(orders[i], own, found);
    }
    if 0 <= i < rules.gap_detection@.len() {
        among_all(gaps, rules.gap_detection@.len(), i);
        among_both(gaps[i], a, b);
        among_both(gaps[i], a + b, c);
        among_both(gaps[i], a + b + c, d);
        among_both(gaps[i], a + b + c + d, e);
        among_through(gaps[i], own, found);
    }
    if 0 <= i < rules.conditional_unique@.len() {
        among_all(conditional, rules.conditional_unique@.len(), i);
        among_both(conditional[i], a + b, c);
        among_both(conditional[i], a + b + c, d);
        among_both(conditional[i], a + b + c + d, e);
        among_through(conditional[i], own, found);
    }
    if 0 <= i < rules.mutually_exclusive@.len() {
        among_all(exclusive, rules.mutually_exclusive@.len(), i);
        among_both(exclusive[i], a + b + c, d);
        among_both(exclusive[i], a + b + c + d, e);
        among_through(exclusive[i], own, found);
    }
    if 0 <= i < rules.composite_unique@.len() {
        among_all(composite, rules.composite_unique@.len(), i);
        among_both(composite[i], a + b + c + d, e);
        among_through(composite[i], own, found);
    }
}

/// Every reference rule is judged on the keys of a batch.
pub proof fn every_reference_is_judged(
    plan: CompiledContract,
    dataset: DatasetState,
    batch: Batch,
    long: Seq<Vec<bool>>,
    row_offset: int,
    i: int,
)
    requires
        0 <= i < plan.dataset_plan.references@.len(),
    ensures
        among(
            local_feed(plan.dataset_plan.references@[i], plan.schema, batch, row_offset).findings,
            found_in_batch(plan, dataset, batch, long, row_offset),
        ),
{
    let stages = batch_stages(plan, dataset, batch, long, row_offset);
    let lists = local_findings(plan.dataset_plan.references@, plan.schema, batch, row_offset);
    let n = plan.dataset_plan.references@.len();
    let at = plan.columns@.len() + plan.row_plans@.len() + 1;
    assert(stages[at as int] == all_of(lists, n));
    among_all(lists, n, i);
    among_all(stages, stages.len(), at as int);
    among_through(lists[i], all_of(lists, n), found_in_batch(plan, dataset, batch, long, row_offset));
}

/// Whether the same was found and counted under the same limit.
pub open spec fn same_found(a: Found, b: Found) -> bool {
    a.findings == b.findings && a.count == b.count && a.limit == b.limit
}

proof fn recorded_alike(a: Found, b: Found, list: Seq<FindingView>)
    requires
        same_found(a, b),
    ensures
        same_found(recorded_all(a, list), recorded_all(b, list)),
    decreases list.len(),
{
    if list.len() > 0 {
        recorded_alike(a, b, list.drop_last());
    }
}

/// What is found stage by stage is recorded as what is found at once: no stage is dropped or
/// counted twice.
pub proof fn stages_are_recorded_in_order(f: Found, stages: Seq<Seq<FindingView>>, n: nat)
    requires
        n <= stages.len(),
    ensures
        same_found(staged(f, stages, n), recorded_all(f, all_of(stages, n))),
    decreases n,
{
    if n > 0 {
        let m = (n - 1) as nat;
        stages_are_recorded_in_order(f, stages, m);
        recorded_alike(staged(f, stages, m), recorded_all(f, all_of(stages, m)), stages[n - 1]);
        recorded_in_parts(f, all_of(stages, m), stages[n - 1]);
    }
}

proof fn nulls_and_values(cells: Seq<Cell>)
    ensures
        cells.filter(|c: Cell| c is Null).len() + cells.filter(|c: Cell| !(c is Null)).len()
            == cells.len(),
    decreases cells.len(),
{
    reveal(Seq::filter);
    if cells.len() > 0 {
        nulls_and_values(cells.drop_last());
    }
}

/// Every value of a column that is not null is counted as evaluated.
pub proof fn values_are_counted_as_evaluated(
    plan: CompiledContract,
    batch: Batch,
    before: Seq<u64>,
    i: int,
)
    requires
        batch.wf(),
        0 <= i < plan.columns@.len(),
        plan.columns@[i].column_index < batch.columns@.len(),
    ensures
        ({
            let cells = batch.columns@[plan.columns@[i].column_index as int]@;
            let values = cells.filter(|c: Cell| !(c is Null)).len();
            &&& before[i] + values <= u64::MAX ==> offered_after(plan, batch, before)[i] == before[i]
                + values
            &&& before[i] + values > u64::MAX ==> offered_after(plan, batch, before)[i] == u64::MAX
        }),
{
    let cells = batch.columns@[plan.columns@[i].column_index as int]@;
    assert(cells.len() == batch.rows);
    nulls_are_counted(cells, batch.rows as nat);
    assert(cells.take(batch.rows as int) =~= cells);
    nulls_and_values(cells);
}

/// The rule on the number of a column's values is the last one for that column.
pub proof fn the_last_rule_of_a_column_counts(
    counts: Seq<CountPlan>,
    ratios: Seq<RatioPlan>,
    column: usize,
    n: nat,
)
    requires
        n <= counts.len(),
        n <= ratios.len(),
        n <= usize::MAX,
    ensures
        match last_count(counts, column, n) {
            Some(k) => k < n && counts[k as int].column_index == column && forall|j: int|
                k < j < n ==> (#[trigger] counts[j]).column_index != column,
            None => forall|j: int| 0 <= j < n ==> (#[trigger] counts[j]).column_index != column,
        },
        match last_ratio(ratios, column, n) {
            Some(k) => k < n && ratios[k as int].column_index == column && forall|j: int|
                k < j < n ==> (#[trigger] ratios[j]).column_index != column,
            None => forall|j: int| 0 <= j < n ==> (#[trigger] ratios[j]).column_index != column,
        },
    decreases n,
{
    if n > 0 {
        the_last_rule_of_a_column_counts(counts, ratios, column, (n - 1) as nat);
    }
}

} // verus!
