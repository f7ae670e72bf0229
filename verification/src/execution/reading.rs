//! What a rule reads: the columns that it names, and nothing else.

use crate::contract::ast::{CompositeNullPolicyAst, ReferenceNullPolicyAst};
use crate::contract::compile::CompiledContract;
use crate::contract::dataset::{
    CompositeUniquePlan, ConditionalUniquePlan, GapDetectionPlan, MonotonicityPlan, RatioPlan,
    ReferencePlan, SumPlan,
};
use crate::contract::row::{CompareView, OperandView};
use crate::distinct::order::Key;
use crate::execution::dataset_state::{
    chosen_rows, composite_feed, composite_rule, conditional_feed, conditional_rule, distinct_feed,
    every_row, gap_steps, nulls_after, order_trail, sum_after, DistinctSpec,
};
use crate::execution::executor::{column_stages, unique_feed};
use crate::execution::keys::{composite_bytes, key_has_null, keyable};
use crate::execution::ordering::{GapState, Ordered};
use crate::execution::reference_state::{local_feed, positional, ReferenceFeed};
use crate::execution::references::{first_equal, key_types_match};
use crate::execution::row_kernels::answer;
use crate::execution::uniqueness::{
    has_reference_key, keys_are_taken_of_selected_rows, references_are_taken_of_every_key,
};
use crate::execution::verdicts::found_at;
use crate::value::{same_type, Batch, Cell, DataType, Schema};
use vstd::prelude::*;

verus! {

/// Whether two batches have as many rows and the same cells in a column.
pub open spec fn same_column_cells(a: Batch, b: Batch, column: usize) -> bool {
    a.rows == b.rows && a.columns@[column as int]@ == b.columns@[column as int]@
}

/// Rules on the order and the steps of a column read that column alone.
pub proof fn orders_and_steps_read_their_column(
    orders: Seq<MonotonicityPlan>,
    gaps: Seq<GapDetectionPlan>,
    schema: Schema,
    a: Batch,
    b: Batch,
    long: Seq<Vec<bool>>,
    row_offset: int,
    last: Seq<Option<Ordered>>,
    states: Seq<GapState>,
    i: int,
)
    ensures
        same_column_cells(a, b, orders[i].column_index) ==> order_trail(
            orders,
            schema,
            a,
            row_offset,
            last,
            i,
        ) == order_trail(orders, schema, b, row_offset, last, i),
        same_column_cells(a, b, gaps[i].column_index) ==> gap_steps(
            gaps,
            schema,
            a,
            long,
            row_offset,
            states,
            i,
        ) == gap_steps(gaps, schema, b, long, row_offset, states, i),
{
}

/// Totals, nulls and distinct values are taken of the column that the rule names.
pub proof fn counts_read_their_column(
    sums: Seq<SumPlan>,
    totals: Seq<i128>,
    ratios: Seq<RatioPlan>,
    nulls: Seq<u64>,
    rules: DistinctSpec,
    schema: Schema,
    a: Batch,
    b: Batch,
    row_offset: int,
    i: int,
)
    ensures
        same_column_cells(a, b, sums[i].column_index) ==> sum_after(sums, a, totals, i)
            == sum_after(sums, b, totals, i),
        same_column_cells(a, b, ratios[i].column_index) ==> nulls_after(ratios, a, nulls, i)
            == nulls_after(ratios, b, nulls, i),
        same_column_cells(a, b, rules.column_index) ==> distinct_feed(rules, schema, a, row_offset)
            == distinct_feed(rules, schema, b, row_offset),
{
}

/// The rules of a column are judged on its own cells.
pub proof fn columns_read_their_cells(
    plan: CompiledContract,
    a: Batch,
    b: Batch,
    row_offset: int,
    i: int,
)
    requires
        0 <= i < plan.columns@.len(),
        same_column_cells(a, b, plan.columns@[i].column_index),
    ensures
        column_stages(plan, a, row_offset)[i] == column_stages(plan, b, row_offset)[i],
        unique_feed(plan.columns@[i], plan.schema, a, row_offset) == unique_feed(
            plan.columns@[i],
            plan.schema,
            b,
            row_offset,
        ),
{
}

/// A comparison reads the two sides that it names, at its own row.
pub proof fn comparisons_read_their_sides(
    plan: CompareView,
    a: Seq<Vec<Cell>>,
    b: Seq<Vec<Cell>>,
    row: int,
    other: int,
)
    requires
        plan.left matches OperandView::Column { column_index, .. } ==> a[column_index]@[row]
            == b[column_index]@[other],
        plan.right matches OperandView::Column { column_index, .. } ==> a[column_index]@[row]
            == b[column_index]@[other],
    ensures
        answer(plan, a, row) == answer(plan, b, other),
{
}

/// A key over several columns takes every row under the bytes of the columns that the plan names;
/// where nulls are rejected, a row with a null in its key is found instead.
pub proof fn composite_keys_take_every_row(
    plan: CompositeUniquePlan,
    schema: Schema,
    batch: Batch,
    row_offset: int,
    i: int,
)
    requires
        0 <= row_offset,
        row_offset + batch.rows <= u64::MAX,
        composite_feed(plan, schema, batch, row_offset).error is None,
        0 <= i < batch.rows,
    ensures
        ({
            let f = composite_feed(plan, schema, batch, row_offset);
            let row = (row_offset + i) as u64;
            let refused = key_has_null(plan.columns@, batch.columns@, i) && plan.nulls
                == CompositeNullPolicyAst::Reject;
            &&& found_at(f.findings, row) <==> refused
            &&& f.entries.contains(
                (
                    Key::Bytes(
                        composite_bytes(plan.columns@, batch.columns@, i, plan.columns@.len()),
                    ),
                    row,
                ),
            ) <==> !refused
        }),
{
    let rule = composite_rule(plan);
    let selected = every_row(batch.rows as nat);
    keys_are_taken_of_selected_rows(
        rule,
        schema,
        batch.columns@,
        selected,
        row_offset,
        batch.rows as nat,
    );
    assert(selected[i]);
}

/// A key under a condition takes the rows on which the condition holds and no others.
pub proof fn conditional_keys_take_the_chosen_rows(
    plan: ConditionalUniquePlan,
    schema: Schema,
    batch: Batch,
    row_offset: int,
    i: int,
)
    requires
        0 <= row_offset,
        row_offset + batch.rows <= u64::MAX,
        conditional_feed(plan, schema, batch, row_offset).error is None,
        0 <= i < batch.rows,
    ensures
        ({
            let f = conditional_feed(plan, schema, batch, row_offset);
            let row = (row_offset + i) as u64;
            let chosen = answer(plan.predicate@, batch.columns@, i) == Some(true);
            let refused = key_has_null(plan.columns@, batch.columns@, i) && plan.nulls
                == CompositeNullPolicyAst::Reject;
            &&& found_at(f.findings, row) <==> chosen && refused
            &&& f.entries.contains(
                (
                    Key::Bytes(
                        composite_bytes(plan.columns@, batch.columns@, i, plan.columns@.len()),
                    ),
                    row,
                ),
            ) <==> chosen && !refused
        }),
{
    let rule = conditional_rule(plan);
    let selected = chosen_rows(plan, batch);
    keys_are_taken_of_selected_rows(
        rule,
        schema,
        batch.columns@,
        selected,
        row_offset,
        batch.rows as nat,
    );
    assert(selected[i] == (answer(plan.predicate@, batch.columns@, i) == Some(true)));
}

/// A reference rule takes the key of every row that has one, of the columns that the plan names;
/// a row without a key is found exactly where nulls are rejected.
pub proof fn reference_keys_take_every_row(
    plan: ReferencePlan,
    schema: Schema,
    batch: Batch,
    row_offset: int,
    i: int,
)
    requires
        0 <= row_offset,
        row_offset + batch.rows <= u64::MAX,
        local_feed(plan, schema, batch, row_offset).error is None,
        0 <= i < batch.rows,
        forall|r: int, j: int|
            #![trigger batch.columns@[plan.columns@[j] as int]@[r]]
            0 <= r < batch.rows && 0 <= j < plan.columns@.len()
                ==> batch.columns@[plan.columns@[j] as int]@[r] is Null || keyable(
                batch.columns@[plan.columns@[j] as int]@[r],
            ),
    ensures
        ({
            let f = local_feed(plan, schema, batch, row_offset);
            let row = (row_offset + i) as u64;
            let whole = has_reference_key(plan.columns@, batch.columns@, i);
            &&& found_at(f.findings, row) <==> !whole && plan.nulls
                == ReferenceNullPolicyAst::Reject
            &&& f.entries.contains(
                (
                    Key::Bytes(
                        positional(plan.columns@, batch.columns@, i, plan.columns@.len()),
                    ),
                    row,
                ),
            ) <==> whole
        }),
{
    let rule = ReferenceFeed {
        indexes: plan.columns@,
        reject: plan.nulls == ReferenceNullPolicyAst::Reject,
        name: plan.name@,
    };
    references_are_taken_of_every_key(
        rule,
        schema,
        batch.columns@,
        row_offset,
        batch.rows as nat,
    );
}

/// Keys of two datasets match by type, whatever the zone of an instant, but never across its units.
pub proof fn keys_match_by_type(local: DataType, remote: DataType)
    ensures
        same_type(local, remote) ==> key_types_match(local, remote),
        local matches DataType::Timestamp(u, _) ==> (remote matches DataType::Timestamp(v, _) ==> (
        key_types_match(local, remote) <==> u == v)),
        !(local is Timestamp && remote is Timestamp) ==> (key_types_match(local, remote)
            <==> same_type(local, remote)),
{
}

/// A text is looked up at its first place in a list.
pub proof fn texts_are_found_where_they_stand(list: Seq<Seq<char>>, value: Seq<char>)
    ensures
        match first_equal(list, value) {
            Some(i) => 0 <= i < list.len() && list[i] == value && forall|j: int|
                0 <= j < i ==> #[trigger] list[j] != value,
            None => !list.contains(value),
        },
    decreases list.len(),
{
    if list.len() > 0 {
        let rest = list.drop_last();
        texts_are_found_where_they_stand(rest, value);
        match first_equal(rest, value) {
            Some(i) => {
                assert forall|j: int| 0 <= j < i implies #[trigger] list[j] != value by {
                    assert(rest[j] != value);
                }
            },
            None => {
                assert forall|j: int| 0 <= j < rest.len() implies #[trigger] list[j] != value by {
                    assert(rest[j] == list[j]);
                    assert(rest.contains(rest[j]));
                }
            },
        }
    }
}

} // verus!
