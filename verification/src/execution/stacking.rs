//! What rules over several columns say does not depend on how a dataset is cut into batches.

use crate::contract::dataset::MutuallyExclusivePlan;
use crate::contract::row::{CompareView, OperandView, RowView};
use crate::execution::exact_rules::{fed_keys, Fed, KeyRule};
use crate::execution::exclusive::{
    exclusive_finding, exclusive_findings, exclusive_in_range, filled,
};
use crate::execution::keys::{composite_bytes, key_has_null, key_in_range, unkeyable};
use crate::execution::reference_state::{
    fed_reference, indexes_fit, key_stop, positional, ReferenceFeed,
};
use crate::execution::row_kernels::{
    answer, assertion_findings, in_range, row_findings, row_in_range,
};
use crate::value::{Cell, Schema};
use vstd::prelude::*;

verus! {

/// Whether the columns of one batch stand over those of another in a third.
pub open spec fn stacked(
    first: Seq<Vec<Cell>>,
    second: Seq<Vec<Cell>>,
    whole: Seq<Vec<Cell>>,
    rows: nat,
) -> bool {
    &&& first.len() == whole.len()
    &&& second.len() == whole.len()
    &&& forall|c: int|
        0 <= c < whole.len() ==> first[c]@.len() == rows && (#[trigger] whole[c])@ == first[c]@
            + second[c]@
}

/// Whether every column of a batch has so many rows.
pub open spec fn of_height(columns: Seq<Vec<Cell>>, height: nat) -> bool {
    forall|c: int| 0 <= c < columns.len() ==> (#[trigger] columns[c])@.len() == height
}

/// Whether a row of one batch has the cells of a row of another.
pub open spec fn same_row(a: Seq<Vec<Cell>>, i: int, b: Seq<Vec<Cell>>, j: int) -> bool {
    forall|c: int| 0 <= c < a.len() ==> (#[trigger] a[c])@[i] == b[c]@[j]
}

/// A row of the upper batch stands in the whole.
pub proof fn upper_row(
    first: Seq<Vec<Cell>>,
    second: Seq<Vec<Cell>>,
    whole: Seq<Vec<Cell>>,
    rows: nat,
    i: int,
)
    requires
        stacked(first, second, whole, rows),
        0 <= i < rows,
    ensures
        same_row(whole, i, first, i),
{
    assert forall|c: int| 0 <= c < whole.len() implies (#[trigger] whole[c])@[i]
        == first[c]@[i] by {
        assert(whole[c]@ == first[c]@ + second[c]@);
    }
}

/// A row of the lower batch stands in the whole, below the upper one.
pub proof fn lower_row(
    first: Seq<Vec<Cell>>,
    second: Seq<Vec<Cell>>,
    whole: Seq<Vec<Cell>>,
    rows: nat,
    height: nat,
    i: int,
)
    requires
        stacked(first, second, whole, rows),
        of_height(second, height),
        0 <= i < height,
    ensures
        same_row(whole, rows + i, second, i),
{
    assert forall|c: int| 0 <= c < whole.len() implies (#[trigger] whole[c])@[rows + i]
        == second[c]@[i] by {
        assert(whole[c]@ == first[c]@ + second[c]@);
        assert(second[c]@.len() == height);
    }
}

proof fn same_fills(
    plan: MutuallyExclusivePlan,
    a: Seq<Vec<Cell>>,
    i: int,
    b: Seq<Vec<Cell>>,
    j: int,
    n: nat,
)
    requires
        same_row(a, i, b, j),
        exclusive_in_range(plan, a.len() as int),
        n <= plan.columns@.len(),
    ensures
        filled(plan, a, i, n) == filled(plan, b, j, n),
    decreases n,
{
    if n > 0 {
        same_fills(plan, a, i, b, j, (n - 1) as nat);
        let c = plan.columns@[n - 1] as int;
        assert(a[c]@[i] == b[c]@[j]);
    }
}

proof fn exclusive_prefix(
    plan: MutuallyExclusivePlan,
    first: Seq<Vec<Cell>>,
    second: Seq<Vec<Cell>>,
    whole: Seq<Vec<Cell>>,
    rows: nat,
    row_offset: int,
    n: nat,
)
    requires
        stacked(first, second, whole, rows),
        exclusive_in_range(plan, whole.len() as int),
        n <= rows,
    ensures
        exclusive_findings(plan, whole, row_offset, n) == exclusive_findings(
            plan,
            first,
            row_offset,
            n,
        ),
    decreases n,
{
    if n > 0 {
        exclusive_prefix(plan, first, second, whole, rows, row_offset, (n - 1) as nat);
        upper_row(first, second, whole, rows, n - 1);
        same_fills(plan, whole, n - 1, first, n - 1, plan.columns@.len());
    }
}

/// A rule on mutually exclusive columns finds the same rows, however the dataset is cut into
/// batches.
pub proof fn exclusive_rules_ignore_batch_boundaries(
    plan: MutuallyExclusivePlan,
    first: Seq<Vec<Cell>>,
    second: Seq<Vec<Cell>>,
    whole: Seq<Vec<Cell>>,
    rows: nat,
    height: nat,
    row_offset: int,
    n: nat,
)
    requires
        stacked(first, second, whole, rows),
        of_height(second, height),
        exclusive_in_range(plan, whole.len() as int),
        n <= height,
    ensures
        exclusive_findings(plan, whole, row_offset, rows + n) == exclusive_findings(
            plan,
            first,
            row_offset,
            rows,
        ) + exclusive_findings(plan, second, row_offset + rows, n),
    decreases n,
{
    let upper = exclusive_findings(plan, first, row_offset, rows);
    if n == 0 {
        exclusive_prefix(plan, first, second, whole, rows, row_offset, rows);
        assert(upper + Seq::empty() =~= upper);
    } else {
        let m = (n - 1) as nat;
        exclusive_rules_ignore_batch_boundaries(
            plan,
            first,
            second,
            whole,
            rows,
            height,
            row_offset,
            m,
        );
        lower_row(first, second, whole, rows, height, n - 1);
        same_fills(plan, whole, rows + n - 1, second, n - 1, plan.columns@.len());
        assert((rows + n - 1) as nat == rows + m);
        assert(rows + n - 1 == rows + (n - 1));
        let lower = exclusive_findings(plan, second, row_offset + rows, m);
        let finding = exclusive_finding(
            plan,
            second,
            n - 1,
            ((row_offset + rows) + n - 1) as u64,
        );
        assert(upper + lower.push(finding) =~= (upper + lower).push(finding));
    }
}

/// A comparison depends on the cells of its row alone.
pub proof fn same_answer(
    plan: CompareView,
    a: Seq<Vec<Cell>>,
    i: int,
    b: Seq<Vec<Cell>>,
    j: int,
)
    requires
        same_row(a, i, b, j),
        in_range(plan, a.len() as int),
    ensures
        answer(plan, a, i) == answer(plan, b, j),
{
    match plan.left {
        OperandView::Column { column_index: l, .. } => {
            assert(a[l]@[i] == b[l]@[j]);
        },
        _ => {},
    }
    match plan.right {
        OperandView::Column { column_index: r, .. } => {
            assert(a[r]@[i] == b[r]@[j]);
        },
        _ => {},
    }
}

proof fn row_rule_prefix(
    plan: RowView,
    first: Seq<Vec<Cell>>,
    second: Seq<Vec<Cell>>,
    whole: Seq<Vec<Cell>>,
    rows: nat,
    row_offset: int,
    n: nat,
)
    requires
        stacked(first, second, whole, rows),
        row_in_range(plan, whole.len() as int),
        n <= rows,
    ensures
        row_findings(plan, whole, row_offset, n) == row_findings(plan, first, row_offset, n),
    decreases n,
{
    if n > 0 {
        row_rule_prefix(plan, first, second, whole, rows, row_offset, (n - 1) as nat);
        upper_row(first, second, whole, rows, n - 1);
        match plan {
            RowView::Compare { compare, .. } => {
                same_answer(compare, whole, n - 1, first, n - 1);
            },
            RowView::Conditional { predicate, column, .. } => {
                same_answer(predicate, whole, n - 1, first, n - 1);
                assert(whole[column]@[n - 1] == first[column]@[n - 1]);
            },
        }
    }
}

/// A row rule finds the same rows, however the dataset is cut into batches.
pub proof fn row_rules_ignore_batch_boundaries(
    plan: RowView,
    first: Seq<Vec<Cell>>,
    second: Seq<Vec<Cell>>,
    whole: Seq<Vec<Cell>>,
    rows: nat,
    height: nat,
    row_offset: int,
    n: nat,
)
    requires
        stacked(first, second, whole, rows),
        of_height(second, height),
        row_in_range(plan, whole.len() as int),
        n <= height,
    ensures
        row_findings(plan, whole, row_offset, rows + n) == row_findings(
            plan,
            first,
            row_offset,
            rows,
        ) + row_findings(plan, second, row_offset + rows, n),
    decreases n,
{
    let upper = row_findings(plan, first, row_offset, rows);
    if n == 0 {
        row_rule_prefix(plan, first, second, whole, rows, row_offset, rows);
        assert(row_findings(plan, second, row_offset + rows, 0) =~= Seq::empty());
        assert(upper + Seq::empty() =~= upper);
    } else {
        let m = (n - 1) as nat;
        row_rules_ignore_batch_boundaries(
            plan,
            first,
            second,
            whole,
            rows,
            height,
            row_offset,
            m,
        );
        lower_row(first, second, whole, rows, height, n - 1);
        assert((rows + n - 1) as nat == rows + m);
        assert(rows + n - 1 == rows + (n - 1));
        let lower = row_findings(plan, second, row_offset + rows, m);
        match plan {
            RowView::Compare { compare, .. } => {
                same_answer(compare, whole, rows + n - 1, second, n - 1);
                let all = row_findings(plan, second, row_offset + rows, n);
                if answer(compare, second, n - 1) == Some(false) {
                    assert(upper + lower.push(all.last()) =~= (upper + lower).push(all.last()));
                }
            },
            RowView::Conditional { name, predicate, column, field, assertion, .. } => {
                same_answer(predicate, whole, rows + n - 1, second, n - 1);
                assert(whole[column]@[rows + n - 1] == second[column]@[n - 1]);
                let more = assertion_findings(
                    name,
                    assertion,
                    field,
                    second[column]@[n - 1],
                    ((row_offset + rows) + n - 1) as u64,
                );
                assert(upper + (lower + more) =~= (upper + lower) + more);
            },
        }
    }
}

proof fn same_key(
    key: Seq<usize>,
    a: Seq<Vec<Cell>>,
    i: int,
    b: Seq<Vec<Cell>>,
    j: int,
    n: nat,
)
    requires
        same_row(a, i, b, j),
        indexes_fit(key, a.len() as int),
        n <= key.len(),
    ensures
        composite_bytes(key, a, i, n) == composite_bytes(key, b, j, n),
        unkeyable(key, a, i, n) == unkeyable(key, b, j, n),
        positional(key, a, i, n) == positional(key, b, j, n),
        key_stop(key, a, i, n) == key_stop(key, b, j, n),
        key_has_null(key, a, i) == key_has_null(key, b, j),
    decreases n,
{
    if n > 0 {
        same_key(key, a, i, b, j, (n - 1) as nat);
        let c = key[n - 1] as int;
        assert(a[c]@[i] == b[c]@[j]);
    }
    assert forall|k: int| 0 <= k < key.len() implies a[#[trigger] key[k] as int]@[i]
        == b[key[k] as int]@[j] by {
        let c = key[k] as int;
        assert(a[c]@[i] == b[c]@[j]);
    }
}

/// What two batches that are fed one after the other amount to: an error of the first ends
/// both.
pub open spec fn fed_joined(a: Fed, b: Fed) -> Fed {
    if a.error is Some {
        a
    } else {
        Fed {
            entries: a.entries + b.entries,
            findings: a.findings + b.findings,
            saw_null: a.saw_null || b.saw_null,
            error: b.error,
        }
    }
}

proof fn keys_prefix(
    rule: KeyRule,
    schema: Schema,
    first: Seq<Vec<Cell>>,
    second: Seq<Vec<Cell>>,
    whole: Seq<Vec<Cell>>,
    upper: Seq<bool>,
    lower: Seq<bool>,
    rows: nat,
    row_offset: int,
    n: nat,
)
    requires
        stacked(first, second, whole, rows),
        indexes_fit(rule.key, whole.len() as int),
        upper.len() == rows,
        n <= rows,
    ensures
        fed_keys(rule, schema, whole, upper + lower, row_offset, n) == fed_keys(
            rule,
            schema,
            first,
            upper,
            row_offset,
            n,
        ),
    decreases n,
{
    if n > 0 {
        keys_prefix(
            rule,
            schema,
            first,
            second,
            whole,
            upper,
            lower,
            rows,
            row_offset,
            (n - 1) as nat,
        );
        upper_row(first, second, whole, rows, n - 1);
        same_key(rule.key, whole, n - 1, first, n - 1, rule.key.len());
        assert((upper + lower)[n - 1] == upper[n - 1]);
    }
}

/// A key of several columns feeds the same entries to exact state and finds the same nulls,
/// however the dataset is cut into batches.
pub proof fn keys_ignore_batch_boundaries(
    rule: KeyRule,
    schema: Schema,
    first: Seq<Vec<Cell>>,
    second: Seq<Vec<Cell>>,
    whole: Seq<Vec<Cell>>,
    upper: Seq<bool>,
    lower: Seq<bool>,
    rows: nat,
    row_offset: int,
    n: nat,
)
    requires
        stacked(first, second, whole, rows),
        of_height(second, lower.len()),
        key_in_range(rule.key, schema, whole.len() as int),
        upper.len() == rows,
        n <= lower.len(),
    ensures
        fed_keys(rule, schema, whole, upper + lower, row_offset, rows + n) == fed_joined(
            fed_keys(rule, schema, first, upper, row_offset, rows),
            fed_keys(rule, schema, second, lower, row_offset + rows, n),
        ),
    decreases n,
{
    let a = fed_keys(rule, schema, first, upper, row_offset, rows);
    if n == 0 {
        keys_prefix(
            rule,
            schema,
            first,
            second,
            whole,
            upper,
            lower,
            rows,
            row_offset,
            rows,
        );
        assert(a.entries + Seq::empty() =~= a.entries);
        assert(a.findings + Seq::empty() =~= a.findings);
    } else {
        let m = (n - 1) as nat;
        keys_ignore_batch_boundaries(
            rule,
            schema,
            first,
            second,
            whole,
            upper,
            lower,
            rows,
            row_offset,
            m,
        );
        lower_row(first, second, whole, rows, lower.len(), n - 1);
        same_key(rule.key, whole, rows + n - 1, second, n - 1, rule.key.len());
        assert((upper + lower)[rows + n - 1] == lower[n - 1]);
        assert((rows + n - 1) as nat == rows + m);
        assert(row_offset + (rows + n - 1) == (row_offset + rows) + (n - 1));
        let after = fed_keys(rule, schema, second, lower, row_offset + rows, n);
        let both = fed_keys(rule, schema, whole, upper + lower, row_offset, rows + n);
        if a.error is None {
            assert(both.entries =~= a.entries + after.entries);
            assert(both.findings =~= a.findings + after.findings);
        }
    }
}

proof fn references_prefix(
    rule: ReferenceFeed,
    schema: Schema,
    first: Seq<Vec<Cell>>,
    second: Seq<Vec<Cell>>,
    whole: Seq<Vec<Cell>>,
    rows: nat,
    row_offset: int,
    n: nat,
)
    requires
        stacked(first, second, whole, rows),
        indexes_fit(rule.indexes, whole.len() as int),
        n <= rows,
    ensures
        fed_reference(rule, schema, whole, row_offset, n) == fed_reference(
            rule,
            schema,
            first,
            row_offset,
            n,
        ),
    decreases n,
{
    if n > 0 {
        references_prefix(
            rule,
            schema,
            first,
            second,
            whole,
            rows,
            row_offset,
            (n - 1) as nat,
        );
        upper_row(first, second, whole, rows, n - 1);
        same_key(rule.indexes, whole, n - 1, first, n - 1, rule.indexes.len());
        stopped_cell(rule.indexes, whole, n - 1, first, n - 1);
    }
}

proof fn stopped_cell(
    key: Seq<usize>,
    a: Seq<Vec<Cell>>,
    i: int,
    b: Seq<Vec<Cell>>,
    j: int,
)
    requires
        same_row(a, i, b, j),
        indexes_fit(key, a.len() as int),
    ensures
        key_stop(key, a, i, key.len()) matches Some(k) ==> 0 <= k < key.len()
            && a[key[k] as int]@[i] == b[key[k] as int]@[j],
{
    stop_in_range(key, a, i, key.len());
    match key_stop(key, a, i, key.len()) {
        Some(k) => {
            let c = key[k] as int;
            assert(a[c]@[i] == b[c]@[j]);
        },
        None => {},
    }
}

proof fn stop_in_range(key: Seq<usize>, columns: Seq<Vec<Cell>>, row: int, n: nat)
    ensures
        key_stop(key, columns, row, n) matches Some(k) ==> 0 <= k < n,
    decreases n,
{
    if n > 0 {
        stop_in_range(key, columns, row, (n - 1) as nat);
    }
}

/// A reference rule looks up the same keys and finds the same nulls, however the dataset is
/// cut into batches.
pub proof fn references_ignore_batch_boundaries(
    rule: ReferenceFeed,
    schema: Schema,
    first: Seq<Vec<Cell>>,
    second: Seq<Vec<Cell>>,
    whole: Seq<Vec<Cell>>,
    rows: nat,
    height: nat,
    row_offset: int,
    n: nat,
)
    requires
        stacked(first, second, whole, rows),
        of_height(second, height),
        indexes_fit(rule.indexes, whole.len() as int),
        n <= height,
    ensures
        fed_reference(rule, schema, whole, row_offset, rows + n) == fed_joined(
            fed_reference(rule, schema, first, row_offset, rows),
            fed_reference(rule, schema, second, row_offset + rows, n),
        ),
    decreases n,
{
    let a = fed_reference(rule, schema, first, row_offset, rows);
    if n == 0 {
        references_prefix(rule, schema, first, second, whole, rows, row_offset, rows);
        assert(a.entries + Seq::empty() =~= a.entries);
        assert(a.findings + Seq::empty() =~= a.findings);
    } else {
        let m = (n - 1) as nat;
        references_ignore_batch_boundaries(
            rule,
            schema,
            first,
            second,
            whole,
            rows,
            height,
            row_offset,
            m,
        );
        lower_row(first, second, whole, rows, height, n - 1);
        same_key(rule.indexes, whole, rows + n - 1, second, n - 1, rule.indexes.len());
        stopped_cell(rule.indexes, whole, rows + n - 1, second, n - 1);
        assert((rows + n - 1) as nat == rows + m);
        assert(row_offset + (rows + n - 1) == (row_offset + rows) + (n - 1));
        let after = fed_reference(rule, schema, second, row_offset + rows, n);
        let both = fed_reference(rule, schema, whole, row_offset, rows + n);
        if a.error is None {
            assert(both.entries =~= a.entries + after.entries);
            assert(both.findings =~= a.findings + after.findings);
        }
    }
}

} // verus!
