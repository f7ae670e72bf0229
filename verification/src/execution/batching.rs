//! What rules say does not depend on how a dataset is cut into batches.

use crate::contract::dataset::{GapDetectionPlan, MonotonicityPlan};
use crate::contract::rules::RulesView;
use crate::execution::dataset_state::nulls_in;
use crate::execution::exact_rules::fed_column;
use crate::execution::kernels::column_findings;
use crate::execution::ordering::{steps, trail, Place, Steps, Trail};
use crate::execution::total::sum_of;
use crate::value::Cell;
use vstd::prelude::*;

verus! {

/// A trail over two batches: the second goes on where the first ended, and an error of the
/// first ends both.
pub open spec fn trail_joined(a: Trail, b: Trail) -> Trail {
    if a.error is Some {
        a
    } else {
        Trail { findings: a.findings + b.findings, last: b.last, error: b.error }
    }
}

/// An ordering rule finds the same in a column, however it is cut into batches: the last
/// value of one batch is compared with the first of the next.
pub proof fn order_ignores_batch_boundaries(
    plan: MonotonicityPlan,
    shown: Seq<char>,
    a: Seq<Cell>,
    b: Seq<Cell>,
    row_offset: int,
    last: Option<Place>,
    n: nat,
)
    requires
        n <= b.len(),
    ensures
        ({
            let first = trail(plan, shown, a, row_offset, last, a.len());
            trail(plan, shown, a + b, row_offset, last, a.len() + n) == trail_joined(
                first,
                trail(plan, shown, b, row_offset + a.len(), first.last, n),
            )
        }),
    decreases n,
{
    let first = trail(plan, shown, a, row_offset, last, a.len());
    if n == 0 {
        trail_prefix(plan, shown, a, a + b, row_offset, last, a.len());
        assert(first.findings + Seq::empty() =~= first.findings);
    } else {
        order_ignores_batch_boundaries(plan, shown, a, b, row_offset, last, (n - 1) as nat);
        let m = (n - 1) as nat;
        assert((a + b)[(a.len() + n - 1) as int] == b[n - 1]);
        assert((a.len() + n - 1) as nat == a.len() + m);
        assert((row_offset + (a.len() + n) - 1) as u64 == ((row_offset + a.len()) + n - 1) as u64);
        let before = trail(plan, shown, b, row_offset + a.len(), first.last, m);
        let after = trail(plan, shown, b, row_offset + a.len(), first.last, n);
        let joined = trail(plan, shown, a + b, row_offset, last, a.len() + n);
        if first.error is None {
            if after.findings.len() > before.findings.len() {
                assert(after.findings =~= before.findings.push(after.findings.last()));
                assert(first.findings + after.findings =~= (first.findings + before.findings).push(
                    after.findings.last(),
                ));
            }
            assert(joined.findings =~= first.findings + after.findings);
        }
    }
}

proof fn trail_prefix(
    plan: MonotonicityPlan,
    shown: Seq<char>,
    a: Seq<Cell>,
    b: Seq<Cell>,
    row_offset: int,
    last: Option<Place>,
    n: nat,
)
    requires
        n <= a.len(),
        n <= b.len(),
        forall|i: int| 0 <= i < n ==> a[i] == b[i],
    ensures
        trail(plan, shown, a, row_offset, last, n) == trail(plan, shown, b, row_offset, last, n),
    decreases n,
{
    if n > 0 {
        trail_prefix(plan, shown, a, b, row_offset, last, (n - 1) as nat);
    }
}

/// A step rule counts the same steps in a column, however it is cut into batches.
pub proof fn steps_ignore_batch_boundaries(
    start: Steps,
    plan: GapDetectionPlan,
    shown: Seq<char>,
    a: Seq<Cell>,
    b: Seq<Cell>,
    long_a: Seq<bool>,
    long_b: Seq<bool>,
    row_offset: int,
    n: nat,
)
    requires
        n <= b.len(),
        long_a.len() == a.len(),
        long_b.len() == b.len(),
    ensures
        steps(start, plan, shown, a + b, long_a + long_b, row_offset, a.len() + n) == steps(
            steps(start, plan, shown, a, long_a, row_offset, a.len()),
            plan,
            shown,
            b,
            long_b,
            row_offset + a.len(),
            n,
        ),
    decreases n,
{
    if n == 0 {
        steps_prefix(start, plan, shown, a, a + b, long_a, long_a + long_b, row_offset, a.len());
    } else {
        steps_ignore_batch_boundaries(
            start,
            plan,
            shown,
            a,
            b,
            long_a,
            long_b,
            row_offset,
            (n - 1) as nat,
        );
        assert((a + b)[(a.len() + n - 1) as int] == b[n - 1]);
        assert((long_a + long_b)[(a.len() + n - 1) as int] == long_b[n - 1]);
        assert((a.len() + n - 1) as nat == a.len() + (n - 1) as nat);
        assert((row_offset + (a.len() + n) - 1) as u64 == ((row_offset + a.len()) + n - 1) as u64);
    }
}

proof fn steps_prefix(
    start: Steps,
    plan: GapDetectionPlan,
    shown: Seq<char>,
    a: Seq<Cell>,
    b: Seq<Cell>,
    long_a: Seq<bool>,
    long_b: Seq<bool>,
    row_offset: int,
    n: nat,
)
    requires
        n <= a.len(),
        n <= b.len(),
        forall|i: int| 0 <= i < n ==> a[i] == b[i],
        forall|i: int| 0 <= i < n ==> long_a[i] == long_b[i],
    ensures
        steps(start, plan, shown, a, long_a, row_offset, n) == steps(
            start,
            plan,
            shown,
            b,
            long_b,
            row_offset,
            n,
        ),
    decreases n,
{
    if n > 0 {
        steps_prefix(start, plan, shown, a, b, long_a, long_b, row_offset, (n - 1) as nat);
    }
}

/// A total and a count of nulls are the same, however a column is cut into batches.
pub proof fn totals_ignore_batch_boundaries(a: Seq<Cell>, b: Seq<Cell>, n: nat)
    requires
        n <= b.len(),
    ensures
        sum_of(a + b, a.len() + n) == sum_of(a, a.len()) + sum_of(b, n),
        nulls_in(a + b, a.len() + n) == nulls_in(a, a.len()) + nulls_in(b, n),
    decreases n,
{
    if n == 0 {
        totals_prefix(a, a + b, a.len());
    } else {
        totals_ignore_batch_boundaries(a, b, (n - 1) as nat);
        assert((a + b)[(a.len() + n - 1) as int] == b[n - 1]);
        assert((a.len() + n - 1) as nat == a.len() + (n - 1) as nat);
    }
}

proof fn totals_prefix(a: Seq<Cell>, b: Seq<Cell>, n: nat)
    requires
        n <= a.len(),
        n <= b.len(),
        forall|i: int| 0 <= i < n ==> a[i] == b[i],
    ensures
        sum_of(a, n) == sum_of(b, n),
        nulls_in(a, n) == nulls_in(b, n),
    decreases n,
{
    if n > 0 {
        totals_prefix(a, b, (n - 1) as nat);
    }
}

/// The rules of a column find the same, however the column is cut into batches.
pub proof fn columns_ignore_batch_boundaries(
    rules: RulesView,
    column: Seq<char>,
    a: Seq<Cell>,
    b: Seq<Cell>,
    row_offset: int,
    n: nat,
)
    requires
        n <= b.len(),
    ensures
        column_findings(rules, column, a + b, row_offset, a.len() + n) == column_findings(
            rules,
            column,
            a,
            row_offset,
            a.len(),
        ) + column_findings(rules, column, b, row_offset + a.len(), n),
    decreases n,
{
    let first = column_findings(rules, column, a, row_offset, a.len());
    if n == 0 {
        columns_prefix(rules, column, a, a + b, row_offset, a.len());
        assert(first + Seq::empty() =~= first);
    } else {
        columns_ignore_batch_boundaries(rules, column, a, b, row_offset, (n - 1) as nat);
        assert((a + b)[(a.len() + n - 1) as int] == b[n - 1]);
        assert((a.len() + n - 1) as nat == a.len() + (n - 1) as nat);
        assert((row_offset + (a.len() + n) - 1) as u64 == ((row_offset + a.len()) + n - 1) as u64);
        assert(column_findings(rules, column, a + b, row_offset, a.len() + n) =~= first
            + column_findings(rules, column, b, row_offset + a.len(), n));
    }
}

proof fn columns_prefix(
    rules: RulesView,
    column: Seq<char>,
    a: Seq<Cell>,
    b: Seq<Cell>,
    row_offset: int,
    n: nat,
)
    requires
        n <= a.len(),
        n <= b.len(),
        forall|i: int| 0 <= i < n ==> a[i] == b[i],
    ensures
        column_findings(rules, column, a, row_offset, n) == column_findings(
            rules,
            column,
            b,
            row_offset,
            n,
        ),
    decreases n,
{
    if n > 0 {
        columns_prefix(rules, column, a, b, row_offset, (n - 1) as nat);
    }
}

/// A column feeds the same entries to exact state, however it is cut into batches.
pub proof fn feeds_ignore_batch_boundaries(
    a: Seq<Cell>,
    b: Seq<Cell>,
    shown: Seq<char>,
    nested: bool,
    row_offset: int,
    n: nat,
)
    requires
        n <= b.len(),
        fed_column(a, shown, nested, row_offset, a.len()).error is None,
    ensures
        ({
            let first = fed_column(a, shown, nested, row_offset, a.len());
            let second = fed_column(b, shown, nested, row_offset + a.len(), n);
            let both = fed_column(a + b, shown, nested, row_offset, a.len() + n);
            &&& both.entries == first.entries + second.entries
            &&& both.saw_null == (first.saw_null || second.saw_null)
            &&& both.error == second.error
        }),
    decreases n,
{
    let first = fed_column(a, shown, nested, row_offset, a.len());
    if n == 0 {
        feeds_prefix(a, a + b, shown, nested, row_offset, a.len());
        assert(first.entries + Seq::empty() =~= first.entries);
    } else {
        feeds_ignore_batch_boundaries(a, b, shown, nested, row_offset, (n - 1) as nat);
        assert((a + b)[(a.len() + n - 1) as int] == b[n - 1]);
        assert((a.len() + n - 1) as nat == a.len() + (n - 1) as nat);
        assert((row_offset + (a.len() + n) - 1) as u64 == ((row_offset + a.len()) + n - 1) as u64);
        let before = fed_column(b, shown, nested, row_offset + a.len(), (n - 1) as nat);
        let second = fed_column(b, shown, nested, row_offset + a.len(), n);
        let both = fed_column(a + b, shown, nested, row_offset, a.len() + n);
        assert(both.entries =~= first.entries + second.entries);
    }
}

proof fn feeds_prefix(
    a: Seq<Cell>,
    b: Seq<Cell>,
    shown: Seq<char>,
    nested: bool,
    row_offset: int,
    n: nat,
)
    requires
        n <= a.len(),
        n <= b.len(),
        forall|i: int| 0 <= i < n ==> a[i] == b[i],
    ensures
        fed_column(a, shown, nested, row_offset, n) == fed_column(b, shown, nested, row_offset, n),
    decreases n,
{
    if n > 0 {
        feeds_prefix(a, b, shown, nested, row_offset, (n - 1) as nat);
    }
}

} // verus!
