//! What rules over rows and datasets find, in terms of what the cells hold.

use crate::contract::ast::{CompareOpAst, CountRangeAst, ExclusiveModeAst, NullPolicyAst};
use crate::contract::dataset::{
    GapDetectionPlan, MutuallyExclusivePlan, RatioPlan, RowCountDeltaPlan, StatisticPlan, SumBounds,
    SumPlan,
};
use crate::contract::row::{CompareView, OperandView};
use crate::contract::rules::RulesView;
use crate::encoding::{encoded, item_of};
use crate::execution::balance::{
    balance_finding, dominant_finding, value_key, BalanceEqualPlan, BalanceTotals, DominantShare,
    DominantValuePlan,
};
use crate::execution::dataset_finish::{
    count_in, gap_finding, null_ratio_finding, ratio_in, row_count_finding, statistic_finding,
    sum_finding, Statistic,
};
use crate::execution::dataset_state::nulls_in;
use crate::execution::exclusive::{breaks, exclusive_findings, filled, row_fills};
use crate::execution::kernels::broken_rules;
use crate::execution::meaning::whole;
use crate::execution::ordering::GapState;
use crate::execution::reference_state::delta_finding;
use crate::execution::row_kernels::{
    answer, assertion_findings, comparable, compare_findings, conditional_findings, holds,
    literal_for, null_answer,
};
use crate::execution::total::{float_outside, sum_of, Measured};
use crate::execution::validation::FindingView;
use crate::numbers::{
    binary_places, exponent64, fraction64, fraction_order, in_unit_interval, key64, nan64, order_of,
    significand64,
};
use crate::profile::agreement::{floats64_order_as_numbers, scaled, units64};
use crate::value::Cell;
use vstd::arithmetic::power2::{lemma_pow2_adds, lemma_pow2_pos, pow2};
use vstd::prelude::*;

verus! {

/// Whether a finding stands at a row.
pub open spec fn found_at(findings: Seq<FindingView>, row: u64) -> bool {
    exists|k: int| 0 <= k < findings.len() && (#[trigger] findings[k]).row == Some(row)
}

/// Whether every finding stands at a row below another.
pub open spec fn found_below(findings: Seq<FindingView>, row: int) -> bool {
    forall|k: int|
        0 <= k < findings.len() ==> ((#[trigger] findings[k]).row matches Some(r) && r < row)
}

proof fn found_in_either(a: Seq<FindingView>, b: Seq<FindingView>, row: u64)
    ensures
        found_at(a + b, row) <==> found_at(a, row) || found_at(b, row),
{
    let c = a + b;
    if found_at(a, row) {
        let k = choose|k: int| 0 <= k < a.len() && (#[trigger] a[k]).row == Some(row);
        assert(c[k] == a[k]);
    }
    if found_at(b, row) {
        let k = choose|k: int| 0 <= k < b.len() && (#[trigger] b[k]).row == Some(row);
        assert(c[a.len() + k] == b[k]);
    }
    if found_at(c, row) {
        let k = choose|k: int| 0 <= k < c.len() && (#[trigger] c[k]).row == Some(row);
        if k < a.len() {
            assert(a[k].row == Some(row));
        } else {
            assert(b[k - a.len()].row == Some(row));
        }
    }
}

proof fn below_in_both(a: Seq<FindingView>, b: Seq<FindingView>, row: int)
    requires
        found_below(a, row),
        found_below(b, row),
    ensures
        found_below(a + b, row),
{
    let c = a + b;
    assert forall|k: int| 0 <= k < c.len() implies ((#[trigger] c[k]).row matches Some(r) && r
        < row) by {
        if k < a.len() {
            assert(c[k] == a[k]);
        } else {
            assert(c[k] == b[k - a.len()]);
        }
    }
}

/// The places, among the first `n` columns of a rule, that a row fills.
pub open spec fn filled_places(
    plan: MutuallyExclusivePlan,
    columns: Seq<Vec<Cell>>,
    row: int,
    n: nat,
) -> Seq<int> {
    Seq::new(n, |i: int| i).filter(|i: int| !(columns[plan.columns@[i] as int]@[row] is Null))
}

proof fn filled_by_places(
    plan: MutuallyExclusivePlan,
    columns: Seq<Vec<Cell>>,
    row: int,
    n: nat,
)
    ensures
        filled(plan, columns, row, n) == filled_places(plan, columns, row, n).map_values(
            |i: int| plan.names@[i]@,
        ),
        forall|k: int|
            0 <= k < filled_places(plan, columns, row, n).len() ==> 0 <= #[trigger] filled_places(
                plan,
                columns,
                row,
                n,
            )[k] < n && !(columns[plan.columns@[filled_places(plan, columns, row, n)[k]] as int]@[row] is Null),
        forall|i: int|
            0 <= i < n && !(columns[#[trigger] plan.columns@[i] as int]@[row] is Null)
                ==> filled_places(plan, columns, row, n).contains(i),
        forall|j: int, k: int|
            0 <= j < k < filled_places(plan, columns, row, n).len() ==> #[trigger] filled_places(
                plan,
                columns,
                row,
                n,
            )[j] < #[trigger] filled_places(plan, columns, row, n)[k],
    decreases n,
{
    reveal(Seq::filter);
    let name = |i: int| plan.names@[i]@;
    let b = filled_places(plan, columns, row, n);
    if n == 0 {
        assert(b =~= Seq::empty());
        assert(filled(plan, columns, row, n) =~= b.map_values(name));
    } else {
        let m = (n - 1) as nat;
        filled_by_places(plan, columns, row, m);
        let a = filled_places(plan, columns, row, m);
        assert(Seq::new(n, |i: int| i).drop_last() =~= Seq::new(m, |i: int| i));
        let null = columns[plan.columns@[n - 1] as int]@[row] is Null;
        assert(b == if null {
            a
        } else {
            a.push(n - 1)
        });
        assert(filled(plan, columns, row, n) =~= b.map_values(name));
        assert forall|i: int|
            0 <= i < n && !(columns[#[trigger] plan.columns@[i] as int]@[row] is Null) implies b.contains(
            i) by {
            if i < m {
                let k = choose|k: int| 0 <= k < a.len() && a[k] == i;
                assert(b[k] == i);
            } else {
                assert(b[b.len() - 1] == i);
            }
        }
    }
}

/// Whether a row fills a column of a rule.
pub open spec fn fills(plan: MutuallyExclusivePlan, columns: Seq<Vec<Cell>>, row: int, i: int) -> bool {
    0 <= i < plan.columns@.len() && !(columns[plan.columns@[i] as int]@[row] is Null)
}

/// A row breaks a rule of mutual exclusion where it fills two of its columns, and under one that
/// wants exactly one also where it fills none. The columns that it names are those that it fills.
pub proof fn exclusion_counts_filled_columns(
    plan: MutuallyExclusivePlan,
    columns: Seq<Vec<Cell>>,
    row: int,
)
    ensures
        ({
            let two = exists|i: int, j: int|
                i < j && #[trigger] fills(plan, columns, row, i) && #[trigger] fills(
                    plan,
                    columns,
                    row,
                    j,
                );
            let one = exists|i: int| #[trigger] fills(plan, columns, row, i);
            &&& breaks(plan, columns, row) <==> two || (plan.mode == ExclusiveModeAst::ExactlyOne
                && !one)
            &&& row_fills(plan, columns, row) == filled_places(
                plan,
                columns,
                row,
                plan.columns@.len(),
            ).map_values(|i: int| plan.names@[i]@)
        }),
{
    let n = plan.columns@.len();
    filled_by_places(plan, columns, row, n);
    let places = filled_places(plan, columns, row, n);
    if places.len() > 0 {
        assert(fills(plan, columns, row, places[0]));
    }
    if places.len() > 1 {
        assert(places[0] < places[1]);
        assert(fills(plan, columns, row, places[0]) && fills(plan, columns, row, places[1]));
    }
    if exists|i: int| #[trigger] fills(plan, columns, row, i) {
        let i = choose|i: int| #[trigger] fills(plan, columns, row, i);
        assert(!(columns[plan.columns@[i] as int]@[row] is Null));
        assert(places.contains(i));
    }
    if exists|i: int, j: int|
        i < j && #[trigger] fills(plan, columns, row, i) && #[trigger] fills(plan, columns, row, j) {
        let (i, j) = choose|i: int, j: int|
            i < j && #[trigger] fills(plan, columns, row, i) && #[trigger] fills(
                plan,
                columns,
                row,
                j,
            );
        assert(!(columns[plan.columns@[i] as int]@[row] is Null));
        assert(!(columns[plan.columns@[j] as int]@[row] is Null));
        let p = choose|p: int| 0 <= p < places.len() && places[p] == i;
        let q = choose|q: int| 0 <= q < places.len() && places[q] == j;
        assert(p != q);
    }
}

/// A rule of mutual exclusion reports exactly the rows that break it.
pub proof fn rows_that_break_exclusion_are_found(
    plan: MutuallyExclusivePlan,
    columns: Seq<Vec<Cell>>,
    row_offset: int,
    n: nat,
)
    requires
        0 <= row_offset,
        row_offset + n <= u64::MAX,
    ensures
        forall|i: int|
            0 <= i < n ==> (#[trigger] breaks(plan, columns, i) <==> found_at(
                exclusive_findings(plan, columns, row_offset, n),
                (row_offset + i) as u64,
            )),
        found_below(exclusive_findings(plan, columns, row_offset, n), row_offset + n),
    decreases n,
{
    if n > 0 {
        let m = (n - 1) as nat;
        rows_that_break_exclusion_are_found(plan, columns, row_offset, m);
        let rest = exclusive_findings(plan, columns, row_offset, m);
        let all = exclusive_findings(plan, columns, row_offset, n);
        let more = all.skip(rest.len() as int);
        assert(all =~= rest + more);
        assert(breaks(plan, columns, n - 1) ==> more.len() == 1 && more[0].row == Some(
            (row_offset + n - 1) as u64,
        ));
        below_in_both(rest, more, row_offset + n);
        assert forall|i: int| 0 <= i < n implies (#[trigger] breaks(plan, columns, i) <==> found_at(
            all,
            (row_offset + i) as u64,
        )) by {
            found_in_either(rest, more, (row_offset + i) as u64);
        }
    }
}

/// A total counts every integer of its column once, with its sign, and passes over nulls.
pub proof fn totals_count_every_integer(cells: Seq<Cell>, n: nat)
    requires
        n < cells.len(),
        cells[n as int] is Null || (whole(cells[n as int]) is Some && !(cells[n as int] is Date32)
            && !(cells[n as int] is Date64) && !(cells[n as int] is Timestamp)
            && !(cells[n as int] is Decimal128)),
    ensures
        sum_of(cells, 0) == 0,
        sum_of(cells, n + 1) == sum_of(cells, n) + match whole(cells[n as int]) {
            Some(v) => v,
            None => 0,
        },
{
}

/// The nulls of a column are counted one by one.
pub proof fn nulls_are_counted(cells: Seq<Cell>, n: nat)
    requires
        n <= cells.len(),
    ensures
        nulls_in(cells, n) == cells.take(n as int).filter(|c: Cell| c is Null).len(),
    decreases n,
{
    reveal(Seq::filter);
    if n > 0 {
        nulls_are_counted(cells, (n - 1) as nat);
        assert(cells.take(n as int).drop_last() =~= cells.take(n - 1));
        assert(cells.take(n as int).last() == cells[n - 1]);
    } else {
        assert(cells.take(0) =~= Seq::empty());
    }
}

/// An integer total breaks its rule exactly where it lies below the lower limit or above the
/// upper one; a total of floats where its number does.
pub proof fn totals_break_their_limits(plan: SumPlan, sum: i128, measured: Measured)
    requires
        plan.bounds matches SumBounds::Float { min, max } ==> !nan64(measured.bits) && (
        min matches Some(b) ==> !nan64(b)) && (max matches Some(b) ==> !nan64(b)),
    ensures
        sum_finding(plan, sum, measured).len() <= 1,
        sum_finding(plan, sum, measured).len() == 1 <==> match plan.bounds {
            SumBounds::Integer { low, high } => (low matches Some(l) && sum < l) || (
            high matches Some(h) && sum > h),
            SumBounds::Float { min, max } => (min matches Some(l) && units64(measured.bits)
                < units64(l)) || (max matches Some(h) && units64(measured.bits) > units64(h)),
        },
        sum_finding(plan, sum, measured).len() == 1 ==> sum_finding(plan, sum, measured)[0].column
            == plan.column@,
{
    if let SumBounds::Float { min, max } = plan.bounds {
        floats_lie_outside(measured, min, max);
    }
}

/// A float lies outside its limits exactly where its number is less than the lower one or
/// greater than the upper one.
pub proof fn floats_lie_outside(m: Measured, min: Option<u64>, max: Option<u64>)
    requires
        !nan64(m.bits),
        min matches Some(b) ==> !nan64(b),
        max matches Some(b) ==> !nan64(b),
    ensures
        float_outside(m, min, max) is Some <==> (min matches Some(l) && units64(m.bits) < units64(l))
            || (max matches Some(h) && units64(m.bits) > units64(h)),
{
    if let Some(l) = min {
        floats64_order_as_numbers(m.bits, l);
    }
    if let Some(h) = max {
        floats64_order_as_numbers(h, m.bits);
    }
}

/// A statistic breaks its rule where there was no value to take it from, or where it lies
/// outside its limits.
pub proof fn statistics_break_their_limits(plan: StatisticPlan, observed: Option<Statistic>)
    requires
        observed matches Some(s) ==> !nan64(s.measured.bits),
        plan.min matches Some(b) ==> !nan64(b),
        plan.max matches Some(b) ==> !nan64(b),
    ensures
        statistic_finding(plan, observed).len() <= 1,
        statistic_finding(plan, observed).len() == 1 <==> match observed {
            None => true,
            Some(s) => (plan.min matches Some(l) && units64(s.measured.bits) < units64(l)) || (
            plan.max matches Some(h) && units64(s.measured.bits) > units64(h)),
        },
{
    if let Some(s) = observed {
        floats_lie_outside(s.measured, plan.min, plan.max);
    }
}

/// A step rule is broken exactly where more steps are too long than it allows, and is reported
/// at the first of them.
pub proof fn steps_break_their_limit(plan: GapDetectionPlan, state: GapState, step: Seq<char>)
    ensures
        gap_finding(plan, state, step).len() == if state.gaps > plan.max_gaps {
            1nat
        } else {
            0nat
        },
        gap_finding(plan, state, step).len() == 1 ==> gap_finding(plan, state, step)[0].row
            == state.first_row,
{
}

/// A count breaks a range exactly where it differs from the exact number, is less than the least
/// or greater than the greatest.
pub proof fn counts_break_their_range(range: CountRangeAst, rows: u64)
    ensures
        !count_in(range, rows) <==> (range.exact matches Some(e) && rows != e) || (
        range.min matches Some(e) && rows < e) || (range.max matches Some(e) && rows > e),
        row_count_finding(Some(range), rows).len() == if count_in(range, rows) {
            0nat
        } else {
            1nat
        },
        row_count_finding(None, rows).len() == 0,
{
}

/// A fraction and a float from zero to one are compared exactly: as the fraction and the number
/// that the float stands for, with no rounding.
pub proof fn fractions_are_compared_exactly(part: u64, all: u64, bound: u64)
    requires
        all > 0,
        in_unit_interval(bound),
    ensures
        fraction_order(part, all, bound) == order_of(
            part * pow2(1075) as int,
            all * units64(bound),
        ),
{
    let one: u64 = 0x3FF0_0000_0000_0000;
    lemma_pow2_pos(1075);
    if key64(bound) <= 0 {
        assert(bound == 0 || bound == 0x8000_0000_0000_0000);
        assert(units64(bound) == 0) by {
            assert(0nat / 0x10_0000_0000_0000nat == 0);
            assert(scaled(0, 0x10_0000_0000_0000, 0) == 0nat * pow2(1));
            assert(0nat * pow2(1) == 0) by (nonlinear_arith);
        }
        scaled_order(part as int, 0, pow2(1075) as int);
        assert(all * 0 == 0);
        assert(0 * pow2(1075) == 0) by (nonlinear_arith);
    } else if key64(bound) >= one {
        assert(bound == one);
        assert(one as nat / 0x10_0000_0000_0000nat == 1023);
        assert(one as nat % 0x10_0000_0000_0000nat == 0);
        assert(units64(bound) == 0x10_0000_0000_0000nat * pow2(1023));
        vstd::arithmetic::power2::lemma2_to64();
        vstd::arithmetic::power2::lemma2_to64_rest();
        assert(pow2(52) == 0x10_0000_0000_0000nat);
        lemma_pow2_adds(52, 1023);
        scaled_order(part as int, all as int, pow2(1075) as int);
    } else {
        let e = exponent64(bound);
        let f = fraction64(bound);
        assert(bound < 0x8000_0000_0000_0000);
        assert(e == bound as nat / 0x10_0000_0000_0000nat && e < 1023);
        let places = binary_places(bound);
        let sig = significand64(bound);
        let shift: nat = if e == 0 {
            1
        } else {
            e
        };
        assert(places + shift == 1075);
        assert(units64(bound) == sig * pow2(shift));
        lemma_pow2_adds(places, shift);
        lemma_pow2_pos(shift);
        scaled_order(part * pow2(places), all * sig, pow2(shift) as int);
        assert((part * pow2(places)) * pow2(shift) == part * pow2(1075)) by (nonlinear_arith)
            requires
                pow2(places) * pow2(shift) == pow2(1075),
        ;
        assert((all * sig) * pow2(shift) == all * (sig * pow2(shift))) by (nonlinear_arith);
    }
}

proof fn scaled_order(a: int, b: int, k: int)
    requires
        k > 0,
    ensures
        order_of(a, b) == order_of(a * k, b * k),
{
    assert(a < b <==> a * k < b * k) by (nonlinear_arith)
        requires
            k > 0,
    ;
    assert(a == b <==> a * k == b * k) by (nonlinear_arith)
        requires
            k > 0,
    ;
}

/// The share of nulls in a column breaks its rule exactly where it is less than the least share
/// or greater than the greatest.
pub proof fn shares_break_their_range(plan: RatioPlan, nulls: u64, rows: u64, shown: Seq<char>)
    requires
        rows > 0,
        plan.range.min matches Some(b) ==> in_unit_interval(b),
        plan.range.max matches Some(b) ==> in_unit_interval(b),
    ensures
        !ratio_in(plan.range, nulls, rows) <==> (plan.range.min matches Some(b) && nulls * pow2(
            1075,
        ) < rows * units64(b)) || (plan.range.max matches Some(b) && nulls * pow2(1075) > rows
            * units64(b)),
        null_ratio_finding(plan, nulls, rows, shown).len() == if ratio_in(
            plan.range,
            nulls,
            rows,
        ) {
            0nat
        } else {
            1nat
        },
{
    if let Some(b) = plan.range.min {
        fractions_are_compared_exactly(nulls, rows, b);
    }
    if let Some(b) = plan.range.max {
        fractions_are_compared_exactly(nulls, rows, b);
    }
}

/// A null on a side of a comparison leaves the row without a verdict where the rule skips nulls
/// and fails it where the rule says so. Where nulls are equal, two of them are, a null and a
/// value are not, and nothing is less or greater.
pub proof fn nulls_are_judged_by_policy(left: bool, right: bool, op: CompareOpAst)
    requires
        left || right,
    ensures
        null_answer(left, right, op, NullPolicyAst::Skip) is None,
        null_answer(left, right, op, NullPolicyAst::Fail) == Some(false),
        null_answer(left, right, op, NullPolicyAst::Equal) == Some(true) <==> (op
            == CompareOpAst::Eq && left && right) || (op == CompareOpAst::Ne && !(left && right)),
        null_answer(left, right, op, NullPolicyAst::Equal) is Some,
{
}

/// The cell of a row in the column of an operand, or what stands for a literal.
pub open spec fn side_is_null(side: OperandView, columns: Seq<Vec<Cell>>, row: int) -> bool {
    side matches OperandView::Column { column_index, .. } && columns[column_index]@[row] is Null
}

/// A comparison of two columns looks at both cells of the row: where neither is null it says
/// whether the comparison holds of the left one and the right one.
pub proof fn rows_are_judged_by_both_sides(plan: CompareView, columns: Seq<Vec<Cell>>, row: int)
    requires
        !side_is_null(plan.left, columns, row),
        !side_is_null(plan.right, columns, row),
    ensures
        plan.left matches OperandView::Column { column_index: l, .. } ==> (
        plan.right matches OperandView::Column { column_index: r, .. } ==> answer(
            plan,
            columns,
            row,
        ) == Some(holds(plan.op, comparable(columns[l]@[row]), comparable(columns[r]@[row])))),
        plan.left matches OperandView::Column { column_index: l, kernel, .. } ==> (
        plan.right matches OperandView::Literal(v) ==> answer(plan, columns, row) == Some(
            holds(plan.op, comparable(columns[l]@[row]), literal_for(kernel, v)),
        )),
        plan.left matches OperandView::Literal(v) ==> (
        plan.right matches OperandView::Column { column_index: r, kernel, .. } ==> answer(
            plan,
            columns,
            row,
        ) == Some(holds(plan.op, literal_for(kernel, v), comparable(columns[r]@[row])))),
{
}

/// A comparison reports exactly the rows of which it says that it does not hold.
pub proof fn rows_that_fail_a_comparison_are_found(
    name: Seq<char>,
    plan: CompareView,
    columns: Seq<Vec<Cell>>,
    row_offset: int,
    n: nat,
)
    requires
        0 <= row_offset,
        row_offset + n <= u64::MAX,
    ensures
        forall|i: int|
            0 <= i < n ==> (#[trigger] answer(plan, columns, i) == Some(false) <==> found_at(
                compare_findings(name, plan, columns, row_offset, n),
                (row_offset + i) as u64,
            )),
        found_below(compare_findings(name, plan, columns, row_offset, n), row_offset + n),
    decreases n,
{
    if n > 0 {
        let m = (n - 1) as nat;
        rows_that_fail_a_comparison_are_found(name, plan, columns, row_offset, m);
        let rest = compare_findings(name, plan, columns, row_offset, m);
        let all = compare_findings(name, plan, columns, row_offset, n);
        let more = all.skip(rest.len() as int);
        assert(all =~= rest + more);
        assert(answer(plan, columns, n - 1) == Some(false) ==> more.len() == 1 && more[0].row
            == Some((row_offset + n - 1) as u64));
        below_in_both(rest, more, row_offset + n);
        assert forall|i: int| 0 <= i < n implies (#[trigger] answer(plan, columns, i) == Some(false)
            <==> found_at(all, (row_offset + i) as u64)) by {
            found_in_either(rest, more, (row_offset + i) as u64);
        }
    }
}

/// A conditional rule reports exactly the rows of which its condition holds and whose value
/// breaks a rule.
pub proof fn rows_under_a_condition_are_found(
    name: Seq<char>,
    predicate: CompareView,
    rules: RulesView,
    field: Seq<char>,
    column: int,
    columns: Seq<Vec<Cell>>,
    row_offset: int,
    n: nat,
)
    requires
        0 <= row_offset,
        row_offset + n <= u64::MAX,
    ensures
        forall|i: int|
            0 <= i < n ==> ((#[trigger] answer(predicate, columns, i) == Some(true)
                && broken_rules(rules, columns[column]@[i]).len() > 0) <==> found_at(
                conditional_findings(
                    name,
                    predicate,
                    rules,
                    field,
                    column,
                    columns,
                    row_offset,
                    n,
                ),
                (row_offset + i) as u64,
            )),
        found_below(
            conditional_findings(name, predicate, rules, field, column, columns, row_offset, n),
            row_offset + n,
        ),
    decreases n,
{
    if n > 0 {
        let m = (n - 1) as nat;
        rows_under_a_condition_are_found(
            name,
            predicate,
            rules,
            field,
            column,
            columns,
            row_offset,
            m,
        );
        let rest = conditional_findings(
            name,
            predicate,
            rules,
            field,
            column,
            columns,
            row_offset,
            m,
        );
        let all = conditional_findings(
            name,
            predicate,
            rules,
            field,
            column,
            columns,
            row_offset,
            n,
        );
        let more = all.skip(rest.len() as int);
        let here = (row_offset + n - 1) as u64;
        assert(all =~= rest + more);
        if answer(predicate, columns, n - 1) == Some(true) {
            let own = assertion_findings(name, rules, field, columns[column]@[n - 1], here);
            assert(more =~= own);
            assert(own.len() == broken_rules(rules, columns[column]@[n - 1]).len());
            if own.len() > 0 {
                assert(own[0].row == Some(here));
            }
        }
        below_in_both(rest, more, row_offset + n);
        assert forall|i: int| 0 <= i < n implies ((#[trigger] answer(predicate, columns, i) == Some(
            true,
        ) && broken_rules(rules, columns[column]@[i]).len() > 0) <==> found_at(
            all,
            (row_offset + i) as u64,
        )) by {
            found_in_either(rest, more, (row_offset + i) as u64);
        }
    }
}

/// Two totals that must meet are found apart exactly where their distance is greater than the
/// tolerance.
pub proof fn totals_apart_are_found(plan: BalanceEqualPlan, totals: BalanceTotals)
    requires
        !nan64(plan.tolerance),
        !nan64(totals.distance),
    ensures
        balance_finding(plan, totals) is Some <==> units64(totals.distance) > units64(
            plan.tolerance,
        ),
{
    floats64_order_as_numbers(plan.tolerance, totals.distance);
}

/// A column breaks the limit on its commonest value exactly where it has rows and that value has a
/// greater share of them.
pub proof fn common_values_break_their_limit(plan: DominantValuePlan, seen: Option<DominantShare>)
    requires
        !nan64(plan.max),
        seen matches Some(d) ==> !nan64(d.share),
    ensures
        dominant_finding(plan, seen) is Some <==> (seen matches Some(d) && units64(d.share)
            > units64(plan.max)),
        dominant_finding(plan, seen) matches Some(f) ==> f.column == plan.column@,
{
    if let Some(d) = seen {
        floats64_order_as_numbers(plan.max, d.share);
    }
}

/// Values are counted together exactly where they have the same encoding; nulls are counted
/// together and with no other value.
pub proof fn values_are_counted_by_their_encoding(a: Cell, b: Cell)
    ensures
        value_key(a) == value_key(b) <==> (a is Null && b is Null) || (!(a is Null) && !(b is Null)
            && encoded(item_of(a)) == encoded(item_of(b))),
{
    let x = value_key(a);
    let y = value_key(b);
    if x == y {
        assert(x[0] == y[0]);
        if !(a is Null) {
            assert(x.skip(1) =~= encoded(item_of(a)));
            assert(y.skip(1) =~= encoded(item_of(b)));
        }
    }
}

/// A number of rows breaks the limits on its change exactly where the other dataset is known and
/// has no rows, or where the change lies outside the limits.
pub proof fn row_counts_break_their_limits(
    plan: RowCountDeltaPlan,
    rows: u64,
    reference: Option<u64>,
    change: Measured,
)
    requires
        !nan64(change.bits),
        plan.min_ratio matches Some(b) ==> !nan64(b),
        plan.max_ratio matches Some(b) ==> !nan64(b),
    ensures
        delta_finding(plan, rows, reference, change).len() <= 1,
        delta_finding(plan, rows, reference, change).len() == 1 <==> (reference matches Some(n) && (n
            == 0 || (plan.min_ratio matches Some(l) && units64(change.bits) < units64(l)) || (
        plan.max_ratio matches Some(h) && units64(change.bits) > units64(h)))),
{
    floats_lie_outside(change, plan.min_ratio, plan.max_ratio);
}

} // verus!
