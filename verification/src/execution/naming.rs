//! What a finding names: its rule, its column, and the rule of the contract that it breaks.

use crate::contract::ast::CountRangeAst;
use crate::contract::dataset::{
    DatasetPlan, GapDetectionPlan, MonotonicityPlan, MutuallyExclusivePlan, RatioPlan,
    ReferencePlan, RowCountDeltaPlan, StatisticKind, StatisticPlan, SumPlan,
};
use crate::contract::row::{CompareView, OperandView};
use crate::contract::rules::RulesView;
use crate::execution::balance::{
    balance_finding, dominant_finding, BalanceEqualPlan, BalanceTotals, DominantShare,
    DominantValuePlan,
};
use crate::execution::dataset_finish::{
    count_in, distinct_findings, gap_finding, null_ratio_finding, ratio_in, row_count_finding,
    statistic_finding, sum_finding, DistinctOutcome, Statistic,
};
use crate::execution::exclusive::{exclusive_finding, exclusive_findings};
use crate::execution::kernels::{broken_rules, cell_findings, column_findings};
use crate::execution::ordering::{trail, GapState, Place};
use crate::execution::reference_state::{delta_finding, lacking_findings};
use crate::execution::row_kernels::{assertion_findings, compare_findings};
use crate::execution::total::Measured;
use crate::execution::validation::FindingView;
use crate::value::Cell;
use vstd::prelude::*;

verus! {

/// Whether every finding names a rule and a column.
pub open spec fn all_name(findings: Seq<FindingView>, rule: Seq<char>, column: Seq<char>) -> bool {
    forall|k: int|
        0 <= k < findings.len() ==> (#[trigger] findings[k]).rule == rule && findings[k].column
            == column
}

/// Whether a message holds a text.
pub open spec fn speaks_of(message: Seq<char>, what: Seq<char>) -> bool {
    exists|lead: Seq<char>, tail: Seq<char>| #[trigger] (lead + what + tail) == message
}

/// Whether the message of every finding holds a text.
pub open spec fn all_speak_of(findings: Seq<FindingView>, what: Seq<char>) -> bool {
    forall|k: int|
        0 <= k < findings.len() ==> speaks_of((#[trigger] findings[k]).message, what)
}

proof fn spoken(message: Seq<char>, lead: Seq<char>, what: Seq<char>, tail: Seq<char>)
    requires
        message =~= lead + what + tail,
    ensures
        speaks_of(message, what),
{
    assert(lead + what + tail == message);
}

proof fn one_more(
    before: Seq<FindingView>,
    f: FindingView,
    rule: Seq<char>,
    column: Seq<char>,
    what: Seq<char>,
)
    requires
        all_name(before, rule, column),
        all_speak_of(before, what),
        f.rule == rule,
        f.column == column,
        speaks_of(f.message, what),
    ensures
        all_name(before.push(f), rule, column),
        all_speak_of(before.push(f), what),
{
    let after = before.push(f);
    assert forall|k: int| 0 <= k < after.len() implies (#[trigger] after[k]).rule == rule
        && after[k].column == column && speaks_of(after[k].message, what) by {
        if k < before.len() {
            assert(after[k] == before[k]);
        }
    }
}

/// A comparison that fails is found under its own name, in the column of its left side, or in that
/// of its right side where the left is a literal.
pub proof fn comparisons_name_their_column(
    name: Seq<char>,
    plan: CompareView,
    columns: Seq<Vec<Cell>>,
    row_offset: int,
    n: nat,
)
    ensures
        plan.left matches OperandView::Column { field, .. } ==> all_name(
            compare_findings(name, plan, columns, row_offset, n),
            "compare"@,
            field,
        ),
        plan.left is Literal ==> (plan.right matches OperandView::Column { field, .. } ==> all_name(
            compare_findings(name, plan, columns, row_offset, n),
            "compare"@,
            field,
        )),
        all_speak_of(compare_findings(name, plan, columns, row_offset, n), name),
    decreases n,
{
    if n > 0 {
        let m = (n - 1) as nat;
        comparisons_name_their_column(name, plan, columns, row_offset, m);
        let rest = compare_findings(name, plan, columns, row_offset, m);
        let all = compare_findings(name, plan, columns, row_offset, n);
        spoken("Relational rule `"@ + name + "` failed"@, "Relational rule `"@, name, "` failed"@);
        assert forall|k: int| 0 <= k < all.len() implies speaks_of(
            (#[trigger] all[k]).message,
            name,
        ) by {
            if k < rest.len() {
                assert(all[k] == rest[k]);
            }
        }
        assert forall|k: int| 0 <= k < all.len() implies (k < rest.len() ==> #[trigger] all[k]
            == rest[k]) by {}
    }
}

/// What an assertion under a condition finds stands in the column of the assertion, and names both
/// the rule of the contract and the rule of the column that is broken.
pub proof fn assertions_name_their_column(
    name: Seq<char>,
    rules: RulesView,
    column: Seq<char>,
    cell: Cell,
    row: u64,
    i: int,
)
    requires
        0 <= i < broken_rules(rules, cell).len(),
    ensures
        assertion_findings(name, rules, column, cell, row).len() == broken_rules(rules, cell).len(),
        assertion_findings(name, rules, column, cell, row)[i].rule == "conditional"@,
        assertion_findings(name, rules, column, cell, row)[i].column == column,
        assertion_findings(name, rules, column, cell, row)[i].row == Some(row),
        speaks_of(assertion_findings(name, rules, column, cell, row)[i].message, name),
        speaks_of(
            assertion_findings(name, rules, column, cell, row)[i].message,
            broken_rules(rules, cell)[i],
        ),
{
    let rule = broken_rules(rules, cell)[i];
    let message = assertion_findings(name, rules, column, cell, row)[i].message;
    spoken(message, "Conditional rule `"@, name, "` failed `"@ + rule + "`"@);
    spoken(message, "Conditional rule `"@ + name + "` failed `"@, rule, "`"@);
}

/// What the rules of a column find stands in that column, under the rule that is broken and at the
/// row of the cell.
pub proof fn cells_are_found_in_their_column(
    rules: RulesView,
    column: Seq<char>,
    cells: Seq<Cell>,
    row_offset: int,
    n: nat,
)
    ensures
        forall|k: int|
            0 <= k < column_findings(rules, column, cells, row_offset, n).len() ==> (
            #[trigger] column_findings(rules, column, cells, row_offset, n)[k]).column == column,
    decreases n,
{
    if n > 0 {
        let m = (n - 1) as nat;
        cells_are_found_in_their_column(rules, column, cells, row_offset, m);
        let rest = column_findings(rules, column, cells, row_offset, m);
        let all = column_findings(rules, column, cells, row_offset, n);
        let own = cell_findings(rules, column, cells[n - 1], (row_offset + n - 1) as u64);
        assert forall|k: int| 0 <= k < all.len() implies (#[trigger] all[k]).column == column by {
            if k < rest.len() {
                assert(all[k] == rest[k]);
            } else {
                assert(all[k] == own[k - rest.len()]);
            }
        }
    }
}

/// What one cell breaks is found rule by rule, in the column and at the row of the cell.
pub proof fn cells_are_found_rule_by_rule(
    rules: RulesView,
    column: Seq<char>,
    cell: Cell,
    row: u64,
    i: int,
)
    requires
        0 <= i < broken_rules(rules, cell).len(),
    ensures
        cell_findings(rules, column, cell, row).len() == broken_rules(rules, cell).len(),
        cell_findings(rules, column, cell, row)[i].rule == broken_rules(rules, cell)[i],
        cell_findings(rules, column, cell, row)[i].column == column,
        cell_findings(rules, column, cell, row)[i].row == Some(row),
{
}

/// Rows that fill columns which exclude one another are found under the name of the rule.
pub proof fn exclusions_are_named(
    plan: MutuallyExclusivePlan,
    columns: Seq<Vec<Cell>>,
    row_offset: int,
    n: nat,
)
    ensures
        all_name(
            exclusive_findings(plan, columns, row_offset, n),
            "mutually_exclusive"@,
            "$dataset"@,
        ),
        all_speak_of(exclusive_findings(plan, columns, row_offset, n), plan.name@),
    decreases n,
{
    if n > 0 {
        let m = (n - 1) as nat;
        exclusions_are_named(plan, columns, row_offset, m);
        let f = exclusive_finding(plan, columns, n - 1, (row_offset + n - 1) as u64);
        let lead = "Rule `"@ + plan.name@;
        let tail = f.message.skip(lead.len() as int);
        assert(f.message.take(lead.len() as int) =~= lead);
        assert(f.message =~= lead + tail);
        spoken(f.message, "Rule `"@, plan.name@, tail);
        one_more(
            exclusive_findings(plan, columns, row_offset, m),
            f,
            "mutually_exclusive"@,
            "$dataset"@,
            plan.name@,
        );
    }
}

proof fn rule_named(message: Seq<char>, name: Seq<char>)
    requires
        ("Rule `"@ + name).is_prefix_of(message),
    ensures
        speaks_of(message, name),
{
    let lead = "Rule `"@ + name;
    let tail = message.skip(lead.len() as int);
    assert(message =~= lead + tail) by {
        assert(lead =~= message.subrange(0, lead.len() as int));
    }
    spoken(message, "Rule `"@, name, tail);
}

proof fn led(lead: Seq<char>, message: Seq<char>)
    requires
        lead.len() <= message.len(),
        forall|i: int| 0 <= i < lead.len() ==> #[trigger] message[i] == lead[i],
    ensures
        lead.is_prefix_of(message),
{
    assert(lead =~= message.subrange(0, lead.len() as int));
}

/// Rows out of order and nulls that are not allowed there are found under the name of the rule, in
/// its column.
pub proof fn orders_name_their_column(
    plan: MonotonicityPlan,
    shown: Seq<char>,
    cells: Seq<Cell>,
    row_offset: int,
    last: Option<Place>,
    n: nat,
)
    ensures
        all_name(
            trail(plan, shown, cells, row_offset, last, n).findings,
            "monotonicity"@,
            plan.column@,
        ),
        all_speak_of(trail(plan, shown, cells, row_offset, last, n).findings, plan.name@),
    decreases n,
{
    if n > 0 {
        let m = (n - 1) as nat;
        orders_name_their_column(plan, shown, cells, row_offset, last, m);
        let before = trail(plan, shown, cells, row_offset, last, m).findings;
        let after = trail(plan, shown, cells, row_offset, last, n).findings;
        if after.len() > before.len() {
            let f = after.last();
            assert(after =~= before.push(f));
            led("Rule `"@ + plan.name@, f.message);
            rule_named(f.message, plan.name@);
            one_more(before, f, "monotonicity"@, plan.column@, plan.name@);
        }
    }
}

/// The findings of a rule over a whole column name that column, the rule and its name in the
/// contract, and stand at no row; too many long steps stand at the first of them.
pub proof fn dataset_findings_name_their_column(
    sum: SumPlan,
    total: i128,
    measured: Measured,
    statistic: StatisticPlan,
    observed: Option<Statistic>,
    gap: GapDetectionPlan,
    state: GapState,
    step: Seq<char>,
)
    ensures
        all_name(sum_finding(sum, total, measured), "sum"@, sum.column@),
        all_speak_of(sum_finding(sum, total, measured), sum.name@),
        statistic.kind == StatisticKind::Mean ==> all_name(
            statistic_finding(statistic, observed),
            "mean"@,
            statistic.column@,
        ),
        statistic.kind == StatisticKind::StdDev ==> all_name(
            statistic_finding(statistic, observed),
            "std_dev"@,
            statistic.column@,
        ),
        all_speak_of(statistic_finding(statistic, observed), statistic.name@),
        all_name(gap_finding(gap, state, step), "gap_detection"@, gap.column@),
        all_speak_of(gap_finding(gap, state, step), gap.name@),
        gap_finding(gap, state, step).len() > 0 ==> gap_finding(gap, state, step)[0].row
            == state.first_row,
{
    let s = sum_finding(sum, total, measured);
    if s.len() > 0 {
        led("Rule `"@ + sum.name@, s[0].message);
        rule_named(s[0].message, sum.name@);
    }
    let t = statistic_finding(statistic, observed);
    if t.len() > 0 {
        led("Rule `"@ + statistic.name@, t[0].message);
        rule_named(t[0].message, statistic.name@);
    }
    let g = gap_finding(gap, state, step);
    if g.len() > 0 {
        led("Rule `"@ + gap.name@, g[0].message);
        rule_named(g[0].message, gap.name@);
    }
}

/// The findings of rules over a whole dataset name the rule, and the column where there is one.
pub proof fn counts_and_shares_are_named(
    range: Option<CountRangeAst>,
    rows: u64,
    ratio: RatioPlan,
    nulls: u64,
    shown: Seq<char>,
    delta: RowCountDeltaPlan,
    reference: Option<u64>,
    change: Measured,
)
    ensures
        all_name(row_count_finding(range, rows), "row_count"@, "$dataset"@),
        all_name(null_ratio_finding(ratio, nulls, rows, shown), "null_ratio"@, ratio.column@),
        all_name(delta_finding(delta, rows, reference, change), "row_count_delta"@, "$dataset"@),
        all_speak_of(delta_finding(delta, rows, reference, change), delta.name@),
{
    let d = delta_finding(delta, rows, reference, change);
    if d.len() > 0 {
        led("Rule `"@ + delta.name@, d[0].message);
        rule_named(d[0].message, delta.name@);
    }
}

/// Distinct values break a rule on their number exactly where that is outside its range, and a rule
/// on their share exactly where the share is; each finding names its rule and its column.
pub proof fn distinct_values_break_their_ranges(
    plan: DatasetPlan,
    outcome: DistinctOutcome,
    rows: u64,
    shown: Seq<char>,
)
    ensures
        ({
            let found = distinct_findings(plan, outcome, rows, shown);
            let many = outcome.rules.count_rule is Some && !count_in(
                plan.distinct_counts@[outcome.rules.count_rule.unwrap() as int].range,
                outcome.distinct,
            );
            let dense = outcome.rules.ratio_rule is Some && !ratio_in(
                plan.distinct_ratios@[outcome.rules.ratio_rule.unwrap() as int].range,
                outcome.distinct,
                rows,
            );
            &&& found.len() == (if many { 1int } else { 0 }) + (if dense { 1int } else { 0 })
            &&& many ==> found[0].rule == "distinct_count"@
            &&& dense ==> found.last().rule == "distinct_ratio"@
            &&& outcome.rules.count_rule matches Some(k) ==> forall|i: int|
                0 <= i < found.len() ==> (#[trigger] found[i]).column
                    == plan.distinct_counts@[k as int].column@
            &&& outcome.rules.count_rule is None ==> (outcome.rules.ratio_rule matches Some(k) ==>
                forall|i: int|
                0 <= i < found.len() ==> (#[trigger] found[i]).column
                    == plan.distinct_ratios@[k as int].column@)
        }),
{
}

/// Keys that a reference lacks are found one by one, at their rows, in the first column of the
/// rule, under its name and that of the reference.
pub proof fn missing_keys_are_named(plan: ReferencePlan, rows: Seq<u64>, i: int)
    requires
        0 <= i < rows.len(),
        plan.fields@.len() > 0,
    ensures
        lacking_findings(plan, rows).len() == rows.len(),
        lacking_findings(plan, rows)[i].row == Some(rows[i]),
        all_name(lacking_findings(plan, rows), "references"@, plan.fields@[0]@),
        speaks_of(lacking_findings(plan, rows)[i].message, plan.name@),
        speaks_of(lacking_findings(plan, rows)[i].message, plan.reference@),
{
    let message = lacking_findings(plan, rows)[i].message;
    spoken(
        message,
        "Reference rule `"@,
        plan.name@,
        "` found a key absent from `"@ + plan.reference@ + "`"@,
    );
    spoken(
        message,
        "Reference rule `"@ + plan.name@ + "` found a key absent from `"@,
        plan.reference@,
        "`"@,
    );
}

/// Totals that do not meet and values that are too common are found under the names of their
/// rules, with the totals and the share that were measured.
pub proof fn balances_are_named(
    plan: BalanceEqualPlan,
    totals: BalanceTotals,
    dominant: DominantValuePlan,
    seen: Option<DominantShare>,
)
    ensures
        balance_finding(plan, totals) matches Some(f) ==> f.rule == "balance_equal"@ && f.column
            == "$dataset"@ && speaks_of(f.message, plan.name@) && speaks_of(
            f.message,
            totals.left@,
        ) && speaks_of(f.message, totals.right@),
        dominant_finding(dominant, seen) matches Some(f) ==> f.rule == "max_dominant_value_ratio"@
            && f.column == dominant.column@ && speaks_of(f.message, dominant.name@),
{
    if let Some(f) = balance_finding(plan, totals) {
        led("Rule `"@ + plan.name@, f.message);
        rule_named(f.message, plan.name@);
        spoken(
            f.message,
            "Rule `"@ + plan.name@ + "` has `"@ + plan.left_column@ + "` totalling "@,
            totals.left@,
            " and `"@ + plan.right_column@ + "` totalling "@ + totals.right@,
        );
        spoken(
            f.message,
            "Rule `"@ + plan.name@ + "` has `"@ + plan.left_column@ + "` totalling "@ + totals.left@
                + " and `"@ + plan.right_column@ + "` totalling "@,
            totals.right@,
            Seq::empty(),
        );
    }
    if let Some(f) = dominant_finding(dominant, seen) {
        led("Rule `"@ + dominant.name@, f.message);
        rule_named(f.message, dominant.name@);
    }
}

} // verus!
