//! What the plans of a contract keep of its rules.

use crate::contract::ast::{CompareAst, DatasetRulesAst, OperandAst, RowRuleAst, SumAst};
use crate::contract::dataset::{
    dataset_resolved, positions, sum_limits, DatasetPlan, StatisticKind, SumBounds,
};
use crate::contract::json::Json;
use crate::contract::meaning::{carries, rules_compile_to_themselves};
use crate::contract::row::{
    compare_outcome, literal_value, row_outcome, OperandView, RowView, ScalarView,
};
use crate::contract::rules::{kernel_of, KernelKind};
use crate::text::{decimal_int, texts};
use crate::value::{first_named, first_named_is_first, Field, Schema};
use vstd::prelude::*;

verus! {

/// Whether a position is that of the first field with a name.
pub open spec fn names_field(schema: Schema, index: int, name: Seq<char>) -> bool {
    &&& 0 <= index < schema.fields@.len()
    &&& schema.fields@[index].name@ == name
    &&& forall|j: int| 0 <= j < index ==> (#[trigger] schema.fields@[j]).name@ != name
}

/// The plan of a dataset's rules keeps every rule: its name, its column by position, and what it
/// asks for.
pub proof fn dataset_plans_keep_their_rules(
    rules: DatasetRulesAst,
    schema: Schema,
    plan: DatasetPlan,
    i: int,
)
    requires
        dataset_resolved(rules, schema, plan),
    ensures
        plan.row_count == rules.row_count,
        plan.null_ratios@.len() == rules.null_ratio@.len(),
        0 <= i < rules.null_ratio@.len() ==> names_field(
            schema,
            plan.null_ratios@[i].column_index as int,
            rules.null_ratio@[i].0@,
        ) && plan.null_ratios@[i].range.min == rules.null_ratio@[i].1.min
            && plan.null_ratios@[i].range.max == rules.null_ratio@[i].1.max,
        plan.distinct_counts@.len() == rules.distinct_count@.len(),
        0 <= i < rules.distinct_count@.len() ==> names_field(
            schema,
            plan.distinct_counts@[i].column_index as int,
            rules.distinct_count@[i].0@,
        ) && plan.distinct_counts@[i].range == rules.distinct_count@[i].1,
        plan.distinct_ratios@.len() == rules.distinct_ratio@.len(),
        0 <= i < rules.distinct_ratio@.len() ==> names_field(
            schema,
            plan.distinct_ratios@[i].column_index as int,
            rules.distinct_ratio@[i].0@,
        ) && plan.distinct_ratios@[i].range.min == rules.distinct_ratio@[i].1.min
            && plan.distinct_ratios@[i].range.max == rules.distinct_ratio@[i].1.max,
        plan.composite_unique@.len() == rules.composite_unique@.len(),
        0 <= i < rules.composite_unique@.len() ==> plan.composite_unique@[i].name@
            == rules.composite_unique@[i].name@ && plan.composite_unique@[i].nulls
            == rules.composite_unique@[i].nulls && plan.composite_unique@[i].columns@.len()
            == rules.composite_unique@[i].columns@.len(),
        plan.references@.len() == rules.references@.len(),
        0 <= i < rules.references@.len() ==> plan.references@[i].name@ == rules.references@[i].name@
            && plan.references@[i].reference@ == rules.references@[i].reference@
            && plan.references@[i].nulls == rules.references@[i].nulls && texts(
            plan.references@[i].reference_columns@,
        ) == texts(rules.references@[i].reference_columns@) && plan.references@[i].columns@.len()
            == rules.references@[i].columns@.len(),
        plan.monotonicity@.len() == rules.monotonicity@.len(),
        0 <= i < rules.monotonicity@.len() ==> names_field(
            schema,
            plan.monotonicity@[i].column_index as int,
            rules.monotonicity@[i].column@,
        ) && plan.monotonicity@[i].direction == rules.monotonicity@[i].direction
            && plan.monotonicity@[i].nulls == rules.monotonicity@[i].nulls
            && plan.monotonicity@[i].name@ == rules.monotonicity@[i].name@
            && plan.monotonicity@[i].column@ == rules.monotonicity@[i].column@,
        plan.gap_detection@.len() == rules.gap_detection@.len(),
        0 <= i < rules.gap_detection@.len() ==> names_field(
            schema,
            plan.gap_detection@[i].column_index as int,
            rules.gap_detection@[i].column@,
        ) && plan.gap_detection@[i].expected_step == rules.gap_detection@[i].expected_step
            && plan.gap_detection@[i].tolerance == rules.gap_detection@[i].tolerance
            && plan.gap_detection@[i].max_gaps == rules.gap_detection@[i].max_gaps
            && plan.gap_detection@[i].nulls == rules.gap_detection@[i].nulls,
        plan.mutually_exclusive@.len() == rules.mutually_exclusive@.len(),
        plan.sums@.len() == rules.sum@.len(),
        0 <= i < rules.sum@.len() ==> names_field(
            schema,
            plan.sums@[i].column_index as int,
            rules.sum@[i].column@,
        ) && plan.sums@[i].name@ == rules.sum@[i].name@,
        plan.statistics@.len() == rules.mean@.len() + rules.std_dev@.len(),
        0 <= i < rules.mean@.len() ==> names_field(
            schema,
            plan.statistics@[i].column_index as int,
            rules.mean@[i].column@,
        ) && plan.statistics@[i].kind == StatisticKind::Mean && plan.statistics@[i].min
            == rules.mean@[i].min && plan.statistics@[i].max == rules.mean@[i].max,
        0 <= i < rules.std_dev@.len() ==> names_field(
            schema,
            plan.statistics@[rules.mean@.len() + i].column_index as int,
            rules.std_dev@[i].column@,
        ) && plan.statistics@[rules.mean@.len() + i].kind == StatisticKind::StdDev
            && plan.statistics@[rules.mean@.len() + i].min == rules.std_dev@[i].min
            && plan.statistics@[rules.mean@.len() + i].max == rules.std_dev@[i].max,
        plan.conditional_unique@.len() == rules.conditional_unique@.len(),
        0 <= i < rules.conditional_unique@.len() ==> plan.conditional_unique@[i].name@
            == rules.conditional_unique@[i].name@ && plan.conditional_unique@[i].nulls
            == rules.conditional_unique@[i].nulls,
        plan.row_count_delta@.len() == rules.row_count_delta@.len(),
        0 <= i < rules.row_count_delta@.len() ==> plan.row_count_delta@[i].reference@
            == rules.row_count_delta@[i].reference@ && plan.row_count_delta@[i].min_ratio
            == rules.row_count_delta@[i].min_ratio && plan.row_count_delta@[i].max_ratio
            == rules.row_count_delta@[i].max_ratio,
{
    if 0 <= i < rules.null_ratio@.len() {
        assert(plan.null_ratios@[i].range == rules.null_ratio@[i].1);
        first_named_is_first(schema.fields@, rules.null_ratio@[i].0@);
    }
    if 0 <= i < rules.distinct_count@.len() {
        assert(plan.distinct_counts@[i].range == rules.distinct_count@[i].1);
        first_named_is_first(schema.fields@, rules.distinct_count@[i].0@);
    }
    if 0 <= i < rules.distinct_ratio@.len() {
        assert(plan.distinct_ratios@[i].range == rules.distinct_ratio@[i].1);
        first_named_is_first(schema.fields@, rules.distinct_ratio@[i].0@);
    }
    if 0 <= i < rules.composite_unique@.len() {
        assert(plan.composite_unique@[i].nulls == rules.composite_unique@[i].nulls);
    }
    if 0 <= i < rules.references@.len() {
        assert(plan.references@[i].nulls == rules.references@[i].nulls);
    }
    if 0 <= i < rules.monotonicity@.len() {
        assert(plan.monotonicity@[i].nulls == rules.monotonicity@[i].nulls);
        first_named_is_first(schema.fields@, rules.monotonicity@[i].column@);
    }
    if 0 <= i < rules.gap_detection@.len() {
        assert(plan.gap_detection@[i].nulls == rules.gap_detection@[i].nulls);
        first_named_is_first(schema.fields@, rules.gap_detection@[i].column@);
    }
    if 0 <= i < rules.sum@.len() {
        assert(plan.sums@[i].name@ == rules.sum@[i].name@);
        first_named_is_first(schema.fields@, rules.sum@[i].column@);
    }
    if 0 <= i < rules.mean@.len() {
        assert(plan.statistics@[i].kind == StatisticKind::Mean);
        first_named_is_first(schema.fields@, rules.mean@[i].column@);
    }
    if 0 <= i < rules.std_dev@.len() {
        let k = rules.mean@.len() + i;
        assert(plan.statistics@[k].kind == StatisticKind::StdDev);
        first_named_is_first(schema.fields@, rules.std_dev@[i].column@);
    }
    if 0 <= i < rules.conditional_unique@.len() {
        assert(plan.conditional_unique@[i].nulls == rules.conditional_unique@[i].nulls);
    }
    if 0 <= i < rules.row_count_delta@.len() {
        assert(plan.row_count_delta@[i].min_ratio == rules.row_count_delta@[i].min_ratio);
    }
}

/// The columns of a key are found by their names, in the order of the rule.
pub proof fn keys_keep_their_columns(
    columns: Seq<Seq<char>>,
    schema: Schema,
    found: Seq<usize>,
    j: int,
)
    requires
        positions(columns, schema, found),
        0 <= j < columns.len(),
    ensures
        found.len() == columns.len(),
        names_field(schema, found[j] as int, columns[j]),
{
    assert(first_named(schema.fields@, columns[j]) == Some(found[j] as int));
    first_named_is_first(schema.fields@, columns[j]);
}

/// Limits on a total of integers are the integers that the rule spells, the lower one and the
/// upper one each in its place.
pub proof fn totals_keep_their_limits(
    rule: SumAst,
    field: Field,
    path: Seq<char>,
    low: int,
    high: int,
)
    requires
        kernel_of(field.data_type).integral(),
        rule.min matches Some(b) ==> b.spelling().text@ == decimal_int(low),
        rule.max matches Some(b) ==> b.spelling().text@ == decimal_int(high),
        i128::MIN <= low <= i128::MAX,
        i128::MIN <= high <= i128::MAX,
    ensures
        sum_limits(rule, field, path) matches Ok(SumBounds::Integer { low: l, high: h }) && (
        l is Some <==> rule.min is Some) && (h is Some <==> rule.max is Some) && (
        l matches Some(v) ==> v == low) && (h matches Some(v) ==> v == high),
{
    crate::contract::meaning::integers_are_read_as_spelled(low);
    crate::contract::meaning::integers_are_read_as_spelled(high);
}

/// Whether an operand is the column of a name.
pub open spec fn is_column(side: OperandView, schema: Schema, name: Seq<char>) -> bool {
    side matches OperandView::Column { column_index, field, kernel } && names_field(
        schema,
        column_index,
        name,
    ) && field == name && kernel == kernel_of(schema.fields@[column_index].data_type)
}

/// A comparison compiles to itself: its left side stays left and its right side right, with its
/// operator and its word on nulls, and two columns are compared only where they are of one type.
pub proof fn comparisons_keep_their_sides(source: CompareAst, schema: Schema, path: Seq<char>)
    requires
        compare_outcome(source, schema, path) is Ok,
    ensures
        ({
            let plan = compare_outcome(source, schema, path)->Ok_0;
            &&& plan.op == source.op
            &&& plan.nulls == source.nulls
            &&& source.left matches OperandAst::Column(a) ==> is_column(
                plan.left,
                schema,
                a.column@,
            )
            &&& source.right matches OperandAst::Column(b) ==> is_column(
                plan.right,
                schema,
                b.column@,
            )
            &&& source.left is Literal ==> plan.left is Literal
            &&& source.right is Literal ==> plan.right is Literal
            &&& source.left is Column || source.right is Column
            &&& source.right matches OperandAst::Literal(b) ==> (
            plan.left matches OperandView::Column { kernel, .. } && plan.right
                == OperandView::Literal(literal_value(b.literal, kernel).unwrap()) && literal_value(
                b.literal,
                kernel,
            ) is Some)
            &&& source.left matches OperandAst::Literal(a) ==> (
            plan.right matches OperandView::Column { kernel, .. } && plan.left
                == OperandView::Literal(literal_value(a.literal, kernel).unwrap()) && literal_value(
                a.literal,
                kernel,
            ) is Some)
        }),
{
    if let OperandAst::Column(a) = source.left {
        first_named_is_first(schema.fields@, a.column@);
    }
    if let OperandAst::Column(b) = source.right {
        first_named_is_first(schema.fields@, b.column@);
    }
}

/// A literal is the truth value, the integer or the text that the contract spells.
pub proof fn literals_are_read_as_spelled(value: Json, kernel: KernelKind)
    ensures
        literal_value(value, kernel) matches Some(ScalarView::Boolean(b)) ==> value == Json::Bool(b),
        literal_value(value, kernel) matches Some(ScalarView::I64(v)) ==> (
        value matches Json::Number(n) && n.as_i64 == Some(v)),
        literal_value(value, kernel) matches Some(ScalarView::U64(v)) ==> (
        value matches Json::Number(n) && n.as_u64 == Some(v)),
        literal_value(value, kernel) matches Some(ScalarView::F64 { bits, narrow }) ==> (
        value matches Json::Number(n) && n.as_float64 == Some(bits) && n.as_float32 == narrow),
        literal_value(value, kernel) matches Some(ScalarView::Text(t)) ==> (
        value matches Json::Text(s) && s@ == t),
        kernel == KernelKind::I32 ==> (value matches Json::Number(n) ==> (n.as_i64 is Some
            <==> literal_value(value, kernel) is Some)),
        kernel == KernelKind::I64 ==> (value matches Json::Number(n) ==> (n.as_i64 is Some
            <==> literal_value(value, kernel) is Some)),
        kernel == KernelKind::U64 ==> (value matches Json::Number(n) ==> (n.as_u64 is Some
            <==> literal_value(value, kernel) is Some)),
        kernel == KernelKind::Utf8 ==> (value is Text <==> literal_value(value, kernel) is Some),
        kernel == KernelKind::Boolean ==> (value is Bool <==> literal_value(value, kernel) is Some),
{
}

/// A row rule compiles to its comparison, or to its condition with the rules that it puts on a
/// column.
pub proof fn row_rules_keep_their_parts(source: RowRuleAst, schema: Schema, index: nat)
    requires
        row_outcome(source, schema, index) is Ok,
    ensures
        ({
            let plan = row_outcome(source, schema, index)->Ok_0;
            &&& plan is Compare <==> source.compare is Some
            &&& plan matches RowView::Compare { name, .. } ==> name == source.name@
            &&& plan matches RowView::Conditional { name, column, field, assertion, .. } ==> name
                == source.name@ && source.assertion is Some && names_field(
                schema,
                column,
                source.assertion.unwrap().column@,
            ) && field == schema.fields@[column].name@ && carries(
                assertion,
                source.assertion.unwrap().rules,
                schema.fields@[column],
                (None, None),
            )
        }),
{
    if source.compare is None {
        let assertion = source.assertion.unwrap();
        first_named_is_first(schema.fields@, assertion.column@);
        let i = first_named(schema.fields@, assertion.column@).unwrap();
        rules_compile_to_themselves(schema.fields@[i], assertion.rules, (None, None));
    }
}

} // verus!
