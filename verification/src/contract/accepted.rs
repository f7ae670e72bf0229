//! Which contracts are accepted: exactly those that keep the rules below.

use crate::contract::ast::{
    first_error, CompositeUniqueAst, ConditionalUniqueAst, ContractAst, ContractAstV2,
    CountRangeAst, DatasetRulesAst, GapDetectionAst, MonotonicityAst, MutuallyExclusiveAst,
    RatioRangeAst, ReferenceAst, RowRuleAst, RuleAstV2, StatisticAst, SumAst,
};
use crate::contract::compile::{contract_error, presence_check, presence_check_v2, resolved_columns};
use crate::contract::dataset::{
    composite_column_check, conditional_check, count_column_check, dataset_error, exclusive_check,
    gap_check, key_column_check, monotonicity_check, ratio_column_check, reference_column_check,
    statistic_check, sum_check, sum_limits, unit_of,
};
use crate::contract::row::compare_outcome;
use crate::contract::rules::{expected_type, kernel_of, value_rules};
use crate::contract::v2::{
    composite_check, item_path, ratio_check, reference_check, repeats, row_rule_semantics,
    semantics_error,
};
use crate::error::ErrorView;
use crate::numbers::{finite64, in_unit_interval, nan64};
use crate::profile::agreement::{floats64_order_as_numbers, units64};
use crate::text::texts;
use crate::value::{first_named, first_named_is_first, Schema};
use vstd::prelude::*;

verus! {

pub(crate) proof fn none_wrong(n: nat, check: spec_fn(int) -> Option<ErrorView>)
    ensures
        first_error(n, check) is None <==> forall|i: int|
            0 <= i < n ==> (#[trigger] check(i)) is None,
    decreases n,
{
    if n > 0 {
        let m = (n - 1) as nat;
        none_wrong(m, check);
        if first_error(n, check) is None {
            assert forall|i: int| 0 <= i < n implies (#[trigger] check(i)) is None by {}
        } else if first_error(m, check) is None {
            assert(check(n - 1) is Some);
        }
    }
}

/// Whether no name of a list is empty or stands there twice.
pub open spec fn distinct_names(names: Seq<Seq<char>>) -> bool {
    &&& forall|i: int| 0 <= i < names.len() ==> (#[trigger] names[i]).len() > 0
    &&& no_twice(names)
}

/// Whether nothing stands in a list twice.
pub open spec fn no_twice(names: Seq<Seq<char>>) -> bool {
    forall|i: int, j: int|
        0 <= i < names.len() && 0 <= j < names.len() && i != j ==> #[trigger] names[i]
            != #[trigger] names[j]
}

/// The names of row rules.
pub open spec fn row_names(rules: Seq<RowRuleAst>) -> Seq<Seq<char>> {
    Seq::new(rules.len(), |i: int| rules[i].name@)
}

/// The names of reference rules.
pub open spec fn reference_names(rules: Seq<ReferenceAst>) -> Seq<Seq<char>> {
    Seq::new(rules.len(), |i: int| rules[i].name@)
}

/// Whether the limits on a share lie between nothing and the whole, the lower one not above the
/// upper one.
pub open spec fn sound_ratio(range: RatioRangeAst) -> bool {
    &&& range.min matches Some(b) ==> a_share(b)
    &&& range.max matches Some(b) ==> a_share(b)
    &&& range.min is Some && range.max is Some ==> units64(range.min.unwrap()) <= units64(
        range.max.unwrap(),
    )
}

/// Whether a float is a number from zero to one.
pub open spec fn a_share(bits: u64) -> bool {
    !nan64(bits) && units64(0) <= units64(bits) <= units64(0x3FF0_0000_0000_0000)
}

/// Whether a row rule asks one thing: a comparison, or an assertion under a condition.
pub open spec fn one_question(rule: RowRuleAst) -> bool {
    rule.compare is Some <==> !(rule.when is Some && rule.assertion is Some)
}

/// Whether a reference rule names its dataset and pairs up columns that it names once.
pub open spec fn sound_reference(rule: ReferenceAst) -> bool {
    &&& rule.reference@.len() > 0
    &&& rule.columns@.len() > 0
    &&& rule.columns@.len() == rule.reference_columns@.len()
    &&& no_twice(texts(rule.columns@))
    &&& no_twice(texts(rule.reference_columns@))
}

/// Whether the rules of a contract make sense by themselves, on whatever data.
pub open spec fn sensible(contract: ContractAstV2) -> bool {
    let rules = contract.dataset_rules;
    &&& distinct_names(row_names(contract.row_rules@))
    &&& forall|i: int|
        0 <= i < contract.row_rules@.len() ==> one_question(#[trigger] contract.row_rules@[i])
    &&& forall|i: int|
        0 <= i < rules.null_ratio@.len() ==> sound_ratio((#[trigger] rules.null_ratio@[i]).1)
    &&& forall|i: int|
        0 <= i < rules.distinct_ratio@.len() ==> sound_ratio(
            (#[trigger] rules.distinct_ratio@[i]).1,
        )
    &&& forall|i: int|
        0 <= i < rules.composite_unique@.len() ==> (
        #[trigger] rules.composite_unique@[i]).columns@.len() >= 2
    &&& distinct_names(reference_names(rules.references@))
    &&& forall|i: int|
        0 <= i < rules.references@.len() ==> sound_reference(#[trigger] rules.references@[i])
}

proof fn share_keys(bits: u64)
    ensures
        a_share(bits) <==> in_unit_interval(bits),
{
    floats64_order_as_numbers(bits, 0);
    floats64_order_as_numbers(0, bits);
    floats64_order_as_numbers(bits, 0x3FF0_0000_0000_0000);
    floats64_order_as_numbers(0x3FF0_0000_0000_0000, bits);
}

proof fn ratios_sound(rules: Seq<(String, RatioRangeAst)>, prefix: Seq<char>)
    ensures
        first_error(rules.len(), ratio_check(rules, prefix)) is None <==> forall|i: int|
            0 <= i < rules.len() ==> sound_ratio((#[trigger] rules[i]).1),
{
    let check = ratio_check(rules, prefix);
    none_wrong(rules.len(), check);
    assert forall|i: int| 0 <= i < rules.len() implies ((#[trigger] check(i)) is None
        <==> sound_ratio(rules[i].1)) by {
        let range = rules[i].1;
        if let Some(b) = range.min {
            share_keys(b);
            if let Some(c) = range.max {
                floats64_order_as_numbers(c, b);
            }
        }
        if let Some(b) = range.max {
            share_keys(b);
        }
    }
    if first_error(rules.len(), check) is None {
        assert forall|i: int| 0 <= i < rules.len() implies sound_ratio((#[trigger] rules[i]).1) by {
            assert(check(i) is None);
        }
    }
}

proof fn rows_sound(rules: Seq<RowRuleAst>)
    ensures
        first_error(rules.len(), row_rule_semantics(rules)) is None <==> distinct_names(
            row_names(rules),
        ) && forall|i: int| 0 <= i < rules.len() ==> one_question(#[trigger] rules[i]),
{
    let check = row_rule_semantics(rules);
    let names = row_names(rules);
    none_wrong(rules.len(), check);
    if first_error(rules.len(), check) is None {
        assert forall|i: int| 0 <= i < rules.len() implies (#[trigger] names[i]).len() > 0 by {
            assert(check(i) is None);
        }
        assert forall|i: int| 0 <= i < rules.len() implies one_question(#[trigger] rules[i]) by {
            assert(check(i) is None);
        }
        assert forall|i: int, j: int|
            0 <= i < names.len() && 0 <= j < names.len() && i != j implies #[trigger] names[i]
            != #[trigger] names[j] by {
            assert(check(i) is None);
            assert(check(j) is None);
            assert(rules[i].name@ == names[i] && rules[j].name@ == names[j]);
        }
    } else if distinct_names(names) && forall|i: int|
        0 <= i < rules.len() ==> one_question(#[trigger] rules[i]) {
        assert forall|i: int| 0 <= i < rules.len() implies (#[trigger] check(i)) is None by {
            assert(one_question(rules[i]));
            assert(names[i].len() > 0);
            assert forall|j: int| 0 <= j < i implies (#[trigger] rules[j]).name@
                != rules[i].name@ by {
                assert(names[j] != names[i]);
            }
        }
    }
}

proof fn columns_once(columns: Seq<Seq<char>>)
    ensures
        !repeats(columns) <==> no_twice(columns),
{
    if !repeats(columns) {
        assert forall|i: int, j: int|
            0 <= i < columns.len() && 0 <= j < columns.len() && i
                != j implies #[trigger] columns[i] != #[trigger] columns[j] by {
            if i < j {
                assert(!(columns[i] == columns[j]));
            } else {
                assert(!(columns[j] == columns[i]));
            }
        }
    }
}

proof fn references_sound(rules: Seq<ReferenceAst>)
    ensures
        first_error(rules.len(), reference_check(rules)) is None <==> distinct_names(
            reference_names(rules),
        ) && forall|i: int| 0 <= i < rules.len() ==> sound_reference(#[trigger] rules[i]),
{
    let check = reference_check(rules);
    let names = reference_names(rules);
    none_wrong(rules.len(), check);
    assert forall|i: int| 0 <= i < rules.len() implies (!repeats(
        texts((#[trigger] rules[i]).columns@),
    ) <==> no_twice(texts(rules[i].columns@))) && (!repeats(
        texts(rules[i].reference_columns@),
    ) <==> no_twice(texts(rules[i].reference_columns@))) by {
        columns_once(texts(rules[i].columns@));
        columns_once(texts(rules[i].reference_columns@));
    }
    if first_error(rules.len(), check) is None {
        assert forall|i: int| 0 <= i < rules.len() implies (#[trigger] names[i]).len() > 0 by {
            assert(check(i) is None);
        }
        assert forall|i: int| 0 <= i < rules.len() implies sound_reference(#[trigger] rules[i]) by {
            assert(check(i) is None);
        }
        assert forall|i: int, j: int|
            0 <= i < names.len() && 0 <= j < names.len() && i != j implies #[trigger] names[i]
            != #[trigger] names[j] by {
            assert(check(i) is None);
            assert(check(j) is None);
            assert(rules[i].name@ == names[i] && rules[j].name@ == names[j]);
        }
    } else if distinct_names(names) && forall|i: int|
        0 <= i < rules.len() ==> sound_reference(#[trigger] rules[i]) {
        assert forall|i: int| 0 <= i < rules.len() implies (#[trigger] check(i)) is None by {
            assert(sound_reference(rules[i]));
            assert(names[i].len() > 0);
            assert forall|j: int| 0 <= j < i implies (#[trigger] rules[j]).name@
                != rules[i].name@ by {
                assert(names[j] != names[i]);
            }
        }
    }
}

/// A contract is refused for its rules alone exactly where they make no sense: a name that is
/// empty or taken, a row rule that asks two things or nothing, a share that is none, a key of one
/// column, or a reference whose columns do not pair up.
pub proof fn sensible_contracts_are_accepted(contract: ContractAstV2)
    ensures
        semantics_error(contract) is None <==> sensible(contract),
{
    let rules = contract.dataset_rules;
    rows_sound(contract.row_rules@);
    ratios_sound(rules.null_ratio@, "$.dataset_rules.null_ratio."@);
    ratios_sound(rules.distinct_ratio@, "$.dataset_rules.distinct_ratio."@);
    references_sound(rules.references@);
    let check = composite_check(rules.composite_unique@);
    none_wrong(rules.composite_unique@.len(), check);
    assert forall|i: int| 0 <= i < rules.composite_unique@.len() implies ((#[trigger] check(i))
        is None <==> rules.composite_unique@[i].columns@.len() >= 2) by {}
    if first_error(rules.composite_unique@.len(), check) is None {
        assert forall|i: int| 0 <= i < rules.composite_unique@.len() implies (
        #[trigger] rules.composite_unique@[i]).columns@.len() >= 2 by {
            assert(check(i) is None);
        }
    }
}

/// Whether a schema has a column of a name.
pub open spec fn has_column(schema: Schema, name: Seq<char>) -> bool {
    exists|j: int| 0 <= j < schema.fields@.len() && (#[trigger] schema.fields@[j]).name@ == name
}

/// Whether a schema has every column of a list.
pub open spec fn has_columns(schema: Schema, names: Seq<Seq<char>>) -> bool {
    forall|i: int| 0 <= i < names.len() ==> has_column(schema, #[trigger] names[i])
}

proof fn named_columns(schema: Schema, name: Seq<char>)
    ensures
        first_named(schema.fields@, name) is Some <==> has_column(schema, name),
{
    first_named_is_first(schema.fields@, name);
}

/// A contract is refused for a missing column exactly where it requires one, or puts a rule on the
/// values of one, that the schema lacks.
pub proof fn missing_columns_refuse_contracts(contract: ContractAst, schema: Schema)
    ensures
        first_error(contract.columns@.len(), presence_check(contract.columns@, schema)) is None
            <==> forall|i: int|
            0 <= i < contract.columns@.len() ==> has_column(
                schema,
                (#[trigger] contract.columns@[i]).0@,
            ) || !(contract.columns@[i].1.required || value_rules(contract.columns@[i].1)),
        contract_error(contract, schema) is None ==> first_error(
            contract.columns@.len(),
            presence_check(contract.columns@, schema),
        ) is None && resolved_columns(schema.fields@, schema.fields@.len(), contract.columns@) is Ok,
{
    let columns = contract.columns@;
    let check = presence_check(columns, schema);
    none_wrong(columns.len(), check);
    assert forall|i: int| 0 <= i < columns.len() implies ((#[trigger] check(i)) is None
        <==> has_column(schema, columns[i].0@) || !(columns[i].1.required || value_rules(
        columns[i].1,
    ))) by {
        named_columns(schema, columns[i].0@);
    }
    if first_error(columns.len(), check) is None {
        assert forall|i: int| 0 <= i < columns.len() implies has_column(
            schema,
            (#[trigger] columns[i]).0@,
        ) || !(columns[i].1.required || value_rules(columns[i].1)) by {
            assert(check(i) is None);
        }
    }
}

/// Whether a column of a version 2 contract is where the contract wants it, of the type that it
/// wants, or missing without anything asked of it.
pub open spec fn column_suits(rule: RuleAstV2, name: Seq<char>, schema: Schema) -> bool {
    if has_column(schema, name) {
        rule.expected_type matches Some(t) ==> expected_type(
            t,
            schema.fields@[first_named(schema.fields@, name).unwrap()].data_type,
        )
    } else {
        !rule.rules.required && !value_rules(rule.rules) && rule.min_length is None
            && rule.max_length is None && rule.expected_type is None
    }
}

/// A version 2 contract is refused for its columns exactly where one is missing of which something
/// is asked, or is of another type than asked.
pub proof fn missing_columns_refuse_contracts_v2(contract: ContractAstV2, schema: Schema)
    ensures
        first_error(contract.columns@.len(), presence_check_v2(contract.columns@, schema)) is None
            <==> forall|i: int|
            0 <= i < contract.columns@.len() ==> column_suits(
                (#[trigger] contract.columns@[i]).1,
                contract.columns@[i].0@,
                schema,
            ),
{
    let columns = contract.columns@;
    let check = presence_check_v2(columns, schema);
    none_wrong(columns.len(), check);
    assert forall|i: int| 0 <= i < columns.len() implies ((#[trigger] check(i)) is None
        <==> column_suits(columns[i].1, columns[i].0@, schema)) by {
        named_columns(schema, columns[i].0@);
    }
    if first_error(columns.len(), check) is None {
        assert forall|i: int| 0 <= i < columns.len() implies column_suits(
            (#[trigger] columns[i]).1,
            columns[i].0@,
            schema,
        ) by {
            assert(check(i) is None);
        }
    }
}

proof fn key_columns_found(
    columns: Seq<Seq<char>>,
    schema: Schema,
    what: Seq<char>,
    path: Seq<char>,
)
    ensures
        first_error(columns.len(), key_column_check(columns, schema, what, path)) is None
            <==> has_columns(schema, columns),
{
    let check = key_column_check(columns, schema, what, path);
    none_wrong(columns.len(), check);
    assert forall|i: int| 0 <= i < columns.len() implies ((#[trigger] check(i)) is None
        <==> has_column(schema, columns[i])) by {
        named_columns(schema, columns[i]);
    }
    if first_error(columns.len(), check) is None {
        assert forall|i: int| 0 <= i < columns.len() implies has_column(
            schema,
            #[trigger] columns[i],
        ) by {
            assert(check(i) is None);
        }
    }
}

/// Whether a number in bits is above zero.
pub open spec fn positive(bits: u64) -> bool {
    finite64(bits) && units64(bits) > units64(0)
}

/// Whether a number in bits is not below zero.
pub open spec fn not_negative(bits: u64) -> bool {
    finite64(bits) && units64(bits) >= units64(0)
}

/// Whether a step rule names a positive step, a tolerance, and a column whose values step.
pub open spec fn sound_gap(rule: GapDetectionAst, schema: Schema) -> bool {
    &&& positive(rule.expected_step)
    &&& not_negative(rule.tolerance)
    &&& has_column(schema, rule.column@)
    &&& unit_of(
        schema.fields@[first_named(schema.fields@, rule.column@).unwrap()].data_type,
    ) is Some
}

/// Whether a rule on a mean or a deviation has finite limits and a column of numbers.
pub open spec fn sound_statistic(rule: StatisticAst, schema: Schema) -> bool {
    &&& rule.min matches Some(b) ==> finite64(b)
    &&& rule.max matches Some(b) ==> finite64(b)
    &&& has_column(schema, rule.column@)
    &&& ({
        let kernel = kernel_of(
            schema.fields@[first_named(schema.fields@, rule.column@).unwrap()].data_type,
        );
        kernel.integral() || kernel.floating()
    })
}

/// Whether a rule on a total has limits of the type of its column.
pub open spec fn sound_sum(rule: SumAst, schema: Schema, i: int) -> bool {
    &&& has_column(schema, rule.column@)
    &&& sum_limits(
        rule,
        schema.fields@[first_named(schema.fields@, rule.column@).unwrap()],
        item_path("$.dataset_rules.sum"@, i as nat),
    ) is Ok
}

/// Whether a rule on exclusive columns has two columns to exclude one another.
pub open spec fn sound_exclusive(rule: MutuallyExclusiveAst, schema: Schema) -> bool {
    rule.columns@.len() >= 2 && has_columns(schema, texts(rule.columns@))
}

/// Whether a rule on keys under a condition has a key and a condition that compiles.
pub open spec fn sound_conditional(rule: ConditionalUniqueAst, schema: Schema, i: int) -> bool {
    &&& rule.columns@.len() > 0
    &&& has_columns(schema, texts(rule.columns@))
    &&& compare_outcome(
        rule.when,
        schema,
        item_path("$.dataset_rules.conditional_unique"@, i as nat) + ".when"@,
    ) is Ok
}

/// Whether the rules of a dataset name columns that a schema has and that they can judge.
pub open spec fn sound_dataset(rules: DatasetRulesAst, schema: Schema) -> bool {
    &&& forall|i: int|
        0 <= i < rules.null_ratio@.len()
            ==> has_column(schema, (#[trigger] rules.null_ratio@[i]).0@)
    &&& forall|i: int|
        0 <= i < rules.distinct_count@.len() ==> has_column(
            schema,
            (#[trigger] rules.distinct_count@[i]).0@,
        )
    &&& forall|i: int|
        0 <= i < rules.distinct_ratio@.len() ==> has_column(
            schema,
            (#[trigger] rules.distinct_ratio@[i]).0@,
        )
    &&& forall|i: int|
        0 <= i < rules.composite_unique@.len() ==> has_columns(
            schema,
            texts((#[trigger] rules.composite_unique@[i]).columns@),
        )
    &&& forall|i: int|
        0 <= i < rules.references@.len() ==> has_columns(
            schema,
            texts((#[trigger] rules.references@[i]).columns@),
        )
    &&& sound_later(rules, schema)
}

/// Whether the rules of the labelled kinds name columns that a schema has and that they can judge.
pub open spec fn sound_later(rules: DatasetRulesAst, schema: Schema) -> bool {
    &&& forall|i: int|
        0 <= i < rules.monotonicity@.len() ==> has_column(
            schema,
            (#[trigger] rules.monotonicity@[i]).column@,
        )
    &&& forall|i: int|
        0 <= i < rules.gap_detection@.len()
            ==> sound_gap(#[trigger] rules.gap_detection@[i], schema)
    &&& forall|i: int|
        0 <= i < rules.mutually_exclusive@.len() ==> sound_exclusive(
            #[trigger] rules.mutually_exclusive@[i],
            schema,
        )
    &&& forall|i: int| 0 <= i < rules.sum@.len() ==> sound_sum(#[trigger] rules.sum@[i], schema, i)
    &&& forall|i: int|
        0 <= i < rules.mean@.len() ==> sound_statistic(#[trigger] rules.mean@[i], schema)
    &&& forall|i: int|
        0 <= i < rules.std_dev@.len() ==> sound_statistic(#[trigger] rules.std_dev@[i], schema)
    &&& forall|i: int|
        0 <= i < rules.conditional_unique@.len() ==> sound_conditional(
            #[trigger] rules.conditional_unique@[i],
            schema,
            i,
        )
}

proof fn ratios_found(rules: Seq<(String, RatioRangeAst)>, schema: Schema, prefix: Seq<char>)
    ensures
        first_error(rules.len(), ratio_column_check(rules, schema, prefix)) is None
            <==> forall|i: int|
            0 <= i < rules.len() ==> has_column(schema, (#[trigger] rules[i]).0@),
{
    let check = ratio_column_check(rules, schema, prefix);
    none_wrong(rules.len(), check);
    assert forall|i: int| 0 <= i < rules.len() implies ((#[trigger] check(i)) is None
        <==> has_column(schema, rules[i].0@)) by {
        named_columns(schema, rules[i].0@);
    }
    if first_error(rules.len(), check) is None {
        assert forall|i: int| 0 <= i < rules.len() implies
            has_column(schema, (#[trigger] rules[i]).0@) by {
            assert(check(i) is None);
        }
    }
}

proof fn counts_found(rules: Seq<(String, CountRangeAst)>, schema: Schema)
    ensures
        first_error(rules.len(), count_column_check(rules, schema)) is None <==> forall|i: int|
            0 <= i < rules.len() ==> has_column(schema, (#[trigger] rules[i]).0@),
{
    let check = count_column_check(rules, schema);
    none_wrong(rules.len(), check);
    assert forall|i: int| 0 <= i < rules.len() implies ((#[trigger] check(i)) is None
        <==> has_column(schema, rules[i].0@)) by {
        named_columns(schema, rules[i].0@);
    }
    if first_error(rules.len(), check) is None {
        assert forall|i: int| 0 <= i < rules.len() implies
            has_column(schema, (#[trigger] rules[i]).0@) by {
            assert(check(i) is None);
        }
    }
}

proof fn composites_found(rules: Seq<CompositeUniqueAst>, schema: Schema)
    ensures
        first_error(rules.len(), composite_column_check(rules, schema)) is None <==> forall|i: int|
            0 <= i < rules.len() ==> has_columns(schema, texts((#[trigger] rules[i]).columns@)),
{
    let check = composite_column_check(rules, schema);
    none_wrong(rules.len(), check);
    assert forall|i: int| 0 <= i < rules.len() implies ((#[trigger] check(i)) is None
        <==> has_columns(schema, texts(rules[i].columns@))) by {
        key_columns_found(
            texts(rules[i].columns@),
            schema,
            "Composite key column `"@,
            item_path("$.dataset_rules.composite_unique"@, i as nat) + ".columns"@,
        );
    }
    if first_error(rules.len(), check) is None {
        assert forall|i: int| 0 <= i < rules.len() implies
            has_columns(schema, texts((#[trigger] rules[i]).columns@)) by {
            assert(check(i) is None);
        }
    }
}

proof fn references_found(rules: Seq<ReferenceAst>, schema: Schema)
    ensures
        first_error(rules.len(), reference_column_check(rules, schema)) is None <==> forall|i: int|
            0 <= i < rules.len() ==> has_columns(schema, texts((#[trigger] rules[i]).columns@)),
{
    let check = reference_column_check(rules, schema);
    none_wrong(rules.len(), check);
    assert forall|i: int| 0 <= i < rules.len() implies ((#[trigger] check(i)) is None
        <==> has_columns(schema, texts(rules[i].columns@))) by {
        key_columns_found(
            texts(rules[i].columns@),
            schema,
            "Reference key column `"@,
            item_path("$.dataset_rules.references"@, i as nat) + ".columns"@,
        );
    }
    if first_error(rules.len(), check) is None {
        assert forall|i: int| 0 <= i < rules.len() implies
            has_columns(schema, texts((#[trigger] rules[i]).columns@)) by {
            assert(check(i) is None);
        }
    }
}

proof fn orders_found(rules: Seq<MonotonicityAst>, schema: Schema)
    ensures
        first_error(rules.len(), monotonicity_check(rules, schema)) is None <==> forall|i: int|
            0 <= i < rules.len() ==> has_column(schema, (#[trigger] rules[i]).column@),
{
    let check = monotonicity_check(rules, schema);
    none_wrong(rules.len(), check);
    assert forall|i: int| 0 <= i < rules.len() implies ((#[trigger] check(i)) is None
        <==> has_column(schema, rules[i].column@)) by {
        named_columns(schema, rules[i].column@);
    }
    if first_error(rules.len(), check) is None {
        assert forall|i: int| 0 <= i < rules.len() implies
            has_column(schema, (#[trigger] rules[i]).column@) by {
            assert(check(i) is None);
        }
    }
}

proof fn gaps_found(rules: Seq<GapDetectionAst>, schema: Schema)
    ensures
        first_error(rules.len(), gap_check(rules, schema)) is None <==> forall|i: int|
            0 <= i < rules.len() ==> sound_gap((#[trigger] rules[i]), schema),
{
    let check = gap_check(rules, schema);
    none_wrong(rules.len(), check);
    assert forall|i: int| 0 <= i < rules.len() implies ((#[trigger] check(i)) is None
        <==> sound_gap(rules[i], schema)) by {
        named_columns(schema, rules[i].column@);
        floats64_order_as_numbers(0, rules[i].expected_step);
        floats64_order_as_numbers(rules[i].tolerance, 0);
    }
    if first_error(rules.len(), check) is None {
        assert forall|i: int| 0 <= i < rules.len() implies
            sound_gap((#[trigger] rules[i]), schema) by {
            assert(check(i) is None);
        }
    }
}

proof fn exclusions_found(rules: Seq<MutuallyExclusiveAst>, schema: Schema)
    ensures
        first_error(rules.len(), exclusive_check(rules, schema)) is None <==> forall|i: int|
            0 <= i < rules.len() ==> sound_exclusive((#[trigger] rules[i]), schema),
{
    let check = exclusive_check(rules, schema);
    none_wrong(rules.len(), check);
    assert forall|i: int| 0 <= i < rules.len() implies ((#[trigger] check(i)) is None
        <==> sound_exclusive(rules[i], schema)) by {
        key_columns_found(
            texts(rules[i].columns@),
            schema,
            "Mutually exclusive column `"@,
            item_path("$.dataset_rules.mutually_exclusive"@, i as nat) + ".columns"@,
        );
    }
    if first_error(rules.len(), check) is None {
        assert forall|i: int| 0 <= i < rules.len() implies
            sound_exclusive((#[trigger] rules[i]), schema) by {
            assert(check(i) is None);
        }
    }
}

proof fn sums_found(rules: Seq<SumAst>, schema: Schema)
    ensures
        first_error(rules.len(), sum_check(rules, schema)) is None <==> forall|i: int|
            0 <= i < rules.len() ==> sound_sum((#[trigger] rules[i]), schema, i),
{
    let check = sum_check(rules, schema);
    none_wrong(rules.len(), check);
    assert forall|i: int| 0 <= i < rules.len() implies ((#[trigger] check(i)) is None
        <==> sound_sum(rules[i], schema, i)) by {
        named_columns(schema, rules[i].column@);
    }
    if first_error(rules.len(), check) is None {
        assert forall|i: int| 0 <= i < rules.len() implies
            sound_sum((#[trigger] rules[i]), schema, i) by {
            assert(check(i) is None);
        }
    }
}

proof fn statistics_found(rules: Seq<StatisticAst>, schema: Schema, base: Seq<char>)
    ensures
        first_error(rules.len(), statistic_check(rules, schema, base)) is None <==> forall|i: int|
            0 <= i < rules.len() ==> sound_statistic((#[trigger] rules[i]), schema),
{
    let check = statistic_check(rules, schema, base);
    none_wrong(rules.len(), check);
    assert forall|i: int| 0 <= i < rules.len() implies ((#[trigger] check(i)) is None
        <==> sound_statistic(rules[i], schema)) by {
        named_columns(schema, rules[i].column@);
    }
    if first_error(rules.len(), check) is None {
        assert forall|i: int| 0 <= i < rules.len() implies
            sound_statistic((#[trigger] rules[i]), schema) by {
            assert(check(i) is None);
        }
    }
}

proof fn conditions_found(rules: Seq<ConditionalUniqueAst>, schema: Schema)
    ensures
        first_error(rules.len(), conditional_check(rules, schema)) is None <==> forall|i: int|
            0 <= i < rules.len() ==> sound_conditional((#[trigger] rules[i]), schema, i),
{
    let check = conditional_check(rules, schema);
    none_wrong(rules.len(), check);
    assert forall|i: int| 0 <= i < rules.len() implies ((#[trigger] check(i)) is None
        <==> sound_conditional(rules[i], schema, i)) by {
        key_columns_found(
            texts(rules[i].columns@),
            schema,
            "Conditional key column `"@,
            item_path("$.dataset_rules.conditional_unique"@, i as nat) + ".columns"@,
        );
    }
    if first_error(rules.len(), check) is None {
        assert forall|i: int| 0 <= i < rules.len() implies
            sound_conditional((#[trigger] rules[i]), schema, i) by {
            assert(check(i) is None);
        }
    }
}

/// The rules of a dataset are refused on a schema exactly where one names a column that the schema
/// lacks, or a column that it cannot judge, or a limit that is no number.
pub proof fn sound_dataset_rules_are_accepted(rules: DatasetRulesAst, schema: Schema)
    ensures
        dataset_error(rules, schema) is None <==> sound_dataset(rules, schema),
{
    ratios_found(rules.null_ratio@, schema, "$.dataset_rules.null_ratio."@);
    counts_found(rules.distinct_count@, schema);
    ratios_found(rules.distinct_ratio@, schema, "$.dataset_rules.distinct_ratio."@);
    composites_found(rules.composite_unique@, schema);
    references_found(rules.references@, schema);
    orders_found(rules.monotonicity@, schema);
    gaps_found(rules.gap_detection@, schema);
    exclusions_found(rules.mutually_exclusive@, schema);
    sums_found(rules.sum@, schema);
    statistics_found(rules.mean@, schema, "$.dataset_rules.mean"@);
    statistics_found(rules.std_dev@, schema, "$.dataset_rules.std_dev"@);
    conditions_found(rules.conditional_unique@, schema);
}

} // verus!
