//! Compiled contracts point only at columns that their schema has.

use crate::contract::ast::{ContractAst, ContractAstV2, RuleAst, RuleAstV2};
use crate::contract::compile::{
    column_views, resolved_columns, resolved_columns_v2, ColumnView, CompiledContract,
};
use crate::contract::dataset::{dataset_resolved, DatasetPlan};
use crate::contract::row::{compare_outcome, row_outcome, CompareView, RowView};
use crate::contract::ast::{CompareAst, DatasetRulesAst, RowRuleAst};
use crate::error::ErrorView;
use crate::execution::dataset_state::plan_fits;
use crate::execution::references::reference_fits;
use crate::execution::row_kernels::{in_range, row_in_range};
use crate::value::{first_named_is_first, Field, Schema};
use vstd::prelude::*;

verus! {

/// Whether every column that a compiled contract names stands in its schema.
pub open spec fn contract_fits(plan: CompiledContract) -> bool {
    let n = plan.schema.fields@.len() as int;
    &&& forall|i: int|
        #![trigger plan.columns@[i]]
        0 <= i < plan.columns@.len() ==> plan.columns@[i].column_index < n
    &&& forall|i: int|
        #![trigger plan.row_plans@[i]]
        0 <= i < plan.row_plans@.len() ==> row_in_range(plan.row_plans@[i]@, n)
    &&& plan_fits(plan.dataset_plan, n)
    &&& forall|i: int|
        #![trigger plan.dataset_plan.references@[i]]
        0 <= i < plan.dataset_plan.references@.len() ==> reference_fits(
            plan.dataset_plan.references@[i],
            n,
        )
}

proof fn columns_fit(
    fields: Seq<Field>,
    n: nat,
    columns: Seq<(String, RuleAst)>,
    found: Seq<ColumnView>,
)
    requires
        n <= fields.len(),
        resolved_columns(fields, n, columns) == Ok::<Seq<ColumnView>, ErrorView>(found),
    ensures
        forall|i: int| 0 <= i < found.len() ==> 0 <= (#[trigger] found[i]).column_index < n,
    decreases n,
{
    if n > 0 {
        let rest = resolved_columns(fields, (n - 1) as nat, columns)->Ok_0;
        columns_fit(fields, (n - 1) as nat, columns, rest);
    }
}

proof fn columns_fit_v2(
    fields: Seq<Field>,
    n: nat,
    columns: Seq<(String, RuleAstV2)>,
    found: Seq<ColumnView>,
)
    requires
        n <= fields.len(),
        resolved_columns_v2(fields, n, columns) == Ok::<Seq<ColumnView>, ErrorView>(found),
    ensures
        forall|i: int| 0 <= i < found.len() ==> 0 <= (#[trigger] found[i]).column_index < n,
    decreases n,
{
    if n > 0 {
        let rest = resolved_columns_v2(fields, (n - 1) as nat, columns)->Ok_0;
        columns_fit_v2(fields, (n - 1) as nat, columns, rest);
    }
}

proof fn compare_fits(source: CompareAst, schema: Schema, path: Seq<char>, found: CompareView)
    requires
        compare_outcome(source, schema, path) == Ok::<CompareView, ErrorView>(found),
    ensures
        in_range(found, schema.fields@.len() as int),
{
    match source.left {
        crate::contract::ast::OperandAst::Column(a) => first_named_is_first(
            schema.fields@,
            a.column@,
        ),
        _ => {},
    }
    match source.right {
        crate::contract::ast::OperandAst::Column(b) => first_named_is_first(
            schema.fields@,
            b.column@,
        ),
        _ => {},
    }
}

proof fn row_fits(source: RowRuleAst, schema: Schema, index: nat, found: RowView)
    requires
        row_outcome(source, schema, index) == Ok::<RowView, ErrorView>(found),
    ensures
        row_in_range(found, schema.fields@.len() as int),
{
    let path = crate::contract::v2::item_path("$.row_rules"@, index);
    if source.compare is Some {
        let c = compare_outcome(source.compare.unwrap(), schema, path + ".compare"@)->Ok_0;
        compare_fits(source.compare.unwrap(), schema, path + ".compare"@, c);
    } else {
        let when = source.when.unwrap();
        let assertion = source.assertion.unwrap();
        first_named_is_first(schema.fields@, assertion.column@);
        let c = compare_outcome(when, schema, path + ".when"@)->Ok_0;
        compare_fits(when, schema, path + ".when"@, c);
    }
}

proof fn dataset_fits(rules: DatasetRulesAst, schema: Schema, plan: DatasetPlan)
    requires
        dataset_resolved(rules, schema, plan),
    ensures
        plan_fits(plan, schema.fields@.len() as int),
        forall|i: int|
            #![trigger plan.references@[i]]
            0 <= i < plan.references@.len() ==> (plan.references@[i].columns@.len()
                == plan.references@[i].reference_columns@.len() ==> reference_fits(
                plan.references@[i],
                schema.fields@.len() as int,
            )),
{
    let n = schema.fields@.len() as int;
    assert forall|i: int|
        #![trigger plan.conditional_unique@[i]]
        0 <= i < plan.conditional_unique@.len() implies in_range(
        plan.conditional_unique@[i].predicate@,
        n,
    ) by {
        compare_fits(
            rules.conditional_unique@[i].when,
            schema,
            Seq::empty(),
            plan.conditional_unique@[i].predicate@,
        );
    }
    assert forall|i: int|
        #![trigger plan.mutually_exclusive@[i]]
        0 <= i < plan.mutually_exclusive@.len() implies
        crate::execution::exclusive::exclusive_in_range(plan.mutually_exclusive@[i], n) by {
        let p = plan.mutually_exclusive@[i];
        assert(crate::text::texts(p.names@).len() == p.names@.len());
        assert(crate::text::texts(rules.mutually_exclusive@[i].columns@).len()
            == p.columns@.len());
    }
}

/// A compiled version 1 contract points only at columns that its schema has.
pub proof fn compiled_contract_fits(contract: ContractAst, schema: Schema, plan: CompiledContract)
    requires
        plan.schema.fields@.len() == schema.fields@.len(),
        resolved_columns(schema.fields@, schema.fields@.len(), contract.columns@) == Ok::<
            Seq<ColumnView>,
            ErrorView,
        >(column_views(plan.columns@)),
        plan.row_plans@.len() == 0,
        plan.dataset_plan.no_rules(),
    ensures
        contract_fits(plan),
{
    columns_fit(
        schema.fields@,
        schema.fields@.len(),
        contract.columns@,
        column_views(plan.columns@),
    );
    assert forall|i: int|
        #![trigger plan.columns@[i]]
        0 <= i < plan.columns@.len() implies plan.columns@[i].column_index
        < plan.schema.fields@.len() by {
        assert(column_views(plan.columns@)[i] == plan.columns@[i]@);
    }
}

/// A compiled version 2 contract points only at columns that its schema has, where its
/// reference rules pair as many columns on both sides.
pub proof fn compiled_contract_fits_v2(
    contract: ContractAstV2,
    schema: Schema,
    plan: CompiledContract,
)
    requires
        plan.schema.fields@.len() == schema.fields@.len(),
        resolved_columns_v2(schema.fields@, schema.fields@.len(), contract.columns@) == Ok::<
            Seq<ColumnView>,
            ErrorView,
        >(column_views(plan.columns@)),
        plan.row_plans@.len() == contract.row_rules@.len(),
        forall|i: int|
            #![trigger plan.row_plans@[i]]
            0 <= i < plan.row_plans@.len() ==> row_outcome(
                contract.row_rules@[i],
                schema,
                i as nat,
            ) == Ok::<RowView, ErrorView>(plan.row_plans@[i]@),
        dataset_resolved(contract.dataset_rules, schema, plan.dataset_plan),
        forall|i: int|
            #![trigger plan.dataset_plan.references@[i]]
            0 <= i < plan.dataset_plan.references@.len()
                ==> plan.dataset_plan.references@[i].columns@.len()
                == plan.dataset_plan.references@[i].reference_columns@.len(),
    ensures
        contract_fits(plan),
{
    columns_fit_v2(
        schema.fields@,
        schema.fields@.len(),
        contract.columns@,
        column_views(plan.columns@),
    );
    assert forall|i: int|
        #![trigger plan.columns@[i]]
        0 <= i < plan.columns@.len() implies plan.columns@[i].column_index
        < plan.schema.fields@.len() by {
        assert(column_views(plan.columns@)[i] == plan.columns@[i]@);
    }
    assert forall|i: int|
        #![trigger plan.row_plans@[i]]
        0 <= i < plan.row_plans@.len() implies row_in_range(
        plan.row_plans@[i]@,
        plan.schema.fields@.len() as int,
    ) by {
        row_fits(contract.row_rules@[i], schema, i as nat, plan.row_plans@[i]@);
    }
    dataset_fits(contract.dataset_rules, schema, plan.dataset_plan);
}

} // verus!
