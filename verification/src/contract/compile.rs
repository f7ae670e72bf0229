//! Contracts compiled against a schema.

use crate::contract::ast::{
    append_path, column_path, fail, failure, first_error, first_error_found, or_error, outcome,
    path_to, ContractAst, ContractAstV2, ContractVersion, ParameterizedTypeAst, PrimitiveTypeAst,
    RowRuleAst, RuleAst, RuleAstV2, TimeUnitAst, TypeAst,
};
use crate::contract::dataset::{dataset_error, dataset_resolved, DatasetPlan};
use crate::contract::document::ContractDocument;
use crate::contract::row::{row_outcome, RowPlan, RowView};
use crate::contract::rules::{
    compile_rules, expected_type, expected_type_matches, has_value_rules, kernel_of,
    rules_outcome, value_rules, CompiledRules, KernelKind, RulesView,
};
use crate::contract::v2::{debug_string, debug_text};
use crate::error::{ErrorCode, ErrorView, ProofFrameError};
use crate::text::{cat3, cat5, cat7, decimal, decimal_i128, decimal_int, decimal_u64, str_eq, text};
use crate::value::{copy_schema, first_named, same_schema, Field, Schema};
use vstd::prelude::*;
use vstd::string::*;

verus! {

/// One schema-resolved column in the execution plan.
pub struct ColumnPlan {
    pub column_index: usize,
    pub field: String,
    pub kernel: KernelKind,
    pub rules: CompiledRules,
}

/// A resolved column with its texts as character sequences.
pub struct ColumnView {
    pub column_index: int,
    pub field: Seq<char>,
    pub kernel: KernelKind,
    pub rules: RulesView,
}

impl View for ColumnPlan {
    type V = ColumnView;

    open spec fn view(&self) -> ColumnView {
        ColumnView {
            column_index: self.column_index as int,
            field: self.field@,
            kernel: self.kernel,
            rules: self.rules@,
        }
    }
}

impl ColumnPlan {
    /// The position of the column.
    pub fn column_index(&self) -> (r: usize)
        ensures
            r == self.column_index,
    {
        self.column_index
    }

    /// The name of the column.
    pub fn field(&self) -> (r: &str)
        ensures
            r@ == self.field@,
    {
        self.field.as_str()
    }

    /// The kernel of the column.
    pub fn kernel(&self) -> (r: KernelKind)
        ensures
            r == self.kernel,
    {
        self.kernel
    }

    /// The rules of the column.
    pub fn rules(&self) -> (r: &CompiledRules)
        ensures
            *r == self.rules,
    {
        &self.rules
    }
}

/// The views of a list of columns.
pub open spec fn column_views(columns: Seq<ColumnPlan>) -> Seq<ColumnView> {
    columns.map_values(|c: ColumnPlan| c@)
}

/// A contract compiled in schema order.
pub struct CompiledContract {
    pub schema: Schema,
    pub columns: Vec<ColumnPlan>,
    pub row_plans: Vec<RowPlan>,
    pub dataset_plan: DatasetPlan,
    pub version: ContractVersion,
    pub max_findings: usize,
}

/// The rules of a column of a version 1 contract.
pub open spec fn rules_for(columns: Seq<(String, RuleAst)>, name: Seq<char>) -> Option<RuleAst>
    decreases columns.len(),
{
    if columns.len() == 0 {
        None
    } else if columns[0].0@ == name {
        Some(columns[0].1)
    } else {
        rules_for(columns.drop_first(), name)
    }
}

fn find_rules<'a>(columns: &'a Vec<(String, RuleAst)>, name: &str) -> (r: Option<&'a RuleAst>)
    ensures
        match rules_for(columns@, name@) {
            Some(v) => r matches Some(x) && *x == v,
            None => r is None,
        },
{
    let mut i: usize = 0;
    assert(columns@.skip(0) =~= columns@);
    while i < columns.len()
        invariant
            i <= columns@.len(),
            rules_for(columns@, name@) == rules_for(columns@.skip(i as int), name@),
        decreases columns@.len() - i,
    {
        assert(columns@.skip(i as int)[0] == columns@[i as int]);
        if str_eq(columns[i].0.as_str(), name) {
            return Some(&columns[i].1);
        }
        assert(columns@.skip(i as int).drop_first() =~= columns@.skip(i + 1));
        i = i + 1;
    }
    None
}

/// The rules of a column of a version 2 contract.
pub open spec fn rules_for_v2(columns: Seq<(String, RuleAstV2)>, name: Seq<char>) -> Option<
    RuleAstV2,
>
    decreases columns.len(),
{
    if columns.len() == 0 {
        None
    } else if columns[0].0@ == name {
        Some(columns[0].1)
    } else {
        rules_for_v2(columns.drop_first(), name)
    }
}

fn find_rules_v2<'a>(columns: &'a Vec<(String, RuleAstV2)>, name: &str) -> (r: Option<
    &'a RuleAstV2,
>)
    ensures
        match rules_for_v2(columns@, name@) {
            Some(v) => r matches Some(x) && *x == v,
            None => r is None,
        },
{
    let mut i: usize = 0;
    assert(columns@.skip(0) =~= columns@);
    while i < columns.len()
        invariant
            i <= columns@.len(),
            rules_for_v2(columns@, name@) == rules_for_v2(columns@.skip(i as int), name@),
        decreases columns@.len() - i,
    {
        assert(columns@.skip(i as int)[0] == columns@[i as int]);
        if str_eq(columns[i].0.as_str(), name) {
            return Some(&columns[i].1);
        }
        assert(columns@.skip(i as int).drop_first() =~= columns@.skip(i + 1));
        i = i + 1;
    }
    None
}

/// The check that a contract's column exists where its rules need it, in version 1.
pub open spec fn presence_check(columns: Seq<(String, RuleAst)>, schema: Schema) -> spec_fn(
    int,
) -> Option<ErrorView> {
    |i: int|
        {
            let name = columns[i].0@;
            if first_named(schema.fields@, name) is Some {
                None
            } else if columns[i].1.required {
                Some(
                    failure(
                        ErrorCode::MissingColumn,
                        "Required contract column `"@ + name
                            + "` is absent from the Arrow schema"@,
                        path_to("$.columns"@, name),
                    ),
                )
            } else if value_rules(columns[i].1) {
                Some(
                    failure(
                        ErrorCode::MissingColumn,
                        "Contract column `"@ + name + "` is absent from the Arrow schema"@,
                        path_to("$.columns"@, name),
                    ),
                )
            } else {
                None
            }
        }
}

/// The resolved column of one field, if its rules say anything of its values.
pub open spec fn column_outcome(field: Field, index: int, rules: RuleAst, length: (
    Option<usize>,
    Option<usize>,
)) -> Result<ColumnView, ErrorView> {
    match rules_outcome(
        field.name@,
        field.data_type,
        field.type_text@,
        kernel_of(field.data_type),
        rules,
        length,
    ) {
        Ok(r) => Ok(
            ColumnView {
                column_index: index,
                field: field.name@,
                kernel: kernel_of(field.data_type),
                rules: r,
            },
        ),
        Err(e) => Err(e),
    }
}

/// The rules and lengths that apply to a field in version 1.
pub open spec fn applied(columns: Seq<(String, RuleAst)>, field: Field) -> Option<
    (RuleAst, (Option<usize>, Option<usize>)),
> {
    match rules_for(columns, field.name@) {
        Some(rules) => if value_rules(rules) {
            Some((rules, (None, None)))
        } else {
            None
        },
        None => None,
    }
}

/// The rules and lengths that apply to a field in version 2.
pub open spec fn applied_v2(columns: Seq<(String, RuleAstV2)>, field: Field) -> Option<
    (RuleAst, (Option<usize>, Option<usize>)),
> {
    match rules_for_v2(columns, field.name@) {
        Some(rule) => if value_rules(rule.rules) || rule.min_length is Some || rule.max_length
            is Some {
            Some((rule.rules, (rule.min_length, rule.max_length)))
        } else {
            None
        },
        None => None,
    }
}

/// One more field behind the resolved columns so far.
pub open spec fn with_field(
    so_far: Result<Seq<ColumnView>, ErrorView>,
    field: Field,
    index: int,
    rule: Option<(RuleAst, (Option<usize>, Option<usize>))>,
) -> Result<Seq<ColumnView>, ErrorView> {
    match so_far {
        Err(e) => Err(e),
        Ok(v) => match rule {
            None => Ok(v),
            Some((rules, length)) => match column_outcome(field, index, rules, length) {
                Ok(c) => Ok(v.push(c)),
                Err(e) => Err(e),
            },
        },
    }
}

/// The resolved columns of the first `n` fields in version 1.
pub open spec fn resolved_columns(
    fields: Seq<Field>,
    n: nat,
    columns: Seq<(String, RuleAst)>,
) -> Result<Seq<ColumnView>, ErrorView>
    decreases n,
{
    if n == 0 {
        Ok(Seq::empty())
    } else {
        with_field(
            resolved_columns(fields, (n - 1) as nat, columns),
            fields[n - 1],
            n - 1,
            applied(columns, fields[n - 1]),
        )
    }
}

/// The resolved columns of the first `n` fields in version 2.
pub open spec fn resolved_columns_v2(
    fields: Seq<Field>,
    n: nat,
    columns: Seq<(String, RuleAstV2)>,
) -> Result<Seq<ColumnView>, ErrorView>
    decreases n,
{
    if n == 0 {
        Ok(Seq::empty())
    } else {
        with_field(
            resolved_columns_v2(fields, (n - 1) as nat, columns),
            fields[n - 1],
            n - 1,
            applied_v2(columns, fields[n - 1]),
        )
    }
}

proof fn resolved_error_stays(fields: Seq<Field>, i: nat, n: nat, columns: Seq<(String, RuleAst)>)
    requires
        i <= n,
        resolved_columns(fields, i, columns) is Err,
    ensures
        resolved_columns(fields, n, columns) == resolved_columns(fields, i, columns),
    decreases n,
{
    if i < n {
        resolved_error_stays(fields, i, (n - 1) as nat, columns);
    }
}

proof fn resolved_error_stays_v2(
    fields: Seq<Field>,
    i: nat,
    n: nat,
    columns: Seq<(String, RuleAstV2)>,
)
    requires
        i <= n,
        resolved_columns_v2(fields, i, columns) is Err,
    ensures
        resolved_columns_v2(fields, n, columns) == resolved_columns_v2(fields, i, columns),
    decreases n,
{
    if i < n {
        resolved_error_stays_v2(fields, i, (n - 1) as nat, columns);
    }
}

fn compile_field(
    field: &Field,
    index: usize,
    rules: &RuleAst,
    length: (Option<usize>, Option<usize>),
) -> (r: Result<ColumnPlan, ProofFrameError>)
    ensures
        match column_outcome(*field, index as int, *rules, length) {
            Ok(c) => r matches Ok(p) && p@ == c,
            Err(e) => r matches Err(x) && x@ == e,
        },
{
    let kernel = KernelKind::from_data_type(&field.data_type);
    match compile_rules(
        field.name.as_str(),
        &field.data_type,
        field.type_text.as_str(),
        &kernel,
        rules,
        length,
    ) {
        Ok(rules) => Ok(
            ColumnPlan { column_index: index, field: field.name.clone(), kernel, rules },
        ),
        Err(e) => Err(e),
    }
}

/// The first error of a list of resolved columns.
pub open spec fn columns_error(r: Result<Seq<ColumnView>, ErrorView>) -> Option<ErrorView> {
    match r {
        Ok(_) => None,
        Err(e) => Some(e),
    }
}

/// The first error of compiling a version 1 contract.
pub open spec fn contract_error(contract: ContractAst, schema: Schema) -> Option<ErrorView> {
    or_error(
        first_error(contract.columns@.len(), presence_check(contract.columns@, schema)),
        columns_error(
            resolved_columns(schema.fields@, schema.fields@.len(), contract.columns@),
        ),
    )
}

/// The debug spelling of a type without parameters.
pub open spec fn primitive_name(t: PrimitiveTypeAst) -> Seq<char> {
    match t {
        PrimitiveTypeAst::Boolean => "Boolean"@,
        PrimitiveTypeAst::Int8 => "Int8"@,
        PrimitiveTypeAst::Int16 => "Int16"@,
        PrimitiveTypeAst::Int32 => "Int32"@,
        PrimitiveTypeAst::Int64 => "Int64"@,
        PrimitiveTypeAst::Uint8 => "Uint8"@,
        PrimitiveTypeAst::Uint16 => "Uint16"@,
        PrimitiveTypeAst::Uint32 => "Uint32"@,
        PrimitiveTypeAst::Uint64 => "Uint64"@,
        PrimitiveTypeAst::Float32 => "Float32"@,
        PrimitiveTypeAst::Float64 => "Float64"@,
        PrimitiveTypeAst::Date32 => "Date32"@,
        PrimitiveTypeAst::Date64 => "Date64"@,
        PrimitiveTypeAst::Utf8 => "Utf8"@,
        PrimitiveTypeAst::LargeUtf8 => "LargeUtf8"@,
        PrimitiveTypeAst::Utf8View => "Utf8View"@,
        PrimitiveTypeAst::Binary => "Binary"@,
        PrimitiveTypeAst::LargeBinary => "LargeBinary"@,
        PrimitiveTypeAst::BinaryView => "BinaryView"@,
    }
}

fn primitive_text(t: PrimitiveTypeAst) -> (r: &'static str)
    ensures
        r@ == primitive_name(t),
{
    match t {
        PrimitiveTypeAst::Boolean => "Boolean",
        PrimitiveTypeAst::Int8 => "Int8",
        PrimitiveTypeAst::Int16 => "Int16",
        PrimitiveTypeAst::Int32 => "Int32",
        PrimitiveTypeAst::Int64 => "Int64",
        PrimitiveTypeAst::Uint8 => "Uint8",
        PrimitiveTypeAst::Uint16 => "Uint16",
        PrimitiveTypeAst::Uint32 => "Uint32",
        PrimitiveTypeAst::Uint64 => "Uint64",
        PrimitiveTypeAst::Float32 => "Float32",
        PrimitiveTypeAst::Float64 => "Float64",
        PrimitiveTypeAst::Date32 => "Date32",
        PrimitiveTypeAst::Date64 => "Date64",
        PrimitiveTypeAst::Utf8 => "Utf8",
        PrimitiveTypeAst::LargeUtf8 => "LargeUtf8",
        PrimitiveTypeAst::Utf8View => "Utf8View",
        PrimitiveTypeAst::Binary => "Binary",
        PrimitiveTypeAst::LargeBinary => "LargeBinary",
        PrimitiveTypeAst::BinaryView => "BinaryView",
    }
}

/// The debug spelling of a unit.
pub open spec fn unit_name(unit: TimeUnitAst) -> Seq<char> {
    match unit {
        TimeUnitAst::S => "S"@,
        TimeUnitAst::Ms => "Ms"@,
        TimeUnitAst::Us => "Us"@,
        TimeUnitAst::Ns => "Ns"@,
    }
}

/// The debug spelling of an expected type, given the debug spelling of its time zone.
pub open spec fn type_debug(t: TypeAst, zone: Seq<char>) -> Seq<char> {
    match t {
        TypeAst::Primitive(p) => "Primitive("@ + primitive_name(p) + ")"@,
        TypeAst::Parameterized(ParameterizedTypeAst::Decimal128 { precision, scale }) => {
            "Parameterized(Decimal128 { precision: "@ + decimal(precision as nat) + ", scale: "@
                + decimal_int(scale as int) + " })"@
        },
        TypeAst::Parameterized(ParameterizedTypeAst::Timestamp { unit, timezone }) => {
            "Parameterized(Timestamp { unit: "@ + unit_name(unit) + ", timezone: "@ + (
            if timezone is Some {
                "Some("@ + zone + ")"@
            } else {
                "None"@
            }) + " })"@
        },
    }
}

/// The debug spelling of the time zone of an expected type; empty where it has none.
pub open spec fn zone_debug(t: TypeAst) -> Seq<char> {
    match t {
        TypeAst::Parameterized(
            ParameterizedTypeAst::Timestamp { unit, timezone: Some(zone) },
        ) => debug_text(zone@),
        _ => Seq::empty(),
    }
}

/// The debug spelling of an expected type, given the debug spelling of its time zone.
pub fn type_spelling(t: &TypeAst, zone: &str) -> (r: String)
    ensures
        r@ == type_debug(*t, zone@),
{
    match t {
        TypeAst::Primitive(p) => cat3("Primitive(", primitive_text(*p), ")"),
        TypeAst::Parameterized(ParameterizedTypeAst::Decimal128 { precision, scale }) => {
            let p = decimal_u64(*precision as u64);
            let s = decimal_i128(*scale as i128);
            cat5(
                "Parameterized(Decimal128 { precision: ",
                p.as_str(),
                ", scale: ",
                s.as_str(),
                " })",
            )
        },
        TypeAst::Parameterized(ParameterizedTypeAst::Timestamp { unit, timezone }) => {
            let u = match unit {
                TimeUnitAst::S => "S",
                TimeUnitAst::Ms => "Ms",
                TimeUnitAst::Us => "Us",
                TimeUnitAst::Ns => "Ns",
            };
            let z = match timezone {
                Some(_) => cat3("Some(", zone, ")"),
                None => text("None"),
            };
            cat5("Parameterized(Timestamp { unit: ", u, ", timezone: ", z.as_str(), " })")
        },
    }
}

/// Whether a version 2 rule set says anything of a column's values.
pub open spec fn value_rules_v2(rule: RuleAstV2) -> bool {
    value_rules(rule.rules) || rule.min_length is Some || rule.max_length is Some
        || rule.expected_type is Some
}

/// Whether a version 2 rule set says anything of a column's values.
pub fn has_v2_value_rules(rule: &RuleAstV2) -> (r: bool)
    ensures
        r == value_rules_v2(*rule),
{
    has_value_rules(&rule.rules) || rule.min_length.is_some() || rule.max_length.is_some()
        || rule.expected_type.is_some()
}

/// The check that a contract's column exists with its expected type, in version 2.
pub open spec fn presence_check_v2(columns: Seq<(String, RuleAstV2)>, schema: Schema) -> spec_fn(
    int,
) -> Option<ErrorView> {
    |i: int|
        {
            let name = columns[i].0@;
            let rule = columns[i].1;
            match first_named(schema.fields@, name) {
                None => if rule.rules.required || value_rules_v2(rule) {
                    Some(
                        failure(
                            ErrorCode::MissingColumn,
                            "Contract column `"@ + name + "` is absent from the Arrow schema"@,
                            path_to("$.columns"@, name),
                        ),
                    )
                } else {
                    None
                },
                Some(k) => match rule.expected_type {
                    Some(t) => if expected_type(t, schema.fields@[k].data_type) {
                        None
                    } else {
                        Some(
                            failure(
                                ErrorCode::ContractTypeMismatch,
                                "Column `"@ + name + "` requires `"@ + type_debug(t, zone_debug(t))
                                    + "`, found `"@ + schema.fields@[k].type_text@ + "`"@,
                                path_to(path_to("$.columns"@, name), "type"@),
                            ),
                        )
                    },
                    None => None,
                },
            }
        }
}

fn check_presence_v2(columns: &Vec<(String, RuleAstV2)>, i: usize, schema: &Schema) -> (r: Result<
    (),
    ProofFrameError,
>)
    requires
        i < columns@.len(),
    ensures
        outcome(r, presence_check_v2(columns@, *schema)(i as int)),
{
    let name = columns[i].0.as_str();
    let rule = &columns[i].1;
    match schema.index_of(name) {
        None => {
            if rule.rules.required || has_v2_value_rules(rule) {
                Err(
                    fail(
                        ErrorCode::MissingColumn,
                        cat3("Contract column `", name, "` is absent from the Arrow schema"),
                        column_path(name),
                    ),
                )
            } else {
                Ok(())
            }
        },
        Some(k) => match &rule.expected_type {
            Some(t) => {
                let field = &schema.fields[k];
                if expected_type_matches(t, &field.data_type) {
                    Ok(())
                } else {
                    let zone = match t {
                        TypeAst::Parameterized(
                            ParameterizedTypeAst::Timestamp { unit, timezone: Some(zone) },
                        ) => debug_string(zone.as_str()),
                        _ => String::new(),
                    };
                    let shown = type_spelling(t, zone.as_str());
                    let base = column_path(name);
                    Err(
                        fail(
                            ErrorCode::ContractTypeMismatch,
                            cat7(
                                "Column `",
                                name,
                                "` requires `",
                                shown.as_str(),
                                "`, found `",
                                field.type_text.as_str(),
                                "`",
                            ),
                            append_path(base.as_str(), "type"),
                        ),
                    )
                }
            },
            None => Ok(()),
        },
    }
}

/// The check of one row rule against a schema.
pub open spec fn row_plan_check(rules: Seq<RowRuleAst>, schema: Schema) -> spec_fn(int) -> Option<
    ErrorView,
> {
    |i: int|
        match row_outcome(rules[i], schema, i as nat) {
            Ok(_) => None,
            Err(e) => Some(e),
        }
}

/// The first error of compiling a version 2 contract.
pub open spec fn contract_error_v2(contract: ContractAstV2, schema: Schema) -> Option<ErrorView> {
    or_error(
        first_error(contract.columns@.len(), presence_check_v2(contract.columns@, schema)),
        or_error(
            columns_error(
                resolved_columns_v2(schema.fields@, schema.fields@.len(), contract.columns@),
            ),
            or_error(
                first_error(
                    contract.row_rules@.len(),
                    row_plan_check(contract.row_rules@, schema),
                ),
                dataset_error(contract.dataset_rules, schema),
            ),
        ),
    )
}

fn compile_row_plans(rules: &Vec<RowRuleAst>, schema: &Schema) -> (r: Result<
    Vec<RowPlan>,
    ProofFrameError,
>)
    ensures
        outcome(r, first_error(rules@.len(), row_plan_check(rules@, *schema))),
        r matches Ok(plans) ==> plans@.len() == rules@.len() && forall|i: int|
            #![trigger plans@[i]]
            0 <= i < plans@.len() ==> row_outcome(rules@[i], *schema, i as nat) == Ok::<
                RowView,
                ErrorView,
            >(plans@[i]@),
{
    let ghost check = row_plan_check(rules@, *schema);
    let mut plans: Vec<RowPlan> = Vec::new();
    let mut i: usize = 0;
    while i < rules.len()
        invariant
            i <= rules@.len(),
            check == row_plan_check(rules@, *schema),
            first_error(i as nat, check) is None,
            plans@.len() == i,
            forall|k: int|
                #![trigger plans@[k]]
                0 <= k < i ==> row_outcome(rules@[k], *schema, k as nat) == Ok::<
                    RowView,
                    ErrorView,
                >(plans@[k]@),
        decreases rules@.len() - i,
    {
        match RowPlan::compile(&rules[i], schema, i) {
            Ok(p) => {
                assert(check(i as int) is None);
                plans.push(p);
            },
            Err(e) => {
                proof {
                    assert(check(i as int) == Some(e@));
                    first_error_found(rules@.len(), check, i as int);
                }
                return Err(e);
            },
        }
        i = i + 1;
    }
    Ok(plans)
}

impl CompiledContract {
    /// Resolve and type-check a version 1 contract before any row is scanned.
    pub fn compile(contract: &ContractAst, schema: &Schema) -> (r: Result<Self, ProofFrameError>)
        ensures
            outcome(r, contract_error(*contract, *schema)),
            r matches Ok(plan) ==> {
                &&& same_schema(plan.schema, *schema)
                &&& resolved_columns(schema.fields@, schema.fields@.len(), contract.columns@)
                    == Ok::<Seq<ColumnView>, ErrorView>(column_views(plan.columns@))
                &&& plan.row_plans@.len() == 0
                &&& plan.dataset_plan.no_rules()
                &&& plan.version == ContractVersion::V1
                &&& plan.max_findings == contract.max_findings
            },
    {
        let ghost check = presence_check(contract.columns@, *schema);
        let mut i: usize = 0;
        while i < contract.columns.len()
            invariant
                i <= contract.columns@.len(),
                check == presence_check(contract.columns@, *schema),
                first_error(i as nat, check) is None,
            decreases contract.columns@.len() - i,
        {
            let name = contract.columns[i].0.as_str();
            let rules = &contract.columns[i].1;
            if schema.index_of(name).is_none() {
                if rules.required {
                    proof {
                        first_error_found(contract.columns@.len(), check, i as int);
                    }
                    return Err(
                        fail(
                            ErrorCode::MissingColumn,
                            cat3(
                                "Required contract column `",
                                name,
                                "` is absent from the Arrow schema",
                            ),
                            column_path(name),
                        ),
                    );
                } else if has_value_rules(rules) {
                    proof {
                        first_error_found(contract.columns@.len(), check, i as int);
                    }
                    return Err(
                        fail(
                            ErrorCode::MissingColumn,
                            cat3("Contract column `", name, "` is absent from the Arrow schema"),
                            column_path(name),
                        ),
                    );
                }
            }
            assert(check(i as int) is None);
            i = i + 1;
        }
        let mut columns: Vec<ColumnPlan> = Vec::new();
        let mut c: usize = 0;
        assert(column_views(columns@) =~= Seq::empty());
        while c < schema.fields.len()
            invariant
                c <= schema.fields@.len(),
                resolved_columns(schema.fields@, c as nat, contract.columns@) == Ok::<
                    Seq<ColumnView>,
                    ErrorView,
                >(column_views(columns@)),
                first_error(
                    contract.columns@.len(),
                    presence_check(contract.columns@, *schema),
                ) is None,
            decreases schema.fields@.len() - c,
        {
            let field = &schema.fields[c];
            match find_rules(&contract.columns, field.name.as_str()) {
                Some(rules) => {
                    if has_value_rules(rules) {
                        let ghost before = columns@;
                        match compile_field(field, c, rules, (None, None)) {
                            Ok(p) => {
                                columns.push(p);
                                assert(column_views(columns@) =~= column_views(before).push(p@));
                            },
                            Err(e) => {
                                proof {
                                    resolved_error_stays(
                                        schema.fields@,
                                        (c + 1) as nat,
                                        schema.fields@.len(),
                                        contract.columns@,
                                    );
                                }
                                return Err(e);
                            },
                        }
                    }
                },
                None => {},
            }
            c = c + 1;
        }
        Ok(
            CompiledContract {
                schema: copy_schema(schema),
                columns,
                row_plans: Vec::new(),
                dataset_plan: DatasetPlan::empty(),
                version: ContractVersion::V1,
                max_findings: contract.max_findings,
            },
        )
    }

    /// Resolve and type-check a version 2 contract before any row is scanned.
    pub fn compile_v2(contract: &ContractAstV2, schema: &Schema) -> (r: Result<
        Self,
        ProofFrameError,
    >)
        ensures
            outcome(r, contract_error_v2(*contract, *schema)),
            r matches Ok(plan) ==> {
                &&& same_schema(plan.schema, *schema)
                &&& resolved_columns_v2(schema.fields@, schema.fields@.len(), contract.columns@)
                    == Ok::<Seq<ColumnView>, ErrorView>(column_views(plan.columns@))
                &&& plan.row_plans@.len() == contract.row_rules@.len()
                &&& forall|i: int|
                    #![trigger plan.row_plans@[i]]
                    0 <= i < plan.row_plans@.len() ==> row_outcome(
                        contract.row_rules@[i],
                        *schema,
                        i as nat,
                    ) == Ok::<RowView, ErrorView>(plan.row_plans@[i]@)
                &&& dataset_resolved(contract.dataset_rules, *schema, plan.dataset_plan)
                &&& plan.version == ContractVersion::V2
                &&& plan.max_findings == contract.max_findings
            },
    {
        let ghost check = presence_check_v2(contract.columns@, *schema);
        let mut i: usize = 0;
        while i < contract.columns.len()
            invariant
                i <= contract.columns@.len(),
                check == presence_check_v2(contract.columns@, *schema),
                first_error(i as nat, check) is None,
            decreases contract.columns@.len() - i,
        {
            match check_presence_v2(&contract.columns, i, schema) {
                Ok(()) => {},
                Err(e) => {
                    proof {
                        first_error_found(contract.columns@.len(), check, i as int);
                    }
                    return Err(e);
                },
            }
            i = i + 1;
        }
        let mut columns: Vec<ColumnPlan> = Vec::new();
        let mut c: usize = 0;
        assert(column_views(columns@) =~= Seq::empty());
        while c < schema.fields.len()
            invariant
                c <= schema.fields@.len(),
                resolved_columns_v2(schema.fields@, c as nat, contract.columns@) == Ok::<
                    Seq<ColumnView>,
                    ErrorView,
                >(column_views(columns@)),
                first_error(
                    contract.columns@.len(),
                    presence_check_v2(contract.columns@, *schema),
                ) is None,
            decreases schema.fields@.len() - c,
        {
            let field = &schema.fields[c];
            match find_rules_v2(&contract.columns, field.name.as_str()) {
                Some(rule) => {
                    if has_value_rules(&rule.rules) || rule.min_length.is_some()
                        || rule.max_length.is_some() {
                        let ghost before = columns@;
                        match compile_field(
                            field,
                            c,
                            &rule.rules,
                            (rule.min_length, rule.max_length),
                        ) {
                            Ok(p) => {
                                columns.push(p);
                                assert(column_views(columns@) =~= column_views(before).push(p@));
                            },
                            Err(e) => {
                                proof {
                                    resolved_error_stays_v2(
                                        schema.fields@,
                                        (c + 1) as nat,
                                        schema.fields@.len(),
                                        contract.columns@,
                                    );
                                }
                                return Err(e);
                            },
                        }
                    }
                },
                None => {},
            }
            c = c + 1;
        }
        let row_plans = match compile_row_plans(&contract.row_rules, schema) {
            Ok(p) => p,
            Err(e) => return Err(e),
        };
        let dataset_plan = match DatasetPlan::compile(&contract.dataset_rules, schema) {
            Ok(p) => p,
            Err(e) => return Err(e),
        };
        Ok(
            CompiledContract {
                schema: copy_schema(schema),
                columns,
                row_plans,
                dataset_plan,
                version: ContractVersion::V2,
                max_findings: contract.max_findings,
            },
        )
    }

    /// Compile a contract of either version; a draft is refused.
    pub fn compile_document(document: &ContractDocument, schema: &Schema) -> (r: Result<
        Self,
        ProofFrameError,
    >)
        ensures
            outcome(
                r,
                or_error(
                    document.draft_error(),
                    match *document {
                        ContractDocument::V1(c) => contract_error(c, *schema),
                        ContractDocument::V2(c) => contract_error_v2(c, *schema),
                    },
                ),
            ),
            r matches Ok(plan) ==> {
                &&& same_schema(plan.schema, *schema)
                &&& match *document {
                    ContractDocument::V1(c) => plan.version == ContractVersion::V1
                        && resolved_columns(schema.fields@, schema.fields@.len(), c.columns@)
                        == Ok::<Seq<ColumnView>, ErrorView>(column_views(plan.columns@))
                        && plan.row_plans@.len() == 0 && plan.dataset_plan.no_rules()
                        && plan.max_findings == c.max_findings,
                    ContractDocument::V2(c) => plan.version == ContractVersion::V2
                        && resolved_columns_v2(schema.fields@, schema.fields@.len(), c.columns@)
                        == Ok::<Seq<ColumnView>, ErrorView>(column_views(plan.columns@))
                        && plan.row_plans@.len() == c.row_rules@.len() && (forall|i: int|
                        #![trigger plan.row_plans@[i]]
                        0 <= i < plan.row_plans@.len() ==> row_outcome(
                            c.row_rules@[i],
                            *schema,
                            i as nat,
                        ) == Ok::<RowView, ErrorView>(plan.row_plans@[i]@)) && dataset_resolved(
                        c.dataset_rules,
                        *schema,
                        plan.dataset_plan,
                    ) && plan.max_findings == c.max_findings,
                }
            },
    {
        match document.ensure_active() {
            Ok(()) => {},
            Err(e) => return Err(e),
        }
        match document {
            ContractDocument::V1(c) => CompiledContract::compile(c, schema),
            ContractDocument::V2(c) => CompiledContract::compile_v2(c, schema),
        }
    }

    /// The resolved columns.
    pub fn columns(&self) -> (r: &Vec<ColumnPlan>)
        ensures
            *r == self.columns,
    {
        &self.columns
    }

    /// The schema that the contract was compiled against.
    pub fn schema(&self) -> (r: &Schema)
        ensures
            *r == self.schema,
    {
        &self.schema
    }

    /// The resolved row rules.
    pub fn row_plans(&self) -> (r: &Vec<RowPlan>)
        ensures
            *r == self.row_plans,
    {
        &self.row_plans
    }

    /// The resolved dataset rules.
    pub fn dataset_plan(&self) -> (r: &DatasetPlan)
        ensures
            *r == self.dataset_plan,
    {
        &self.dataset_plan
    }

    /// The most findings to keep.
    pub fn max_findings(&self) -> (r: usize)
        ensures
            r == self.max_findings,
    {
        self.max_findings
    }
}

} // verus!
