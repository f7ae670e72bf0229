//! Rules over a whole dataset, resolved against a schema.

use crate::contract::ast::{
    fail, failure, first_error, first_error_found, or_error, outcome, BoundAst,
    CompositeNullPolicyAst, CompositeUniqueAst, ConditionalUniqueAst, CountRangeAst,
    DatasetRulesAst, ExclusiveModeAst, GapDetectionAst, MonotonicDirectionAst,
    MonotonicNullPolicyAst, MonotonicityAst, MutuallyExclusiveAst, RatioRangeAst, ReferenceAst,
    ReferenceNullPolicyAst, RowCountDeltaAst, StatisticAst, SumAst,
};
use crate::contract::row::{
    compare_outcome, compile_compare, CompareView, ComparePlan,
};
use crate::contract::rules::{copy_texts, kernel_of, KernelKind};
use crate::contract::v2::{index_path, item_path};
use crate::error::{ErrorCode, ErrorView, ProofFrameError};
use crate::numbers::{finite64, integer_in, is_finite64, key64, order_key64, parse_integer};
use crate::text::{cat2, cat3, cat5, chars_of, text, texts};
use crate::value::{first_named, DataType, Field, Schema, TimeUnit};
use vstd::prelude::*;
use vstd::string::*;

verus! {

/// One resolved referential integrity rule. Only the local side is resolved: the
/// reference dataset is supplied for each execution, so its columns stay names.
#[derive(Debug)]
pub struct ReferencePlan {
    pub name: String,
    pub columns: Vec<usize>,
    pub fields: Vec<String>,
    pub kernels: Vec<KernelKind>,
    pub reference: String,
    pub reference_columns: Vec<String>,
    pub nulls: ReferenceNullPolicyAst,
}

/// A ratio rule of one column.
#[derive(Debug)]
pub struct RatioPlan {
    pub column_index: usize,
    pub column: String,
    pub range: RatioRangeAst,
    pub kernel: KernelKind,
}

/// A count rule of one column.
#[derive(Debug)]
pub struct CountPlan {
    pub column_index: usize,
    pub column: String,
    pub range: CountRangeAst,
    pub kernel: KernelKind,
}

/// Columns that together must not repeat.
#[derive(Debug)]
pub struct CompositeUniquePlan {
    pub name: String,
    pub columns: Vec<usize>,
    pub nulls: CompositeNullPolicyAst,
}

/// Columns that must not repeat among selected rows.
#[derive(Debug)]
pub struct ConditionalUniquePlan {
    pub name: String,
    pub columns: Vec<usize>,
    pub nulls: CompositeNullPolicyAst,
    pub predicate: ComparePlan,
}

/// The statistic of a rule.
#[derive(Debug, Clone, Copy, PartialEq, Eq, Structural)]
pub enum StatisticKind {
    Mean,
    StdDev,
}

impl StatisticKind {
    /// The name of the statistic.
    pub open spec fn spec_label(self) -> Seq<char> {
        match self {
            StatisticKind::Mean => "mean"@,
            StatisticKind::StdDev => "std_dev"@,
        }
    }

    /// The name of the statistic.
    pub fn label(self) -> (r: &'static str)
        ensures
            r@ == self.spec_label(),
    {
        match self {
            StatisticKind::Mean => "mean",
            StatisticKind::StdDev => "std_dev",
        }
    }
}

/// Limits on a statistic of one column, as float bit patterns.
#[derive(Debug)]
pub struct StatisticPlan {
    pub column_index: usize,
    pub column: String,
    pub name: String,
    pub kernel: KernelKind,
    pub kind: StatisticKind,
    pub min: Option<u64>,
    pub max: Option<u64>,
}

/// Limits on a total, in the arithmetic of the column. Floats are bit patterns.
#[derive(Debug, Clone, Copy, PartialEq, Eq, Structural)]
pub enum SumBounds {
    Integer { low: Option<i128>, high: Option<i128> },
    Float { min: Option<u64>, max: Option<u64> },
}

/// Limits on the total of one column.
#[derive(Debug)]
pub struct SumPlan {
    pub column_index: usize,
    pub column: String,
    pub name: String,
    pub kernel: KernelKind,
    pub bounds: SumBounds,
}

/// Columns of which a row may fill one.
#[derive(Debug)]
pub struct MutuallyExclusivePlan {
    pub columns: Vec<usize>,
    pub names: Vec<String>,
    pub name: String,
    pub mode: ExclusiveModeAst,
}

/// A column whose values must follow each other in steps, and the unit of the step.
#[derive(Debug)]
pub struct GapDetectionPlan {
    pub column_index: usize,
    pub column: String,
    pub name: String,
    pub expected_step: u64,
    pub tolerance: u64,
    pub max_gaps: u64,
    pub nulls: MonotonicNullPolicyAst,
    pub kernel: KernelKind,
    pub unit: &'static str,
}

/// A column whose values must keep an order.
#[derive(Debug)]
pub struct MonotonicityPlan {
    pub column_index: usize,
    pub column: String,
    pub name: String,
    pub direction: MonotonicDirectionAst,
    pub nulls: MonotonicNullPolicyAst,
    pub kernel: KernelKind,
}

/// Limits on the change of the row count against a named dataset.
#[derive(Debug)]
pub struct RowCountDeltaPlan {
    pub name: String,
    pub reference: String,
    pub min_ratio: Option<u64>,
    pub max_ratio: Option<u64>,
}

/// Every resolved rule over a dataset.
#[derive(Debug)]
pub struct DatasetPlan {
    pub row_count: Option<CountRangeAst>,
    pub null_ratios: Vec<RatioPlan>,
    pub distinct_counts: Vec<CountPlan>,
    pub distinct_ratios: Vec<RatioPlan>,
    pub composite_unique: Vec<CompositeUniquePlan>,
    pub references: Vec<ReferencePlan>,
    pub monotonicity: Vec<MonotonicityPlan>,
    pub gap_detection: Vec<GapDetectionPlan>,
    pub mutually_exclusive: Vec<MutuallyExclusivePlan>,
    pub sums: Vec<SumPlan>,
    pub statistics: Vec<StatisticPlan>,
    pub conditional_unique: Vec<ConditionalUniquePlan>,
    pub row_count_delta: Vec<RowCountDeltaPlan>,
}

impl ReferencePlan {
    /// The name of the rule.
    pub fn name(&self) -> (r: &str)
        ensures
            r@ == self.name@,
    {
        self.name.as_str()
    }

    /// The positions of the columns.
    pub fn columns(&self) -> (r: &Vec<usize>)
        ensures
            *r == self.columns,
    {
        &self.columns
    }

    /// The names of the local columns.
    pub fn fields(&self) -> (r: &Vec<String>)
        ensures
            *r == self.fields,
    {
        &self.fields
    }

    /// The name of the reference dataset.
    pub fn reference(&self) -> (r: &str)
        ensures
            r@ == self.reference@,
    {
        self.reference.as_str()
    }

    /// The names of the reference columns.
    pub fn reference_columns(&self) -> (r: &Vec<String>)
        ensures
            *r == self.reference_columns,
    {
        &self.reference_columns
    }

    /// What a null key means.
    pub fn nulls(&self) -> (r: ReferenceNullPolicyAst)
        ensures
            r == self.nulls,
    {
        self.nulls
    }
}

impl RatioPlan {
    /// The position of the column.
    pub fn column_index(&self) -> (r: usize)
        ensures
            r == self.column_index,
    {
        self.column_index
    }

    /// The name of the column.
    pub fn column(&self) -> (r: &str)
        ensures
            r@ == self.column@,
    {
        self.column.as_str()
    }

    /// The limits.
    pub fn range(&self) -> (r: RatioRangeAst)
        ensures
            r == self.range,
    {
        self.range
    }

    /// The kernel of the column.
    pub fn kernel(&self) -> (r: KernelKind)
        ensures
            r == self.kernel,
    {
        self.kernel
    }
}

impl CountPlan {
    /// The position of the column.
    pub fn column_index(&self) -> (r: usize)
        ensures
            r == self.column_index,
    {
        self.column_index
    }

    /// The name of the column.
    pub fn column(&self) -> (r: &str)
        ensures
            r@ == self.column@,
    {
        self.column.as_str()
    }

    /// The limits.
    pub fn range(&self) -> (r: CountRangeAst)
        ensures
            r == self.range,
    {
        self.range
    }

    /// The kernel of the column.
    pub fn kernel(&self) -> (r: KernelKind)
        ensures
            r == self.kernel,
    {
        self.kernel
    }
}

impl CompositeUniquePlan {
    /// The name of the rule.
    pub fn name(&self) -> (r: &str)
        ensures
            r@ == self.name@,
    {
        self.name.as_str()
    }

    /// The positions of the columns.
    pub fn columns(&self) -> (r: &Vec<usize>)
        ensures
            *r == self.columns,
    {
        &self.columns
    }

    /// What a null key means.
    pub fn nulls(&self) -> (r: CompositeNullPolicyAst)
        ensures
            r == self.nulls,
    {
        self.nulls
    }
}

impl ConditionalUniquePlan {
    /// The name of the rule.
    pub fn name(&self) -> (r: &str)
        ensures
            r@ == self.name@,
    {
        self.name.as_str()
    }

    /// The positions of the columns.
    pub fn columns(&self) -> (r: &Vec<usize>)
        ensures
            *r == self.columns,
    {
        &self.columns
    }

    /// What a null key means.
    pub fn nulls(&self) -> (r: CompositeNullPolicyAst)
        ensures
            r == self.nulls,
    {
        self.nulls
    }

    /// The condition that selects rows.
    pub fn predicate(&self) -> (r: &ComparePlan)
        ensures
            *r == self.predicate,
    {
        &self.predicate
    }
}

impl StatisticPlan {
    /// The position of the column.
    pub fn column_index(&self) -> (r: usize)
        ensures
            r == self.column_index,
    {
        self.column_index
    }

    /// The name of the column.
    pub fn column(&self) -> (r: &str)
        ensures
            r@ == self.column@,
    {
        self.column.as_str()
    }

    /// The name of the rule.
    pub fn name(&self) -> (r: &str)
        ensures
            r@ == self.name@,
    {
        self.name.as_str()
    }

    /// The kernel of the column.
    pub fn kernel(&self) -> (r: KernelKind)
        ensures
            r == self.kernel,
    {
        self.kernel
    }

    /// The statistic.
    pub fn kind(&self) -> (r: StatisticKind)
        ensures
            r == self.kind,
    {
        self.kind
    }

    /// The lower limit.
    pub fn min(&self) -> (r: Option<u64>)
        ensures
            r == self.min,
    {
        self.min
    }

    /// The upper limit.
    pub fn max(&self) -> (r: Option<u64>)
        ensures
            r == self.max,
    {
        self.max
    }
}

impl SumPlan {
    /// The position of the column.
    pub fn column_index(&self) -> (r: usize)
        ensures
            r == self.column_index,
    {
        self.column_index
    }

    /// The name of the column.
    pub fn column(&self) -> (r: &str)
        ensures
            r@ == self.column@,
    {
        self.column.as_str()
    }

    /// The name of the rule.
    pub fn name(&self) -> (r: &str)
        ensures
            r@ == self.name@,
    {
        self.name.as_str()
    }

    /// The kernel of the column.
    pub fn kernel(&self) -> (r: KernelKind)
        ensures
            r == self.kernel,
    {
        self.kernel
    }

    /// The limits.
    pub fn bounds(&self) -> (r: SumBounds)
        ensures
            r == self.bounds,
    {
        self.bounds
    }
}

impl MutuallyExclusivePlan {
    /// The positions of the columns.
    pub fn columns(&self) -> (r: &Vec<usize>)
        ensures
            *r == self.columns,
    {
        &self.columns
    }

    /// The names of the columns.
    pub fn names(&self) -> (r: &Vec<String>)
        ensures
            *r == self.names,
    {
        &self.names
    }

    /// The name of the rule.
    pub fn name(&self) -> (r: &str)
        ensures
            r@ == self.name@,
    {
        self.name.as_str()
    }

    /// How many columns a row may fill.
    pub fn mode(&self) -> (r: ExclusiveModeAst)
        ensures
            r == self.mode,
    {
        self.mode
    }
}

impl GapDetectionPlan {
    /// The position of the column.
    pub fn column_index(&self) -> (r: usize)
        ensures
            r == self.column_index,
    {
        self.column_index
    }

    /// The name of the column.
    pub fn column(&self) -> (r: &str)
        ensures
            r@ == self.column@,
    {
        self.column.as_str()
    }

    /// The name of the rule.
    pub fn name(&self) -> (r: &str)
        ensures
            r@ == self.name@,
    {
        self.name.as_str()
    }

    /// The expected step.
    pub fn expected_step(&self) -> (r: u64)
        ensures
            r == self.expected_step,
    {
        self.expected_step
    }

    /// What a step may exceed the expected one by.
    pub fn tolerance(&self) -> (r: u64)
        ensures
            r == self.tolerance,
    {
        self.tolerance
    }

    /// How many longer steps are allowed.
    pub fn max_gaps(&self) -> (r: u64)
        ensures
            r == self.max_gaps,
    {
        self.max_gaps
    }

    /// What a null means.
    pub fn nulls(&self) -> (r: MonotonicNullPolicyAst)
        ensures
            r == self.nulls,
    {
        self.nulls
    }

    /// The kernel of the column.
    pub fn kernel(&self) -> (r: KernelKind)
        ensures
            r == self.kernel,
    {
        self.kernel
    }

    /// The unit of the step.
    pub fn unit(&self) -> (r: &'static str)
        ensures
            r@ == self.unit@,
    {
        self.unit
    }
}

impl MonotonicityPlan {
    /// The position of the column.
    pub fn column_index(&self) -> (r: usize)
        ensures
            r == self.column_index,
    {
        self.column_index
    }

    /// The name of the column.
    pub fn column(&self) -> (r: &str)
        ensures
            r@ == self.column@,
    {
        self.column.as_str()
    }

    /// The name of the rule.
    pub fn name(&self) -> (r: &str)
        ensures
            r@ == self.name@,
    {
        self.name.as_str()
    }

    /// The order to keep.
    pub fn direction(&self) -> (r: MonotonicDirectionAst)
        ensures
            r == self.direction,
    {
        self.direction
    }

    /// What a null means.
    pub fn nulls(&self) -> (r: MonotonicNullPolicyAst)
        ensures
            r == self.nulls,
    {
        self.nulls
    }

    /// The kernel of the column.
    pub fn kernel(&self) -> (r: KernelKind)
        ensures
            r == self.kernel,
    {
        self.kernel
    }
}

impl RowCountDeltaPlan {
    /// The name of the rule.
    pub fn name(&self) -> (r: &str)
        ensures
            r@ == self.name@,
    {
        self.name.as_str()
    }

    /// The name of the compared dataset.
    pub fn reference(&self) -> (r: &str)
        ensures
            r@ == self.reference@,
    {
        self.reference.as_str()
    }

    /// The lower limit.
    pub fn min_ratio(&self) -> (r: Option<u64>)
        ensures
            r == self.min_ratio,
    {
        self.min_ratio
    }

    /// The upper limit.
    pub fn max_ratio(&self) -> (r: Option<u64>)
        ensures
            r == self.max_ratio,
    {
        self.max_ratio
    }
}


/// A column's position and kernel in a schema.
pub open spec fn column_at(schema: Schema, name: Seq<char>, index: usize, kernel: KernelKind) -> bool {
    first_named(schema.fields@, name) == Some(index as int) && index < schema.fields@.len()
        && kernel == kernel_of(schema.fields@[index as int].data_type)
}

/// The error of a rule whose column is absent.
pub open spec fn absent(message: Seq<char>, path: Seq<char>) -> ErrorView {
    failure(ErrorCode::MissingColumn, message, path)
}

/// The check of one of a rule's columns.
pub open spec fn key_column_check(
    columns: Seq<Seq<char>>,
    schema: Schema,
    what: Seq<char>,
    path: Seq<char>,
) -> spec_fn(int) -> Option<ErrorView> {
    |j: int|
        if first_named(schema.fields@, columns[j]) is None {
            Some(absent(what + columns[j] + "` is absent"@, item_path(path, j as nat)))
        } else {
            None
        }
}

/// The positions of columns in a schema.
pub open spec fn positions(columns: Seq<Seq<char>>, schema: Schema, found: Seq<usize>) -> bool {
    &&& found.len() == columns.len()
    &&& forall|j: int|
        0 <= j < found.len() ==> first_named(schema.fields@, columns[j]) == Some(
            #[trigger] found[j] as int,
        ) && found[j] < schema.fields@.len()
}

/// The positions of a rule's columns, or the error for the first that is absent.
fn resolve_columns(columns: &Vec<String>, schema: &Schema, what: &str, path: &str) -> (r: Result<
    Vec<usize>,
    ProofFrameError,
>)
    ensures
        outcome(
            r,
            first_error(
                columns@.len(),
                key_column_check(texts(columns@), *schema, what@, path@),
            ),
        ),
        r matches Ok(found) ==> positions(texts(columns@), *schema, found@),
{
    let ghost names = texts(columns@);
    let ghost check = key_column_check(names, *schema, what@, path@);
    let mut found: Vec<usize> = Vec::new();
    let mut j: usize = 0;
    while j < columns.len()
        invariant
            j <= columns@.len(),
            names == texts(columns@),
            check == key_column_check(names, *schema, what@, path@),
            first_error(j as nat, check) is None,
            found@.len() == j,
            forall|k: int|
                0 <= k < j ==> first_named(schema.fields@, names[k]) == Some(
                    #[trigger] found@[k] as int,
                ) && found@[k] < schema.fields@.len(),
        decreases columns@.len() - j,
    {
        assert(names[j as int] == columns@[j as int]@);
        match schema.index_of(columns[j].as_str()) {
            Some(i) => found.push(i),
            None => {
                proof {
                    first_error_found(columns@.len(), check, j as int);
                }
                return Err(
                    fail(
                        ErrorCode::MissingColumn,
                        cat3(what, columns[j].as_str(), "` is absent"),
                        index_path(path, j),
                    ),
                );
            },
        }
        assert(check(j as int) is None);
        j = j + 1;
    }
    Ok(found)
}


/// The check of one ratio rule's column.
pub open spec fn ratio_column_check(
    rules: Seq<(String, RatioRangeAst)>,
    schema: Schema,
    prefix: Seq<char>,
) -> spec_fn(int) -> Option<ErrorView> {
    |i: int|
        if first_named(schema.fields@, rules[i].0@) is None {
            Some(
                absent(
                    "Dataset rule column `"@ + rules[i].0@ + "` is absent"@,
                    prefix + rules[i].0@,
                ),
            )
        } else {
            None
        }
}

/// A ratio rule and its plan.
pub open spec fn ratio_resolved(
    rule: (String, RatioRangeAst),
    schema: Schema,
    plan: RatioPlan,
) -> bool {
    column_at(schema, rule.0@, plan.column_index, plan.kernel) && plan.column@ == rule.0@
        && plan.range == rule.1
}

/// The check of one count rule's column.
pub open spec fn count_column_check(rules: Seq<(String, CountRangeAst)>, schema: Schema) -> spec_fn(
    int,
) -> Option<ErrorView> {
    |i: int|
        if first_named(schema.fields@, rules[i].0@) is None {
            Some(
                absent(
                    "Distinct-count column `"@ + rules[i].0@ + "` is absent"@,
                    "$.dataset_rules.distinct_count."@ + rules[i].0@,
                ),
            )
        } else {
            None
        }
}

/// A count rule and its plan.
pub open spec fn count_resolved(
    rule: (String, CountRangeAst),
    schema: Schema,
    plan: CountPlan,
) -> bool {
    column_at(schema, rule.0@, plan.column_index, plan.kernel) && plan.column@ == rule.0@
        && plan.range == rule.1
}

/// The check of one composite uniqueness rule's columns.
pub open spec fn composite_column_check(rules: Seq<CompositeUniqueAst>, schema: Schema) -> spec_fn(
    int,
) -> Option<ErrorView> {
    |i: int|
        first_error(
            rules[i].columns@.len(),
            key_column_check(
                texts(rules[i].columns@),
                schema,
                "Composite key column `"@,
                item_path("$.dataset_rules.composite_unique"@, i as nat) + ".columns"@,
            ),
        )
}

/// A composite uniqueness rule and its plan.
pub open spec fn composite_resolved(
    rule: CompositeUniqueAst,
    schema: Schema,
    plan: CompositeUniquePlan,
) -> bool {
    plan.name@ == rule.name@ && plan.nulls == rule.nulls && positions(
        texts(rule.columns@),
        schema,
        plan.columns@,
    )
}

/// The check of one reference rule's local columns.
pub open spec fn reference_column_check(rules: Seq<ReferenceAst>, schema: Schema) -> spec_fn(
    int,
) -> Option<ErrorView> {
    |i: int|
        first_error(
            rules[i].columns@.len(),
            key_column_check(
                texts(rules[i].columns@),
                schema,
                "Reference key column `"@,
                item_path("$.dataset_rules.references"@, i as nat) + ".columns"@,
            ),
        )
}

/// A reference rule and its plan.
pub open spec fn reference_resolved(rule: ReferenceAst, schema: Schema, plan: ReferencePlan) -> bool {
    &&& plan.name@ == rule.name@
    &&& plan.reference@ == rule.reference@
    &&& texts(plan.reference_columns@) == texts(rule.reference_columns@)
    &&& plan.nulls == rule.nulls
    &&& positions(texts(rule.columns@), schema, plan.columns@)
    &&& plan.fields@.len() == plan.columns@.len()
    &&& plan.kernels@.len() == plan.columns@.len()
    &&& forall|j: int|
        #![trigger plan.columns@[j]]
        0 <= j < plan.columns@.len() ==> plan.fields@[j]@
            == schema.fields@[plan.columns@[j] as int].name@ && plan.kernels@[j] == kernel_of(
            schema.fields@[plan.columns@[j] as int].data_type,
        )
}

/// The check of one ordering rule's column.
pub open spec fn monotonicity_check(rules: Seq<MonotonicityAst>, schema: Schema) -> spec_fn(
    int,
) -> Option<ErrorView> {
    |i: int|
        if first_named(schema.fields@, rules[i].column@) is None {
            Some(
                absent(
                    "Monotonicity column `"@ + rules[i].column@ + "` is absent"@,
                    item_path("$.dataset_rules.monotonicity"@, i as nat) + ".column"@,
                ),
            )
        } else {
            None
        }
}

/// An ordering rule and its plan.
pub open spec fn monotonicity_resolved(
    rule: MonotonicityAst,
    schema: Schema,
    plan: MonotonicityPlan,
) -> bool {
    column_at(schema, rule.column@, plan.column_index, plan.kernel) && plan.column@
        == rule.column@ && plan.name@ == rule.name@ && plan.direction == rule.direction
        && plan.nulls == rule.nulls
}

/// The unit of a step in a column, where the column has distances.
pub open spec fn unit_of(data_type: DataType) -> Option<Seq<char>> {
    match data_type {
        DataType::Int8
        | DataType::Int16
        | DataType::Int32
        | DataType::Int64
        | DataType::UInt8
        | DataType::UInt16
        | DataType::UInt32
        | DataType::UInt64
        | DataType::Float32
        | DataType::Float64 => Some("units"@),
        DataType::Date32 => Some("days"@),
        DataType::Date64 => Some("milliseconds"@),
        DataType::Timestamp(TimeUnit::Second, _) => Some("seconds"@),
        DataType::Timestamp(TimeUnit::Millisecond, _) => Some("milliseconds"@),
        DataType::Timestamp(TimeUnit::Microsecond, _) => Some("microseconds"@),
        DataType::Timestamp(TimeUnit::Nanosecond, _) => Some("nanoseconds"@),
        _ => None,
    }
}

/// The unit of a step in a column, where the column has distances.
pub fn step_unit(data_type: &DataType) -> (r: Option<&'static str>)
    ensures
        match unit_of(*data_type) {
            Some(u) => r matches Some(t) && t@ == u,
            None => r is None,
        },
{
    match data_type {
        DataType::Int8
        | DataType::Int16
        | DataType::Int32
        | DataType::Int64
        | DataType::UInt8
        | DataType::UInt16
        | DataType::UInt32
        | DataType::UInt64
        | DataType::Float32
        | DataType::Float64 => Some("units"),
        DataType::Date32 => Some("days"),
        DataType::Date64 => Some("milliseconds"),
        DataType::Timestamp(TimeUnit::Second, _) => Some("seconds"),
        DataType::Timestamp(TimeUnit::Millisecond, _) => Some("milliseconds"),
        DataType::Timestamp(TimeUnit::Microsecond, _) => Some("microseconds"),
        DataType::Timestamp(TimeUnit::Nanosecond, _) => Some("nanoseconds"),
        _ => None,
    }
}

/// The check of one step rule.
pub open spec fn gap_check(rules: Seq<GapDetectionAst>, schema: Schema) -> spec_fn(int) -> Option<
    ErrorView,
> {
    |i: int|
        {
            let rule = rules[i];
            let path = item_path("$.dataset_rules.gap_detection"@, i as nat);
            let found = first_named(schema.fields@, rule.column@);
            if !(finite64(rule.expected_step) && key64(rule.expected_step) > 0) {
                Some(
                    failure(
                        ErrorCode::ContractInvalidBound,
                        "`expected_step` must be a finite positive number"@,
                        path + ".expected_step"@,
                    ),
                )
            } else if !(finite64(rule.tolerance) && key64(rule.tolerance) >= 0) {
                Some(
                    failure(
                        ErrorCode::ContractInvalidBound,
                        "`tolerance` must be a finite non-negative number"@,
                        path + ".tolerance"@,
                    ),
                )
            } else if found is None {
                Some(
                    absent(
                        "Gap detection column `"@ + rule.column@ + "` is absent"@,
                        path + ".column"@,
                    ),
                )
            } else if unit_of(schema.fields@[found.unwrap()].data_type) is None {
                Some(
                    failure(
                        ErrorCode::UnsupportedType,
                        "Gap detection needs an ordered numeric or temporal column; `"@
                            + rule.column@ + "` is `"@ + schema.fields@[found.unwrap()].type_text@
                            + "`"@,
                        path + ".column"@,
                    ),
                )
            } else {
                None
            }
        }
}

/// A step rule and its plan.
pub open spec fn gap_resolved(rule: GapDetectionAst, schema: Schema, plan: GapDetectionPlan) -> bool {
    column_at(schema, rule.column@, plan.column_index, plan.kernel) && plan.column@
        == rule.column@ && plan.name@ == rule.name@ && plan.expected_step == rule.expected_step
        && plan.tolerance == rule.tolerance && plan.max_gaps == rule.max_gaps && plan.nulls
        == rule.nulls && unit_of(schema.fields@[plan.column_index as int].data_type) == Some(
        plan.unit@,
    )
}

/// The check of one exclusivity rule.
pub open spec fn exclusive_check(rules: Seq<MutuallyExclusiveAst>, schema: Schema) -> spec_fn(
    int,
) -> Option<ErrorView> {
    |i: int|
        {
            let path = item_path("$.dataset_rules.mutually_exclusive"@, i as nat) + ".columns"@;
            if rules[i].columns@.len() < 2 {
                Some(
                    failure(
                        ErrorCode::ContractInvalidBound,
                        "`mutually_exclusive` needs at least two columns"@,
                        path,
                    ),
                )
            } else {
                first_error(
                    rules[i].columns@.len(),
                    key_column_check(
                        texts(rules[i].columns@),
                        schema,
                        "Mutually exclusive column `"@,
                        path,
                    ),
                )
            }
        }
}

/// An exclusivity rule and its plan.
pub open spec fn exclusive_resolved(
    rule: MutuallyExclusiveAst,
    schema: Schema,
    plan: MutuallyExclusivePlan,
) -> bool {
    plan.name@ == rule.name@ && plan.mode == rule.mode && texts(plan.names@) == texts(
        rule.columns@,
    ) && positions(texts(rule.columns@), schema, plan.columns@)
}

/// An integer limit of a total.
pub open spec fn integer_limit(bound: Option<BoundAst>, path: Seq<char>) -> Result<
    Option<i128>,
    ErrorView,
> {
    match bound {
        None => Ok(None),
        Some(b) => match integer_in(b.spelling().text@, i128::MIN as int, i128::MAX as int) {
            Some(v) => Ok(Some(v as i128)),
            None => Err(
                failure(
                    ErrorCode::ContractInvalidBound,
                    "`"@ + b.spelling().text@ + "` is not an integer total bound"@,
                    path,
                ),
            ),
        },
    }
}

/// A float limit of a total.
pub open spec fn float_limit(bound: Option<BoundAst>, path: Seq<char>) -> Result<
    Option<u64>,
    ErrorView,
> {
    match bound {
        None => Ok(None),
        Some(b) => if b.spelling().float64 is Some && finite64(b.spelling().float64.unwrap()) {
            Ok(b.spelling().float64)
        } else {
            Err(
                failure(
                    ErrorCode::ContractInvalidBound,
                    "`"@ + b.spelling().text@ + "` is not a finite total bound"@,
                    path,
                ),
            )
        },
    }
}

/// The limits of a total, read in the arithmetic of its column.
pub open spec fn sum_limits(rule: SumAst, field: Field, path: Seq<char>) -> Result<
    SumBounds,
    ErrorView,
> {
    let kernel = kernel_of(field.data_type);
    if kernel.integral() {
        match integer_limit(rule.min, path + ".min"@) {
            Err(e) => Err(e),
            Ok(low) => match integer_limit(rule.max, path + ".max"@) {
                Err(e) => Err(e),
                Ok(high) => Ok(SumBounds::Integer { low, high }),
            },
        }
    } else if kernel.floating() {
        match float_limit(rule.min, path + ".min"@) {
            Err(e) => Err(e),
            Ok(min) => match float_limit(rule.max, path + ".max"@) {
                Err(e) => Err(e),
                Ok(max) => Ok(SumBounds::Float { min, max }),
            },
        }
    } else {
        Err(
            failure(
                ErrorCode::UnsupportedType,
                "A total needs a numeric column; `"@ + rule.column@ + "` is `"@ + field.type_text@
                    + "`"@,
                path + ".column"@,
            ),
        )
    }
}

fn read_integer_limit(bound: &Option<BoundAst>, path: String) -> (r: Result<
    Option<i128>,
    ProofFrameError,
>)
    ensures
        match integer_limit(*bound, path@) {
            Ok(v) => r == Ok::<Option<i128>, ProofFrameError>(v),
            Err(e) => r matches Err(x) && x@ == e,
        },
{
    match bound {
        None => Ok(None),
        Some(b) => {
            let source = b.as_text();
            let chars = chars_of(source);
            match parse_integer(&chars, i128::MIN, i128::MAX) {
                Some(v) => Ok(Some(v)),
                None => Err(
                    fail(
                        ErrorCode::ContractInvalidBound,
                        cat3("`", source, "` is not an integer total bound"),
                        path,
                    ),
                ),
            }
        },
    }
}

fn read_float_limit(bound: &Option<BoundAst>, path: String) -> (r: Result<
    Option<u64>,
    ProofFrameError,
>)
    ensures
        match float_limit(*bound, path@) {
            Ok(v) => r == Ok::<Option<u64>, ProofFrameError>(v),
            Err(e) => r matches Err(x) && x@ == e,
        },
{
    match bound {
        None => Ok(None),
        Some(b) => {
            let spelling = b.as_spelling();
            match spelling.float64 {
                Some(bits) => if is_finite64(bits) {
                    return Ok(Some(bits));
                },
                None => {},
            }
            Err(
                fail(
                    ErrorCode::ContractInvalidBound,
                    cat3("`", spelling.text.as_str(), "` is not a finite total bound"),
                    path,
                ),
            )
        },
    }
}

/// Reads the limits of a total in the arithmetic of its column.
pub fn sum_bounds(rule: &SumAst, field: &Field, path: &str) -> (r: Result<
    SumBounds,
    ProofFrameError,
>)
    ensures
        match sum_limits(*rule, *field, path@) {
            Ok(b) => r == Ok::<SumBounds, ProofFrameError>(b),
            Err(e) => r matches Err(x) && x@ == e,
        },
{
    let kernel = KernelKind::from_data_type(&field.data_type);
    if kernel.is_integral() {
        let low = match read_integer_limit(&rule.min, cat2(path, ".min")) {
            Ok(v) => v,
            Err(e) => return Err(e),
        };
        match read_integer_limit(&rule.max, cat2(path, ".max")) {
            Ok(high) => Ok(SumBounds::Integer { low, high }),
            Err(e) => Err(e),
        }
    } else if kernel.is_floating() {
        let min = match read_float_limit(&rule.min, cat2(path, ".min")) {
            Ok(v) => v,
            Err(e) => return Err(e),
        };
        match read_float_limit(&rule.max, cat2(path, ".max")) {
            Ok(max) => Ok(SumBounds::Float { min, max }),
            Err(e) => Err(e),
        }
    } else {
        Err(
            fail(
                ErrorCode::UnsupportedType,
                cat5(
                    "A total needs a numeric column; `",
                    rule.column.as_str(),
                    "` is `",
                    field.type_text.as_str(),
                    "`",
                ),
                cat2(path, ".column"),
            ),
        )
    }
}

/// The check of one total rule.
pub open spec fn sum_check(rules: Seq<SumAst>, schema: Schema) -> spec_fn(int) -> Option<
    ErrorView,
> {
    |i: int|
        {
            let path = item_path("$.dataset_rules.sum"@, i as nat);
            match first_named(schema.fields@, rules[i].column@) {
                None => Some(
                    absent("Sum column `"@ + rules[i].column@ + "` is absent"@, path + ".column"@),
                ),
                Some(k) => match sum_limits(rules[i], schema.fields@[k], path) {
                    Ok(_) => None,
                    Err(e) => Some(e),
                },
            }
        }
}

/// A total rule and its plan.
pub open spec fn sum_resolved(rule: SumAst, schema: Schema, plan: SumPlan) -> bool {
    column_at(schema, rule.column@, plan.column_index, plan.kernel) && plan.column@
        == rule.column@ && plan.name@ == rule.name@ && sum_limits(
        rule,
        schema.fields@[plan.column_index as int],
        Seq::empty(),
    ) == Ok::<SumBounds, ErrorView>(plan.bounds)
}

/// The error of a statistic's limit that is not finite.
pub open spec fn finite_error(bound: Option<u64>, message: Seq<char>, path: Seq<char>) -> Option<
    ErrorView,
> {
    match bound {
        Some(b) => if finite64(b) {
            None
        } else {
            Some(failure(ErrorCode::ContractInvalidBound, message, path))
        },
        None => None,
    }
}

/// The check of one statistic rule.
pub open spec fn statistic_check(
    rules: Seq<StatisticAst>,
    schema: Schema,
    base: Seq<char>,
) -> spec_fn(int) -> Option<ErrorView> {
    |i: int|
        {
            let path = item_path(base, i as nat);
            or_error(
                finite_error(rules[i].min, "`min` must be a finite number"@, path + ".min"@),
                or_error(
                    finite_error(rules[i].max, "`max` must be a finite number"@, path + ".max"@),
                    match first_named(schema.fields@, rules[i].column@) {
                        None => Some(
                            absent(
                                "Statistic column `"@ + rules[i].column@ + "` is absent"@,
                                path + ".column"@,
                            ),
                        ),
                        Some(k) => {
                            let kernel = kernel_of(schema.fields@[k].data_type);
                            if kernel.integral() || kernel.floating() {
                                None
                            } else {
                                Some(
                                    failure(
                                        ErrorCode::UnsupportedType,
                                        "A statistic needs a numeric column; `"@ + rules[i].column@
                                            + "` is `"@ + schema.fields@[k].type_text@ + "`"@,
                                        path + ".column"@,
                                    ),
                                )
                            }
                        },
                    },
                ),
            )
        }
}

/// A statistic rule and its plan.
pub open spec fn statistic_resolved(
    rule: StatisticAst,
    schema: Schema,
    plan: StatisticPlan,
    kind: StatisticKind,
) -> bool {
    column_at(schema, rule.column@, plan.column_index, plan.kernel) && plan.column@
        == rule.column@ && plan.name@ == rule.name@ && plan.kind == kind && plan.min == rule.min
        && plan.max == rule.max
}

/// The check of one conditional uniqueness rule.
pub open spec fn conditional_check(rules: Seq<ConditionalUniqueAst>, schema: Schema) -> spec_fn(
    int,
) -> Option<ErrorView> {
    |i: int|
        {
            let path = item_path("$.dataset_rules.conditional_unique"@, i as nat);
            if rules[i].columns@.len() == 0 {
                Some(
                    failure(
                        ErrorCode::ContractInvalidBound,
                        "`conditional_unique` needs at least one column"@,
                        path + ".columns"@,
                    ),
                )
            } else {
                or_error(
                    first_error(
                        rules[i].columns@.len(),
                        key_column_check(
                            texts(rules[i].columns@),
                            schema,
                            "Conditional key column `"@,
                            path + ".columns"@,
                        ),
                    ),
                    match compare_outcome(rules[i].when, schema, path + ".when"@) {
                        Ok(_) => None,
                        Err(e) => Some(e),
                    },
                )
            }
        }
}

/// A conditional uniqueness rule and its plan.
pub open spec fn conditional_resolved(
    rule: ConditionalUniqueAst,
    schema: Schema,
    plan: ConditionalUniquePlan,
) -> bool {
    plan.name@ == rule.name@ && plan.nulls == rule.nulls && positions(
        texts(rule.columns@),
        schema,
        plan.columns@,
    ) && compare_outcome(rule.when, schema, Seq::empty()) == Ok::<CompareView, ErrorView>(
        plan.predicate@,
    )
}

/// A row-count rule and its plan.
pub open spec fn delta_resolved(rule: RowCountDeltaAst, plan: RowCountDeltaPlan) -> bool {
    plan.name@ == rule.name@ && plan.reference@ == rule.reference@ && plan.min_ratio
        == rule.min_ratio && plan.max_ratio == rule.max_ratio
}

/// Resolves ratio rules.
fn ratio_plans(rules: &Vec<(String, RatioRangeAst)>, schema: &Schema, prefix: &str) -> (r: Result<Vec<RatioPlan>, ProofFrameError>)
    ensures
        outcome(r, first_error(rules@.len(), ratio_column_check(rules@, *schema, prefix@))),
        r matches Ok(plans) ==> plans@.len() == rules@.len() && forall|i: int|
            #![trigger plans@[i]]
            0 <= i < rules@.len() ==> ratio_resolved(rules@[i], *schema, plans@[i]),
{
    let ghost check = ratio_column_check(rules@, *schema, prefix@);
    let mut plans: Vec<RatioPlan> = Vec::new();
    let mut i: usize = 0;
    while i < rules.len()
        invariant
            i <= rules@.len(),
            check == ratio_column_check(rules@, *schema, prefix@),
            first_error(i as nat, check) is None,
            plans@.len() == i,
            forall|k: int|
                #![trigger plans@[k]]
                0 <= k < i ==> ratio_resolved(rules@[k], *schema, plans@[k]),
        decreases rules@.len() - i,
    {
        match ratio_plans_one(rules, i, schema, prefix) {
            Ok(p) => plans.push(p),
            Err(e) => {
                proof {
                    first_error_found(rules@.len(), check, i as int);
                }
                return Err(e);
            },
        }
        i = i + 1;
    }
    Ok(plans)
}

fn ratio_plans_one(rules: &Vec<(String, RatioRangeAst)>, i: usize, schema: &Schema, prefix: &str) -> (r: Result<RatioPlan, ProofFrameError>)
    requires
        i < rules@.len(),
    ensures
        outcome(r, ratio_column_check(rules@, *schema, prefix@)(i as int)),
        r matches Ok(p) ==> ratio_resolved(rules@[i as int], *schema, p),
{
    let column = rules[i].0.as_str();
    match schema.index_of(column) {
        Some(k) => Ok(
            RatioPlan {
                column_index: k,
                column: text(column),
                range: rules[i].1,
                kernel: KernelKind::from_data_type(&schema.fields[k].data_type),
            },
        ),
        None => Err(
            fail(
                ErrorCode::MissingColumn,
                cat3("Dataset rule column `", column, "` is absent"),
                cat2(prefix, column),
            ),
        ),
    }
}

/// Resolves count rules.
fn count_plans(rules: &Vec<(String, CountRangeAst)>, schema: &Schema) -> (r: Result<Vec<CountPlan>, ProofFrameError>)
    ensures
        outcome(r, first_error(rules@.len(), count_column_check(rules@, *schema))),
        r matches Ok(plans) ==> plans@.len() == rules@.len() && forall|i: int|
            #![trigger plans@[i]]
            0 <= i < rules@.len() ==> count_resolved(rules@[i], *schema, plans@[i]),
{
    let ghost check = count_column_check(rules@, *schema);
    let mut plans: Vec<CountPlan> = Vec::new();
    let mut i: usize = 0;
    while i < rules.len()
        invariant
            i <= rules@.len(),
            check == count_column_check(rules@, *schema),
            first_error(i as nat, check) is None,
            plans@.len() == i,
            forall|k: int|
                #![trigger plans@[k]]
                0 <= k < i ==> count_resolved(rules@[k], *schema, plans@[k]),
        decreases rules@.len() - i,
    {
        match count_plans_one(rules, i, schema) {
            Ok(p) => plans.push(p),
            Err(e) => {
                proof {
                    first_error_found(rules@.len(), check, i as int);
                }
                return Err(e);
            },
        }
        i = i + 1;
    }
    Ok(plans)
}

fn count_plans_one(rules: &Vec<(String, CountRangeAst)>, i: usize, schema: &Schema) -> (r: Result<CountPlan, ProofFrameError>)
    requires
        i < rules@.len(),
    ensures
        outcome(r, count_column_check(rules@, *schema)(i as int)),
        r matches Ok(p) ==> count_resolved(rules@[i as int], *schema, p),
{
    let column = rules[i].0.as_str();
    match schema.index_of(column) {
        Some(k) => Ok(
            CountPlan {
                column_index: k,
                column: text(column),
                range: rules[i].1,
                kernel: KernelKind::from_data_type(&schema.fields[k].data_type),
            },
        ),
        None => Err(
            fail(
                ErrorCode::MissingColumn,
                cat3("Distinct-count column `", column, "` is absent"),
                cat2("$.dataset_rules.distinct_count.", column),
            ),
        ),
    }
}

/// Resolves composite uniqueness rules.
fn composite_plans(rules: &Vec<CompositeUniqueAst>, schema: &Schema) -> (r: Result<Vec<CompositeUniquePlan>, ProofFrameError>)
    ensures
        outcome(r, first_error(rules@.len(), composite_column_check(rules@, *schema))),
        r matches Ok(plans) ==> plans@.len() == rules@.len() && forall|i: int|
            #![trigger plans@[i]]
            0 <= i < rules@.len() ==> composite_resolved(rules@[i], *schema, plans@[i]),
{
    let ghost check = composite_column_check(rules@, *schema);
    let mut plans: Vec<CompositeUniquePlan> = Vec::new();
    let mut i: usize = 0;
    while i < rules.len()
        invariant
            i <= rules@.len(),
            check == composite_column_check(rules@, *schema),
            first_error(i as nat, check) is None,
            plans@.len() == i,
            forall|k: int|
                #![trigger plans@[k]]
                0 <= k < i ==> composite_resolved(rules@[k], *schema, plans@[k]),
        decreases rules@.len() - i,
    {
        match composite_plans_one(rules, i, schema) {
            Ok(p) => plans.push(p),
            Err(e) => {
                proof {
                    first_error_found(rules@.len(), check, i as int);
                }
                return Err(e);
            },
        }
        i = i + 1;
    }
    Ok(plans)
}

fn composite_plans_one(rules: &Vec<CompositeUniqueAst>, i: usize, schema: &Schema) -> (r: Result<CompositeUniquePlan, ProofFrameError>)
    requires
        i < rules@.len(),
    ensures
        outcome(r, composite_column_check(rules@, *schema)(i as int)),
        r matches Ok(p) ==> composite_resolved(rules@[i as int], *schema, p),
{
    let rule = &rules[i];
    let at = index_path("$.dataset_rules.composite_unique", i);
    let path = cat2(at.as_str(), ".columns");
    match resolve_columns(&rule.columns, schema, "Composite key column `", path.as_str()) {
        Ok(columns) => Ok(
            CompositeUniquePlan { name: rule.name.clone(), columns, nulls: rule.nulls },
        ),
        Err(e) => Err(e),
    }
}

/// Resolves the local side of reference rules.
fn reference_plans(rules: &Vec<ReferenceAst>, schema: &Schema) -> (r: Result<Vec<ReferencePlan>, ProofFrameError>)
    ensures
        outcome(r, first_error(rules@.len(), reference_column_check(rules@, *schema))),
        r matches Ok(plans) ==> plans@.len() == rules@.len() && forall|i: int|
            #![trigger plans@[i]]
            0 <= i < rules@.len() ==> reference_resolved(rules@[i], *schema, plans@[i]),
{
    let ghost check = reference_column_check(rules@, *schema);
    let mut plans: Vec<ReferencePlan> = Vec::new();
    let mut i: usize = 0;
    while i < rules.len()
        invariant
            i <= rules@.len(),
            check == reference_column_check(rules@, *schema),
            first_error(i as nat, check) is None,
            plans@.len() == i,
            forall|k: int|
                #![trigger plans@[k]]
                0 <= k < i ==> reference_resolved(rules@[k], *schema, plans@[k]),
        decreases rules@.len() - i,
    {
        match reference_plans_one(rules, i, schema) {
            Ok(p) => plans.push(p),
            Err(e) => {
                proof {
                    first_error_found(rules@.len(), check, i as int);
                }
                return Err(e);
            },
        }
        i = i + 1;
    }
    Ok(plans)
}

fn reference_plans_one(rules: &Vec<ReferenceAst>, i: usize, schema: &Schema) -> (r: Result<ReferencePlan, ProofFrameError>)
    requires
        i < rules@.len(),
    ensures
        outcome(r, reference_column_check(rules@, *schema)(i as int)),
        r matches Ok(p) ==> reference_resolved(rules@[i as int], *schema, p),
{
    let rule = &rules[i];
    let at = index_path("$.dataset_rules.references", i);
    let path = cat2(at.as_str(), ".columns");
    let columns = match resolve_columns(
        &rule.columns,
        schema,
        "Reference key column `",
        path.as_str(),
    ) {
        Ok(columns) => columns,
        Err(e) => return Err(e),
    };
    let mut fields: Vec<String> = Vec::new();
    let mut kernels: Vec<KernelKind> = Vec::new();
    let mut j: usize = 0;
    while j < columns.len()
        invariant
            j <= columns@.len(),
            fields@.len() == j,
            kernels@.len() == j,
            positions(texts(rule.columns@), *schema, columns@),
            forall|k: int|
                #![trigger columns@[k]]
                0 <= k < j ==> fields@[k]@ == schema.fields@[columns@[k] as int].name@
                    && kernels@[k] == kernel_of(schema.fields@[columns@[k] as int].data_type),
        decreases columns@.len() - j,
    {
        assert(columns@[j as int] < schema.fields@.len());
        let field = &schema.fields[columns[j]];
        fields.push(field.name.clone());
        kernels.push(KernelKind::from_data_type(&field.data_type));
        j = j + 1;
    }
    Ok(
        ReferencePlan {
            name: rule.name.clone(),
            columns,
            fields,
            kernels,
            reference: rule.reference.clone(),
            reference_columns: copy_texts(&rule.reference_columns),
            nulls: rule.nulls,
        },
    )
}

/// Resolves ordering rules.
fn monotonicity_plans(rules: &Vec<MonotonicityAst>, schema: &Schema) -> (r: Result<Vec<MonotonicityPlan>, ProofFrameError>)
    ensures
        outcome(r, first_error(rules@.len(), monotonicity_check(rules@, *schema))),
        r matches Ok(plans) ==> plans@.len() == rules@.len() && forall|i: int|
            #![trigger plans@[i]]
            0 <= i < rules@.len() ==> monotonicity_resolved(rules@[i], *schema, plans@[i]),
{
    let ghost check = monotonicity_check(rules@, *schema);
    let mut plans: Vec<MonotonicityPlan> = Vec::new();
    let mut i: usize = 0;
    while i < rules.len()
        invariant
            i <= rules@.len(),
            check == monotonicity_check(rules@, *schema),
            first_error(i as nat, check) is None,
            plans@.len() == i,
            forall|k: int|
                #![trigger plans@[k]]
                0 <= k < i ==> monotonicity_resolved(rules@[k], *schema, plans@[k]),
        decreases rules@.len() - i,
    {
        match monotonicity_plans_one(rules, i, schema) {
            Ok(p) => plans.push(p),
            Err(e) => {
                proof {
                    first_error_found(rules@.len(), check, i as int);
                }
                return Err(e);
            },
        }
        i = i + 1;
    }
    Ok(plans)
}

fn monotonicity_plans_one(rules: &Vec<MonotonicityAst>, i: usize, schema: &Schema) -> (r: Result<MonotonicityPlan, ProofFrameError>)
    requires
        i < rules@.len(),
    ensures
        outcome(r, monotonicity_check(rules@, *schema)(i as int)),
        r matches Ok(p) ==> monotonicity_resolved(rules@[i as int], *schema, p),
{
    let rule = &rules[i];
    match schema.index_of(rule.column.as_str()) {
        Some(k) => Ok(
            MonotonicityPlan {
                column_index: k,
                column: rule.column.clone(),
                name: rule.name.clone(),
                direction: rule.direction,
                nulls: rule.nulls,
                kernel: KernelKind::from_data_type(&schema.fields[k].data_type),
            },
        ),
        None => {
            let path = index_path("$.dataset_rules.monotonicity", i);
            Err(
                fail(
                    ErrorCode::MissingColumn,
                    cat3("Monotonicity column `", rule.column.as_str(), "` is absent"),
                    cat2(path.as_str(), ".column"),
                ),
            )
        },
    }
}

/// Resolves step rules.
fn gap_plans(rules: &Vec<GapDetectionAst>, schema: &Schema) -> (r: Result<Vec<GapDetectionPlan>, ProofFrameError>)
    ensures
        outcome(r, first_error(rules@.len(), gap_check(rules@, *schema))),
        r matches Ok(plans) ==> plans@.len() == rules@.len() && forall|i: int|
            #![trigger plans@[i]]
            0 <= i < rules@.len() ==> gap_resolved(rules@[i], *schema, plans@[i]),
{
    let ghost check = gap_check(rules@, *schema);
    let mut plans: Vec<GapDetectionPlan> = Vec::new();
    let mut i: usize = 0;
    while i < rules.len()
        invariant
            i <= rules@.len(),
            check == gap_check(rules@, *schema),
            first_error(i as nat, check) is None,
            plans@.len() == i,
            forall|k: int|
                #![trigger plans@[k]]
                0 <= k < i ==> gap_resolved(rules@[k], *schema, plans@[k]),
        decreases rules@.len() - i,
    {
        match gap_plans_one(rules, i, schema) {
            Ok(p) => plans.push(p),
            Err(e) => {
                proof {
                    first_error_found(rules@.len(), check, i as int);
                }
                return Err(e);
            },
        }
        i = i + 1;
    }
    Ok(plans)
}

fn gap_plans_one(rules: &Vec<GapDetectionAst>, i: usize, schema: &Schema) -> (r: Result<GapDetectionPlan, ProofFrameError>)
    requires
        i < rules@.len(),
    ensures
        outcome(r, gap_check(rules@, *schema)(i as int)),
        r matches Ok(p) ==> gap_resolved(rules@[i as int], *schema, p),
{
    let rule = &rules[i];
    let path = index_path("$.dataset_rules.gap_detection", i);
    if !(is_finite64(rule.expected_step) && order_key64(rule.expected_step) > 0) {
        return Err(
            fail(
                ErrorCode::ContractInvalidBound,
                text("`expected_step` must be a finite positive number"),
                cat2(path.as_str(), ".expected_step"),
            ),
        );
    }
    if !(is_finite64(rule.tolerance) && order_key64(rule.tolerance) >= 0) {
        return Err(
            fail(
                ErrorCode::ContractInvalidBound,
                text("`tolerance` must be a finite non-negative number"),
                cat2(path.as_str(), ".tolerance"),
            ),
        );
    }
    let k: usize = match schema.index_of(rule.column.as_str()) {
        Some(k) => k,
        None => {
            return Err(
                fail(
                    ErrorCode::MissingColumn,
                    cat3("Gap detection column `", rule.column.as_str(), "` is absent"),
                    cat2(path.as_str(), ".column"),
                ),
            );
        },
    };
    let field = &schema.fields[k];
    match step_unit(&field.data_type) {
        Some(unit) => Ok(
            GapDetectionPlan {
                column_index: k,
                column: rule.column.clone(),
                name: rule.name.clone(),
                expected_step: rule.expected_step,
                tolerance: rule.tolerance,
                max_gaps: rule.max_gaps,
                nulls: rule.nulls,
                kernel: KernelKind::from_data_type(&field.data_type),
                unit,
            },
        ),
        None => Err(
            fail(
                ErrorCode::UnsupportedType,
                cat5(
                    "Gap detection needs an ordered numeric or temporal column; `",
                    rule.column.as_str(),
                    "` is `",
                    field.type_text.as_str(),
                    "`",
                ),
                cat2(path.as_str(), ".column"),
            ),
        ),
    }
}

/// Resolves exclusivity rules.
fn exclusive_plans(rules: &Vec<MutuallyExclusiveAst>, schema: &Schema) -> (r: Result<Vec<MutuallyExclusivePlan>, ProofFrameError>)
    ensures
        outcome(r, first_error(rules@.len(), exclusive_check(rules@, *schema))),
        r matches Ok(plans) ==> plans@.len() == rules@.len() && forall|i: int|
            #![trigger plans@[i]]
            0 <= i < rules@.len() ==> exclusive_resolved(rules@[i], *schema, plans@[i]),
{
    let ghost check = exclusive_check(rules@, *schema);
    let mut plans: Vec<MutuallyExclusivePlan> = Vec::new();
    let mut i: usize = 0;
    while i < rules.len()
        invariant
            i <= rules@.len(),
            check == exclusive_check(rules@, *schema),
            first_error(i as nat, check) is None,
            plans@.len() == i,
            forall|k: int|
                #![trigger plans@[k]]
                0 <= k < i ==> exclusive_resolved(rules@[k], *schema, plans@[k]),
        decreases rules@.len() - i,
    {
        match exclusive_plans_one(rules, i, schema) {
            Ok(p) => plans.push(p),
            Err(e) => {
                proof {
                    first_error_found(rules@.len(), check, i as int);
                }
                return Err(e);
            },
        }
        i = i + 1;
    }
    Ok(plans)
}

fn exclusive_plans_one(rules: &Vec<MutuallyExclusiveAst>, i: usize, schema: &Schema) -> (r: Result<MutuallyExclusivePlan, ProofFrameError>)
    requires
        i < rules@.len(),
    ensures
        outcome(r, exclusive_check(rules@, *schema)(i as int)),
        r matches Ok(p) ==> exclusive_resolved(rules@[i as int], *schema, p),
{
    let rule = &rules[i];
    let at = index_path("$.dataset_rules.mutually_exclusive", i);
    let path = cat2(at.as_str(), ".columns");
    if rule.columns.len() < 2 {
        return Err(
            fail(
                ErrorCode::ContractInvalidBound,
                text("`mutually_exclusive` needs at least two columns"),
                path,
            ),
        );
    }
    match resolve_columns(&rule.columns, schema, "Mutually exclusive column `", path.as_str()) {
        Ok(columns) => Ok(
            MutuallyExclusivePlan {
                columns,
                names: copy_texts(&rule.columns),
                name: rule.name.clone(),
                mode: rule.mode,
            },
        ),
        Err(e) => Err(e),
    }
}

/// Resolves total rules.
fn sum_plans(rules: &Vec<SumAst>, schema: &Schema) -> (r: Result<Vec<SumPlan>, ProofFrameError>)
    ensures
        outcome(r, first_error(rules@.len(), sum_check(rules@, *schema))),
        r matches Ok(plans) ==> plans@.len() == rules@.len() && forall|i: int|
            #![trigger plans@[i]]
            0 <= i < rules@.len() ==> sum_resolved(rules@[i], *schema, plans@[i]),
{
    let ghost check = sum_check(rules@, *schema);
    let mut plans: Vec<SumPlan> = Vec::new();
    let mut i: usize = 0;
    while i < rules.len()
        invariant
            i <= rules@.len(),
            check == sum_check(rules@, *schema),
            first_error(i as nat, check) is None,
            plans@.len() == i,
            forall|k: int|
                #![trigger plans@[k]]
                0 <= k < i ==> sum_resolved(rules@[k], *schema, plans@[k]),
        decreases rules@.len() - i,
    {
        match sum_plans_one(rules, i, schema) {
            Ok(p) => plans.push(p),
            Err(e) => {
                proof {
                    first_error_found(rules@.len(), check, i as int);
                }
                return Err(e);
            },
        }
        i = i + 1;
    }
    Ok(plans)
}

fn sum_plans_one(rules: &Vec<SumAst>, i: usize, schema: &Schema) -> (r: Result<SumPlan, ProofFrameError>)
    requires
        i < rules@.len(),
    ensures
        outcome(r, sum_check(rules@, *schema)(i as int)),
        r matches Ok(p) ==> sum_resolved(rules@[i as int], *schema, p),
{
    let rule = &rules[i];
    let path = index_path("$.dataset_rules.sum", i);
    let k: usize = match schema.index_of(rule.column.as_str()) {
        Some(k) => k,
        None => {
            return Err(
                fail(
                    ErrorCode::MissingColumn,
                    cat3("Sum column `", rule.column.as_str(), "` is absent"),
                    cat2(path.as_str(), ".column"),
                ),
            );
        },
    };
    let field = &schema.fields[k];
    match sum_bounds(rule, field, path.as_str()) {
        Ok(bounds) => Ok(
            SumPlan {
                column_index: k,
                column: rule.column.clone(),
                name: rule.name.clone(),
                kernel: KernelKind::from_data_type(&field.data_type),
                bounds,
            },
        ),
        Err(e) => Err(e),
    }
}

/// Resolves statistic rules of one kind.
fn statistic_plans(rules: &Vec<StatisticAst>, schema: &Schema, kind: StatisticKind, base: &str) -> (r: Result<Vec<StatisticPlan>, ProofFrameError>)
    ensures
        outcome(r, first_error(rules@.len(), statistic_check(rules@, *schema, base@))),
        r matches Ok(plans) ==> plans@.len() == rules@.len() && forall|i: int|
            #![trigger plans@[i]]
            0 <= i < rules@.len() ==> statistic_resolved(rules@[i], *schema, plans@[i], kind),
{
    let ghost check = statistic_check(rules@, *schema, base@);
    let mut plans: Vec<StatisticPlan> = Vec::new();
    let mut i: usize = 0;
    while i < rules.len()
        invariant
            i <= rules@.len(),
            check == statistic_check(rules@, *schema, base@),
            first_error(i as nat, check) is None,
            plans@.len() == i,
            forall|k: int|
                #![trigger plans@[k]]
                0 <= k < i ==> statistic_resolved(rules@[k], *schema, plans@[k], kind),
        decreases rules@.len() - i,
    {
        match statistic_plans_one(rules, i, schema, kind, base) {
            Ok(p) => plans.push(p),
            Err(e) => {
                proof {
                    first_error_found(rules@.len(), check, i as int);
                }
                return Err(e);
            },
        }
        i = i + 1;
    }
    Ok(plans)
}

fn statistic_plans_one(rules: &Vec<StatisticAst>, i: usize, schema: &Schema, kind: StatisticKind, base: &str) -> (r: Result<StatisticPlan, ProofFrameError>)
    requires
        i < rules@.len(),
    ensures
        outcome(r, statistic_check(rules@, *schema, base@)(i as int)),
        r matches Ok(p) ==> statistic_resolved(rules@[i as int], *schema, p, kind),
{
    let rule = &rules[i];
    let path = index_path(base, i);
    match rule.min {
        Some(b) => if !is_finite64(b) {
            return Err(
                fail(
                    ErrorCode::ContractInvalidBound,
                    text("`min` must be a finite number"),
                    cat2(path.as_str(), ".min"),
                ),
            );
        },
        None => {},
    }
    match rule.max {
        Some(b) => if !is_finite64(b) {
            return Err(
                fail(
                    ErrorCode::ContractInvalidBound,
                    text("`max` must be a finite number"),
                    cat2(path.as_str(), ".max"),
                ),
            );
        },
        None => {},
    }
    let k: usize = match schema.index_of(rule.column.as_str()) {
        Some(k) => k,
        None => {
            return Err(
                fail(
                    ErrorCode::MissingColumn,
                    cat3("Statistic column `", rule.column.as_str(), "` is absent"),
                    cat2(path.as_str(), ".column"),
                ),
            );
        },
    };
    let field = &schema.fields[k];
    let kernel = KernelKind::from_data_type(&field.data_type);
    if !(kernel.is_integral() || kernel.is_floating()) {
        return Err(
            fail(
                ErrorCode::UnsupportedType,
                cat5(
                    "A statistic needs a numeric column; `",
                    rule.column.as_str(),
                    "` is `",
                    field.type_text.as_str(),
                    "`",
                ),
                cat2(path.as_str(), ".column"),
            ),
        );
    }
    Ok(
        StatisticPlan {
            column_index: k,
            column: rule.column.clone(),
            name: rule.name.clone(),
            kernel,
            kind,
            min: rule.min,
            max: rule.max,
        },
    )
}

/// Resolves conditional uniqueness rules.
fn conditional_plans(rules: &Vec<ConditionalUniqueAst>, schema: &Schema) -> (r: Result<Vec<ConditionalUniquePlan>, ProofFrameError>)
    ensures
        outcome(r, first_error(rules@.len(), conditional_check(rules@, *schema))),
        r matches Ok(plans) ==> plans@.len() == rules@.len() && forall|i: int|
            #![trigger plans@[i]]
            0 <= i < rules@.len() ==> conditional_resolved(rules@[i], *schema, plans@[i]),
{
    let ghost check = conditional_check(rules@, *schema);
    let mut plans: Vec<ConditionalUniquePlan> = Vec::new();
    let mut i: usize = 0;
    while i < rules.len()
        invariant
            i <= rules@.len(),
            check == conditional_check(rules@, *schema),
            first_error(i as nat, check) is None,
            plans@.len() == i,
            forall|k: int|
                #![trigger plans@[k]]
                0 <= k < i ==> conditional_resolved(rules@[k], *schema, plans@[k]),
        decreases rules@.len() - i,
    {
        match conditional_plans_one(rules, i, schema) {
            Ok(p) => plans.push(p),
            Err(e) => {
                proof {
                    first_error_found(rules@.len(), check, i as int);
                }
                return Err(e);
            },
        }
        i = i + 1;
    }
    Ok(plans)
}

fn conditional_plans_one(rules: &Vec<ConditionalUniqueAst>, i: usize, schema: &Schema) -> (r: Result<ConditionalUniquePlan, ProofFrameError>)
    requires
        i < rules@.len(),
    ensures
        outcome(r, conditional_check(rules@, *schema)(i as int)),
        r matches Ok(p) ==> conditional_resolved(rules@[i as int], *schema, p),
{
    let rule = &rules[i];
    let path = index_path("$.dataset_rules.conditional_unique", i);
    let columns_path = cat2(path.as_str(), ".columns");
    if rule.columns.len() == 0 {
        return Err(
            fail(
                ErrorCode::ContractInvalidBound,
                text("`conditional_unique` needs at least one column"),
                columns_path,
            ),
        );
    }
    let columns = match resolve_columns(
        &rule.columns,
        schema,
        "Conditional key column `",
        columns_path.as_str(),
    ) {
        Ok(columns) => columns,
        Err(e) => return Err(e),
    };
    let when_path = cat2(path.as_str(), ".when");
    match compile_compare(&rule.when, schema, when_path.as_str()) {
        Ok(predicate) => Ok(
            ConditionalUniquePlan {
                name: rule.name.clone(),
                columns,
                nulls: rule.nulls,
                predicate,
            },
        ),
        Err(e) => Err(e),
    }
}

fn delta_plans(rules: &Vec<RowCountDeltaAst>) -> (r: Vec<RowCountDeltaPlan>)
    ensures
        r@.len() == rules@.len(),
        forall|i: int|
            #![trigger r@[i]]
            0 <= i < rules@.len() ==> delta_resolved(rules@[i], r@[i]),
{
    let mut plans: Vec<RowCountDeltaPlan> = Vec::new();
    let mut i: usize = 0;
    while i < rules.len()
        invariant
            i <= rules@.len(),
            plans@.len() == i,
            forall|k: int|
                #![trigger plans@[k]]
                0 <= k < i ==> delta_resolved(rules@[k], plans@[k]),
        decreases rules@.len() - i,
    {
        let rule = &rules[i];
        plans.push(
            RowCountDeltaPlan {
                name: rule.name.clone(),
                reference: rule.reference.clone(),
                min_ratio: rule.min_ratio,
                max_ratio: rule.max_ratio,
            },
        );
        i = i + 1;
    }
    plans
}

/// The first error of resolving a contract's dataset rules.
pub open spec fn dataset_error(rules: DatasetRulesAst, schema: Schema) -> Option<ErrorView> {
    or_error(
        first_error(
            rules.null_ratio@.len(),
            ratio_column_check(rules.null_ratio@, schema, "$.dataset_rules.null_ratio."@),
        ),
        or_error(
            first_error(
                rules.distinct_count@.len(),
                count_column_check(rules.distinct_count@, schema),
            ),
            or_error(
                first_error(
                    rules.distinct_ratio@.len(),
                    ratio_column_check(
                        rules.distinct_ratio@,
                        schema,
                        "$.dataset_rules.distinct_ratio."@,
                    ),
                ),
                or_error(
                    first_error(
                        rules.composite_unique@.len(),
                        composite_column_check(rules.composite_unique@, schema),
                    ),
                    or_error(
                        first_error(
                            rules.references@.len(),
                            reference_column_check(rules.references@, schema),
                        ),
                        later_dataset_error(rules, schema),
                    ),
                ),
            ),
        ),
    )
}

/// The first error of resolving the rules behind the references.
pub open spec fn later_dataset_error(rules: DatasetRulesAst, schema: Schema) -> Option<ErrorView> {
    or_error(
        first_error(rules.monotonicity@.len(), monotonicity_check(rules.monotonicity@, schema)),
        or_error(
            first_error(rules.gap_detection@.len(), gap_check(rules.gap_detection@, schema)),
            or_error(
                first_error(
                    rules.mutually_exclusive@.len(),
                    exclusive_check(rules.mutually_exclusive@, schema),
                ),
                or_error(
                    first_error(rules.sum@.len(), sum_check(rules.sum@, schema)),
                    or_error(
                        first_error(
                            rules.mean@.len(),
                            statistic_check(
                                rules.mean@,
                                schema,
                                "$.dataset_rules.mean"@,
                            ),
                        ),
                        or_error(
                            first_error(
                                rules.std_dev@.len(),
                                statistic_check(
                                    rules.std_dev@,
                                    schema,
                                    "$.dataset_rules.std_dev"@,
                                ),
                            ),
                            first_error(
                                rules.conditional_unique@.len(),
                                conditional_check(rules.conditional_unique@, schema),
                            ),
                        ),
                    ),
                ),
            ),
        ),
    )
}

/// A plan that holds every rule of a contract, in its order, resolved.
pub open spec fn dataset_resolved(rules: DatasetRulesAst, schema: Schema, plan: DatasetPlan) -> bool {
    &&& plan.row_count == rules.row_count
    &&& plan.null_ratios@.len() == rules.null_ratio@.len()
    &&& forall|i: int|
        #![trigger plan.null_ratios@[i]]
        0 <= i < plan.null_ratios@.len() ==> ratio_resolved(
            rules.null_ratio@[i],
            schema,
            plan.null_ratios@[i],
        )
    &&& plan.distinct_counts@.len() == rules.distinct_count@.len()
    &&& forall|i: int|
        #![trigger plan.distinct_counts@[i]]
        0 <= i < plan.distinct_counts@.len() ==> count_resolved(
            rules.distinct_count@[i],
            schema,
            plan.distinct_counts@[i],
        )
    &&& plan.distinct_ratios@.len() == rules.distinct_ratio@.len()
    &&& forall|i: int|
        #![trigger plan.distinct_ratios@[i]]
        0 <= i < plan.distinct_ratios@.len() ==> ratio_resolved(
            rules.distinct_ratio@[i],
            schema,
            plan.distinct_ratios@[i],
        )
    &&& plan.composite_unique@.len() == rules.composite_unique@.len()
    &&& forall|i: int|
        #![trigger plan.composite_unique@[i]]
        0 <= i < plan.composite_unique@.len() ==> composite_resolved(
            rules.composite_unique@[i],
            schema,
            plan.composite_unique@[i],
        )
    &&& plan.references@.len() == rules.references@.len()
    &&& forall|i: int|
        #![trigger plan.references@[i]]
        0 <= i < plan.references@.len() ==> reference_resolved(
            rules.references@[i],
            schema,
            plan.references@[i],
        )
    &&& plan.monotonicity@.len() == rules.monotonicity@.len()
    &&& forall|i: int|
        #![trigger plan.monotonicity@[i]]
        0 <= i < plan.monotonicity@.len() ==> monotonicity_resolved(
            rules.monotonicity@[i],
            schema,
            plan.monotonicity@[i],
        )
    &&& plan.gap_detection@.len() == rules.gap_detection@.len()
    &&& forall|i: int|
        #![trigger plan.gap_detection@[i]]
        0 <= i < plan.gap_detection@.len() ==> gap_resolved(
            rules.gap_detection@[i],
            schema,
            plan.gap_detection@[i],
        )
    &&& plan.mutually_exclusive@.len() == rules.mutually_exclusive@.len()
    &&& forall|i: int|
        #![trigger plan.mutually_exclusive@[i]]
        0 <= i < plan.mutually_exclusive@.len() ==> exclusive_resolved(
            rules.mutually_exclusive@[i],
            schema,
            plan.mutually_exclusive@[i],
        )
    &&& plan.sums@.len() == rules.sum@.len()
    &&& forall|i: int|
        #![trigger plan.sums@[i]]
        0 <= i < plan.sums@.len() ==> sum_resolved(rules.sum@[i], schema, plan.sums@[i])
    &&& plan.statistics@.len() == rules.mean@.len() + rules.std_dev@.len()
    &&& forall|i: int|
        #![trigger plan.statistics@[i]]
        0 <= i < plan.statistics@.len() ==> if i < rules.mean@.len() {
            statistic_resolved(
                rules.mean@[i],
                schema,
                plan.statistics@[i],
                StatisticKind::Mean,
            )
        } else {
            statistic_resolved(
                rules.std_dev@[i - rules.mean@.len()],
                schema,
                plan.statistics@[i],
                StatisticKind::StdDev,
            )
        }
    &&& plan.conditional_unique@.len() == rules.conditional_unique@.len()
    &&& forall|i: int|
        #![trigger plan.conditional_unique@[i]]
        0 <= i < plan.conditional_unique@.len() ==> conditional_resolved(
            rules.conditional_unique@[i],
            schema,
            plan.conditional_unique@[i],
        )
    &&& plan.row_count_delta@.len() == rules.row_count_delta@.len()
    &&& forall|i: int|
        #![trigger plan.row_count_delta@[i]]
        0 <= i < plan.row_count_delta@.len() ==> delta_resolved(
            rules.row_count_delta@[i],
            plan.row_count_delta@[i],
        )
}

impl DatasetPlan {
    /// Whether a plan holds no rule.
    pub open spec fn no_rules(self) -> bool {
        self.row_count is None && self.null_ratios@.len() == 0 && self.distinct_counts@.len() == 0
            && self.distinct_ratios@.len() == 0 && self.composite_unique@.len() == 0
            && self.references@.len() == 0 && self.monotonicity@.len() == 0
            && self.gap_detection@.len() == 0 && self.mutually_exclusive@.len() == 0
            && self.sums@.len() == 0 && self.statistics@.len() == 0
            && self.conditional_unique@.len() == 0 && self.row_count_delta@.len() == 0
    }

    /// A plan without rules.
    pub fn empty() -> (r: Self)
        ensures
            r.no_rules(),
    {
        DatasetPlan {
            row_count: None,
            null_ratios: Vec::new(),
            distinct_counts: Vec::new(),
            distinct_ratios: Vec::new(),
            composite_unique: Vec::new(),
            references: Vec::new(),
            monotonicity: Vec::new(),
            gap_detection: Vec::new(),
            mutually_exclusive: Vec::new(),
            sums: Vec::new(),
            statistics: Vec::new(),
            conditional_unique: Vec::new(),
            row_count_delta: Vec::new(),
        }
    }

    /// Whether a plan holds no rule.
    pub fn is_empty(&self) -> (r: bool)
        ensures
            r == self.no_rules(),
    {
        self.row_count.is_none() && self.null_ratios.len() == 0 && self.distinct_counts.len() == 0
            && self.distinct_ratios.len() == 0 && self.composite_unique.len() == 0
            && self.references.len() == 0 && self.monotonicity.len() == 0
            && self.gap_detection.len() == 0 && self.mutually_exclusive.len() == 0
            && self.sums.len() == 0 && self.statistics.len() == 0
            && self.conditional_unique.len() == 0 && self.row_count_delta.len() == 0
    }

    /// Resolves a contract's dataset rules against a schema, or reports the first error in
    /// the order of the rules.
    pub fn compile(rules: &DatasetRulesAst, schema: &Schema) -> (r: Result<Self, ProofFrameError>)
        ensures
            outcome(r, dataset_error(*rules, *schema)),
            r matches Ok(plan) ==> dataset_resolved(*rules, *schema, plan),
    {
        let null_ratios = match ratio_plans(
            &rules.null_ratio,
            schema,
            "$.dataset_rules.null_ratio.",
        ) {
            Ok(p) => p,
            Err(e) => return Err(e),
        };
        let distinct_counts = match count_plans(&rules.distinct_count, schema) {
            Ok(p) => p,
            Err(e) => return Err(e),
        };
        let distinct_ratios = match ratio_plans(
            &rules.distinct_ratio,
            schema,
            "$.dataset_rules.distinct_ratio.",
        ) {
            Ok(p) => p,
            Err(e) => return Err(e),
        };
        let composite_unique = match composite_plans(&rules.composite_unique, schema) {
            Ok(p) => p,
            Err(e) => return Err(e),
        };
        let references = match reference_plans(&rules.references, schema) {
            Ok(p) => p,
            Err(e) => return Err(e),
        };
        let monotonicity = match monotonicity_plans(&rules.monotonicity, schema) {
            Ok(p) => p,
            Err(e) => return Err(e),
        };
        let gap_detection = match gap_plans(&rules.gap_detection, schema) {
            Ok(p) => p,
            Err(e) => return Err(e),
        };
        let mutually_exclusive = match exclusive_plans(&rules.mutually_exclusive, schema) {
            Ok(p) => p,
            Err(e) => return Err(e),
        };
        let sums = match sum_plans(&rules.sum, schema) {
            Ok(p) => p,
            Err(e) => return Err(e),
        };
        let mut statistics = match statistic_plans(
            &rules.mean,
            schema,
            StatisticKind::Mean,
            "$.dataset_rules.mean",
        ) {
            Ok(p) => p,
            Err(e) => return Err(e),
        };
        let mut deviations = match statistic_plans(
            &rules.std_dev,
            schema,
            StatisticKind::StdDev,
            "$.dataset_rules.std_dev",
        ) {
            Ok(p) => p,
            Err(e) => return Err(e),
        };
        statistics.append(&mut deviations);
        let conditional_unique = match conditional_plans(&rules.conditional_unique, schema) {
            Ok(p) => p,
            Err(e) => return Err(e),
        };
        Ok(
            DatasetPlan {
                row_count: rules.row_count,
                null_ratios,
                distinct_counts,
                distinct_ratios,
                composite_unique,
                references,
                monotonicity,
                gap_detection,
                mutually_exclusive,
                sums,
                statistics,
                conditional_unique,
                row_count_delta: delta_plans(&rules.row_count_delta),
            },
        )
    }

    /// The limits on the row count.
    pub fn row_count(&self) -> (r: Option<CountRangeAst>)
        ensures
            r == self.row_count,
    {
        self.row_count
    }

    /// The rules of this kind.
    pub fn null_ratios(&self) -> (r: &Vec<RatioPlan>)
        ensures
            *r == self.null_ratios,
    {
        &self.null_ratios
    }

    /// The rules of this kind.
    pub fn distinct_counts(&self) -> (r: &Vec<CountPlan>)
        ensures
            *r == self.distinct_counts,
    {
        &self.distinct_counts
    }

    /// The rules of this kind.
    pub fn distinct_ratios(&self) -> (r: &Vec<RatioPlan>)
        ensures
            *r == self.distinct_ratios,
    {
        &self.distinct_ratios
    }

    /// The rules of this kind.
    pub fn composite_unique(&self) -> (r: &Vec<CompositeUniquePlan>)
        ensures
            *r == self.composite_unique,
    {
        &self.composite_unique
    }

    /// The rules of this kind.
    pub fn references(&self) -> (r: &Vec<ReferencePlan>)
        ensures
            *r == self.references,
    {
        &self.references
    }

    /// The rules of this kind.
    pub fn monotonicity(&self) -> (r: &Vec<MonotonicityPlan>)
        ensures
            *r == self.monotonicity,
    {
        &self.monotonicity
    }

    /// The rules of this kind.
    pub fn gap_detection(&self) -> (r: &Vec<GapDetectionPlan>)
        ensures
            *r == self.gap_detection,
    {
        &self.gap_detection
    }

    /// The rules of this kind.
    pub fn mutually_exclusive(&self) -> (r: &Vec<MutuallyExclusivePlan>)
        ensures
            *r == self.mutually_exclusive,
    {
        &self.mutually_exclusive
    }

    /// The rules of this kind.
    pub fn sums(&self) -> (r: &Vec<SumPlan>)
        ensures
            *r == self.sums,
    {
        &self.sums
    }

    /// The rules of this kind.
    pub fn statistics(&self) -> (r: &Vec<StatisticPlan>)
        ensures
            *r == self.statistics,
    {
        &self.statistics
    }

    /// The rules of this kind.
    pub fn conditional_unique(&self) -> (r: &Vec<ConditionalUniquePlan>)
        ensures
            *r == self.conditional_unique,
    {
        &self.conditional_unique
    }

    /// The rules of this kind.
    pub fn row_count_delta(&self) -> (r: &Vec<RowCountDeltaPlan>)
        ensures
            *r == self.row_count_delta,
    {
        &self.row_count_delta
    }
}

} // verus!
