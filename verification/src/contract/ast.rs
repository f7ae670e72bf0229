//! Syntax trees of both contract versions, and the strict reading of version 1.

use crate::contract::json::{get, json_quoted, json_string, member, Json};
use crate::error::{ErrorCode, ErrorView, ProofFrameError};
use crate::text::{cat3, cat4, chars_of, str_eq, text};
use vstd::prelude::*;

verus! {

pub const DEFAULT_MAX_FINDINGS: usize = 100;

/// Version of the serialized contract language.
#[derive(Debug, Clone, Copy, PartialEq, Eq, Structural)]
pub enum ContractVersion {
    V1,
    V2,
}

/// Source-level floating-point NaN policy.
#[derive(Debug, Clone, Copy, PartialEq, Eq, Structural)]
pub enum NaNPolicyAst {
    /// NaN fails where numeric rules inspect the value.
    Reject,
    /// NaN is permitted; numeric bounds apply to ordered values only.
    Allow,
}

/// The exact spelling of a bound, with what it reads as in the two float types.
#[derive(Debug)]
pub struct Spelling {
    pub text: String,
    pub float64: Option<u64>,
    pub float32: Option<u32>,
}

/// Exact source literal for a numeric, decimal, or timestamp bound.
#[derive(Debug)]
pub enum BoundAst {
    /// A JSON number in its source spelling.
    Number(Spelling),
    /// A decimal string, signed timestamp ticks, or an offset-qualified timestamp.
    Text(Spelling),
}

impl BoundAst {
    /// The source spelling with its float readings.
    pub open spec fn spelling(self) -> Spelling {
        match self {
            BoundAst::Number(s) => s,
            BoundAst::Text(s) => s,
        }
    }

    /// Return the exact source spelling used for semantic type conversion.
    pub fn as_text(&self) -> (r: &str)
        ensures
            r@ == self.spelling().text@,
    {
        match self {
            BoundAst::Number(s) => s.text.as_str(),
            BoundAst::Text(s) => s.text.as_str(),
        }
    }

    /// The source spelling with its float readings.
    pub fn as_spelling(&self) -> (r: &Spelling)
        ensures
            *r == self.spelling(),
    {
        match self {
            BoundAst::Number(s) => s,
            BoundAst::Text(s) => s,
        }
    }
}

/// Syntax-level rule set for one named column.
#[derive(Debug)]
pub struct RuleAst {
    pub required: bool,
    pub not_null: bool,
    pub unique: bool,
    pub min: Option<BoundAst>,
    pub max: Option<BoundAst>,
    pub nan: Option<NaNPolicyAst>,
    pub pattern: Option<String>,
    pub allowed: Option<Vec<String>>,
}

/// Syntax tree of a version 1 contract. Columns stand in the order of their names.
#[derive(Debug)]
pub struct ContractAst {
    pub version: ContractVersion,
    pub columns: Vec<(String, RuleAst)>,
    pub max_findings: usize,
}

/// A type without parameters.
#[derive(Debug, Clone, Copy, PartialEq, Eq, Structural)]
pub enum PrimitiveTypeAst {
    Boolean,
    Int8,
    Int16,
    Int32,
    Int64,
    Uint8,
    Uint16,
    Uint32,
    Uint64,
    Float32,
    Float64,
    Date32,
    Date64,
    Utf8,
    LargeUtf8,
    Utf8View,
    Binary,
    LargeBinary,
    BinaryView,
}

/// The unit of an expected timestamp.
#[derive(Debug, Clone, Copy, PartialEq, Eq, Structural)]
pub enum TimeUnitAst {
    S,
    Ms,
    Us,
    Ns,
}

/// A type with parameters.
#[derive(Debug)]
pub enum ParameterizedTypeAst {
    Decimal128 { precision: u8, scale: i8 },
    Timestamp { unit: TimeUnitAst, timezone: Option<String> },
}

/// The type that a column is expected to have.
#[derive(Debug)]
pub enum TypeAst {
    Primitive(PrimitiveTypeAst),
    Parameterized(ParameterizedTypeAst),
}

/// Operational lifecycle state for a version 2 document.
#[derive(Debug, Clone, Copy, PartialEq, Eq, Structural)]
pub enum ContractStatus {
    /// A contract that can be compiled and executed.
    Active,
    /// A generated suggestion that somebody must approve before execution.
    Draft,
}

/// A reason a generated suggestion left a brittle rule out.
#[derive(Debug)]
pub struct SuggestedReviewAst {
    pub column: String,
    pub reason: String,
}

/// Observations from which a suggested contract was generated.
#[derive(Debug)]
pub struct SuggestedFromAst {
    pub proofframe_version: String,
    pub dataset_fingerprint: String,
    pub rows_observed: u64,
    pub uniqueness_inferred: bool,
    pub review: Vec<SuggestedReviewAst>,
}

/// Rules for one column of a version 2 contract.
#[derive(Debug)]
pub struct RuleAstV2 {
    pub rules: RuleAst,
    pub expected_type: Option<TypeAst>,
    pub min_length: Option<usize>,
    pub max_length: Option<usize>,
}

/// A column named by a comparison.
#[derive(Debug)]
pub struct ColumnOperandAst {
    pub column: String,
}

/// A literal written in a comparison.
#[derive(Debug)]
pub struct LiteralOperandAst {
    pub literal: Json,
}

/// One side of a comparison.
#[derive(Debug)]
pub enum OperandAst {
    Column(ColumnOperandAst),
    Literal(LiteralOperandAst),
}

/// A comparison operator.
#[derive(Debug, Clone, Copy, PartialEq, Eq, Structural)]
pub enum CompareOpAst {
    Eq,
    Ne,
    Lt,
    Lte,
    Gt,
    Gte,
}

/// What a null on either side of a comparison means.
#[derive(Debug, Clone, Copy, PartialEq, Eq, Structural)]
pub enum NullPolicyAst {
    Skip,
    Fail,
    Equal,
}

/// A comparison of two operands.
#[derive(Debug)]
pub struct CompareAst {
    pub left: OperandAst,
    pub op: CompareOpAst,
    pub right: OperandAst,
    pub nulls: NullPolicyAst,
}

/// Rules that hold for a column where a condition does.
#[derive(Debug)]
pub struct AssertionAst {
    pub column: String,
    pub rules: RuleAst,
}

/// A rule over the columns of one row.
#[derive(Debug)]
pub struct RowRuleAst {
    pub name: String,
    pub compare: Option<CompareAst>,
    pub when: Option<CompareAst>,
    pub assertion: Option<AssertionAst>,
}

/// Limits on a count.
#[derive(Debug, Clone, Copy, PartialEq, Eq, Structural)]
pub struct CountRangeAst {
    pub exact: Option<u64>,
    pub min: Option<u64>,
    pub max: Option<u64>,
}

/// Limits on a ratio, as float bit patterns.
#[derive(Debug, Clone, Copy, PartialEq, Eq, Structural)]
pub struct RatioRangeAst {
    pub min: Option<u64>,
    pub max: Option<u64>,
}

/// What a null in a composite key means.
#[derive(Debug, Clone, Copy, PartialEq, Eq, Structural)]
pub enum CompositeNullPolicyAst {
    Equal,
    Reject,
}

/// Columns that together must not repeat.
#[derive(Debug)]
pub struct CompositeUniqueAst {
    pub name: String,
    pub columns: Vec<String>,
    pub nulls: CompositeNullPolicyAst,
}

/// Null handling for the local key of a referential integrity rule.
#[derive(Debug, Clone, Copy, PartialEq, Eq, Structural)]
pub enum ReferenceNullPolicyAst {
    /// A key with any null part is not looked up in the reference.
    Skip,
    /// A key with any null part is a violation without a lookup.
    Reject,
}

/// Every local key must also appear in a named reference dataset.
#[derive(Debug)]
pub struct ReferenceAst {
    pub name: String,
    pub columns: Vec<String>,
    pub reference: String,
    pub reference_columns: Vec<String>,
    pub nulls: ReferenceNullPolicyAst,
}

/// The order that a column must keep.
#[derive(Debug, Clone, Copy, PartialEq, Eq, Structural)]
pub enum MonotonicDirectionAst {
    Increasing,
    StrictlyIncreasing,
    Decreasing,
    StrictlyDecreasing,
}

/// What a null in an ordered column means.
#[derive(Debug, Clone, Copy, PartialEq, Eq, Structural)]
pub enum MonotonicNullPolicyAst {
    Skip,
    Reject,
}

/// A column whose values must keep an order.
#[derive(Debug)]
pub struct MonotonicityAst {
    pub name: String,
    pub column: String,
    pub direction: MonotonicDirectionAst,
    pub nulls: MonotonicNullPolicyAst,
}

/// A column whose values must follow each other in steps. The step and the tolerance are
/// float bit patterns.
#[derive(Debug)]
pub struct GapDetectionAst {
    pub name: String,
    pub column: String,
    pub expected_step: u64,
    pub tolerance: u64,
    pub max_gaps: u64,
    pub nulls: MonotonicNullPolicyAst,
}

/// How many of a rule's columns a row may fill.
#[derive(Debug, Clone, Copy, PartialEq, Eq, Structural)]
pub enum ExclusiveModeAst {
    AtMostOne,
    ExactlyOne,
}

/// Columns of which a row may fill one.
#[derive(Debug)]
pub struct MutuallyExclusiveAst {
    pub name: String,
    pub columns: Vec<String>,
    pub mode: ExclusiveModeAst,
}

/// Limits on the total of a column.
#[derive(Debug)]
pub struct SumAst {
    pub name: String,
    pub column: String,
    pub min: Option<BoundAst>,
    pub max: Option<BoundAst>,
}

/// Limits on a statistic of a column, as float bit patterns.
#[derive(Debug)]
pub struct StatisticAst {
    pub name: String,
    pub column: String,
    pub min: Option<u64>,
    pub max: Option<u64>,
}

/// Columns that must not repeat among the rows that a condition selects.
#[derive(Debug)]
pub struct ConditionalUniqueAst {
    pub name: String,
    pub columns: Vec<String>,
    pub nulls: CompositeNullPolicyAst,
    pub when: CompareAst,
}

/// Limits on the change of the row count against a named dataset, as float bit patterns.
#[derive(Debug)]
pub struct RowCountDeltaAst {
    pub name: String,
    pub reference: String,
    pub min_ratio: Option<u64>,
    pub max_ratio: Option<u64>,
}

/// Rules over a whole dataset. Rules by column stand in the order of the names.
#[derive(Debug)]
pub struct DatasetRulesAst {
    pub row_count: Option<CountRangeAst>,
    pub composite_unique: Vec<CompositeUniqueAst>,
    pub references: Vec<ReferenceAst>,
    pub null_ratio: Vec<(String, RatioRangeAst)>,
    pub distinct_count: Vec<(String, CountRangeAst)>,
    pub distinct_ratio: Vec<(String, RatioRangeAst)>,
    pub monotonicity: Vec<MonotonicityAst>,
    pub gap_detection: Vec<GapDetectionAst>,
    pub mutually_exclusive: Vec<MutuallyExclusiveAst>,
    pub sum: Vec<SumAst>,
    pub mean: Vec<StatisticAst>,
    pub std_dev: Vec<StatisticAst>,
    pub conditional_unique: Vec<ConditionalUniqueAst>,
    pub row_count_delta: Vec<RowCountDeltaAst>,
}

/// Syntax tree of a version 2 contract. Columns stand in the order of their names.
#[derive(Debug)]
pub struct ContractAstV2 {
    pub version: ContractVersion,
    pub status: ContractStatus,
    pub suggested_from: Option<SuggestedFromAst>,
    pub columns: Vec<(String, RuleAstV2)>,
    pub row_rules: Vec<RowRuleAst>,
    pub dataset_rules: DatasetRulesAst,
    pub max_findings: usize,
}

/// The number of findings that a contract keeps where it does not say.
pub fn default_max_findings() -> (r: usize)
    ensures
        r == 100,
{
    DEFAULT_MAX_FINDINGS
}

/// A contract failure with a path.
pub open spec fn failure(code: ErrorCode, message: Seq<char>, path: Seq<char>) -> ErrorView {
    ErrorView::Contract { code, message, path: Some(path) }
}

/// A contract failure without a path.
pub open spec fn failure_at_root(code: ErrorCode, message: Seq<char>) -> ErrorView {
    ErrorView::Contract { code, message, path: None }
}

/// A contract failure with a path.
pub fn fail(code: ErrorCode, message: String, path: String) -> (r: ProofFrameError)
    ensures
        r@ == failure(code, message@, path@),
{
    ProofFrameError::Contract { code, message, path: Some(path) }
}

/// A contract failure without a path.
pub fn fail_at_root(code: ErrorCode, message: String) -> (r: ProofFrameError)
    ensures
        r@ == failure_at_root(code, message@),
{
    ProofFrameError::Contract { code, message, path: None }
}

/// Success exactly where there is no error, and that error where there is one.
pub open spec fn outcome<T>(r: Result<T, ProofFrameError>, error: Option<ErrorView>) -> bool {
    match error {
        Some(v) => r matches Err(e) && e@ == v,
        None => r is Ok,
    }
}

/// The first error, if there is one, else the second.
pub open spec fn or_error(a: Option<ErrorView>, b: Option<ErrorView>) -> Option<ErrorView> {
    if a is Some {
        a
    } else {
        b
    }
}

/// The first error among the first `n` of a list of checks.
pub open spec fn first_error(n: nat, check: spec_fn(int) -> Option<ErrorView>) -> Option<ErrorView>
    decreases n,
{
    if n == 0 {
        None
    } else {
        or_error(first_error((n - 1) as nat, check), check(n - 1))
    }
}

/// An error of one check, with none before it, is the first error of the list.
pub proof fn first_error_found(n: nat, check: spec_fn(int) -> Option<ErrorView>, i: int)
    requires
        0 <= i < n,
        first_error(i as nat, check) is None,
        check(i) is Some,
    ensures
        first_error(n, check) == check(i),
    decreases n,
{
    if i < n - 1 {
        first_error_found((n - 1) as nat, check, i);
    }
}

/// Whether a text is an identifier: a letter or underscore, then letters, digits and
/// underscores.
pub open spec fn identifier(s: Seq<char>) -> bool {
    &&& s.len() > 0
    &&& (s[0] == '_' || letter(s[0]))
    &&& forall|i: int|
        1 <= i < s.len() ==> (s[i] == '_' || letter(#[trigger] s[i]) || '0' <= s[i] <= '9')
}

/// Whether a character is an ASCII letter.
pub open spec fn letter(c: char) -> bool {
    ('a' <= c && c <= 'z') || ('A' <= c && c <= 'Z')
}

/// Whether a character is an ASCII letter.
pub fn is_letter(c: char) -> (r: bool)
    ensures
        r == letter(c),
{
    ('a' <= c && c <= 'z') || ('A' <= c && c <= 'Z')
}

/// Whether a text is an identifier.
pub fn is_identifier(value: &str) -> (r: bool)
    ensures
        r == identifier(value@),
{
    let chars = chars_of(value);
    if chars.len() == 0 {
        return false;
    }
    if !(chars[0] == '_' || is_letter(chars[0])) {
        return false;
    }
    let mut i: usize = 1;
    while i < chars.len()
        invariant
            1 <= i <= chars@.len(),
            chars@ == value@,
            forall|j: int|
                1 <= j < i ==> (value@[j] == '_' || letter(#[trigger] value@[j]) || '0' <= value@[j]
                    <= '9'),
        decreases chars@.len() - i,
    {
        let c = chars[i];
        if !(c == '_' || is_letter(c) || ('0' <= c && c <= '9')) {
            assert(!(value@[i as int] == '_' || letter(value@[i as int]) || '0' <= value@[i as int]
                <= '9'));
            return false;
        }
        i = i + 1;
    }
    true
}

/// A path extended by a segment: behind a dot where it is an identifier, else as a JSON
/// string in brackets.
pub open spec fn path_to(parent: Seq<char>, segment: Seq<char>) -> Seq<char> {
    if identifier(segment) {
        parent + "."@ + segment
    } else {
        parent + "["@ + json_quoted(segment) + "]"@
    }
}

/// A path extended by a segment.
pub fn append_path(parent: &str, segment: &str) -> (r: String)
    ensures
        r@ == path_to(parent@, segment@),
{
    if is_identifier(segment) {
        cat3(parent, ".", segment)
    } else {
        let encoded = json_string(segment);
        cat4(parent, "[", encoded.as_str(), "]")
    }
}

/// The path of a column's rules.
pub fn column_path(column: &str) -> (r: String)
    ensures
        r@ == path_to("$.columns"@, column@),
{
    append_path("$.columns", column)
}

/// The texts of a list of string slices.
pub open spec fn slices(values: Seq<&str>) -> Seq<Seq<char>> {
    values.map_values(|s: &str| s@)
}

/// Whether a text is in a list.
pub fn listed(value: &str, list: &Vec<&str>) -> (r: bool)
    ensures
        r == slices(list@).contains(value@),
{
    let mut i: usize = 0;
    while i < list.len()
        invariant
            i <= list@.len(),
            forall|j: int| 0 <= j < i ==> slices(list@)[j] != value@,
        decreases list@.len() - i,
    {
        assert(slices(list@)[i as int] == list@[i as int]@);
        if str_eq(list[i], value) {
            assert(slices(list@)[i as int] == value@);
            return true;
        }
        i = i + 1;
    }
    false
}

/// The first key of an object that is not in a list.
pub open spec fn first_unknown(object: Seq<(String, Json)>, allowed: Seq<Seq<char>>) -> Option<
    Seq<char>,
>
    decreases object.len(),
{
    if object.len() == 0 {
        None
    } else if !allowed.contains(object[0].0@) {
        Some(object[0].0@)
    } else {
        first_unknown(object.drop_first(), allowed)
    }
}

/// The first key of an object that is not in a list.
pub fn find_unknown<'a>(object: &'a Vec<(String, Json)>, allowed: &Vec<&str>) -> (r: Option<
    &'a str,
>)
    ensures
        match first_unknown(object@, slices(allowed@)) {
            Some(k) => r matches Some(x) && x@ == k,
            None => r is None,
        },
{
    let mut i: usize = 0;
    assert(object@.skip(0) =~= object@);
    while i < object.len()
        invariant
            i <= object@.len(),
            first_unknown(object@, slices(allowed@)) == first_unknown(
                object@.skip(i as int),
                slices(allowed@),
            ),
        decreases object@.len() - i,
    {
        assert(object@.skip(i as int)[0] == object@[i as int]);
        if !listed(object[i].0.as_str(), allowed) {
            return Some(object[i].0.as_str());
        }
        assert(object@.skip(i as int).drop_first() =~= object@.skip(i + 1));
        i = i + 1;
    }
    None
}

/// The error for an object with a key that is not in a list.
pub open spec fn unknown_error(
    object: Seq<(String, Json)>,
    allowed: Seq<Seq<char>>,
    parent: Seq<char>,
) -> Option<ErrorView> {
    match first_unknown(object, allowed) {
        Some(field) => Some(
            failure(
                ErrorCode::ContractUnknownField,
                "Unknown contract field `"@ + field + "`"@,
                path_to(parent, field),
            ),
        ),
        None => None,
    }
}

/// Rejects an object with a key that is not in a list.
pub fn reject_unknown(object: &Vec<(String, Json)>, allowed: &Vec<&str>, parent: &str) -> (r:
    Result<(), ProofFrameError>)
    ensures
        outcome(r, unknown_error(object@, slices(allowed@), parent@)),
{
    match find_unknown(object, allowed) {
        Some(field) => Err(
            fail(
                ErrorCode::ContractUnknownField,
                cat3("Unknown contract field `", field, "`"),
                append_path(parent, field),
            ),
        ),
        None => Ok(()),
    }
}

/// The fields of a version 1 document.
pub open spec fn root_fields() -> Seq<Seq<char>> {
    seq!["columns"@, "max_findings"@, "version"@]
}

/// The fields of a version 1 rule set.
pub open spec fn rule_fields() -> Seq<Seq<char>> {
    seq![
        "allowed"@,
        "max"@,
        "min"@,
        "nan"@,
        "not_null"@,
        "pattern"@,
        "required"@,
        "unique"@,
    ]
}

/// The check of one column's rule set in version 1.
pub open spec fn column_fields_error(columns: Seq<(String, Json)>) -> spec_fn(int) -> Option<
    ErrorView,
> {
    |i: int|
        match columns[i].1 {
            Json::Object(rule) => unknown_error(
                rule@,
                rule_fields(),
                path_to("$.columns"@, columns[i].0@),
            ),
            _ => Some(
                failure(
                    ErrorCode::ContractInvalidJson,
                    "Rules for column `"@ + columns[i].0@ + "` must be a JSON object"@,
                    path_to("$.columns"@, columns[i].0@),
                ),
            ),
        }
}

/// The error of a version 1 document with a field that the language does not have.
pub open spec fn known_fields_error(value: Json) -> Option<ErrorView> {
    match value {
        Json::Object(root) => or_error(
            unknown_error(root@, root_fields(), "$"@),
            match member(root@, "columns"@) {
                None => None,
                Some(Json::Object(columns)) => first_error(
                    columns@.len(),
                    column_fields_error(columns@),
                ),
                Some(_) => Some(
                    failure(
                        ErrorCode::ContractInvalidJson,
                        "Contract field `columns` must be a JSON object"@,
                        "$.columns"@,
                    ),
                ),
            },
        ),
        _ => Some(
            failure_at_root(
                ErrorCode::ContractInvalidJson,
                "A contract document must be a JSON object"@,
            ),
        ),
    }
}

fn check_column_fields(columns: &Vec<(String, Json)>) -> (r: Result<(), ProofFrameError>)
    ensures
        outcome(r, first_error(columns@.len(), column_fields_error(columns@))),
{
    let allowed: Vec<&str> = vec![
        "allowed", "max", "min", "nan", "not_null", "pattern", "required", "unique",
    ];
    assert(slices(allowed@) =~= rule_fields());
    let ghost check = column_fields_error(columns@);
    let mut i: usize = 0;
    while i < columns.len()
        invariant
            i <= columns@.len(),
            slices(allowed@) == rule_fields(),
            check == column_fields_error(columns@),
            first_error(i as nat, check) is None,
        decreases columns@.len() - i,
    {
        let name = columns[i].0.as_str();
        let path = column_path(name);
        let r = match &columns[i].1 {
            Json::Object(rule) => reject_unknown(rule, &allowed, path.as_str()),
            _ => Err(
                fail(
                    ErrorCode::ContractInvalidJson,
                    cat3("Rules for column `", name, "` must be a JSON object"),
                    path,
                ),
            ),
        };
        assert(outcome(r, check(i as int)));
        if r.is_err() {
            proof {
                first_error_found(columns@.len(), check, i as int);
            }
            return r;
        }
        i = i + 1;
    }
    Ok(())
}

/// Rejects a version 1 document with a field that the language does not have.
pub fn validate_known_fields(value: &Json) -> (r: Result<(), ProofFrameError>)
    ensures
        outcome(r, known_fields_error(*value)),
{
    match value {
        Json::Object(root) => {
            let allowed: Vec<&str> = vec!["columns", "max_findings", "version"];
            assert(slices(allowed@) =~= root_fields());
            let r = reject_unknown(root, &allowed, "$");
            if r.is_err() {
                return r;
            }
            match get(root, "columns") {
                None => Ok(()),
                Some(Json::Object(columns)) => check_column_fields(columns),
                Some(_) => Err(
                    fail(
                        ErrorCode::ContractInvalidJson,
                        text("Contract field `columns` must be a JSON object"),
                        text("$.columns"),
                    ),
                ),
            }
        },
        _ => Err(
            fail_at_root(
                ErrorCode::ContractInvalidJson,
                text("A contract document must be a JSON object"),
            ),
        ),
    }
}

} // verus!
