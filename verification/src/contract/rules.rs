//! Kernels of column types, and the typed rules of one column.

use crate::contract::ast::{
    append_path, column_path, fail, failure, outcome, path_to, BoundAst, NaNPolicyAst,
    ParameterizedTypeAst, PrimitiveTypeAst, RuleAst, TimeUnitAst, TypeAst,
};
use crate::contract::bounds::{bound_of, iso, parse_bound, rfc3339, seen, TypedBound};
use crate::error::{ErrorCode, ErrorView, ProofFrameError};
use crate::numbers::Order;
use crate::text::{cat3, cat5, opt_text, str_eq, text, texts};
use crate::value::{DataType, TimeUnit};
use vstd::prelude::*;
use vstd::string::*;

verus! {

/// Specialized kernel selected once during contract compilation.
#[derive(Debug, Clone, Copy, PartialEq, Eq, Structural)]
pub enum KernelKind {
    Boolean,
    I8,
    I16,
    I32,
    I64,
    U8,
    U16,
    U32,
    U64,
    F32,
    F64,
    Date32,
    Date64,
    Decimal128 { precision: u8, scale: i8 },
    Timestamp(TimeUnit),
    Utf8,
    LargeUtf8,
    Utf8View,
    Binary,
    LargeBinary,
    BinaryView,
    Nested,
    NullOnly,
}

/// The kernel of a column type.
pub open spec fn kernel_of(data_type: DataType) -> KernelKind {
    match data_type {
        DataType::Boolean => KernelKind::Boolean,
        DataType::Int8 => KernelKind::I8,
        DataType::Int16 => KernelKind::I16,
        DataType::Int32 => KernelKind::I32,
        DataType::Int64 => KernelKind::I64,
        DataType::UInt8 => KernelKind::U8,
        DataType::UInt16 => KernelKind::U16,
        DataType::UInt32 => KernelKind::U32,
        DataType::UInt64 => KernelKind::U64,
        DataType::Float32 => KernelKind::F32,
        DataType::Float64 => KernelKind::F64,
        DataType::Date32 => KernelKind::Date32,
        DataType::Date64 => KernelKind::Date64,
        DataType::Decimal128(precision, scale) => KernelKind::Decimal128 { precision, scale },
        DataType::Timestamp(unit, _) => KernelKind::Timestamp(unit),
        DataType::Utf8 => KernelKind::Utf8,
        DataType::LargeUtf8 => KernelKind::LargeUtf8,
        DataType::Utf8View => KernelKind::Utf8View,
        DataType::Binary => KernelKind::Binary,
        DataType::LargeBinary => KernelKind::LargeBinary,
        DataType::BinaryView => KernelKind::BinaryView,
        DataType::List(_) => KernelKind::Nested,
        DataType::LargeList(_) => KernelKind::Nested,
        DataType::FixedSizeList(_, _) => KernelKind::Nested,
        DataType::Struct(_) => KernelKind::Nested,
        DataType::Entries(_, _) => KernelKind::Nested,
        DataType::Null => KernelKind::NullOnly,
        DataType::Other => KernelKind::NullOnly,
    }
}

impl KernelKind {
    /// Whether values of the kernel have an order with bounds.
    pub open spec fn ordered(self) -> bool {
        match self {
            KernelKind::I8
            | KernelKind::I16
            | KernelKind::I32
            | KernelKind::I64
            | KernelKind::U8
            | KernelKind::U16
            | KernelKind::U32
            | KernelKind::U64
            | KernelKind::F32
            | KernelKind::F64
            | KernelKind::Date32
            | KernelKind::Date64
            | KernelKind::Decimal128 { .. }
            | KernelKind::Timestamp(_) => true,
            _ => false,
        }
    }

    /// Whether values of the kernel are text.
    pub open spec fn textual(self) -> bool {
        match self {
            KernelKind::Utf8 | KernelKind::LargeUtf8 | KernelKind::Utf8View => true,
            _ => false,
        }
    }

    /// Whether values of the kernel are integers of the machine.
    pub open spec fn integral(self) -> bool {
        match self {
            KernelKind::I8
            | KernelKind::I16
            | KernelKind::I32
            | KernelKind::I64
            | KernelKind::U8
            | KernelKind::U16
            | KernelKind::U32
            | KernelKind::U64 => true,
            _ => false,
        }
    }

    /// Whether values of the kernel are floats.
    pub open spec fn floating(self) -> bool {
        match self {
            KernelKind::F32 | KernelKind::F64 => true,
            _ => false,
        }
    }

    /// The kernel of a column type.
    pub fn from_data_type(data_type: &DataType) -> (r: Self)
        ensures
            r == kernel_of(*data_type),
    {
        match data_type {
            DataType::Boolean => KernelKind::Boolean,
            DataType::Int8 => KernelKind::I8,
            DataType::Int16 => KernelKind::I16,
            DataType::Int32 => KernelKind::I32,
            DataType::Int64 => KernelKind::I64,
            DataType::UInt8 => KernelKind::U8,
            DataType::UInt16 => KernelKind::U16,
            DataType::UInt32 => KernelKind::U32,
            DataType::UInt64 => KernelKind::U64,
            DataType::Float32 => KernelKind::F32,
            DataType::Float64 => KernelKind::F64,
            DataType::Date32 => KernelKind::Date32,
            DataType::Date64 => KernelKind::Date64,
            DataType::Decimal128(precision, scale) => KernelKind::Decimal128 {
                precision: *precision,
                scale: *scale,
            },
            DataType::Timestamp(unit, _) => KernelKind::Timestamp(*unit),
            DataType::Utf8 => KernelKind::Utf8,
            DataType::LargeUtf8 => KernelKind::LargeUtf8,
            DataType::Utf8View => KernelKind::Utf8View,
            DataType::Binary => KernelKind::Binary,
            DataType::LargeBinary => KernelKind::LargeBinary,
            DataType::BinaryView => KernelKind::BinaryView,
            DataType::List(_) => KernelKind::Nested,
            DataType::LargeList(_) => KernelKind::Nested,
            DataType::FixedSizeList(_, _) => KernelKind::Nested,
            DataType::Struct(_) => KernelKind::Nested,
            DataType::Entries(_, _) => KernelKind::Nested,
            DataType::Null => KernelKind::NullOnly,
            DataType::Other => KernelKind::NullOnly,
        }
    }

    /// Whether values of the kernel have an order with bounds.
    pub fn supports_bounds(&self) -> (r: bool)
        ensures
            r == self.ordered(),
    {
        match self {
            KernelKind::I8
            | KernelKind::I16
            | KernelKind::I32
            | KernelKind::I64
            | KernelKind::U8
            | KernelKind::U16
            | KernelKind::U32
            | KernelKind::U64
            | KernelKind::F32
            | KernelKind::F64
            | KernelKind::Date32
            | KernelKind::Date64
            | KernelKind::Decimal128 { .. }
            | KernelKind::Timestamp(_) => true,
            _ => false,
        }
    }

    /// Whether values of the kernel are text.
    pub fn supports_text_rules(&self) -> (r: bool)
        ensures
            r == self.textual(),
    {
        match self {
            KernelKind::Utf8 | KernelKind::LargeUtf8 | KernelKind::Utf8View => true,
            _ => false,
        }
    }

    /// Whether values of the kernel have a canonical encoding.
    pub fn supports_unique(&self) -> (r: bool)
        ensures
            r == (*self != KernelKind::NullOnly),
    {
        match self {
            KernelKind::NullOnly => false,
            _ => true,
        }
    }

    /// Whether values of the kernel are integers of the machine.
    pub fn is_integral(&self) -> (r: bool)
        ensures
            r == self.integral(),
    {
        match self {
            KernelKind::I8
            | KernelKind::I16
            | KernelKind::I32
            | KernelKind::I64
            | KernelKind::U8
            | KernelKind::U16
            | KernelKind::U32
            | KernelKind::U64 => true,
            _ => false,
        }
    }

    /// Whether values of the kernel are floats.
    pub fn is_floating(&self) -> (r: bool)
        ensures
            r == self.floating(),
    {
        match self {
            KernelKind::F32 | KernelKind::F64 => true,
            _ => false,
        }
    }
}

/// Runtime NaN behavior compiled for floating-point kernels.
#[derive(Debug, Clone, Copy, PartialEq, Eq, Structural)]
pub enum NaNPolicy {
    Reject,
    Allow,
}

/// The policy that a contract asks for; it rejects where it does not say.
pub open spec fn nan_policy(source: Option<NaNPolicyAst>) -> NaNPolicy {
    match source {
        Some(NaNPolicyAst::Allow) => NaNPolicy::Allow,
        _ => NaNPolicy::Reject,
    }
}

/// The policy that a contract asks for.
pub fn nan_policy_of(source: Option<NaNPolicyAst>) -> (r: NaNPolicy)
    ensures
        r == nan_policy(source),
{
    match source {
        Some(NaNPolicyAst::Allow) => NaNPolicy::Allow,
        _ => NaNPolicy::Reject,
    }
}

/// A compiled regular expression of the `regex` crate.
#[verifier::external_type_specification]
#[verifier::external_body]
pub struct ExRegex(regex::Regex);

/// The pattern that a regular expression was made from.
pub uninterp spec fn pattern_of(regex: regex::Regex) -> Seq<char>;

/// Why a pattern is no regular expression, or nothing where it is one. The limit on the size
/// of a compiled pattern is measured in the sizes of the machine, so that a pattern near the
/// limit may be refused on one kind of machine and not on another.
pub uninterp spec fn regex_error(pattern: Seq<char>) -> Option<Seq<char>>;

/// Whether a pattern matches anywhere in a text.
pub uninterp spec fn regex_matches(pattern: Seq<char>, text: Seq<char>) -> bool;

/// `regex::Regex::new` compiles a pattern, or says why it cannot; the error is carried by
/// its display text.
#[verifier::external_body]
pub(crate) fn regex_new(pattern: &str) -> (r: Result<regex::Regex, String>)
    ensures
        match r {
            Ok(re) => pattern_of(re) == pattern@ && regex_error(pattern@) is None,
            Err(m) => regex_error(pattern@) == Some(m@),
        },
{
    regex::Regex::new(pattern).map_err(|error| error.to_string())
}

/// `regex::Regex::is_match` says whether the pattern matches anywhere in a text.
#[verifier::external_body]
pub(crate) fn regex_is_match(regex: &regex::Regex, text: &str) -> (r: bool)
    ensures
        r == regex_matches(pattern_of(*regex), text@),
{
    regex.is_match(text)
}

/// `regex::Regex::as_str` returns the pattern that the expression was made from.
#[verifier::external_body]
pub(crate) fn regex_source(regex: &regex::Regex) -> (r: &str)
    ensures
        r@ == pattern_of(*regex),
{
    regex.as_str()
}

/// Semantically checked rules ready for typed execution.
pub struct CompiledRules {
    pub(crate) required: bool,
    pub(crate) not_null: bool,
    pub(crate) unique: bool,
    pub(crate) min: Option<TypedBound>,
    pub(crate) max: Option<TypedBound>,
    pub(crate) nan: NaNPolicy,
    pub(crate) validate_nan: bool,
    pub(crate) pattern: Option<regex::Regex>,
    pub(crate) allowed: Option<Vec<String>>,
    pub(crate) min_length: Option<usize>,
    pub(crate) max_length: Option<usize>,
}

/// Compiled rules with their texts as character sequences.
pub struct RulesView {
    pub required: bool,
    pub not_null: bool,
    pub unique: bool,
    pub min: Option<TypedBound>,
    pub max: Option<TypedBound>,
    pub nan: NaNPolicy,
    pub validate_nan: bool,
    pub pattern: Option<Seq<char>>,
    pub allowed: Option<Seq<Seq<char>>>,
    pub min_length: Option<usize>,
    pub max_length: Option<usize>,
}

/// The texts of an optional list.
pub open spec fn opt_texts(value: Option<Vec<String>>) -> Option<Seq<Seq<char>>> {
    match value {
        Some(v) => Some(texts(v@)),
        None => None,
    }
}

/// The pattern of an optional regular expression.
pub open spec fn opt_pattern(value: Option<regex::Regex>) -> Option<Seq<char>> {
    match value {
        Some(re) => Some(pattern_of(re)),
        None => None,
    }
}

impl View for CompiledRules {
    type V = RulesView;

    closed spec fn view(&self) -> RulesView {
        RulesView {
            required: self.required,
            not_null: self.not_null,
            unique: self.unique,
            min: self.min,
            max: self.max,
            nan: self.nan,
            validate_nan: self.validate_nan,
            pattern: opt_pattern(self.pattern),
            allowed: opt_texts(self.allowed),
            min_length: self.min_length,
            max_length: self.max_length,
        }
    }
}

impl CompiledRules {
    /// Whether the column must exist.
    pub fn required(&self) -> (r: bool)
        ensures
            r == self@.required,
    {
        self.required
    }

    /// Whether nulls are rejected.
    pub fn not_null(&self) -> (r: bool)
        ensures
            r == self@.not_null,
    {
        self.not_null
    }

    /// Whether values must not repeat.
    pub fn unique(&self) -> (r: bool)
        ensures
            r == self@.unique,
    {
        self.unique
    }

    /// The inclusive lower bound.
    pub fn min(&self) -> (r: Option<TypedBound>)
        ensures
            r == self@.min,
    {
        self.min
    }

    /// The inclusive upper bound.
    pub fn max(&self) -> (r: Option<TypedBound>)
        ensures
            r == self@.max,
    {
        self.max
    }

    /// What NaN means.
    pub fn nan(&self) -> (r: NaNPolicy)
        ensures
            r == self@.nan,
    {
        self.nan
    }

    /// Whether NaN is checked at all.
    pub fn validates_nan(&self) -> (r: bool)
        ensures
            r == self@.validate_nan,
    {
        self.validate_nan
    }

    /// The pattern that text must match.
    pub fn pattern(&self) -> (r: Option<&regex::Regex>)
        ensures
            match self@.pattern {
                Some(p) => r matches Some(re) && pattern_of(*re) == p,
                None => r is None,
            },
    {
        match &self.pattern {
            Some(re) => Some(re),
            None => None,
        }
    }

    /// The texts that are allowed.
    pub fn allowed(&self) -> (r: Option<&Vec<String>>)
        ensures
            match self@.allowed {
                Some(a) => r matches Some(v) && texts(v@) == a,
                None => r is None,
            },
    {
        match &self.allowed {
            Some(v) => Some(v),
            None => None,
        }
    }

    /// The least length of a text.
    pub fn min_length(&self) -> (r: Option<usize>)
        ensures
            r == self@.min_length,
    {
        self.min_length
    }

    /// The greatest length of a text.
    pub fn max_length(&self) -> (r: Option<usize>)
        ensures
            r == self@.max_length,
    {
        self.max_length
    }
}

/// Whether a rule set says anything of a column's values.
pub open spec fn value_rules(rules: RuleAst) -> bool {
    rules.not_null || rules.unique || rules.min is Some || rules.max is Some || rules.nan is Some
        || rules.pattern is Some || rules.allowed is Some
}

/// Whether a rule set says anything of a column's values.
pub fn has_value_rules(rules: &RuleAst) -> (r: bool)
    ensures
        r == value_rules(*rules),
{
    rules.not_null || rules.unique || rules.min.is_some() || rules.max.is_some()
        || rules.nan.is_some() || rules.pattern.is_some() || rules.allowed.is_some()
}

/// The error of a rule on a column of the wrong type.
pub open spec fn mismatch(
    column: Seq<char>,
    shown: Seq<char>,
    rule: Seq<char>,
    expected: Seq<char>,
) -> ErrorView {
    failure(
        ErrorCode::ContractTypeMismatch,
        "Rule `"@ + rule + "` on column `"@ + column + "` requires "@ + expected
            + " values, found `"@ + shown + "`"@,
        path_to(path_to("$.columns"@, column), rule),
    )
}

/// The error of a rule on a column of the wrong type.
pub fn type_mismatch(column: &str, shown: &str, rule: &str, expected: &str) -> (r: ProofFrameError)
    ensures
        r@ == mismatch(column@, shown@, rule@, expected@),
{
    let base = column_path(column);
    let mut message = crate::text::cat7(
        "Rule `",
        rule,
        "` on column `",
        column,
        "` requires ",
        expected,
        " values, found `",
    );
    message.append(shown);
    message.append("`");
    fail(ErrorCode::ContractTypeMismatch, message, append_path(base.as_str(), rule))
}

/// The error of a rule that the column's type does not support.
pub open spec fn support_error(
    column: Seq<char>,
    shown: Seq<char>,
    kernel: KernelKind,
    source: RuleAst,
) -> Option<ErrorView> {
    if (source.min is Some || source.max is Some) && !kernel.ordered() {
        Some(
            mismatch(
                column,
                shown,
                if source.min is Some {
                    "min"@
                } else {
                    "max"@
                },
                "numeric, decimal, date, or timestamp"@,
            ),
        )
    } else if source.pattern is Some && !kernel.textual() {
        Some(mismatch(column, shown, "pattern"@, "UTF-8"@))
    } else if source.allowed is Some && !kernel.textual() {
        Some(mismatch(column, shown, "allowed"@, "UTF-8"@))
    } else if source.nan is Some && !kernel.floating() {
        Some(mismatch(column, shown, "nan"@, "floating point"@))
    } else if source.unique && kernel == KernelKind::NullOnly {
        Some(mismatch(column, shown, "unique"@, "canonically encodable"@))
    } else {
        None
    }
}

fn check_support(column: &str, shown: &str, kernel: &KernelKind, source: &RuleAst) -> (r: Result<
    (),
    ProofFrameError,
>)
    ensures
        outcome(r, support_error(column@, shown@, *kernel, *source)),
{
    if (source.min.is_some() || source.max.is_some()) && !kernel.supports_bounds() {
        let field = if source.min.is_some() {
            "min"
        } else {
            "max"
        };
        return Err(type_mismatch(column, shown, field, "numeric, decimal, date, or timestamp"));
    }
    if source.pattern.is_some() && !kernel.supports_text_rules() {
        return Err(type_mismatch(column, shown, "pattern", "UTF-8"));
    }
    if source.allowed.is_some() && !kernel.supports_text_rules() {
        return Err(type_mismatch(column, shown, "allowed", "UTF-8"));
    }
    if source.nan.is_some() && !kernel.is_floating() {
        return Err(type_mismatch(column, shown, "nan", "floating point"));
    }
    if source.unique && !kernel.supports_unique() {
        return Err(type_mismatch(column, shown, "unique", "canonically encodable"));
    }
    Ok(())
}

/// An optional bound read in the arithmetic of a column type.
pub open spec fn opt_bound_of(
    bound: Option<BoundAst>,
    data_type: DataType,
    shown: Seq<char>,
    path: Seq<char>,
) -> Result<Option<TypedBound>, ErrorView> {
    match bound {
        Some(b) => match bound_of(
            b.spelling(),
            data_type,
            shown,
            path,
            rfc3339(b.spelling().text@),
            iso(b.spelling().text@),
        ) {
            Ok(t) => Ok(Some(t)),
            Err(e) => Err(e),
        },
        None => Ok(None),
    }
}

fn parse_opt_bound(bound: &Option<BoundAst>, data_type: &DataType, shown: &str, path: &str) -> (r:
    Result<Option<TypedBound>, ProofFrameError>)
    ensures
        seen(r) == opt_bound_of(*bound, *data_type, shown@, path@),
{
    match bound {
        Some(b) => match parse_bound(b, data_type, shown, path) {
            Ok(t) => Ok(Some(t)),
            Err(e) => Err(e),
        },
        None => Ok(None),
    }
}

/// The error of rules whose bounds are crossed, whose pattern did not compile, or whose
/// lengths are crossed, in this order.
pub open spec fn assembly_error(
    column: Seq<char>,
    min: Option<TypedBound>,
    max: Option<TypedBound>,
    pattern_problem: Option<Seq<char>>,
    length: (Option<usize>, Option<usize>),
) -> Option<ErrorView> {
    let base = path_to("$.columns"@, column);
    if min is Some && max is Some && min.unwrap().spec_compare(max.unwrap()) == Some(
        Order::Greater,
    ) {
        Some(
            failure(
                ErrorCode::ContractInvalidBound,
                "Contract minimum exceeds maximum for column `"@ + column + "`"@,
                base,
            ),
        )
    } else if pattern_problem is Some {
        Some(
            failure(
                ErrorCode::ContractInvalidBound,
                "Invalid regular expression for column `"@ + column + "`: "@
                    + pattern_problem.unwrap() + ""@,
                path_to(base, "pattern"@),
            ),
        )
    } else if length.0 is Some && length.1 is Some && length.0.unwrap() > length.1.unwrap() {
        Some(
            failure(
                ErrorCode::ContractInvalidBound,
                "`min_length` exceeds `max_length` for column `"@ + column + "`"@,
                path_to(base, "min_length"@),
            ),
        )
    } else {
        None
    }
}

/// The rules that a rule set compiles to.
pub open spec fn assembled(
    source: RuleAst,
    min: Option<TypedBound>,
    max: Option<TypedBound>,
    pattern: Option<Seq<char>>,
    length: (Option<usize>, Option<usize>),
) -> RulesView {
    RulesView {
        required: source.required,
        not_null: source.not_null,
        unique: source.unique,
        min,
        max,
        nan: nan_policy(source.nan),
        validate_nan: source.nan is Some || source.min is Some || source.max is Some,
        pattern,
        allowed: opt_texts(source.allowed),
        min_length: length.0,
        max_length: length.1,
    }
}

/// A copy of a list of texts.
pub fn copy_texts(values: &Vec<String>) -> (r: Vec<String>)
    ensures
        texts(r@) == texts(values@),
{
    let mut r: Vec<String> = Vec::new();
    let mut i: usize = 0;
    while i < values.len()
        invariant
            i <= values@.len(),
            r@.len() == i,
            forall|j: int| 0 <= j < i ==> (#[trigger] r@[j])@ == values@[j]@,
        decreases values@.len() - i,
    {
        r.push(values[i].clone());
        i = i + 1;
    }
    assert(texts(r@) =~= texts(values@));
    r
}

/// Builds the rules of a column from their bounds and the outcome of compiling their
/// pattern.
pub fn assemble_rules(
    column: &str,
    source: &RuleAst,
    min: Option<TypedBound>,
    max: Option<TypedBound>,
    pattern: Result<Option<regex::Regex>, String>,
    length: (Option<usize>, Option<usize>),
) -> (r: Result<CompiledRules, ProofFrameError>)
    ensures
        outcome(
            r,
            assembly_error(
                column@,
                min,
                max,
                match pattern {
                    Ok(_) => None,
                    Err(m) => Some(m@),
                },
                length,
            ),
        ),
        r matches Ok(rules) ==> (pattern matches Ok(p) && rules@ == assembled(
            *source,
            min,
            max,
            opt_pattern(p),
            length,
        )),
{
    let base = column_path(column);
    let crossed = match (min, max) {
        (Some(low), Some(high)) => match low.compare(&high) {
            Some(Order::Greater) => true,
            _ => false,
        },
        _ => false,
    };
    if crossed {
        return Err(
            fail(
                ErrorCode::ContractInvalidBound,
                cat3("Contract minimum exceeds maximum for column `", column, "`"),
                base,
            ),
        );
    }
    let pattern = match pattern {
        Ok(p) => p,
        Err(m) => {
            return Err(
                fail(
                    ErrorCode::ContractInvalidBound,
                    cat5(
                        "Invalid regular expression for column `",
                        column,
                        "`: ",
                        m.as_str(),
                        "",
                    ),
                    append_path(base.as_str(), "pattern"),
                ),
            );
        },
    };
    let allowed = match &source.allowed {
        Some(values) => Some(copy_texts(values)),
        None => None,
    };
    match length {
        (Some(low), Some(high)) => {
            if low > high {
                return Err(
                    fail(
                        ErrorCode::ContractInvalidBound,
                        cat3("`min_length` exceeds `max_length` for column `", column, "`"),
                        append_path(base.as_str(), "min_length"),
                    ),
                );
            }
        },
        _ => {},
    }
    Ok(
        CompiledRules {
            required: source.required,
            not_null: source.not_null,
            unique: source.unique,
            min,
            max,
            nan: nan_policy_of(source.nan),
            validate_nan: source.nan.is_some() || source.min.is_some() || source.max.is_some(),
            pattern,
            allowed,
            min_length: length.0,
            max_length: length.1,
        },
    )
}

/// The outcome of compiling a column's rules.
pub open spec fn rules_outcome(
    column: Seq<char>,
    data_type: DataType,
    shown: Seq<char>,
    kernel: KernelKind,
    source: RuleAst,
    length: (Option<usize>, Option<usize>),
) -> Result<RulesView, ErrorView> {
    let base = path_to("$.columns"@, column);
    match support_error(column, shown, kernel, source) {
        Some(e) => Err(e),
        None => match opt_bound_of(source.min, data_type, shown, path_to(base, "min"@)) {
            Err(e) => Err(e),
            Ok(min) => match opt_bound_of(source.max, data_type, shown, path_to(base, "max"@)) {
                Err(e) => Err(e),
                Ok(max) => match assembly_error(
                    column,
                    min,
                    max,
                    match source.pattern {
                        Some(p) => regex_error(p@),
                        None => None,
                    },
                    length,
                ) {
                    Some(e) => Err(e),
                    None => Ok(assembled(source, min, max, opt_text(source.pattern), length)),
                },
            },
        },
    }
}

/// Compiled rules seen by their view, errors too.
pub open spec fn rules_seen(r: Result<CompiledRules, ProofFrameError>) -> Result<
    RulesView,
    ErrorView,
> {
    match r {
        Ok(rules) => Ok(rules@),
        Err(e) => Err(e@),
    }
}

/// Compiles one column's rules. Lengths are passed beside the rule set: only version 2
/// contracts may declare one.
pub fn compile_rules(
    column: &str,
    data_type: &DataType,
    shown: &str,
    kernel: &KernelKind,
    source: &RuleAst,
    length: (Option<usize>, Option<usize>),
) -> (r: Result<CompiledRules, ProofFrameError>)
    ensures
        rules_seen(r) == rules_outcome(column@, *data_type, shown@, *kernel, *source, length),
{
    match check_support(column, shown, kernel, source) {
        Ok(()) => {},
        Err(e) => return Err(e),
    }
    let base = column_path(column);
    let min_path = append_path(base.as_str(), "min");
    let max_path = append_path(base.as_str(), "max");
    let min = match parse_opt_bound(&source.min, data_type, shown, min_path.as_str()) {
        Ok(b) => b,
        Err(e) => return Err(e),
    };
    let max = match parse_opt_bound(&source.max, data_type, shown, max_path.as_str()) {
        Ok(b) => b,
        Err(e) => return Err(e),
    };
    let pattern = match &source.pattern {
        Some(p) => match regex_new(p.as_str()) {
            Ok(re) => Ok(Some(re)),
            Err(m) => Err(m),
        },
        None => Ok(None),
    };
    assemble_rules(column, source, min, max, pattern, length)
}

/// Whether a unit is the expected one.
pub open spec fn same_unit(expected: TimeUnitAst, actual: TimeUnit) -> bool {
    match expected {
        TimeUnitAst::S => actual == TimeUnit::Second,
        TimeUnitAst::Ms => actual == TimeUnit::Millisecond,
        TimeUnitAst::Us => actual == TimeUnit::Microsecond,
        TimeUnitAst::Ns => actual == TimeUnit::Nanosecond,
    }
}

/// Whether a unit is the expected one.
pub fn time_unit_matches(expected: TimeUnitAst, actual: TimeUnit) -> (r: bool)
    ensures
        r == same_unit(expected, actual),
{
    match expected {
        TimeUnitAst::S => actual == TimeUnit::Second,
        TimeUnitAst::Ms => actual == TimeUnit::Millisecond,
        TimeUnitAst::Us => actual == TimeUnit::Microsecond,
        TimeUnitAst::Ns => actual == TimeUnit::Nanosecond,
    }
}

/// The kernel of an expected type without parameters.
pub open spec fn primitive_kernel(expected: PrimitiveTypeAst) -> KernelKind {
    match expected {
        PrimitiveTypeAst::Boolean => KernelKind::Boolean,
        PrimitiveTypeAst::Int8 => KernelKind::I8,
        PrimitiveTypeAst::Int16 => KernelKind::I16,
        PrimitiveTypeAst::Int32 => KernelKind::I32,
        PrimitiveTypeAst::Int64 => KernelKind::I64,
        PrimitiveTypeAst::Uint8 => KernelKind::U8,
        PrimitiveTypeAst::Uint16 => KernelKind::U16,
        PrimitiveTypeAst::Uint32 => KernelKind::U32,
        PrimitiveTypeAst::Uint64 => KernelKind::U64,
        PrimitiveTypeAst::Float32 => KernelKind::F32,
        PrimitiveTypeAst::Float64 => KernelKind::F64,
        PrimitiveTypeAst::Date32 => KernelKind::Date32,
        PrimitiveTypeAst::Date64 => KernelKind::Date64,
        PrimitiveTypeAst::Utf8 => KernelKind::Utf8,
        PrimitiveTypeAst::LargeUtf8 => KernelKind::LargeUtf8,
        PrimitiveTypeAst::Utf8View => KernelKind::Utf8View,
        PrimitiveTypeAst::Binary => KernelKind::Binary,
        PrimitiveTypeAst::LargeBinary => KernelKind::LargeBinary,
        PrimitiveTypeAst::BinaryView => KernelKind::BinaryView,
    }
}

/// Whether a column type is an expected type without parameters.
pub fn matches_primitive_type(expected: PrimitiveTypeAst, actual: &DataType) -> (r: bool)
    ensures
        r == (kernel_of(*actual) == primitive_kernel(expected)),
{
    let wanted = match expected {
        PrimitiveTypeAst::Boolean => KernelKind::Boolean,
        PrimitiveTypeAst::Int8 => KernelKind::I8,
        PrimitiveTypeAst::Int16 => KernelKind::I16,
        PrimitiveTypeAst::Int32 => KernelKind::I32,
        PrimitiveTypeAst::Int64 => KernelKind::I64,
        PrimitiveTypeAst::Uint8 => KernelKind::U8,
        PrimitiveTypeAst::Uint16 => KernelKind::U16,
        PrimitiveTypeAst::Uint32 => KernelKind::U32,
        PrimitiveTypeAst::Uint64 => KernelKind::U64,
        PrimitiveTypeAst::Float32 => KernelKind::F32,
        PrimitiveTypeAst::Float64 => KernelKind::F64,
        PrimitiveTypeAst::Date32 => KernelKind::Date32,
        PrimitiveTypeAst::Date64 => KernelKind::Date64,
        PrimitiveTypeAst::Utf8 => KernelKind::Utf8,
        PrimitiveTypeAst::LargeUtf8 => KernelKind::LargeUtf8,
        PrimitiveTypeAst::Utf8View => KernelKind::Utf8View,
        PrimitiveTypeAst::Binary => KernelKind::Binary,
        PrimitiveTypeAst::LargeBinary => KernelKind::LargeBinary,
        PrimitiveTypeAst::BinaryView => KernelKind::BinaryView,
    };
    KernelKind::from_data_type(actual) == wanted
}

/// Whether a column type is the expected one.
pub open spec fn expected_type(expected: TypeAst, actual: DataType) -> bool {
    match expected {
        TypeAst::Primitive(p) => kernel_of(actual) == primitive_kernel(p),
        TypeAst::Parameterized(ParameterizedTypeAst::Decimal128 { precision, scale }) => {
            actual == DataType::Decimal128(precision, scale)
        },
        TypeAst::Parameterized(ParameterizedTypeAst::Timestamp { unit, timezone }) => {
            actual matches DataType::Timestamp(u, zone) && same_unit(unit, u) && opt_text(zone)
                == opt_text(timezone)
        },
    }
}

/// Whether a column type is the expected one.
pub fn expected_type_matches(expected: &TypeAst, actual: &DataType) -> (r: bool)
    ensures
        r == expected_type(*expected, *actual),
{
    match expected {
        TypeAst::Primitive(p) => matches_primitive_type(*p, actual),
        TypeAst::Parameterized(ParameterizedTypeAst::Decimal128 { precision, scale }) => {
            match actual {
                DataType::Decimal128(p, s) => *p == *precision && *s == *scale,
                _ => false,
            }
        },
        TypeAst::Parameterized(ParameterizedTypeAst::Timestamp { unit, timezone }) => {
            match actual {
                DataType::Timestamp(u, zone) => time_unit_matches(*unit, *u) && match (
                    zone,
                    timezone,
                ) {
                    (Some(a), Some(b)) => str_eq(a.as_str(), b.as_str()),
                    (None, None) => true,
                    _ => false,
                },
                _ => false,
            }
        },
    }
}

} // verus!
