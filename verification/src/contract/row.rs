//! Rules over the columns of one row, resolved against a schema.

use crate::contract::ast::{
    fail, failure, AssertionAst, CompareAst, CompareOpAst, NullPolicyAst, OperandAst, RowRuleAst,
};
use crate::contract::json::Json;
use crate::contract::rules::{
    compile_rules, kernel_of, rules_outcome, CompiledRules, KernelKind, RulesView,
};
use crate::contract::v2::{index_path, item_path};
use crate::error::{ErrorCode, ErrorView, ProofFrameError};
use crate::numbers::{finite64, is_finite64};
use crate::text::{cat2, cat3, cat5, text};
use crate::value::{first_named, same_type, type_eq, Field, Schema};
use vstd::prelude::*;

verus! {

/// A literal of a comparison. A float holds its bit pattern and that of the same value
/// rounded to 32 bits.
#[derive(Debug)]
pub enum ScalarValuePlan {
    Boolean(bool),
    I64(i64),
    U64(u64),
    F64 { bits: u64, narrow: u32 },
    Text(String),
}

/// A literal with its text as a character sequence.
pub enum ScalarView {
    Boolean(bool),
    I64(i64),
    U64(u64),
    F64 { bits: u64, narrow: u32 },
    Text(Seq<char>),
}

impl View for ScalarValuePlan {
    type V = ScalarView;

    open spec fn view(&self) -> ScalarView {
        match *self {
            ScalarValuePlan::Boolean(b) => ScalarView::Boolean(b),
            ScalarValuePlan::I64(v) => ScalarView::I64(v),
            ScalarValuePlan::U64(v) => ScalarView::U64(v),
            ScalarValuePlan::F64 { bits, narrow } => ScalarView::F64 { bits, narrow },
            ScalarValuePlan::Text(t) => ScalarView::Text(t@),
        }
    }
}

/// One resolved side of a comparison.
#[derive(Debug)]
pub enum OperandPlan {
    Column { column_index: usize, field: String, kernel: KernelKind },
    Literal(ScalarValuePlan),
}

/// A resolved side with its texts as character sequences.
pub enum OperandView {
    Column { column_index: int, field: Seq<char>, kernel: KernelKind },
    Literal(ScalarView),
}

impl View for OperandPlan {
    type V = OperandView;

    open spec fn view(&self) -> OperandView {
        match *self {
            OperandPlan::Column { column_index, field, kernel } => OperandView::Column {
                column_index: column_index as int,
                field: field@,
                kernel,
            },
            OperandPlan::Literal(v) => OperandView::Literal(v@),
        }
    }
}

impl OperandPlan {
    /// The position of the column, where the side is one.
    pub fn column_index(&self) -> (r: Option<usize>)
        ensures
            match self@ {
                OperandView::Column { column_index, .. } => r matches Some(i) && i == column_index,
                OperandView::Literal(_) => r is None,
            },
    {
        match self {
            OperandPlan::Column { column_index, .. } => Some(*column_index),
            OperandPlan::Literal(_) => None,
        }
    }

    /// The name of the column, where the side is one.
    pub fn field(&self) -> (r: Option<&str>)
        ensures
            match self@ {
                OperandView::Column { field, .. } => r matches Some(f) && f@ == field,
                OperandView::Literal(_) => r is None,
            },
    {
        match self {
            OperandPlan::Column { field, .. } => Some(field.as_str()),
            OperandPlan::Literal(_) => None,
        }
    }

    /// The kernel of the column, where the side is one.
    pub fn kernel(&self) -> (r: Option<KernelKind>)
        ensures
            match self@ {
                OperandView::Column { kernel, .. } => r == Some(kernel),
                OperandView::Literal(_) => r is None,
            },
    {
        match self {
            OperandPlan::Column { kernel, .. } => Some(*kernel),
            OperandPlan::Literal(_) => None,
        }
    }

    /// The literal, where the side is one.
    pub fn literal(&self) -> (r: Option<&ScalarValuePlan>)
        ensures
            match self@ {
                OperandView::Column { .. } => r is None,
                OperandView::Literal(v) => r matches Some(x) && x@ == v,
            },
    {
        match self {
            OperandPlan::Column { .. } => None,
            OperandPlan::Literal(v) => Some(v),
        }
    }
}

/// A resolved comparison.
#[derive(Debug)]
pub struct ComparePlan {
    pub left: OperandPlan,
    pub op: CompareOpAst,
    pub right: OperandPlan,
    pub nulls: NullPolicyAst,
}

/// A resolved comparison with its texts as character sequences.
pub struct CompareView {
    pub left: OperandView,
    pub op: CompareOpAst,
    pub right: OperandView,
    pub nulls: NullPolicyAst,
}

impl View for ComparePlan {
    type V = CompareView;

    open spec fn view(&self) -> CompareView {
        CompareView { left: self.left@, op: self.op, right: self.right@, nulls: self.nulls }
    }
}

impl ComparePlan {
    /// The left side.
    pub fn left(&self) -> (r: &OperandPlan)
        ensures
            *r == self.left,
    {
        &self.left
    }

    /// The operator.
    pub fn op(&self) -> (r: CompareOpAst)
        ensures
            r == self.op,
    {
        self.op
    }

    /// The right side.
    pub fn right(&self) -> (r: &OperandPlan)
        ensures
            *r == self.right,
    {
        &self.right
    }

    /// What a null means.
    pub fn nulls(&self) -> (r: NullPolicyAst)
        ensures
            r == self.nulls,
    {
        self.nulls
    }
}

/// What a row rule asks.
pub enum RowPlanKind {
    Compare(ComparePlan),
    Conditional {
        predicate: ComparePlan,
        assertion_column: usize,
        assertion_field: String,
        assertion_kernel: KernelKind,
        assertion_type: String,
        assertion: CompiledRules,
    },
}

/// A resolved row rule.
pub struct RowPlan {
    pub name: String,
    pub kind: RowPlanKind,
}

/// A resolved row rule with its texts as character sequences.
pub enum RowView {
    Compare { name: Seq<char>, compare: CompareView },
    Conditional {
        name: Seq<char>,
        predicate: CompareView,
        column: int,
        field: Seq<char>,
        kernel: KernelKind,
        shown: Seq<char>,
        assertion: RulesView,
    },
}

impl View for RowPlan {
    type V = RowView;

    open spec fn view(&self) -> RowView {
        match self.kind {
            RowPlanKind::Compare(compare) => RowView::Compare {
                name: self.name@,
                compare: compare@,
            },
            RowPlanKind::Conditional {
                predicate,
                assertion_column,
                assertion_field,
                assertion_kernel,
                assertion_type,
                assertion,
            } => RowView::Conditional {
                name: self.name@,
                predicate: predicate@,
                column: assertion_column as int,
                field: assertion_field@,
                kernel: assertion_kernel,
                shown: assertion_type@,
                assertion: assertion@,
            },
        }
    }
}

/// A column named by a comparison, resolved.
pub open spec fn column_operand(column: Seq<char>, schema: Schema, path: Seq<char>) -> Result<
    OperandView,
    ErrorView,
> {
    match first_named(schema.fields@, column) {
        Some(i) => Ok(
            OperandView::Column {
                column_index: i,
                field: schema.fields@[i].name@,
                kernel: kernel_of(schema.fields@[i].data_type),
            },
        ),
        None => Err(
            failure(
                ErrorCode::MissingColumn,
                "Relational column `"@ + column + "` is absent"@,
                path + ".column"@,
            ),
        ),
    }
}

/// A literal read as a value of a kernel, where it is one.
pub open spec fn literal_value(value: Json, kernel: KernelKind) -> Option<ScalarView> {
    match kernel {
        KernelKind::Boolean => match value {
            Json::Bool(b) => Some(ScalarView::Boolean(b)),
            _ => None,
        },
        KernelKind::I8
        | KernelKind::I16
        | KernelKind::I32
        | KernelKind::I64
        | KernelKind::Date32
        | KernelKind::Date64
        | KernelKind::Timestamp(_) => match value {
            Json::Number(n) => match n.as_i64 {
                Some(v) => Some(ScalarView::I64(v)),
                None => None,
            },
            _ => None,
        },
        KernelKind::U8 | KernelKind::U16 | KernelKind::U32 | KernelKind::U64 => match value {
            Json::Number(n) => match n.as_u64 {
                Some(v) => Some(ScalarView::U64(v)),
                None => None,
            },
            _ => None,
        },
        KernelKind::F32 | KernelKind::F64 => match value {
            Json::Number(n) => match n.as_float64 {
                Some(b) => if finite64(b) {
                    Some(ScalarView::F64 { bits: b, narrow: n.as_float32 })
                } else {
                    None
                },
                None => None,
            },
            _ => None,
        },
        KernelKind::Utf8 | KernelKind::LargeUtf8 | KernelKind::Utf8View => match value {
            Json::Text(t) => Some(ScalarView::Text(t@)),
            _ => None,
        },
        _ => None,
    }
}

/// The error of a literal that a column type cannot hold.
pub open spec fn literal_failure(shown: Seq<char>, path: Seq<char>) -> ErrorView {
    failure(
        ErrorCode::ContractTypeMismatch,
        "Literal is not representable as Arrow type `"@ + shown + "`"@,
        path,
    )
}

/// A literal beside a column, resolved.
pub open spec fn literal_operand(value: Json, field: Field, path: Seq<char>) -> Result<
    OperandView,
    ErrorView,
> {
    match literal_value(value, kernel_of(field.data_type)) {
        Some(v) => Ok(OperandView::Literal(v)),
        None => Err(literal_failure(field.type_text@, path)),
    }
}

/// Two operands joined into a comparison.
pub open spec fn joined(
    source: CompareAst,
    left: Result<OperandView, ErrorView>,
    right: Result<OperandView, ErrorView>,
) -> Result<CompareView, ErrorView> {
    match left {
        Err(e) => Err(e),
        Ok(l) => match right {
            Err(e) => Err(e),
            Ok(r) => Ok(CompareView { left: l, op: source.op, right: r, nulls: source.nulls }),
        },
    }
}

/// The outcome of resolving a comparison.
pub open spec fn compare_outcome(source: CompareAst, schema: Schema, path: Seq<char>) -> Result<
    CompareView,
    ErrorView,
> {
    match (source.left, source.right) {
        (OperandAst::Column(a), OperandAst::Column(b)) => {
            let left = column_operand(a.column@, schema, path + ".left"@);
            let right = column_operand(b.column@, schema, path + ".right"@);
            match joined(source, left, right) {
                Err(e) => Err(e),
                Ok(plan) => {
                    let x = schema.fields@[first_named(schema.fields@, a.column@).unwrap()];
                    let y = schema.fields@[first_named(schema.fields@, b.column@).unwrap()];
                    if same_type(x.data_type, y.data_type) {
                        Ok(plan)
                    } else {
                        Err(
                            failure(
                                ErrorCode::ContractTypeMismatch,
                                "Relational operands have incompatible types `"@ + x.type_text@
                                    + "` and `"@ + y.type_text@ + "`"@,
                                path,
                            ),
                        )
                    }
                },
            }
        },
        (OperandAst::Column(a), OperandAst::Literal(b)) => match first_named(
            schema.fields@,
            a.column@,
        ) {
            None => joined(
                source,
                column_operand(a.column@, schema, path + ".left"@),
                column_operand(a.column@, schema, path + ".left"@),
            ),
            Some(i) => joined(
                source,
                column_operand(a.column@, schema, path + ".left"@),
                literal_operand(b.literal, schema.fields@[i], path + ".right.literal"@),
            ),
        },
        (OperandAst::Literal(a), OperandAst::Column(b)) => match first_named(
            schema.fields@,
            b.column@,
        ) {
            None => joined(
                source,
                column_operand(b.column@, schema, path + ".right"@),
                column_operand(b.column@, schema, path + ".right"@),
            ),
            Some(i) => joined(
                source,
                literal_operand(a.literal, schema.fields@[i], path + ".left.literal"@),
                column_operand(b.column@, schema, path + ".right"@),
            ),
        },
        (OperandAst::Literal(_), OperandAst::Literal(_)) => Err(
            failure(
                ErrorCode::ContractInvalidJson,
                "At least one relational operand must name an Arrow column"@,
                path,
            ),
        ),
    }
}

/// A comparison seen by its view, errors too.
pub open spec fn compare_seen(r: Result<ComparePlan, ProofFrameError>) -> Result<
    CompareView,
    ErrorView,
> {
    match r {
        Ok(p) => Ok(p@),
        Err(e) => Err(e@),
    }
}

fn compile_column(column: &str, schema: &Schema, path: &str) -> (r: Result<
    (OperandPlan, usize),
    ProofFrameError,
>)
    ensures
        match column_operand(column@, *schema, path@) {
            Ok(v) => r matches Ok(p) && p.0@ == v && first_named(schema.fields@, column@) == Some(
                p.1 as int,
            ) && p.1 < schema.fields@.len(),
            Err(e) => r matches Err(x) && x@ == e,
        },
{
    match schema.index_of(column) {
        Some(i) => {
            let field = &schema.fields[i];
            Ok(
                (
                    OperandPlan::Column {
                        column_index: i,
                        field: field.name.clone(),
                        kernel: KernelKind::from_data_type(&field.data_type),
                    },
                    i,
                ),
            )
        },
        None => Err(
            fail(
                ErrorCode::MissingColumn,
                cat3("Relational column `", column, "` is absent"),
                cat2(path, ".column"),
            ),
        ),
    }
}

/// Reads a literal as a value of a column's type.
pub fn compile_literal(value: &Json, field: &Field, path: &str) -> (r: Result<
    ScalarValuePlan,
    ProofFrameError,
>)
    ensures
        match literal_operand(*value, *field, path@) {
            Ok(v) => r matches Ok(p) && v == OperandView::Literal(p@),
            Err(e) => r matches Err(x) && x@ == e,
        },
{
    let kernel = KernelKind::from_data_type(&field.data_type);
    let parsed: Option<ScalarValuePlan> = match kernel {
        KernelKind::Boolean => match value {
            Json::Bool(b) => Some(ScalarValuePlan::Boolean(*b)),
            _ => None,
        },
        KernelKind::I8
        | KernelKind::I16
        | KernelKind::I32
        | KernelKind::I64
        | KernelKind::Date32
        | KernelKind::Date64
        | KernelKind::Timestamp(_) => match value {
            Json::Number(n) => match n.as_i64 {
                Some(v) => Some(ScalarValuePlan::I64(v)),
                None => None,
            },
            _ => None,
        },
        KernelKind::U8 | KernelKind::U16 | KernelKind::U32 | KernelKind::U64 => match value {
            Json::Number(n) => match n.as_u64 {
                Some(v) => Some(ScalarValuePlan::U64(v)),
                None => None,
            },
            _ => None,
        },
        KernelKind::F32 | KernelKind::F64 => match value {
            Json::Number(n) => match n.as_float64 {
                Some(b) => if is_finite64(b) {
                    Some(ScalarValuePlan::F64 { bits: b, narrow: n.as_float32 })
                } else {
                    None
                },
                None => None,
            },
            _ => None,
        },
        KernelKind::Utf8 | KernelKind::LargeUtf8 | KernelKind::Utf8View => match value {
            Json::Text(t) => Some(ScalarValuePlan::Text(t.clone())),
            _ => None,
        },
        _ => None,
    };
    match parsed {
        Some(p) => Ok(p),
        None => Err(
            fail(
                ErrorCode::ContractTypeMismatch,
                cat3(
                    "Literal is not representable as Arrow type `",
                    field.type_text.as_str(),
                    "`",
                ),
                text(path),
            ),
        ),
    }
}

/// Resolves a comparison against a schema.
pub fn compile_compare(source: &CompareAst, schema: &Schema, path: &str) -> (r: Result<
    ComparePlan,
    ProofFrameError,
>)
    ensures
        compare_seen(r) == compare_outcome(*source, *schema, path@),
{
    let left_path = cat2(path, ".left");
    let right_path = cat2(path, ".right");
    match (&source.left, &source.right) {
        (OperandAst::Column(a), OperandAst::Column(b)) => {
            let (left, i) = match compile_column(a.column.as_str(), schema, left_path.as_str()) {
                Ok(p) => p,
                Err(e) => return Err(e),
            };
            let (right, j) = match compile_column(b.column.as_str(), schema, right_path.as_str()) {
                Ok(p) => p,
                Err(e) => return Err(e),
            };
            let x = &schema.fields[i];
            let y = &schema.fields[j];
            if !type_eq(&x.data_type, &y.data_type) {
                return Err(
                    fail(
                        ErrorCode::ContractTypeMismatch,
                        cat5(
                            "Relational operands have incompatible types `",
                            x.type_text.as_str(),
                            "` and `",
                            y.type_text.as_str(),
                            "`",
                        ),
                        text(path),
                    ),
                );
            }
            Ok(ComparePlan { left, op: source.op, right, nulls: source.nulls })
        },
        (OperandAst::Column(a), OperandAst::Literal(b)) => {
            let (left, i) = match compile_column(a.column.as_str(), schema, left_path.as_str()) {
                Ok(p) => p,
                Err(e) => return Err(e),
            };
            let at = cat2(path, ".right.literal");
            match compile_literal(&b.literal, &schema.fields[i], at.as_str()) {
                Ok(v) => Ok(
                    ComparePlan {
                        left,
                        op: source.op,
                        right: OperandPlan::Literal(v),
                        nulls: source.nulls,
                    },
                ),
                Err(e) => Err(e),
            }
        },
        (OperandAst::Literal(a), OperandAst::Column(b)) => {
            let (right, i) = match compile_column(b.column.as_str(), schema, right_path.as_str()) {
                Ok(p) => p,
                Err(e) => return Err(e),
            };
            let at = cat2(path, ".left.literal");
            match compile_literal(&a.literal, &schema.fields[i], at.as_str()) {
                Ok(v) => Ok(
                    ComparePlan {
                        left: OperandPlan::Literal(v),
                        op: source.op,
                        right,
                        nulls: source.nulls,
                    },
                ),
                Err(e) => Err(e),
            }
        },
        (OperandAst::Literal(_), OperandAst::Literal(_)) => Err(
            fail(
                ErrorCode::ContractInvalidJson,
                text("At least one relational operand must name an Arrow column"),
                text(path),
            ),
        ),
    }
}

/// The outcome of resolving the rules behind a condition.
pub open spec fn conditional_outcome(
    name: Seq<char>,
    when: CompareAst,
    assertion: AssertionAst,
    schema: Schema,
    path: Seq<char>,
) -> Result<RowView, ErrorView> {
    match first_named(schema.fields@, assertion.column@) {
        None => Err(
            failure(
                ErrorCode::MissingColumn,
                "Conditional assertion column `"@ + assertion.column@ + "` is absent"@,
                path + ".assert.column"@,
            ),
        ),
        Some(i) => {
            let field = schema.fields@[i];
            match rules_outcome(
                assertion.column@,
                field.data_type,
                field.type_text@,
                kernel_of(field.data_type),
                assertion.rules,
                (None, None),
            ) {
                Err(e) => Err(e),
                Ok(rules) => match compare_outcome(when, schema, path + ".when"@) {
                    Err(e) => Err(e),
                    Ok(predicate) => Ok(
                        RowView::Conditional {
                            name,
                            predicate,
                            column: i,
                            field: field.name@,
                            kernel: kernel_of(field.data_type),
                            shown: field.type_text@,
                            assertion: rules,
                        },
                    ),
                },
            }
        },
    }
}

/// The outcome of resolving a row rule.
pub open spec fn row_outcome(source: RowRuleAst, schema: Schema, index: nat) -> Result<
    RowView,
    ErrorView,
> {
    let path = item_path("$.row_rules"@, index);
    match source.compare {
        Some(compare) => match compare_outcome(compare, schema, path + ".compare"@) {
            Ok(c) => Ok(RowView::Compare { name: source.name@, compare: c }),
            Err(e) => Err(e),
        },
        None => match source.when {
            None => Err(
                failure(
                    ErrorCode::ContractInvalidJson,
                    "Conditional row rule is missing `when`"@,
                    path,
                ),
            ),
            Some(when) => match source.assertion {
                None => Err(
                    failure(
                        ErrorCode::ContractInvalidJson,
                        "Conditional row rule is missing `assert`"@,
                        path,
                    ),
                ),
                Some(assertion) => conditional_outcome(
                    source.name@,
                    when,
                    assertion,
                    schema,
                    path,
                ),
            },
        },
    }
}

/// A row rule seen by its view, errors too.
pub open spec fn row_seen(r: Result<RowPlan, ProofFrameError>) -> Result<RowView, ErrorView> {
    match r {
        Ok(p) => Ok(p@),
        Err(e) => Err(e@),
    }
}

impl RowPlan {
    /// Resolves a row rule against a schema.
    pub fn compile(source: &RowRuleAst, schema: &Schema, index: usize) -> (r: Result<
        Self,
        ProofFrameError,
    >)
        ensures
            row_seen(r) == row_outcome(*source, *schema, index as nat),
    {
        let path = index_path("$.row_rules", index);
        match &source.compare {
            Some(compare) => {
                let at = cat2(path.as_str(), ".compare");
                match compile_compare(compare, schema, at.as_str()) {
                    Ok(c) => Ok(
                        RowPlan { name: source.name.clone(), kind: RowPlanKind::Compare(c) },
                    ),
                    Err(e) => Err(e),
                }
            },
            None => match &source.when {
                None => Err(
                    fail(
                        ErrorCode::ContractInvalidJson,
                        text("Conditional row rule is missing `when`"),
                        path,
                    ),
                ),
                Some(when) => match &source.assertion {
                    None => Err(
                        fail(
                            ErrorCode::ContractInvalidJson,
                            text("Conditional row rule is missing `assert`"),
                            path,
                        ),
                    ),
                    Some(assertion) => {
                        compile_conditional(
                            source.name.as_str(),
                            when,
                            assertion,
                            schema,
                            path.as_str(),
                        )
                    },
                },
            },
        }
    }

    /// The name of the rule.
    pub fn name(&self) -> (r: &str)
        ensures
            r@ == self.name@,
    {
        self.name.as_str()
    }

    /// What the rule asks.
    pub fn kind(&self) -> (r: &RowPlanKind)
        ensures
            *r == self.kind,
    {
        &self.kind
    }
}

fn compile_conditional(
    name: &str,
    when: &CompareAst,
    assertion: &AssertionAst,
    schema: &Schema,
    path: &str,
) -> (r: Result<RowPlan, ProofFrameError>)
    ensures
        row_seen(r) == conditional_outcome(name@, *when, *assertion, *schema, path@),
{
    let i: usize = match schema.index_of(assertion.column.as_str()) {
        Some(i) => i,
        None => {
            return Err(
                fail(
                    ErrorCode::MissingColumn,
                    cat3(
                        "Conditional assertion column `",
                        assertion.column.as_str(),
                        "` is absent",
                    ),
                    cat2(path, ".assert.column"),
                ),
            );
        },
    };
    let field = &schema.fields[i];
    let kernel = KernelKind::from_data_type(&field.data_type);
    let rules = match compile_rules(
        assertion.column.as_str(),
        &field.data_type,
        field.type_text.as_str(),
        &kernel,
        &assertion.rules,
        (None, None),
    ) {
        Ok(rules) => rules,
        Err(e) => return Err(e),
    };
    let at = cat2(path, ".when");
    match compile_compare(when, schema, at.as_str()) {
        Ok(predicate) => Ok(
            RowPlan {
                name: text(name),
                kind: RowPlanKind::Conditional {
                    predicate,
                    assertion_column: i,
                    assertion_field: field.name.clone(),
                    assertion_kernel: kernel,
                    assertion_type: field.type_text.clone(),
                    assertion: rules,
                },
            },
        ),
        Err(e) => Err(e),
    }
}

} // verus!
