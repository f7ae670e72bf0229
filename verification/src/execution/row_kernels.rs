//! Rules over the columns of one row.

use crate::contract::ast::{CompareOpAst, NullPolicyAst};
use crate::contract::row::{
    ComparePlan, CompareView, OperandPlan, OperandView, RowPlan, RowPlanKind, RowView,
    ScalarValuePlan, ScalarView,
};
use crate::contract::rules::{KernelKind, RulesView};
use crate::error::{ErrorView, ProofFrameError};
use crate::execution::kernels::{broken_rules, check_cell, matches_rules, names};
use crate::execution::validation::{
    recorded_all, recorded_in_parts, Finding, FindingView, ValidationState,
};
use crate::numbers::{is_nan32, is_nan64, key32, key64, nan32, nan64, order_key32, order_key64};
use crate::text::{
    bytes_eq, bytes_less, cat2, cat3, cat4, cat5, decimal, decimal_i128, decimal_int, decimal_u64,
    lex_less, text, utf8,
};
use crate::value::{Batch, Cell, TimeUnit};
use vstd::prelude::*;

verus! {

/// A value as comparisons see it.
pub enum Comparable {
    Int(int),
    Float(bool, int),
    Text(Seq<u8>),
}

/// A cell as comparisons see it.
pub open spec fn comparable(cell: Cell) -> Option<Comparable> {
    match cell {
        Cell::Boolean(b) => Some(Comparable::Int(if b { 1 } else { 0 })),
        Cell::Int8(v) => Some(Comparable::Int(v as int)),
        Cell::Int16(v) => Some(Comparable::Int(v as int)),
        Cell::Int32(v) => Some(Comparable::Int(v as int)),
        Cell::Int64(v) => Some(Comparable::Int(v as int)),
        Cell::UInt8(v) => Some(Comparable::Int(v as int)),
        Cell::UInt16(v) => Some(Comparable::Int(v as int)),
        Cell::UInt32(v) => Some(Comparable::Int(v as int)),
        Cell::UInt64(v) => Some(Comparable::Int(v as int)),
        Cell::Float32(b) => Some(Comparable::Float(nan32(b), key32(b))),
        Cell::Float64(b) => Some(Comparable::Float(nan64(b), key64(b))),
        Cell::Date32(v) => Some(Comparable::Int(v as int)),
        Cell::Date64(v) => Some(Comparable::Int(v as int)),
        Cell::Timestamp(_, v) => Some(Comparable::Int(v as int)),
        Cell::Decimal128(v) => Some(Comparable::Int(v as int)),
        Cell::Utf8(s) => Some(Comparable::Text(utf8(s@))),
        Cell::LargeUtf8(s) => Some(Comparable::Text(utf8(s@))),
        Cell::Utf8View(s) => Some(Comparable::Text(utf8(s@))),
        _ => None,
    }
}

/// Whether two values are equal. A float that is not a number equals nothing.
pub open spec fn same(a: Comparable, b: Comparable) -> bool {
    match (a, b) {
        (Comparable::Int(x), Comparable::Int(y)) => x == y,
        (Comparable::Float(m, x), Comparable::Float(n, y)) => !m && !n && x == y,
        (Comparable::Text(x), Comparable::Text(y)) => x == y,
        _ => false,
    }
}

/// Whether one value comes before another. A float that is not a number has no order.
pub open spec fn before(a: Comparable, b: Comparable) -> bool {
    match (a, b) {
        (Comparable::Int(x), Comparable::Int(y)) => x < y,
        (Comparable::Float(m, x), Comparable::Float(n, y)) => !m && !n && x < y,
        (Comparable::Text(x), Comparable::Text(y)) => lex_less(x, y),
        _ => false,
    }
}

/// Whether a comparison holds of two values.
pub open spec fn holds(op: CompareOpAst, a: Option<Comparable>, b: Option<Comparable>) -> bool {
    match (a, b) {
        (Some(x), Some(y)) => match op {
            CompareOpAst::Eq => same(x, y),
            CompareOpAst::Ne => !same(x, y),
            CompareOpAst::Lt => before(x, y),
            CompareOpAst::Lte => before(x, y) || same(x, y),
            CompareOpAst::Gt => before(y, x),
            CompareOpAst::Gte => before(y, x) || same(x, y),
        },
        _ => false,
    }
}

/// A value as comparisons see it, at run time.
pub enum Operand<'a> {
    Int(i128),
    Float(bool, i128),
    Text(&'a [u8]),
}

impl<'a> View for Operand<'a> {
    type V = Comparable;

    open spec fn view(&self) -> Comparable {
        match *self {
            Operand::Int(v) => Comparable::Int(v as int),
            Operand::Float(nan, key) => Comparable::Float(nan, key as int),
            Operand::Text(b) => Comparable::Text(b@),
        }
    }
}

/// The view of an optional operand.
pub open spec fn operand_view(o: Option<Operand>) -> Option<Comparable> {
    match o {
        Some(x) => Some(x@),
        None => None,
    }
}

/// A cell as comparisons see it.
pub fn operand_of<'a>(cell: &'a Cell) -> (r: Option<Operand<'a>>)
    ensures
        operand_view(r) == comparable(*cell),
{
    match cell {
        Cell::Boolean(b) => Some(
            Operand::Int(
                if *b {
                    1
                } else {
                    0
                },
            ),
        ),
        Cell::Int8(v) => Some(Operand::Int(*v as i128)),
        Cell::Int16(v) => Some(Operand::Int(*v as i128)),
        Cell::Int32(v) => Some(Operand::Int(*v as i128)),
        Cell::Int64(v) => Some(Operand::Int(*v as i128)),
        Cell::UInt8(v) => Some(Operand::Int(*v as i128)),
        Cell::UInt16(v) => Some(Operand::Int(*v as i128)),
        Cell::UInt32(v) => Some(Operand::Int(*v as i128)),
        Cell::UInt64(v) => Some(Operand::Int(*v as i128)),
        Cell::Float32(b) => Some(Operand::Float(is_nan32(*b), order_key32(*b))),
        Cell::Float64(b) => Some(Operand::Float(is_nan64(*b), order_key64(*b))),
        Cell::Date32(v) => Some(Operand::Int(*v as i128)),
        Cell::Date64(v) => Some(Operand::Int(*v as i128)),
        Cell::Timestamp(_, v) => Some(Operand::Int(*v as i128)),
        Cell::Decimal128(v) => Some(Operand::Int(*v)),
        Cell::Utf8(s) => Some(Operand::Text(s.as_str().as_bytes())),
        Cell::LargeUtf8(s) => Some(Operand::Text(s.as_str().as_bytes())),
        Cell::Utf8View(s) => Some(Operand::Text(s.as_str().as_bytes())),
        _ => None,
    }
}

fn are_same(a: &Operand<'_>, b: &Operand<'_>) -> (r: bool)
    ensures
        r == same(a@, b@),
{
    match (a, b) {
        (Operand::Int(x), Operand::Int(y)) => *x == *y,
        (Operand::Float(m, x), Operand::Float(n, y)) => !*m && !*n && *x == *y,
        (Operand::Text(x), Operand::Text(y)) => bytes_eq(x, y),
        _ => false,
    }
}

fn is_before(a: &Operand<'_>, b: &Operand<'_>) -> (r: bool)
    ensures
        r == before(a@, b@),
{
    match (a, b) {
        (Operand::Int(x), Operand::Int(y)) => *x < *y,
        (Operand::Float(m, x), Operand::Float(n, y)) => !*m && !*n && *x < *y,
        (Operand::Text(x), Operand::Text(y)) => bytes_less(x, y),
        _ => false,
    }
}

/// Whether a comparison holds of two values.
pub fn compare(left: &Option<Operand<'_>>, right: &Option<Operand<'_>>, op: CompareOpAst) -> (r:
    bool)
    ensures
        r == holds(op, operand_view(*left), operand_view(*right)),
{
    match (left, right) {
        (Some(x), Some(y)) => match op {
            CompareOpAst::Eq => are_same(x, y),
            CompareOpAst::Ne => !are_same(x, y),
            CompareOpAst::Lt => is_before(x, y),
            CompareOpAst::Lte => is_before(x, y) || are_same(x, y),
            CompareOpAst::Gt => is_before(y, x),
            CompareOpAst::Gte => is_before(y, x) || are_same(x, y),
        },
        _ => false,
    }
}

/// What a comparison says where a side is null.
pub open spec fn null_answer(
    left_null: bool,
    right_null: bool,
    op: CompareOpAst,
    nulls: NullPolicyAst,
) -> Option<bool> {
    match nulls {
        NullPolicyAst::Skip => None,
        NullPolicyAst::Fail => Some(false),
        NullPolicyAst::Equal => Some(
            match op {
                CompareOpAst::Eq => left_null && right_null,
                CompareOpAst::Ne => left_null != right_null,
                _ => false,
            },
        ),
    }
}

/// What a comparison says where a side is null.
pub fn null_outcome(left_null: bool, right_null: bool, op: CompareOpAst, nulls: NullPolicyAst) -> (r:
    Option<bool>)
    ensures
        r == null_answer(left_null, right_null, op, nulls),
{
    match nulls {
        NullPolicyAst::Skip => None,
        NullPolicyAst::Fail => Some(false),
        NullPolicyAst::Equal => Some(
            match op {
                CompareOpAst::Eq => left_null && right_null,
                CompareOpAst::Ne => left_null != right_null,
                _ => false,
            },
        ),
    }
}

/// A number cut to the signed integers of so many values.
pub open spec fn wrapped(v: int, values: int) -> int {
    if v % values >= values / 2 {
        v % values - values
    } else {
        v % values
    }
}

fn wrap(v: i64, values: i128) -> (r: i128)
    requires
        2 <= values <= 0x1_0000_0000,
    ensures
        r == wrapped(v as int, values as int),
{
    let wide: i128 = v as i128;
    let rem: i128 = if wide >= 0 {
        wide % values
    } else {
        let m: i128 = (-wide) % values;
        proof {
            negative_remainder(wide as int, values as int);
        }
        if m == 0 {
            0
        } else {
            values - m
        }
    };
    if rem >= values / 2 {
        rem - values
    } else {
        rem
    }
}

proof fn negative_remainder(v: int, n: int)
    requires
        v < 0,
        n > 0,
    ensures
        v % n == if (-v) % n == 0 {
            0
        } else {
            n - (-v) % n
        },
{
    let q = (-v) / n;
    let m = (-v) % n;
    assert(-v == q * n + m) by (nonlinear_arith)
        requires
            q == (-v) / n,
            m == (-v) % n,
            n > 0,
    ;
    if m == 0 {
        assert(v == (-q) * n) by (nonlinear_arith)
            requires
                -v == q * n + m,
                m == 0,
        ;
        vstd::arithmetic::div_mod::lemma_mod_multiples_basic(-q, n);
    } else {
        assert(v == (-q - 1) * n + (n - m)) by (nonlinear_arith)
            requires
                -v == q * n + m,
        ;
        vstd::arithmetic::div_mod::lemma_fundamental_div_mod_converse(v, n, -q - 1, n - m);
    }
}

/// A literal as comparisons with a column of a kernel see it: cut to the width of the
/// column.
pub open spec fn literal_for(kernel: KernelKind, literal: ScalarView) -> Option<Comparable> {
    match (kernel, literal) {
        (KernelKind::Boolean, ScalarView::Boolean(b)) => Some(
            Comparable::Int(if b { 1 } else { 0 }),
        ),
        (KernelKind::I8, ScalarView::I64(v)) => Some(Comparable::Int(wrapped(v as int, 0x100))),
        (KernelKind::I16, ScalarView::I64(v)) => Some(Comparable::Int(wrapped(v as int, 0x1_0000))),
        (KernelKind::I32, ScalarView::I64(v)) => Some(
            Comparable::Int(wrapped(v as int, 0x1_0000_0000)),
        ),
        (KernelKind::Date32, ScalarView::I64(v)) => Some(
            Comparable::Int(wrapped(v as int, 0x1_0000_0000)),
        ),
        (KernelKind::I64, ScalarView::I64(v)) => Some(Comparable::Int(v as int)),
        (KernelKind::Date64, ScalarView::I64(v)) => Some(Comparable::Int(v as int)),
        (KernelKind::Timestamp(_), ScalarView::I64(v)) => Some(Comparable::Int(v as int)),
        (KernelKind::U8, ScalarView::U64(v)) => Some(Comparable::Int(v as int % 0x100)),
        (KernelKind::U16, ScalarView::U64(v)) => Some(Comparable::Int(v as int % 0x1_0000)),
        (KernelKind::U32, ScalarView::U64(v)) => Some(Comparable::Int(v as int % 0x1_0000_0000)),
        (KernelKind::U64, ScalarView::U64(v)) => Some(Comparable::Int(v as int)),
        (KernelKind::F32, ScalarView::F64 { bits, narrow }) => Some(
            Comparable::Float(nan32(narrow), key32(narrow)),
        ),
        (KernelKind::F64, ScalarView::F64 { bits, narrow }) => Some(
            Comparable::Float(nan64(bits), key64(bits)),
        ),
        (KernelKind::Utf8, ScalarView::Text(t)) => Some(Comparable::Text(utf8(t))),
        (KernelKind::LargeUtf8, ScalarView::Text(t)) => Some(Comparable::Text(utf8(t))),
        (KernelKind::Utf8View, ScalarView::Text(t)) => Some(Comparable::Text(utf8(t))),
        _ => None,
    }
}

fn literal_operand<'a>(kernel: KernelKind, literal: &'a ScalarValuePlan) -> (r: Option<Operand<'a>>)
    ensures
        operand_view(r) == literal_for(kernel, literal@),
{
    match (kernel, literal) {
        (KernelKind::Boolean, ScalarValuePlan::Boolean(b)) => Some(
            Operand::Int(
                if *b {
                    1
                } else {
                    0
                },
            ),
        ),
        (KernelKind::I8, ScalarValuePlan::I64(v)) => Some(Operand::Int(wrap(*v, 0x100))),
        (KernelKind::I16, ScalarValuePlan::I64(v)) => Some(Operand::Int(wrap(*v, 0x1_0000))),
        (KernelKind::I32, ScalarValuePlan::I64(v)) => Some(Operand::Int(wrap(*v, 0x1_0000_0000))),
        (KernelKind::Date32, ScalarValuePlan::I64(v)) => Some(
            Operand::Int(wrap(*v, 0x1_0000_0000)),
        ),
        (KernelKind::I64, ScalarValuePlan::I64(v)) => Some(Operand::Int(*v as i128)),
        (KernelKind::Date64, ScalarValuePlan::I64(v)) => Some(Operand::Int(*v as i128)),
        (KernelKind::Timestamp(_), ScalarValuePlan::I64(v)) => Some(Operand::Int(*v as i128)),
        (KernelKind::U8, ScalarValuePlan::U64(v)) => Some(Operand::Int((*v % 0x100) as i128)),
        (KernelKind::U16, ScalarValuePlan::U64(v)) => Some(Operand::Int((*v % 0x1_0000) as i128)),
        (KernelKind::U32, ScalarValuePlan::U64(v)) => Some(
            Operand::Int((*v % 0x1_0000_0000) as i128),
        ),
        (KernelKind::U64, ScalarValuePlan::U64(v)) => Some(Operand::Int(*v as i128)),
        (KernelKind::F32, ScalarValuePlan::F64 { bits, narrow }) => Some(
            Operand::Float(is_nan32(*narrow), order_key32(*narrow)),
        ),
        (KernelKind::F64, ScalarValuePlan::F64 { bits, narrow }) => Some(
            Operand::Float(is_nan64(*bits), order_key64(*bits)),
        ),
        (KernelKind::Utf8, ScalarValuePlan::Text(t)) => Some(Operand::Text(t.as_str().as_bytes())),
        (KernelKind::LargeUtf8, ScalarValuePlan::Text(t)) => Some(
            Operand::Text(t.as_str().as_bytes()),
        ),
        (KernelKind::Utf8View, ScalarValuePlan::Text(t)) => Some(
            Operand::Text(t.as_str().as_bytes()),
        ),
        _ => None,
    }
}

/// Whether values of a kernel can be compared with each other.
pub open spec fn comparable_kernel(kernel: KernelKind) -> bool {
    match kernel {
        KernelKind::Binary
        | KernelKind::LargeBinary
        | KernelKind::BinaryView
        | KernelKind::Nested
        | KernelKind::NullOnly => false,
        _ => true,
    }
}

/// Whether values of a kernel can be compared with each other.
pub fn is_comparable_kernel(kernel: KernelKind) -> (r: bool)
    ensures
        r == comparable_kernel(kernel),
{
    match kernel {
        KernelKind::Binary
        | KernelKind::LargeBinary
        | KernelKind::BinaryView
        | KernelKind::Nested
        | KernelKind::NullOnly => false,
        _ => true,
    }
}

/// Whether a comparison can be executed.
pub open spec fn executable(plan: CompareView) -> bool {
    match (plan.left, plan.right) {
        (OperandView::Column { kernel, .. }, OperandView::Column { .. }) => comparable_kernel(
            kernel,
        ),
        (OperandView::Column { kernel, .. }, OperandView::Literal(v)) => literal_for(kernel, v)
            is Some,
        (OperandView::Literal(v), OperandView::Column { kernel, .. }) => literal_for(kernel, v)
            is Some,
        (OperandView::Literal(_), OperandView::Literal(_)) => false,
    }
}

/// Whether the columns of a comparison stand in a batch of so many columns.
pub open spec fn in_range(plan: CompareView, columns: int) -> bool {
    &&& plan.left matches OperandView::Column { column_index, .. } ==> 0 <= column_index < columns
    &&& plan.right matches OperandView::Column { column_index, .. } ==> 0 <= column_index < columns
    &&& plan.left is Column || plan.right is Column
}

/// What a comparison says of a row.
pub open spec fn answer(plan: CompareView, columns: Seq<Vec<Cell>>, row: int) -> Option<bool> {
    match (plan.left, plan.right) {
        (
            OperandView::Column { column_index: l, .. },
            OperandView::Column { column_index: r, .. },
        ) => {
            let a = columns[l]@[row];
            let b = columns[r]@[row];
            if a is Null || b is Null {
                null_answer(a is Null, b is Null, plan.op, plan.nulls)
            } else {
                Some(holds(plan.op, comparable(a), comparable(b)))
            }
        },
        (OperandView::Column { column_index: l, kernel, .. }, OperandView::Literal(v)) => {
            let a = columns[l]@[row];
            if a is Null {
                null_answer(true, false, plan.op, plan.nulls)
            } else {
                Some(holds(plan.op, comparable(a), literal_for(kernel, v)))
            }
        },
        (OperandView::Literal(v), OperandView::Column { column_index: r, kernel, .. }) => {
            let b = columns[r]@[row];
            if b is Null {
                null_answer(false, true, plan.op, plan.nulls)
            } else {
                Some(holds(plan.op, literal_for(kernel, v), comparable(b)))
            }
        },
        (OperandView::Literal(_), OperandView::Literal(_)) => None,
    }
}

fn is_null(cell: &Cell) -> (r: bool)
    ensures
        r == (*cell is Null),
{
    match cell {
        Cell::Null => true,
        _ => false,
    }
}

/// The debug spelling of a timestamp unit.
pub open spec fn unit_debug(unit: TimeUnit) -> Seq<char> {
    match unit {
        TimeUnit::Second => "Second"@,
        TimeUnit::Millisecond => "Millisecond"@,
        TimeUnit::Microsecond => "Microsecond"@,
        TimeUnit::Nanosecond => "Nanosecond"@,
    }
}

/// The debug spelling of a kernel.
pub open spec fn kernel_debug(kernel: KernelKind) -> Seq<char> {
    match kernel {
        KernelKind::Boolean => "Boolean"@,
        KernelKind::I8 => "I8"@,
        KernelKind::I16 => "I16"@,
        KernelKind::I32 => "I32"@,
        KernelKind::I64 => "I64"@,
        KernelKind::U8 => "U8"@,
        KernelKind::U16 => "U16"@,
        KernelKind::U32 => "U32"@,
        KernelKind::U64 => "U64"@,
        KernelKind::F32 => "F32"@,
        KernelKind::F64 => "F64"@,
        KernelKind::Date32 => "Date32"@,
        KernelKind::Date64 => "Date64"@,
        KernelKind::Decimal128 { precision, scale } => "Decimal128 { precision: "@ + decimal(
            precision as nat,
        ) + ", scale: "@ + decimal_int(scale as int) + " }"@,
        KernelKind::Timestamp(unit) => "Timestamp("@ + unit_debug(unit) + ")"@,
        KernelKind::Utf8 => "Utf8"@,
        KernelKind::LargeUtf8 => "LargeUtf8"@,
        KernelKind::Utf8View => "Utf8View"@,
        KernelKind::Binary => "Binary"@,
        KernelKind::LargeBinary => "LargeBinary"@,
        KernelKind::BinaryView => "BinaryView"@,
        KernelKind::Nested => "Nested"@,
        KernelKind::NullOnly => "NullOnly"@,
    }
}

fn kernel_text(kernel: KernelKind) -> (r: String)
    ensures
        r@ == kernel_debug(kernel),
{
    match kernel {
        KernelKind::Boolean => text("Boolean"),
        KernelKind::I8 => text("I8"),
        KernelKind::I16 => text("I16"),
        KernelKind::I32 => text("I32"),
        KernelKind::I64 => text("I64"),
        KernelKind::U8 => text("U8"),
        KernelKind::U16 => text("U16"),
        KernelKind::U32 => text("U32"),
        KernelKind::U64 => text("U64"),
        KernelKind::F32 => text("F32"),
        KernelKind::F64 => text("F64"),
        KernelKind::Date32 => text("Date32"),
        KernelKind::Date64 => text("Date64"),
        KernelKind::Decimal128 { precision, scale } => {
            let p = decimal_u64(precision as u64);
            let s = decimal_i128(scale as i128);
            cat5("Decimal128 { precision: ", p.as_str(), ", scale: ", s.as_str(), " }")
        },
        KernelKind::Timestamp(unit) => {
            let u = match unit {
                TimeUnit::Second => "Second",
                TimeUnit::Millisecond => "Millisecond",
                TimeUnit::Microsecond => "Microsecond",
                TimeUnit::Nanosecond => "Nanosecond",
            };
            cat3("Timestamp(", u, ")")
        },
        KernelKind::Utf8 => text("Utf8"),
        KernelKind::LargeUtf8 => text("LargeUtf8"),
        KernelKind::Utf8View => text("Utf8View"),
        KernelKind::Binary => text("Binary"),
        KernelKind::LargeBinary => text("LargeBinary"),
        KernelKind::BinaryView => text("BinaryView"),
        KernelKind::Nested => text("Nested"),
        KernelKind::NullOnly => text("NullOnly"),
    }
}

/// The debug spelling of the kernel of one side.
pub open spec fn side_debug(side: OperandView) -> Seq<char> {
    match side {
        OperandView::Column { kernel, .. } => "Some("@ + kernel_debug(kernel) + ")"@,
        OperandView::Literal(_) => "None"@,
    }
}

fn side_text(side: &OperandPlan) -> (r: String)
    ensures
        r@ == side_debug(side@),
{
    match side {
        OperandPlan::Column { kernel, .. } => {
            let k = kernel_text(*kernel);
            cat3("Some(", k.as_str(), ")")
        },
        OperandPlan::Literal(_) => text("None"),
    }
}

/// The error of a comparison that cannot be executed.
pub open spec fn unsupported_error(plan: CompareView) -> ErrorView {
    ErrorView::UnsupportedType(
        "relational execution for "@ + side_debug(plan.left) + " and "@ + side_debug(plan.right),
    )
}

fn unsupported(plan: &ComparePlan) -> (r: ProofFrameError)
    ensures
        r@ == unsupported_error(plan@),
{
    let l = side_text(&plan.left);
    let r = side_text(&plan.right);
    ProofFrameError::UnsupportedType(
        cat4("relational execution for ", l.as_str(), " and ", r.as_str()),
    )
}

/// What a comparison says of every row of a batch.
pub fn scan_predicate(plan: &ComparePlan, batch: &Batch) -> (r: Result<
    Vec<Option<bool>>,
    ProofFrameError,
>)
    requires
        batch.wf(),
        in_range(plan@, batch.columns@.len() as int),
    ensures
        match r {
            Ok(v) => executable(plan@) && v@.len() == batch.rows && forall|i: int|
                0 <= i < v@.len() ==> #[trigger] v@[i] == answer(plan@, batch.columns@, i),
            Err(e) => !executable(plan@) && e@ == unsupported_error(plan@),
        },
{
    let mut out: Vec<Option<bool>> = Vec::new();
    let mut i: usize = 0;
    match (&plan.left, &plan.right) {
        (
            OperandPlan::Column { column_index: l, kernel, .. },
            OperandPlan::Column { column_index: r, .. },
        ) => {
            if !is_comparable_kernel(*kernel) {
                return Err(unsupported(plan));
            }
            let left = &batch.columns[*l];
            let right = &batch.columns[*r];
            while i < batch.rows
                invariant
                    i <= batch.rows,
                    out@.len() == i,
                    batch.wf(),
                    left@ == batch.columns@[*l as int]@,
                    right@ == batch.columns@[*r as int]@,
                    left@.len() == batch.rows,
                    right@.len() == batch.rows,
                    plan.left@ matches OperandView::Column { column_index, .. } && column_index
                        == *l,
                    plan.right@ matches OperandView::Column { column_index, .. } && column_index
                        == *r,
                    forall|k: int|
                        0 <= k < i ==> #[trigger] out@[k] == answer(plan@, batch.columns@, k),
                decreases batch.rows - i,
            {
                let a = &left[i];
                let b = &right[i];
                let said = if is_null(a) || is_null(b) {
                    null_outcome(is_null(a), is_null(b), plan.op, plan.nulls)
                } else {
                    Some(compare(&operand_of(a), &operand_of(b), plan.op))
                };
                out.push(said);
                i = i + 1;
            }
            Ok(out)
        },
        (
            OperandPlan::Column { column_index: l, kernel, .. },
            OperandPlan::Literal(v),
        ) => {
            let literal = literal_operand(*kernel, v);
            if literal.is_none() {
                return Err(unsupported(plan));
            }
            let left = &batch.columns[*l];
            while i < batch.rows
                invariant
                    i <= batch.rows,
                    out@.len() == i,
                    batch.wf(),
                    left@ == batch.columns@[*l as int]@,
                    left@.len() == batch.rows,
                    plan.left@ matches OperandView::Column { column_index, kernel: k, .. }
                        && column_index == *l && k == *kernel,
                    plan.right@ == OperandView::Literal(v@),
                    operand_view(literal) == literal_for(*kernel, v@),
                    forall|k: int|
                        0 <= k < i ==> #[trigger] out@[k] == answer(plan@, batch.columns@, k),
                decreases batch.rows - i,
            {
                let a = &left[i];
                let said = if is_null(a) {
                    null_outcome(true, false, plan.op, plan.nulls)
                } else {
                    Some(compare(&operand_of(a), &literal, plan.op))
                };
                out.push(said);
                i = i + 1;
            }
            Ok(out)
        },
        (
            OperandPlan::Literal(v),
            OperandPlan::Column { column_index: r, kernel, .. },
        ) => {
            let literal = literal_operand(*kernel, v);
            if literal.is_none() {
                return Err(unsupported(plan));
            }
            let right = &batch.columns[*r];
            while i < batch.rows
                invariant
                    i <= batch.rows,
                    out@.len() == i,
                    batch.wf(),
                    right@ == batch.columns@[*r as int]@,
                    right@.len() == batch.rows,
                    plan.right@ matches OperandView::Column { column_index, kernel: k, .. }
                        && column_index == *r && k == *kernel,
                    plan.left@ == OperandView::Literal(v@),
                    operand_view(literal) == literal_for(*kernel, v@),
                    forall|k: int|
                        0 <= k < i ==> #[trigger] out@[k] == answer(plan@, batch.columns@, k),
                decreases batch.rows - i,
            {
                let b = &right[i];
                let said = if is_null(b) {
                    null_outcome(false, true, plan.op, plan.nulls)
                } else {
                    Some(compare(&literal, &operand_of(b), plan.op))
                };
                out.push(said);
                i = i + 1;
            }
            Ok(out)
        },
        (OperandPlan::Literal(_), OperandPlan::Literal(_)) => Err(unsupported(plan)),
    }
}

/// The column that a comparison's findings name: the left one, or else the right one.
pub open spec fn named_column(plan: CompareView) -> Seq<char> {
    match plan.left {
        OperandView::Column { field, .. } => field,
        OperandView::Literal(_) => match plan.right {
            OperandView::Column { field, .. } => field,
            OperandView::Literal(_) => "$row"@,
        },
    }
}

/// The column that a comparison's findings name.
pub fn finding_column(plan: &ComparePlan) -> (r: &str)
    ensures
        r@ == named_column(plan@),
{
    match plan.left.field() {
        Some(f) => f,
        None => match plan.right.field() {
            Some(f) => f,
            None => "$row",
        },
    }
}

/// The findings of a comparison in the first `n` rows.
pub open spec fn compare_findings(
    name: Seq<char>,
    plan: CompareView,
    columns: Seq<Vec<Cell>>,
    row_offset: int,
    n: nat,
) -> Seq<FindingView>
    decreases n,
{
    if n == 0 {
        Seq::empty()
    } else {
        let rest = compare_findings(name, plan, columns, row_offset, (n - 1) as nat);
        if answer(plan, columns, n - 1) == Some(false) {
            rest.push(
                FindingView {
                    rule: "compare"@,
                    column: named_column(plan),
                    row: Some((row_offset + n - 1) as u64),
                    message: "Relational rule `"@ + name + "` failed"@,
                },
            )
        } else {
            rest
        }
    }
}

/// The findings of one row behind a condition.
pub open spec fn assertion_findings(
    name: Seq<char>,
    rules: RulesView,
    column: Seq<char>,
    cell: Cell,
    row: u64,
) -> Seq<FindingView> {
    broken_rules(rules, cell).map_values(
        |rule: Seq<char>|
            FindingView {
                rule: "conditional"@,
                column,
                row: Some(row),
                message: "Conditional rule `"@ + name + "` failed `"@ + rule + "`"@,
            },
    )
}

/// The findings of a conditional rule in the first `n` rows.
pub open spec fn conditional_findings(
    name: Seq<char>,
    predicate: CompareView,
    rules: RulesView,
    field: Seq<char>,
    column: int,
    columns: Seq<Vec<Cell>>,
    row_offset: int,
    n: nat,
) -> Seq<FindingView>
    decreases n,
{
    if n == 0 {
        Seq::empty()
    } else {
        let rest = conditional_findings(
            name,
            predicate,
            rules,
            field,
            column,
            columns,
            row_offset,
            (n - 1) as nat,
        );
        if answer(predicate, columns, n - 1) == Some(true) {
            rest + assertion_findings(
                name,
                rules,
                field,
                columns[column]@[n - 1],
                (row_offset + n - 1) as u64,
            )
        } else {
            rest
        }
    }
}

/// Whether a conditional rule meets a value that its kernel cannot judge in the first `n`
/// rows.
pub open spec fn unjudged(
    predicate: CompareView,
    kernel: KernelKind,
    column: int,
    columns: Seq<Vec<Cell>>,
    n: int,
) -> bool {
    !comparable_kernel(kernel) && exists|i: int|
        0 <= i < n && answer(predicate, columns, i) == Some(true) && !(
        #[trigger] columns[column]@[i] is Null)
}

/// Whether a row rule's columns stand in a batch of so many columns.
pub open spec fn row_in_range(plan: RowView, columns: int) -> bool {
    match plan {
        RowView::Compare { compare, .. } => in_range(compare, columns),
        RowView::Conditional { predicate, column, .. } => in_range(predicate, columns) && 0
            <= column < columns,
    }
}

/// The findings of a row rule in a batch.
pub open spec fn row_findings(
    plan: RowView,
    columns: Seq<Vec<Cell>>,
    row_offset: int,
    n: nat,
) -> Seq<FindingView> {
    match plan {
        RowView::Compare { name, compare } => compare_findings(
            name,
            compare,
            columns,
            row_offset,
            n,
        ),
        RowView::Conditional { name, predicate, column, field, assertion, .. } => {
            conditional_findings(
                name,
                predicate,
                assertion,
                field,
                column,
                columns,
                row_offset,
                n,
            )
        },
    }
}

/// The error of a row rule in a batch.
pub open spec fn row_error(plan: RowView, columns: Seq<Vec<Cell>>, n: int) -> Option<ErrorView> {
    match plan {
        RowView::Compare { compare, .. } => if executable(compare) {
            None
        } else {
            Some(unsupported_error(compare))
        },
        RowView::Conditional { predicate, column, kernel, shown, .. } => if !executable(
            predicate,
        ) {
            Some(unsupported_error(predicate))
        } else if unjudged(predicate, kernel, column, columns, n) {
            Some(ErrorView::UnsupportedType("conditional assertion for "@ + shown))
        } else {
            None
        },
    }
}

fn record_assertion(
    validation: &mut ValidationState,
    name: &str,
    column: &str,
    row: u64,
    broken: &Vec<&'static str>,
    Ghost(rules): Ghost<RulesView>,
    Ghost(cell): Ghost<Cell>,
)
    requires
        old(validation).wf(),
        names(broken@) == broken_rules(rules, cell),
    ensures
        final(validation).wf(),
        final(validation).offered() == old(validation).offered(),
        final(validation)@ == recorded_all(
            old(validation)@,
            assertion_findings(name@, rules, column@, cell, row),
        ),
{
    let ghost views = assertion_findings(name@, rules, column@, cell, row);
    let mut i: usize = 0;
    assert(views.take(0) =~= Seq::empty());
    while i < broken.len()
        invariant
            i <= broken@.len(),
            validation.wf(),
            validation.offered() == old(validation).offered(),
            names(broken@) == broken_rules(rules, cell),
            views == assertion_findings(name@, rules, column@, cell, row),
            validation@ == recorded_all(old(validation)@, views.take(i as int)),
        decreases broken@.len() - i,
    {
        let rule = broken[i];
        proof {
            assert(views.take(i + 1).drop_last() =~= views.take(i as int));
            assert(names(broken@)[i as int] == rule@);
        }
        validation.record(
            Finding {
                rule: "conditional",
                column: text(column),
                row: Some(row),
                message: cat5("Conditional rule `", name, "` failed `", rule, "`"),
            },
        );
        i = i + 1;
    }
    assert(views.take(broken@.len() as int) =~= views);
}

/// Applies a row rule to a batch.
pub fn scan_row_plan(
    plan: &RowPlan,
    batch: &Batch,
    row_offset: u64,
    validation: &mut ValidationState,
) -> (r: Result<(), ProofFrameError>)
    requires
        old(validation).wf(),
        batch.wf(),
        row_in_range(plan@, batch.columns@.len() as int),
        row_offset + batch.rows <= u64::MAX,
    ensures
        final(validation).wf(),
        final(validation).offered() == old(validation).offered(),
        match row_error(plan@, batch.columns@, batch.rows as int) {
            Some(e) => r matches Err(x) && x@ == e,
            None => r is Ok && final(validation)@ == recorded_all(
                old(validation)@,
                row_findings(plan@, batch.columns@, row_offset as int, batch.rows as nat),
            ),
        },
{
    let ghost start = validation@;
    let mut i: usize = 0;
    match &plan.kind {
        RowPlanKind::Compare(compare) => {
            let said = match scan_predicate(compare, batch) {
                Ok(v) => v,
                Err(e) => return Err(e),
            };
            while i < said.len()
                invariant
                    i <= said@.len(),
                    said@.len() == batch.rows,
                    row_offset + batch.rows <= u64::MAX,
                    validation.wf(),
                    validation.offered() == old(validation).offered(),
                    start == old(validation)@,
                    forall|k: int|
                        0 <= k < said@.len() ==> #[trigger] said@[k] == answer(
                            compare@,
                            batch.columns@,
                            k,
                        ),
                    validation@ == recorded_all(
                        start,
                        compare_findings(
                            plan.name@,
                            compare@,
                            batch.columns@,
                            row_offset as int,
                            i as nat,
                        ),
                    ),
                decreases said@.len() - i,
            {
                let failed = match said[i] {
                    Some(b) => !b,
                    None => false,
                };
                assert(said@[i as int] == answer(compare@, batch.columns@, i as int));
                if failed {
                    proof {
                        let rest = compare_findings(
                            plan.name@,
                            compare@,
                            batch.columns@,
                            row_offset as int,
                            i as nat,
                        );
                        let more = compare_findings(
                            plan.name@,
                            compare@,
                            batch.columns@,
                            row_offset as int,
                            (i + 1) as nat,
                        );
                        assert(more.drop_last() =~= rest);
                    }
                    validation.record(
                        Finding {
                            rule: "compare",
                            column: text(finding_column(compare)),
                            row: Some(row_offset + i as u64),
                            message: cat3("Relational rule `", plan.name.as_str(), "` failed"),
                        },
                    );
                }
                i = i + 1;
            }
            Ok(())
        },
        RowPlanKind::Conditional {
            predicate,
            assertion_column,
            assertion_field,
            assertion_kernel,
            assertion_type,
            assertion,
        } => {
            let said = match scan_predicate(predicate, batch) {
                Ok(v) => v,
                Err(e) => return Err(e),
            };
            let target = &batch.columns[*assertion_column];
            let judged = is_comparable_kernel(*assertion_kernel);
            while i < said.len()
                invariant
                    i <= said@.len(),
                    said@.len() == batch.rows,
                    target@ == batch.columns@[*assertion_column as int]@,
                    target@.len() == batch.rows,
                    row_offset + batch.rows <= u64::MAX,
                    validation.wf(),
                    validation.offered() == old(validation).offered(),
                    start == old(validation)@,
                    executable(predicate@),
                    judged == comparable_kernel(*assertion_kernel),
                    plan@ == (RowView::Conditional {
                        name: plan.name@,
                        predicate: predicate@,
                        column: *assertion_column as int,
                        field: assertion_field@,
                        kernel: *assertion_kernel,
                        shown: assertion_type@,
                        assertion: assertion@,
                    }),
                    !unjudged(
                        predicate@,
                        *assertion_kernel,
                        *assertion_column as int,
                        batch.columns@,
                        i as int,
                    ),
                    forall|k: int|
                        0 <= k < said@.len() ==> #[trigger] said@[k] == answer(
                            predicate@,
                            batch.columns@,
                            k,
                        ),
                    validation@ == recorded_all(
                        start,
                        conditional_findings(
                            plan.name@,
                            predicate@,
                            assertion@,
                            assertion_field@,
                            *assertion_column as int,
                            batch.columns@,
                            row_offset as int,
                            i as nat,
                        ),
                    ),
                decreases said@.len() - i,
            {
                let selected = match said[i] {
                    Some(b) => b,
                    None => false,
                };
                assert(said@[i as int] == answer(predicate@, batch.columns@, i as int));
                if selected {
                    let cell = &target[i];
                    if !judged && !is_null(cell) {
                        assert(!(batch.columns@[*assertion_column as int]@[i as int] is Null));
                        return Err(
                            ProofFrameError::UnsupportedType(
                                cat2("conditional assertion for ", assertion_type.as_str()),
                            ),
                        );
                    }
                    let matched = matches_rules(assertion, cell);
                    let broken = check_cell(assertion, cell, matched);
                    let row: u64 = row_offset + i as u64;
                    record_assertion(
                        validation,
                        plan.name.as_str(),
                        assertion_field.as_str(),
                        row,
                        &broken,
                        Ghost(assertion@),
                        Ghost(*cell),
                    );
                    proof {
                        let rest = conditional_findings(
                            plan.name@,
                            predicate@,
                            assertion@,
                            assertion_field@,
                            *assertion_column as int,
                            batch.columns@,
                            row_offset as int,
                            i as nat,
                        );
                        let here = assertion_findings(
                            plan.name@,
                            assertion@,
                            assertion_field@,
                            *cell,
                            row,
                        );
                        recorded_in_parts(start, rest, here);
                    }
                }
                i = i + 1;
            }
            Ok(())
        },
    }
}

} // verus!
