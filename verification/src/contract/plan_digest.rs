//! Digests of a compiled contract: its schema, and the whole plan.

use crate::bytes::{concat_of, le, prefixed, push_all, push_le, push_le_signed, push_prefixed, twos};
use crate::contract::ast::{
    CompareOpAst, CompositeNullPolicyAst, ContractVersion, CountRangeAst, ExclusiveModeAst,
    MonotonicDirectionAst, MonotonicNullPolicyAst, NullPolicyAst, ReferenceNullPolicyAst,
};
use crate::contract::bounds::TypedBound;
use crate::contract::compile::{ColumnPlan, CompiledContract};
use crate::contract::dataset::{
    CompositeUniquePlan, ConditionalUniquePlan, CountPlan, DatasetPlan, GapDetectionPlan,
    MonotonicityPlan, MutuallyExclusivePlan, RatioPlan, ReferencePlan, RowCountDeltaPlan,
    StatisticKind, StatisticPlan, SumBounds, SumPlan,
};
use crate::contract::row::{
    ComparePlan, CompareView, OperandPlan, OperandView, RowPlan, RowPlanKind, RowView,
    ScalarValuePlan, ScalarView,
};
use crate::contract::rules::{regex_source, CompiledRules, KernelKind, NaNPolicy, RulesView};
use crate::digest::{blake3_digest, digest_of, hex, tagged_hex};
use crate::error::{ErrorView, ProofFrameError};
use crate::fingerprint::{fingerprint_schema, schema_v2};
use crate::text::{texts, utf8};
use crate::value::TimeUnit;
use vstd::prelude::*;

verus! {

/// One byte for a truth value.
pub open spec fn flag(b: bool) -> u8 {
    if b {
        1
    } else {
        0
    }
}

fn flag_of(b: bool) -> (r: u8)
    ensures
        r == flag(b),
{
    if b {
        1
    } else {
        0
    }
}

/// A text behind its length.
pub open spec fn part(s: Seq<char>) -> Seq<u8> {
    prefixed(utf8(s))
}

fn push_part(out: &mut Vec<u8>, s: &str)
    ensures
        final(out)@ == old(out)@ + part(s@),
{
    push_prefixed(out, s.as_bytes());
}

fn push_domain(out: &mut Vec<u8>, s: &str)
    ensures
        final(out)@ == old(out)@ + utf8(s@),
{
    push_all(out, s.as_bytes());
}

fn push_word(out: &mut Vec<u8>, v: u64)
    ensures
        final(out)@ == old(out)@ + le(v as nat, 8),
{
    push_le(out, v as u128, 8);
}

fn push_byte(out: &mut Vec<u8>, v: u8)
    ensures
        final(out)@ == old(out)@ + seq![v],
{
    out.push(v);
    assert(out@ =~= old(out)@ + seq![v]);
}

/// The tag of a kernel.
pub open spec fn kernel_tag(kernel: KernelKind) -> u8 {
    match kernel {
        KernelKind::Boolean => 0,
        KernelKind::I8 => 1,
        KernelKind::I16 => 2,
        KernelKind::I32 => 3,
        KernelKind::I64 => 4,
        KernelKind::U8 => 5,
        KernelKind::U16 => 6,
        KernelKind::U32 => 7,
        KernelKind::U64 => 8,
        KernelKind::F32 => 9,
        KernelKind::F64 => 10,
        KernelKind::Date32 => 11,
        KernelKind::Date64 => 12,
        KernelKind::Decimal128 { .. } => 13,
        KernelKind::Timestamp(_) => 14,
        KernelKind::Utf8 => 15,
        KernelKind::LargeUtf8 => 16,
        KernelKind::Binary => 17,
        KernelKind::LargeBinary => 18,
        KernelKind::Nested => 19,
        KernelKind::NullOnly => 20,
        KernelKind::Utf8View => 21,
        KernelKind::BinaryView => 22,
    }
}

fn tag_of_kernel(kernel: KernelKind) -> (r: u8)
    ensures
        r == kernel_tag(kernel),
{
    match kernel {
        KernelKind::Boolean => 0,
        KernelKind::I8 => 1,
        KernelKind::I16 => 2,
        KernelKind::I32 => 3,
        KernelKind::I64 => 4,
        KernelKind::U8 => 5,
        KernelKind::U16 => 6,
        KernelKind::U32 => 7,
        KernelKind::U64 => 8,
        KernelKind::F32 => 9,
        KernelKind::F64 => 10,
        KernelKind::Date32 => 11,
        KernelKind::Date64 => 12,
        KernelKind::Decimal128 { .. } => 13,
        KernelKind::Timestamp(_) => 14,
        KernelKind::Utf8 => 15,
        KernelKind::LargeUtf8 => 16,
        KernelKind::Binary => 17,
        KernelKind::LargeBinary => 18,
        KernelKind::Nested => 19,
        KernelKind::NullOnly => 20,
        KernelKind::Utf8View => 21,
        KernelKind::BinaryView => 22,
    }
}

/// The name of a timestamp unit.
pub open spec fn time_unit_name(unit: TimeUnit) -> Seq<char> {
    match unit {
        TimeUnit::Second => "Second"@,
        TimeUnit::Millisecond => "Millisecond"@,
        TimeUnit::Microsecond => "Microsecond"@,
        TimeUnit::Nanosecond => "Nanosecond"@,
    }
}

fn time_unit_text(unit: TimeUnit) -> (r: &'static str)
    ensures
        r@ == time_unit_name(unit),
{
    match unit {
        TimeUnit::Second => "Second",
        TimeUnit::Millisecond => "Millisecond",
        TimeUnit::Microsecond => "Microsecond",
        TimeUnit::Nanosecond => "Nanosecond",
    }
}

/// A kernel: its tag, and the parameters of a decimal or a timestamp.
pub open spec fn kernel_bytes(kernel: KernelKind) -> Seq<u8> {
    seq![kernel_tag(kernel)] + match kernel {
        KernelKind::Decimal128 { precision, scale } => seq![precision] + le(twos(scale as int), 1),
        KernelKind::Timestamp(unit) => part(time_unit_name(unit)),
        _ => Seq::empty(),
    }
}

fn hash_kernel(out: &mut Vec<u8>, kernel: KernelKind)
    ensures
        final(out)@ == old(out)@ + kernel_bytes(kernel),
{
    push_byte(out, tag_of_kernel(kernel));
    match kernel {
        KernelKind::Decimal128 { precision, scale } => {
            push_byte(out, precision);
            push_le_signed(out, scale as i128, 1);
        },
        KernelKind::Timestamp(unit) => push_part(out, time_unit_text(unit)),
        _ => {},
    }
    assert(out@ =~= old(out)@ + kernel_bytes(kernel));
}

/// A bound: whether there is one, its type's tag, and its value.
pub open spec fn bound_bytes(bound: Option<TypedBound>) -> Seq<u8> {
    match bound {
        None => seq![0u8],
        Some(TypedBound::I64(v)) => seq![1u8, 0u8] + le(twos(v as int), 8),
        Some(TypedBound::U64(v)) => seq![1u8, 1u8] + le(v as nat, 8),
        Some(TypedBound::F32(v)) => seq![1u8, 2u8] + le(v as nat, 4),
        Some(TypedBound::F64(v)) => seq![1u8, 3u8] + le(v as nat, 8),
        Some(TypedBound::Decimal128 { value, scale }) => seq![1u8, 4u8] + le(twos(scale as int), 1)
            + le(twos(value as int), 16),
        Some(TypedBound::Timestamp { value, unit }) => seq![1u8, 5u8] + le(twos(value as int), 8)
            + part(time_unit_name(unit)),
    }
}

fn hash_optional_bound(out: &mut Vec<u8>, bound: Option<TypedBound>)
    ensures
        final(out)@ == old(out)@ + bound_bytes(bound),
{
    match bound {
        None => push_byte(out, 0),
        Some(b) => {
            push_byte(out, 1);
            match b {
                TypedBound::I64(v) => {
                    push_byte(out, 0);
                    push_le_signed(out, v as i128, 8);
                },
                TypedBound::U64(v) => {
                    push_byte(out, 1);
                    push_word(out, v);
                },
                TypedBound::F32(v) => {
                    push_byte(out, 2);
                    push_le(out, v as u128, 4);
                },
                TypedBound::F64(v) => {
                    push_byte(out, 3);
                    push_word(out, v);
                },
                TypedBound::Decimal128 { value, scale } => {
                    push_byte(out, 4);
                    push_le_signed(out, scale as i128, 1);
                    push_le_signed(out, value, 16);
                },
                TypedBound::Timestamp { value, unit } => {
                    push_byte(out, 5);
                    push_le_signed(out, value as i128, 8);
                    push_part(out, time_unit_text(unit));
                },
            }
        },
    }
    assert(out@ =~= old(out)@ + bound_bytes(bound));
}

/// A number that may be absent.
pub open spec fn optional_word(value: Option<u64>) -> Seq<u8> {
    match value {
        Some(v) => seq![1u8] + le(v as nat, 8),
        None => seq![0u8],
    }
}

fn hash_optional_u64(out: &mut Vec<u8>, value: Option<u64>)
    ensures
        final(out)@ == old(out)@ + optional_word(value),
{
    match value {
        Some(v) => {
            push_byte(out, 1);
            push_word(out, v);
        },
        None => push_byte(out, 0),
    }
    assert(out@ =~= old(out)@ + optional_word(value));
}

/// A wide integer that may be absent.
pub open spec fn optional_wide(value: Option<i128>) -> Seq<u8> {
    match value {
        Some(v) => seq![1u8] + le(twos(v as int), 16),
        None => seq![0u8],
    }
}

fn hash_optional_i128(out: &mut Vec<u8>, value: Option<i128>)
    ensures
        final(out)@ == old(out)@ + optional_wide(value),
{
    match value {
        Some(v) => {
            push_byte(out, 1);
            push_le_signed(out, v, 16);
        },
        None => push_byte(out, 0),
    }
    assert(out@ =~= old(out)@ + optional_wide(value));
}

/// A length that may be absent.
pub open spec fn optional_length(value: Option<usize>) -> Seq<u8> {
    match value {
        Some(v) => seq![1u8] + le(v as nat, 8),
        None => seq![0u8],
    }
}

fn hash_optional_length(out: &mut Vec<u8>, value: Option<usize>)
    ensures
        final(out)@ == old(out)@ + optional_length(value),
{
    match value {
        Some(v) => {
            push_byte(out, 1);
            push_word(out, v as u64);
        },
        None => push_byte(out, 0),
    }
    assert(out@ =~= old(out)@ + optional_length(value));
}

/// The texts of a list, each behind its length.
pub open spec fn text_part(values: Seq<Seq<char>>) -> spec_fn(int) -> Seq<u8> {
    |i: int| part(values[i])
}

fn hash_texts(out: &mut Vec<u8>, values: &Vec<String>)
    ensures
        final(out)@ == old(out)@ + concat_of(values@.len(), text_part(texts(values@))),
{
    let ghost names = texts(values@);
    let ghost f = text_part(names);
    let mut i: usize = 0;
    assert(out@ =~= old(out)@ + concat_of(0, f));
    while i < values.len()
        invariant
            i <= values@.len(),
            names == texts(values@),
            f == text_part(names),
            out@ == old(out)@ + concat_of(i as nat, f),
        decreases values@.len() - i,
    {
        push_part(out, values[i].as_str());
        assert(names[i as int] == values@[i as int]@);
        assert(f(i as int) == part(values@[i as int]@));
        i = i + 1;
        assert(out@ =~= old(out)@ + concat_of(i as nat, f));
    }
}

/// The switches of a column's rules.
pub open spec fn switch_bytes(rules: RulesView) -> Seq<u8> {
    seq![
        flag(rules.required),
        flag(rules.not_null),
        flag(rules.unique),
        flag(rules.validate_nan),
        match rules.nan {
            NaNPolicy::Reject => 0u8,
            NaNPolicy::Allow => 1u8,
        },
    ]
}

/// A pattern that may be absent.
pub open spec fn pattern_bytes(pattern: Option<Seq<char>>) -> Seq<u8> {
    match pattern {
        Some(p) => seq![1u8] + part(p),
        None => seq![0u8],
    }
}

/// A list of allowed texts that may be absent.
pub open spec fn allowed_bytes(allowed: Option<Seq<Seq<char>>>) -> Seq<u8> {
    match allowed {
        Some(a) => seq![1u8] + le(a.len(), 8) + concat_of(a.len(), text_part(a)),
        None => seq![0u8],
    }
}

/// The lengths of a column's rules. Nothing is appended where there are none.
pub open spec fn length_bytes(low: Option<usize>, high: Option<usize>) -> Seq<u8> {
    if low is Some || high is Some {
        utf8("proofframe:compiled-plan:length:v1\0"@) + optional_length(low) + optional_length(
            high,
        )
    } else {
        Seq::empty()
    }
}

/// The rules of a column.
pub open spec fn rules_bytes(rules: RulesView) -> Seq<u8> {
    switch_bytes(rules) + bound_bytes(rules.min) + bound_bytes(rules.max) + pattern_bytes(
        rules.pattern,
    ) + allowed_bytes(rules.allowed) + length_bytes(rules.min_length, rules.max_length)
}

/// Appending twice appends both.
proof fn appended(base: Seq<u8>, x: Seq<u8>, y: Seq<u8>)
    ensures
        (base + x) + y == base + (x + y),
{
    assert((base + x) + y =~= base + (x + y));
}

fn hash_switches(out: &mut Vec<u8>, rules: &CompiledRules)
    ensures
        final(out)@ == old(out)@ + switch_bytes(rules@),
{
    out.push(flag_of(rules.required()));
    out.push(flag_of(rules.not_null()));
    out.push(flag_of(rules.unique()));
    out.push(flag_of(rules.validates_nan()));
    out.push(
        match rules.nan() {
            NaNPolicy::Reject => 0,
            NaNPolicy::Allow => 1,
        },
    );
    assert(out@ =~= old(out)@ + switch_bytes(rules@));
}

fn hash_pattern(out: &mut Vec<u8>, rules: &CompiledRules)
    ensures
        final(out)@ == old(out)@ + pattern_bytes(rules@.pattern),
{
    match rules.pattern() {
        Some(re) => {
            push_byte(out, 1);
            push_part(out, regex_source(re));
        },
        None => push_byte(out, 0),
    }
    assert(out@ =~= old(out)@ + pattern_bytes(rules@.pattern));
}

fn hash_allowed(out: &mut Vec<u8>, rules: &CompiledRules)
    ensures
        final(out)@ == old(out)@ + allowed_bytes(rules@.allowed),
{
    match rules.allowed() {
        Some(values) => {
            push_byte(out, 1);
            push_word(out, values.len() as u64);
            hash_texts(out, values);
        },
        None => push_byte(out, 0),
    }
    assert(out@ =~= old(out)@ + allowed_bytes(rules@.allowed));
}

fn hash_lengths(out: &mut Vec<u8>, low: Option<usize>, high: Option<usize>)
    ensures
        final(out)@ == old(out)@ + length_bytes(low, high),
{
    if low.is_some() || high.is_some() {
        push_domain(out, "proofframe:compiled-plan:length:v1\0");
        hash_optional_length(out, low);
        hash_optional_length(out, high);
    }
    assert(out@ =~= old(out)@ + length_bytes(low, high));
}

fn hash_compiled_rules(out: &mut Vec<u8>, rules: &CompiledRules)
    ensures
        final(out)@ == old(out)@ + rules_bytes(rules@),
{
    let ghost base = out@;
    let ghost v = rules@;
    hash_switches(out, rules);
    hash_optional_bound(out, rules.min());
    hash_optional_bound(out, rules.max());
    hash_pattern(out, rules);
    hash_allowed(out, rules);
    hash_lengths(out, rules.min_length(), rules.max_length());
    proof {
        let a = switch_bytes(v);
        let b = a + bound_bytes(v.min);
        let c = b + bound_bytes(v.max);
        let d = c + pattern_bytes(v.pattern);
        let e = d + allowed_bytes(v.allowed);
        appended(base, a, bound_bytes(v.min));
        appended(base, b, bound_bytes(v.max));
        appended(base, c, pattern_bytes(v.pattern));
        appended(base, d, allowed_bytes(v.allowed));
        appended(base, e, length_bytes(v.min_length, v.max_length));
    }
}

/// The tag of a comparison operator.
pub open spec fn op_tag(op: CompareOpAst) -> u8 {
    match op {
        CompareOpAst::Eq => 0,
        CompareOpAst::Ne => 1,
        CompareOpAst::Lt => 2,
        CompareOpAst::Lte => 3,
        CompareOpAst::Gt => 4,
        CompareOpAst::Gte => 5,
    }
}

/// The tag of a comparison operator.
pub fn compare_op_tag(op: CompareOpAst) -> (r: u8)
    ensures
        r == op_tag(op),
{
    match op {
        CompareOpAst::Eq => 0,
        CompareOpAst::Ne => 1,
        CompareOpAst::Lt => 2,
        CompareOpAst::Lte => 3,
        CompareOpAst::Gt => 4,
        CompareOpAst::Gte => 5,
    }
}

/// The tag of a null policy.
pub open spec fn policy_tag(policy: NullPolicyAst) -> u8 {
    match policy {
        NullPolicyAst::Skip => 0,
        NullPolicyAst::Fail => 1,
        NullPolicyAst::Equal => 2,
    }
}

/// The tag of a null policy.
pub fn null_policy_tag(policy: NullPolicyAst) -> (r: u8)
    ensures
        r == policy_tag(policy),
{
    match policy {
        NullPolicyAst::Skip => 0,
        NullPolicyAst::Fail => 1,
        NullPolicyAst::Equal => 2,
    }
}

/// One side of a comparison.
pub open spec fn operand_bytes(operand: OperandView) -> Seq<u8> {
    match operand {
        OperandView::Column { column_index, field, kernel } => seq![0u8] + le(
            column_index as nat,
            8,
        ) + part(field) + kernel_bytes(kernel),
        OperandView::Literal(ScalarView::Boolean(b)) => seq![1u8, 0u8, flag(b)],
        OperandView::Literal(ScalarView::I64(v)) => seq![1u8, 1u8] + le(twos(v as int), 8),
        OperandView::Literal(ScalarView::U64(v)) => seq![1u8, 2u8] + le(v as nat, 8),
        OperandView::Literal(ScalarView::F64 { bits, narrow }) => seq![1u8, 3u8] + le(
            bits as nat,
            8,
        ),
        OperandView::Literal(ScalarView::Text(t)) => seq![1u8, 4u8] + part(t),
    }
}

fn hash_operand_plan(out: &mut Vec<u8>, operand: &OperandPlan)
    ensures
        final(out)@ == old(out)@ + operand_bytes(operand@),
{
    match operand {
        OperandPlan::Column { column_index, field, kernel } => {
            push_byte(out, 0);
            push_word(out, *column_index as u64);
            push_part(out, field.as_str());
            hash_kernel(out, *kernel);
        },
        OperandPlan::Literal(value) => {
            push_byte(out, 1);
            match value {
                ScalarValuePlan::Boolean(b) => {
                    push_byte(out, 0);
                    push_byte(out, flag_of(*b));
                },
                ScalarValuePlan::I64(v) => {
                    push_byte(out, 1);
                    push_le_signed(out, *v as i128, 8);
                },
                ScalarValuePlan::U64(v) => {
                    push_byte(out, 2);
                    push_word(out, *v);
                },
                ScalarValuePlan::F64 { bits, narrow } => {
                    push_byte(out, 3);
                    push_word(out, *bits);
                },
                ScalarValuePlan::Text(t) => {
                    push_byte(out, 4);
                    push_part(out, t.as_str());
                },
            }
        },
    }
    assert(out@ =~= old(out)@ + operand_bytes(operand@));
}

/// A comparison.
pub open spec fn compare_bytes(plan: CompareView) -> Seq<u8> {
    operand_bytes(plan.left) + seq![op_tag(plan.op), policy_tag(plan.nulls)] + operand_bytes(
        plan.right,
    )
}

fn hash_compare_plan(out: &mut Vec<u8>, plan: &ComparePlan)
    ensures
        final(out)@ == old(out)@ + compare_bytes(plan@),
{
    hash_operand_plan(out, &plan.left);
    push_byte(out, compare_op_tag(plan.op));
    push_byte(out, null_policy_tag(plan.nulls));
    hash_operand_plan(out, &plan.right);
    assert(out@ =~= old(out)@ + compare_bytes(plan@));
}

/// A row rule.
pub open spec fn row_bytes(plan: RowView) -> Seq<u8> {
    match plan {
        RowView::Compare { name, compare } => part(name) + seq![0u8] + compare_bytes(compare),
        RowView::Conditional { name, predicate, column, field, kernel, shown, assertion } => part(name)
            + seq![1u8] + compare_bytes(predicate) + le(column as nat, 8) + part(field)
            + rules_bytes(assertion),
    }
}

fn hash_row_plan(out: &mut Vec<u8>, plan: &RowPlan)
    ensures
        final(out)@ == old(out)@ + row_bytes(plan@),
{
    push_part(out, plan.name.as_str());
    match &plan.kind {
        RowPlanKind::Compare(compare) => {
            push_byte(out, 0);
            hash_compare_plan(out, compare);
        },
        RowPlanKind::Conditional {
            predicate,
            assertion_column,
            assertion_field,
            assertion_kernel,
            assertion_type,
            assertion,
        } => {
            push_byte(out, 1);
            hash_compare_plan(out, predicate);
            push_word(out, *assertion_column as u64);
            push_part(out, assertion_field.as_str());
            hash_compiled_rules(out, assertion);
        },
    }
    assert(out@ =~= old(out)@ + row_bytes(plan@));
}

/// Limits on a count.
pub open spec fn count_range_bytes(range: CountRangeAst) -> Seq<u8> {
    optional_word(range.exact) + optional_word(range.min) + optional_word(range.max)
}

fn hash_count_range(out: &mut Vec<u8>, range: CountRangeAst)
    ensures
        final(out)@ == old(out)@ + count_range_bytes(range),
{
    hash_optional_u64(out, range.exact);
    hash_optional_u64(out, range.min);
    hash_optional_u64(out, range.max);
    assert(out@ =~= old(out)@ + count_range_bytes(range));
}

/// Column positions.
pub open spec fn position_part(columns: Seq<usize>) -> spec_fn(int) -> Seq<u8> {
    |i: int| le(columns[i] as nat, 8)
}

fn hash_positions(out: &mut Vec<u8>, columns: &Vec<usize>)
    ensures
        final(out)@ == old(out)@ + concat_of(columns@.len(), position_part(columns@)),
{
    let ghost f = position_part(columns@);
    let mut i: usize = 0;
    assert(out@ =~= old(out)@ + concat_of(0, f));
    while i < columns.len()
        invariant
            i <= columns@.len(),
            f == position_part(columns@),
            out@ == old(out)@ + concat_of(i as nat, f),
        decreases columns@.len() - i,
    {
        push_word(out, columns[i] as u64);
        assert(f(i as int) == le(columns@[i as int] as nat, 8));
        i = i + 1;
        assert(out@ =~= old(out)@ + concat_of(i as nat, f));
    }
}

/// The tag of a composite null policy.
pub open spec fn composite_tag(policy: CompositeNullPolicyAst) -> u8 {
    match policy {
        CompositeNullPolicyAst::Equal => 0,
        CompositeNullPolicyAst::Reject => 1,
    }
}

fn composite_null_tag(policy: CompositeNullPolicyAst) -> (r: u8)
    ensures
        r == composite_tag(policy),
{
    match policy {
        CompositeNullPolicyAst::Equal => 0,
        CompositeNullPolicyAst::Reject => 1,
    }
}

/// The tag of an ordering null policy.
pub open spec fn ordering_tag(policy: MonotonicNullPolicyAst) -> u8 {
    match policy {
        MonotonicNullPolicyAst::Skip => 0,
        MonotonicNullPolicyAst::Reject => 1,
    }
}

fn ordering_null_tag(policy: MonotonicNullPolicyAst) -> (r: u8)
    ensures
        r == ordering_tag(policy),
{
    match policy {
        MonotonicNullPolicyAst::Skip => 0,
        MonotonicNullPolicyAst::Reject => 1,
    }
}

/// The tag of an order.
pub open spec fn direction_tag(direction: MonotonicDirectionAst) -> u8 {
    match direction {
        MonotonicDirectionAst::Increasing => 0,
        MonotonicDirectionAst::StrictlyIncreasing => 1,
        MonotonicDirectionAst::Decreasing => 2,
        MonotonicDirectionAst::StrictlyDecreasing => 3,
    }
}

/// The local columns of a reference rule: position, name and kernel of each.
pub open spec fn reference_column_part(plan: ReferencePlan) -> spec_fn(int) -> Seq<u8> {
    |j: int|
        le(plan.columns@[j] as nat, 8) + part(plan.fields@[j]@) + kernel_bytes(plan.kernels@[j])
}

fn hash_reference_columns(out: &mut Vec<u8>, plan: &ReferencePlan)
    requires
        plan.fields@.len() == plan.columns@.len(),
        plan.kernels@.len() == plan.columns@.len(),
    ensures
        final(out)@ == old(out)@ + concat_of(plan.columns@.len(), reference_column_part(*plan)),
{
    let ghost f = reference_column_part(*plan);
    let mut i: usize = 0;
    assert(out@ =~= old(out)@ + concat_of(0, f));
    while i < plan.columns.len()
        invariant
            i <= plan.columns@.len(),
            plan.fields@.len() == plan.columns@.len(),
            plan.kernels@.len() == plan.columns@.len(),
            f == reference_column_part(*plan),
            out@ == old(out)@ + concat_of(i as nat, f),
        decreases plan.columns@.len() - i,
    {
        push_word(out, plan.columns[i] as u64);
        push_part(out, plan.fields[i].as_str());
        hash_kernel(out, plan.kernels[i]);
        assert(f(i as int) == le(plan.columns@[i as int] as nat, 8) + part(
            plan.fields@[i as int]@,
        ) + kernel_bytes(plan.kernels@[i as int]));
        i = i + 1;
        assert(out@ =~= old(out)@ + concat_of(i as nat, f));
    }
}

/// A ratio rule.
pub open spec fn ratio_bytes(plan: RatioPlan) -> Seq<u8> {
    le(plan.column_index as nat, 8) + part(plan.column@) + optional_word(plan.range.min)
        + optional_word(plan.range.max) + kernel_bytes(plan.kernel)
}

fn hash_ratio(out: &mut Vec<u8>, plan: &RatioPlan)
    ensures
        final(out)@ == old(out)@ + ratio_bytes(*plan),
{
    push_word(out, plan.column_index as u64);
    push_part(out, plan.column.as_str());
    hash_optional_u64(out, plan.range.min);
    hash_optional_u64(out, plan.range.max);
    hash_kernel(out, plan.kernel);
    assert(out@ =~= old(out)@ + ratio_bytes(*plan));
}

/// The rules of a list, one after the other.
pub open spec fn ratio_bytes_each(plans: Seq<RatioPlan>) -> spec_fn(int) -> Seq<u8> {
    |i: int| ratio_bytes(plans[i])
}

fn hash_ratio_each(out: &mut Vec<u8>, plans: &Vec<RatioPlan>)
    ensures
        final(out)@ == old(out)@ + concat_of(plans@.len(), ratio_bytes_each(plans@)),
{
    let ghost f = ratio_bytes_each(plans@);
    let mut i: usize = 0;
    assert(out@ =~= old(out)@ + concat_of(0, f));
    while i < plans.len()
        invariant
            i <= plans@.len(),
            f == ratio_bytes_each(plans@),
            out@ == old(out)@ + concat_of(i as nat, f),
        decreases plans@.len() - i,
    {
        hash_ratio(out, &plans[i]);
        assert(f(i as int) == ratio_bytes(plans@[i as int]));
        i = i + 1;
        assert(out@ =~= old(out)@ + concat_of(i as nat, f));
    }
}

/// The number of rules, then each.
pub open spec fn ratio_bytes_list(plans: Seq<RatioPlan>) -> Seq<u8> {
    le(plans.len(), 8) + concat_of(plans.len(), ratio_bytes_each(plans))
}

fn hash_ratio_list(out: &mut Vec<u8>, plans: &Vec<RatioPlan>)
    ensures
        final(out)@ == old(out)@ + ratio_bytes_list(plans@),
{
    push_word(out, plans.len() as u64);
    hash_ratio_each(out, plans);
    proof {
        appended(old(out)@, le(plans@.len(), 8), concat_of(plans@.len(), ratio_bytes_each(plans@)));
    }
}

/// A count rule.
pub open spec fn count_bytes(plan: CountPlan) -> Seq<u8> {
    le(plan.column_index as nat, 8) + part(plan.column@) + count_range_bytes(plan.range)
        + kernel_bytes(plan.kernel)
}

fn hash_count(out: &mut Vec<u8>, plan: &CountPlan)
    ensures
        final(out)@ == old(out)@ + count_bytes(*plan),
{
    push_word(out, plan.column_index as u64);
    push_part(out, plan.column.as_str());
    hash_count_range(out, plan.range);
    hash_kernel(out, plan.kernel);
    assert(out@ =~= old(out)@ + count_bytes(*plan));
}

/// The rules of a list, one after the other.
pub open spec fn count_bytes_each(plans: Seq<CountPlan>) -> spec_fn(int) -> Seq<u8> {
    |i: int| count_bytes(plans[i])
}

fn hash_count_each(out: &mut Vec<u8>, plans: &Vec<CountPlan>)
    ensures
        final(out)@ == old(out)@ + concat_of(plans@.len(), count_bytes_each(plans@)),
{
    let ghost f = count_bytes_each(plans@);
    let mut i: usize = 0;
    assert(out@ =~= old(out)@ + concat_of(0, f));
    while i < plans.len()
        invariant
            i <= plans@.len(),
            f == count_bytes_each(plans@),
            out@ == old(out)@ + concat_of(i as nat, f),
        decreases plans@.len() - i,
    {
        hash_count(out, &plans[i]);
        assert(f(i as int) == count_bytes(plans@[i as int]));
        i = i + 1;
        assert(out@ =~= old(out)@ + concat_of(i as nat, f));
    }
}

/// The number of rules, then each.
pub open spec fn count_bytes_list(plans: Seq<CountPlan>) -> Seq<u8> {
    le(plans.len(), 8) + concat_of(plans.len(), count_bytes_each(plans))
}

fn hash_count_list(out: &mut Vec<u8>, plans: &Vec<CountPlan>)
    ensures
        final(out)@ == old(out)@ + count_bytes_list(plans@),
{
    push_word(out, plans.len() as u64);
    hash_count_each(out, plans);
    proof {
        appended(old(out)@, le(plans@.len(), 8), concat_of(plans@.len(), count_bytes_each(plans@)));
    }
}

/// A composite uniqueness rule.
pub open spec fn composite_bytes(plan: CompositeUniquePlan) -> Seq<u8> {
    part(plan.name@) + le(plan.columns@.len(), 8) + concat_of(
        plan.columns@.len(),
        position_part(plan.columns@),
    ) + seq![composite_tag(plan.nulls)]
}

fn hash_composite(out: &mut Vec<u8>, plan: &CompositeUniquePlan)
    ensures
        final(out)@ == old(out)@ + composite_bytes(*plan),
{
    push_part(out, plan.name.as_str());
    push_word(out, plan.columns.len() as u64);
    hash_positions(out, &plan.columns);
    push_byte(out, composite_null_tag(plan.nulls));
    assert(out@ =~= old(out)@ + composite_bytes(*plan));
}

/// The rules of a list, one after the other.
pub open spec fn composite_bytes_each(plans: Seq<CompositeUniquePlan>) -> spec_fn(int) -> Seq<u8> {
    |i: int| composite_bytes(plans[i])
}

fn hash_composite_each(out: &mut Vec<u8>, plans: &Vec<CompositeUniquePlan>)
    ensures
        final(out)@ == old(out)@ + concat_of(plans@.len(), composite_bytes_each(plans@)),
{
    let ghost f = composite_bytes_each(plans@);
    let mut i: usize = 0;
    assert(out@ =~= old(out)@ + concat_of(0, f));
    while i < plans.len()
        invariant
            i <= plans@.len(),
            f == composite_bytes_each(plans@),
            out@ == old(out)@ + concat_of(i as nat, f),
        decreases plans@.len() - i,
    {
        hash_composite(out, &plans[i]);
        assert(f(i as int) == composite_bytes(plans@[i as int]));
        i = i + 1;
        assert(out@ =~= old(out)@ + concat_of(i as nat, f));
    }
}

/// The number of rules, then each.
pub open spec fn composite_bytes_list(plans: Seq<CompositeUniquePlan>) -> Seq<u8> {
    le(plans.len(), 8) + concat_of(plans.len(), composite_bytes_each(plans))
}

fn hash_composite_list(out: &mut Vec<u8>, plans: &Vec<CompositeUniquePlan>)
    ensures
        final(out)@ == old(out)@ + composite_bytes_list(plans@),
{
    push_word(out, plans.len() as u64);
    hash_composite_each(out, plans);
    proof {
        appended(old(out)@, le(plans@.len(), 8), concat_of(plans@.len(), composite_bytes_each(plans@)));
    }
}

/// A reference plan whose columns, names and kernels pair up.
pub open spec fn paired(plan: ReferencePlan) -> bool {
    plan.fields@.len() == plan.columns@.len() && plan.kernels@.len() == plan.columns@.len()
}

/// A reference rule.
pub open spec fn reference_bytes(plan: ReferencePlan) -> Seq<u8> {
    part(plan.name@) + part(plan.reference@) + le(plan.columns@.len(), 8) + concat_of(
        plan.columns@.len(),
        reference_column_part(plan),
    ) + concat_of(
        plan.reference_columns@.len(),
        text_part(texts(plan.reference_columns@)),
    ) + seq![
        match plan.nulls {
            ReferenceNullPolicyAst::Skip => 0u8,
            ReferenceNullPolicyAst::Reject => 1u8,
        },
    ]
}

fn hash_reference(out: &mut Vec<u8>, plan: &ReferencePlan)
    requires
        paired(*plan),
    ensures
        final(out)@ == old(out)@ + reference_bytes(*plan),
{
    push_part(out, plan.name.as_str());
    push_part(out, plan.reference.as_str());
    push_word(out, plan.columns.len() as u64);
    hash_reference_columns(out, plan);
    hash_texts(out, &plan.reference_columns);
    push_byte(
        out,
        match plan.nulls {
            ReferenceNullPolicyAst::Skip => 0,
            ReferenceNullPolicyAst::Reject => 1,
        },
    );
    assert(out@ =~= old(out)@ + reference_bytes(*plan));
}

/// The rules of a list, one after the other.
pub open spec fn reference_bytes_each(plans: Seq<ReferencePlan>) -> spec_fn(int) -> Seq<u8> {
    |i: int| reference_bytes(plans[i])
}

fn hash_reference_each(out: &mut Vec<u8>, plans: &Vec<ReferencePlan>)
    requires
        forall|i: int| 0 <= i < plans@.len() ==> paired(#[trigger] plans@[i]),
    ensures
        final(out)@ == old(out)@ + concat_of(plans@.len(), reference_bytes_each(plans@)),
{
    let ghost f = reference_bytes_each(plans@);
    let mut i: usize = 0;
    assert(out@ =~= old(out)@ + concat_of(0, f));
    while i < plans.len()
        invariant
            i <= plans@.len(),
            forall|i: int| 0 <= i < plans@.len() ==> paired(#[trigger] plans@[i]),
            f == reference_bytes_each(plans@),
            out@ == old(out)@ + concat_of(i as nat, f),
        decreases plans@.len() - i,
    {
        hash_reference(out, &plans[i]);
        assert(f(i as int) == reference_bytes(plans@[i as int]));
        i = i + 1;
        assert(out@ =~= old(out)@ + concat_of(i as nat, f));
    }
}

/// The number of rules, then each.
pub open spec fn reference_bytes_list(plans: Seq<ReferencePlan>) -> Seq<u8> {
    le(plans.len(), 8) + concat_of(plans.len(), reference_bytes_each(plans))
}

/// The reference rules. Nothing is appended where there is none.
pub open spec fn reference_bytes_section(plans: Seq<ReferencePlan>) -> Seq<u8> {
    if plans.len() == 0 {
        Seq::empty()
    } else {
        utf8("proofframe:compiled-plan:references:v1\0"@) + reference_bytes_list(plans)
    }
}

fn hash_reference_section(out: &mut Vec<u8>, plans: &Vec<ReferencePlan>)
    requires
        forall|i: int| 0 <= i < plans@.len() ==> paired(#[trigger] plans@[i]),
    ensures
        final(out)@ == old(out)@ + reference_bytes_section(plans@),
{
    if plans.len() > 0 {
        push_domain(out, "proofframe:compiled-plan:references:v1\0");
        push_word(out, plans.len() as u64);
        hash_reference_each(out, plans);
    }
    assert(out@ =~= old(out)@ + reference_bytes_section(plans@));
}

/// An ordering rule.
pub open spec fn monotonicity_bytes(plan: MonotonicityPlan) -> Seq<u8> {
    part(plan.name@) + le(plan.column_index as nat, 8) + part(plan.column@) + kernel_bytes(
        plan.kernel,
    ) + seq![direction_tag(plan.direction), ordering_tag(plan.nulls)]
}

fn hash_monotonicity(out: &mut Vec<u8>, plan: &MonotonicityPlan)
    ensures
        final(out)@ == old(out)@ + monotonicity_bytes(*plan),
{
    push_part(out, plan.name.as_str());
    push_word(out, plan.column_index as u64);
    push_part(out, plan.column.as_str());
    hash_kernel(out, plan.kernel);
    push_byte(
        out,
        match plan.direction {
            MonotonicDirectionAst::Increasing => 0,
            MonotonicDirectionAst::StrictlyIncreasing => 1,
            MonotonicDirectionAst::Decreasing => 2,
            MonotonicDirectionAst::StrictlyDecreasing => 3,
        },
    );
    push_byte(out, ordering_null_tag(plan.nulls));
    assert(out@ =~= old(out)@ + monotonicity_bytes(*plan));
}

/// The rules of a list, one after the other.
pub open spec fn monotonicity_bytes_each(plans: Seq<MonotonicityPlan>) -> spec_fn(int) -> Seq<u8> {
    |i: int| monotonicity_bytes(plans[i])
}

fn hash_monotonicity_each(out: &mut Vec<u8>, plans: &Vec<MonotonicityPlan>)
    ensures
        final(out)@ == old(out)@ + concat_of(plans@.len(), monotonicity_bytes_each(plans@)),
{
    let ghost f = monotonicity_bytes_each(plans@);
    let mut i: usize = 0;
    assert(out@ =~= old(out)@ + concat_of(0, f));
    while i < plans.len()
        invariant
            i <= plans@.len(),
            f == monotonicity_bytes_each(plans@),
            out@ == old(out)@ + concat_of(i as nat, f),
        decreases plans@.len() - i,
    {
        hash_monotonicity(out, &plans[i]);
        assert(f(i as int) == monotonicity_bytes(plans@[i as int]));
        i = i + 1;
        assert(out@ =~= old(out)@ + concat_of(i as nat, f));
    }
}

/// The number of rules, then each.
pub open spec fn monotonicity_bytes_list(plans: Seq<MonotonicityPlan>) -> Seq<u8> {
    le(plans.len(), 8) + concat_of(plans.len(), monotonicity_bytes_each(plans))
}

/// The ordering rules. Nothing is appended where there is none.
pub open spec fn monotonicity_bytes_section(plans: Seq<MonotonicityPlan>) -> Seq<u8> {
    if plans.len() == 0 {
        Seq::empty()
    } else {
        utf8("proofframe:compiled-plan:monotonicity:v1\0"@) + monotonicity_bytes_list(plans)
    }
}

fn hash_monotonicity_section(out: &mut Vec<u8>, plans: &Vec<MonotonicityPlan>)
    ensures
        final(out)@ == old(out)@ + monotonicity_bytes_section(plans@),
{
    if plans.len() > 0 {
        push_domain(out, "proofframe:compiled-plan:monotonicity:v1\0");
        push_word(out, plans.len() as u64);
        hash_monotonicity_each(out, plans);
    }
    assert(out@ =~= old(out)@ + monotonicity_bytes_section(plans@));
}

/// A step rule.
pub open spec fn gap_bytes(plan: GapDetectionPlan) -> Seq<u8> {
    part(plan.name@) + le(plan.column_index as nat, 8) + part(plan.column@) + kernel_bytes(
        plan.kernel,
    ) + le(plan.expected_step as nat, 8) + le(plan.tolerance as nat, 8) + le(
        plan.max_gaps as nat,
        8,
    ) + seq![ordering_tag(plan.nulls)]
}

fn hash_gap(out: &mut Vec<u8>, plan: &GapDetectionPlan)
    ensures
        final(out)@ == old(out)@ + gap_bytes(*plan),
{
    push_part(out, plan.name.as_str());
    push_word(out, plan.column_index as u64);
    push_part(out, plan.column.as_str());
    hash_kernel(out, plan.kernel);
    push_word(out, plan.expected_step);
    push_word(out, plan.tolerance);
    push_word(out, plan.max_gaps);
    push_byte(out, ordering_null_tag(plan.nulls));
    assert(out@ =~= old(out)@ + gap_bytes(*plan));
}

/// The rules of a list, one after the other.
pub open spec fn gap_bytes_each(plans: Seq<GapDetectionPlan>) -> spec_fn(int) -> Seq<u8> {
    |i: int| gap_bytes(plans[i])
}

fn hash_gap_each(out: &mut Vec<u8>, plans: &Vec<GapDetectionPlan>)
    ensures
        final(out)@ == old(out)@ + concat_of(plans@.len(), gap_bytes_each(plans@)),
{
    let ghost f = gap_bytes_each(plans@);
    let mut i: usize = 0;
    assert(out@ =~= old(out)@ + concat_of(0, f));
    while i < plans.len()
        invariant
            i <= plans@.len(),
            f == gap_bytes_each(plans@),
            out@ == old(out)@ + concat_of(i as nat, f),
        decreases plans@.len() - i,
    {
        hash_gap(out, &plans[i]);
        assert(f(i as int) == gap_bytes(plans@[i as int]));
        i = i + 1;
        assert(out@ =~= old(out)@ + concat_of(i as nat, f));
    }
}

/// The number of rules, then each.
pub open spec fn gap_bytes_list(plans: Seq<GapDetectionPlan>) -> Seq<u8> {
    le(plans.len(), 8) + concat_of(plans.len(), gap_bytes_each(plans))
}

/// The step rules. Nothing is appended where there is none.
pub open spec fn gap_bytes_section(plans: Seq<GapDetectionPlan>) -> Seq<u8> {
    if plans.len() == 0 {
        Seq::empty()
    } else {
        utf8("proofframe:compiled-plan:gap-detection:v1\0"@) + gap_bytes_list(plans)
    }
}

fn hash_gap_section(out: &mut Vec<u8>, plans: &Vec<GapDetectionPlan>)
    ensures
        final(out)@ == old(out)@ + gap_bytes_section(plans@),
{
    if plans.len() > 0 {
        push_domain(out, "proofframe:compiled-plan:gap-detection:v1\0");
        push_word(out, plans.len() as u64);
        hash_gap_each(out, plans);
    }
    assert(out@ =~= old(out)@ + gap_bytes_section(plans@));
}

/// An exclusivity rule.
pub open spec fn exclusive_bytes(plan: MutuallyExclusivePlan) -> Seq<u8> {
    part(plan.name@) + le(plan.columns@.len(), 8) + concat_of(
        plan.columns@.len(),
        position_part(plan.columns@),
    ) + seq![
        match plan.mode {
            ExclusiveModeAst::AtMostOne => 0u8,
            ExclusiveModeAst::ExactlyOne => 1u8,
        },
    ]
}

fn hash_exclusive(out: &mut Vec<u8>, plan: &MutuallyExclusivePlan)
    ensures
        final(out)@ == old(out)@ + exclusive_bytes(*plan),
{
    push_part(out, plan.name.as_str());
    push_word(out, plan.columns.len() as u64);
    hash_positions(out, &plan.columns);
    push_byte(
        out,
        match plan.mode {
            ExclusiveModeAst::AtMostOne => 0,
            ExclusiveModeAst::ExactlyOne => 1,
        },
    );
    assert(out@ =~= old(out)@ + exclusive_bytes(*plan));
}

/// The rules of a list, one after the other.
pub open spec fn exclusive_bytes_each(plans: Seq<MutuallyExclusivePlan>) -> spec_fn(int) -> Seq<u8> {
    |i: int| exclusive_bytes(plans[i])
}

fn hash_exclusive_each(out: &mut Vec<u8>, plans: &Vec<MutuallyExclusivePlan>)
    ensures
        final(out)@ == old(out)@ + concat_of(plans@.len(), exclusive_bytes_each(plans@)),
{
    let ghost f = exclusive_bytes_each(plans@);
    let mut i: usize = 0;
    assert(out@ =~= old(out)@ + concat_of(0, f));
    while i < plans.len()
        invariant
            i <= plans@.len(),
            f == exclusive_bytes_each(plans@),
            out@ == old(out)@ + concat_of(i as nat, f),
        decreases plans@.len() - i,
    {
        hash_exclusive(out, &plans[i]);
        assert(f(i as int) == exclusive_bytes(plans@[i as int]));
        i = i + 1;
        assert(out@ =~= old(out)@ + concat_of(i as nat, f));
    }
}

/// The number of rules, then each.
pub open spec fn exclusive_bytes_list(plans: Seq<MutuallyExclusivePlan>) -> Seq<u8> {
    le(plans.len(), 8) + concat_of(plans.len(), exclusive_bytes_each(plans))
}

/// The exclusivity rules. Nothing is appended where there is none.
pub open spec fn exclusive_bytes_section(plans: Seq<MutuallyExclusivePlan>) -> Seq<u8> {
    if plans.len() == 0 {
        Seq::empty()
    } else {
        utf8("proofframe:compiled-plan:mutually-exclusive:v1\0"@) + exclusive_bytes_list(plans)
    }
}

fn hash_exclusive_section(out: &mut Vec<u8>, plans: &Vec<MutuallyExclusivePlan>)
    ensures
        final(out)@ == old(out)@ + exclusive_bytes_section(plans@),
{
    if plans.len() > 0 {
        push_domain(out, "proofframe:compiled-plan:mutually-exclusive:v1\0");
        push_word(out, plans.len() as u64);
        hash_exclusive_each(out, plans);
    }
    assert(out@ =~= old(out)@ + exclusive_bytes_section(plans@));
}

/// A total rule.
pub open spec fn sum_bytes(plan: SumPlan) -> Seq<u8> {
    part(plan.name@) + le(plan.column_index as nat, 8) + part(plan.column@) + kernel_bytes(
        plan.kernel,
    ) + match plan.bounds {
        SumBounds::Integer { low, high } => seq![0u8] + optional_wide(low) + optional_wide(high),
        SumBounds::Float { min, max } => seq![1u8] + optional_word(min) + optional_word(max),
    }
}

fn hash_sum(out: &mut Vec<u8>, plan: &SumPlan)
    ensures
        final(out)@ == old(out)@ + sum_bytes(*plan),
{
    push_part(out, plan.name.as_str());
    push_word(out, plan.column_index as u64);
    push_part(out, plan.column.as_str());
    hash_kernel(out, plan.kernel);
    match plan.bounds {
        SumBounds::Integer { low, high } => {
            push_byte(out, 0);
            hash_optional_i128(out, low);
            hash_optional_i128(out, high);
        },
        SumBounds::Float { min, max } => {
            push_byte(out, 1);
            hash_optional_u64(out, min);
            hash_optional_u64(out, max);
        },
    }
    assert(out@ =~= old(out)@ + sum_bytes(*plan));
}

/// The rules of a list, one after the other.
pub open spec fn sum_bytes_each(plans: Seq<SumPlan>) -> spec_fn(int) -> Seq<u8> {
    |i: int| sum_bytes(plans[i])
}

fn hash_sum_each(out: &mut Vec<u8>, plans: &Vec<SumPlan>)
    ensures
        final(out)@ == old(out)@ + concat_of(plans@.len(), sum_bytes_each(plans@)),
{
    let ghost f = sum_bytes_each(plans@);
    let mut i: usize = 0;
    assert(out@ =~= old(out)@ + concat_of(0, f));
    while i < plans.len()
        invariant
            i <= plans@.len(),
            f == sum_bytes_each(plans@),
            out@ == old(out)@ + concat_of(i as nat, f),
        decreases plans@.len() - i,
    {
        hash_sum(out, &plans[i]);
        assert(f(i as int) == sum_bytes(plans@[i as int]));
        i = i + 1;
        assert(out@ =~= old(out)@ + concat_of(i as nat, f));
    }
}

/// The number of rules, then each.
pub open spec fn sum_bytes_list(plans: Seq<SumPlan>) -> Seq<u8> {
    le(plans.len(), 8) + concat_of(plans.len(), sum_bytes_each(plans))
}

/// The total rules. Nothing is appended where there is none.
pub open spec fn sum_bytes_section(plans: Seq<SumPlan>) -> Seq<u8> {
    if plans.len() == 0 {
        Seq::empty()
    } else {
        utf8("proofframe:compiled-plan:sum:v1\0"@) + sum_bytes_list(plans)
    }
}

fn hash_sum_section(out: &mut Vec<u8>, plans: &Vec<SumPlan>)
    ensures
        final(out)@ == old(out)@ + sum_bytes_section(plans@),
{
    if plans.len() > 0 {
        push_domain(out, "proofframe:compiled-plan:sum:v1\0");
        push_word(out, plans.len() as u64);
        hash_sum_each(out, plans);
    }
    assert(out@ =~= old(out)@ + sum_bytes_section(plans@));
}

/// A statistic rule.
pub open spec fn statistic_bytes(plan: StatisticPlan) -> Seq<u8> {
    part(plan.name@) + le(plan.column_index as nat, 8) + part(plan.column@) + kernel_bytes(
        plan.kernel,
    ) + seq![
        match plan.kind {
            StatisticKind::Mean => 0u8,
            StatisticKind::StdDev => 1u8,
        },
    ] + optional_word(plan.min) + optional_word(plan.max)
}

fn hash_statistic(out: &mut Vec<u8>, plan: &StatisticPlan)
    ensures
        final(out)@ == old(out)@ + statistic_bytes(*plan),
{
    push_part(out, plan.name.as_str());
    push_word(out, plan.column_index as u64);
    push_part(out, plan.column.as_str());
    hash_kernel(out, plan.kernel);
    push_byte(
        out,
        match plan.kind {
            StatisticKind::Mean => 0,
            StatisticKind::StdDev => 1,
        },
    );
    hash_optional_u64(out, plan.min);
    hash_optional_u64(out, plan.max);
    assert(out@ =~= old(out)@ + statistic_bytes(*plan));
}

/// The rules of a list, one after the other.
pub open spec fn statistic_bytes_each(plans: Seq<StatisticPlan>) -> spec_fn(int) -> Seq<u8> {
    |i: int| statistic_bytes(plans[i])
}

fn hash_statistic_each(out: &mut Vec<u8>, plans: &Vec<StatisticPlan>)
    ensures
        final(out)@ == old(out)@ + concat_of(plans@.len(), statistic_bytes_each(plans@)),
{
    let ghost f = statistic_bytes_each(plans@);
    let mut i: usize = 0;
    assert(out@ =~= old(out)@ + concat_of(0, f));
    while i < plans.len()
        invariant
            i <= plans@.len(),
            f == statistic_bytes_each(plans@),
            out@ == old(out)@ + concat_of(i as nat, f),
        decreases plans@.len() - i,
    {
        hash_statistic(out, &plans[i]);
        assert(f(i as int) == statistic_bytes(plans@[i as int]));
        i = i + 1;
        assert(out@ =~= old(out)@ + concat_of(i as nat, f));
    }
}

/// The number of rules, then each.
pub open spec fn statistic_bytes_list(plans: Seq<StatisticPlan>) -> Seq<u8> {
    le(plans.len(), 8) + concat_of(plans.len(), statistic_bytes_each(plans))
}

/// The statistic rules. Nothing is appended where there is none.
pub open spec fn statistic_bytes_section(plans: Seq<StatisticPlan>) -> Seq<u8> {
    if plans.len() == 0 {
        Seq::empty()
    } else {
        utf8("proofframe:compiled-plan:statistic:v1\0"@) + statistic_bytes_list(plans)
    }
}

fn hash_statistic_section(out: &mut Vec<u8>, plans: &Vec<StatisticPlan>)
    ensures
        final(out)@ == old(out)@ + statistic_bytes_section(plans@),
{
    if plans.len() > 0 {
        push_domain(out, "proofframe:compiled-plan:statistic:v1\0");
        push_word(out, plans.len() as u64);
        hash_statistic_each(out, plans);
    }
    assert(out@ =~= old(out)@ + statistic_bytes_section(plans@));
}

/// A conditional uniqueness rule.
pub open spec fn conditional_bytes(plan: ConditionalUniquePlan) -> Seq<u8> {
    part(plan.name@) + le(plan.columns@.len(), 8) + concat_of(
        plan.columns@.len(),
        position_part(plan.columns@),
    ) + seq![composite_tag(plan.nulls)] + compare_bytes(plan.predicate@)
}

fn hash_conditional(out: &mut Vec<u8>, plan: &ConditionalUniquePlan)
    ensures
        final(out)@ == old(out)@ + conditional_bytes(*plan),
{
    push_part(out, plan.name.as_str());
    push_word(out, plan.columns.len() as u64);
    hash_positions(out, &plan.columns);
    push_byte(out, composite_null_tag(plan.nulls));
    hash_compare_plan(out, &plan.predicate);
    assert(out@ =~= old(out)@ + conditional_bytes(*plan));
}

/// The rules of a list, one after the other.
pub open spec fn conditional_bytes_each(plans: Seq<ConditionalUniquePlan>) -> spec_fn(int) -> Seq<u8> {
    |i: int| conditional_bytes(plans[i])
}

fn hash_conditional_each(out: &mut Vec<u8>, plans: &Vec<ConditionalUniquePlan>)
    ensures
        final(out)@ == old(out)@ + concat_of(plans@.len(), conditional_bytes_each(plans@)),
{
    let ghost f = conditional_bytes_each(plans@);
    let mut i: usize = 0;
    assert(out@ =~= old(out)@ + concat_of(0, f));
    while i < plans.len()
        invariant
            i <= plans@.len(),
            f == conditional_bytes_each(plans@),
            out@ == old(out)@ + concat_of(i as nat, f),
        decreases plans@.len() - i,
    {
        hash_conditional(out, &plans[i]);
        assert(f(i as int) == conditional_bytes(plans@[i as int]));
        i = i + 1;
        assert(out@ =~= old(out)@ + concat_of(i as nat, f));
    }
}

/// The number of rules, then each.
pub open spec fn conditional_bytes_list(plans: Seq<ConditionalUniquePlan>) -> Seq<u8> {
    le(plans.len(), 8) + concat_of(plans.len(), conditional_bytes_each(plans))
}

/// The conditional uniqueness rules. Nothing is appended where there is none.
pub open spec fn conditional_bytes_section(plans: Seq<ConditionalUniquePlan>) -> Seq<u8> {
    if plans.len() == 0 {
        Seq::empty()
    } else {
        utf8("proofframe:compiled-plan:conditional-unique:v1\0"@) + conditional_bytes_list(plans)
    }
}

fn hash_conditional_section(out: &mut Vec<u8>, plans: &Vec<ConditionalUniquePlan>)
    ensures
        final(out)@ == old(out)@ + conditional_bytes_section(plans@),
{
    if plans.len() > 0 {
        push_domain(out, "proofframe:compiled-plan:conditional-unique:v1\0");
        push_word(out, plans.len() as u64);
        hash_conditional_each(out, plans);
    }
    assert(out@ =~= old(out)@ + conditional_bytes_section(plans@));
}

/// A row-count rule.
pub open spec fn delta_bytes(plan: RowCountDeltaPlan) -> Seq<u8> {
    part(plan.name@) + part(plan.reference@) + optional_word(plan.min_ratio) + optional_word(
        plan.max_ratio,
    )
}

fn hash_delta(out: &mut Vec<u8>, plan: &RowCountDeltaPlan)
    ensures
        final(out)@ == old(out)@ + delta_bytes(*plan),
{
    push_part(out, plan.name.as_str());
    push_part(out, plan.reference.as_str());
    hash_optional_u64(out, plan.min_ratio);
    hash_optional_u64(out, plan.max_ratio);
    assert(out@ =~= old(out)@ + delta_bytes(*plan));
}

/// The rules of a list, one after the other.
pub open spec fn delta_bytes_each(plans: Seq<RowCountDeltaPlan>) -> spec_fn(int) -> Seq<u8> {
    |i: int| delta_bytes(plans[i])
}

fn hash_delta_each(out: &mut Vec<u8>, plans: &Vec<RowCountDeltaPlan>)
    ensures
        final(out)@ == old(out)@ + concat_of(plans@.len(), delta_bytes_each(plans@)),
{
    let ghost f = delta_bytes_each(plans@);
    let mut i: usize = 0;
    assert(out@ =~= old(out)@ + concat_of(0, f));
    while i < plans.len()
        invariant
            i <= plans@.len(),
            f == delta_bytes_each(plans@),
            out@ == old(out)@ + concat_of(i as nat, f),
        decreases plans@.len() - i,
    {
        hash_delta(out, &plans[i]);
        assert(f(i as int) == delta_bytes(plans@[i as int]));
        i = i + 1;
        assert(out@ =~= old(out)@ + concat_of(i as nat, f));
    }
}

/// The number of rules, then each.
pub open spec fn delta_bytes_list(plans: Seq<RowCountDeltaPlan>) -> Seq<u8> {
    le(plans.len(), 8) + concat_of(plans.len(), delta_bytes_each(plans))
}

/// The row-count rules. Nothing is appended where there is none.
pub open spec fn delta_bytes_section(plans: Seq<RowCountDeltaPlan>) -> Seq<u8> {
    if plans.len() == 0 {
        Seq::empty()
    } else {
        utf8("proofframe:compiled-plan:row-count-delta:v1\0"@) + delta_bytes_list(plans)
    }
}

fn hash_delta_section(out: &mut Vec<u8>, plans: &Vec<RowCountDeltaPlan>)
    ensures
        final(out)@ == old(out)@ + delta_bytes_section(plans@),
{
    if plans.len() > 0 {
        push_domain(out, "proofframe:compiled-plan:row-count-delta:v1\0");
        push_word(out, plans.len() as u64);
        hash_delta_each(out, plans);
    }
    assert(out@ =~= old(out)@ + delta_bytes_section(plans@));
}

/// A column with rules.
pub open spec fn column_bytes(plan: ColumnPlan) -> Seq<u8> {
    le(plan.column_index as nat, 8) + part(plan.field@) + kernel_bytes(plan.kernel)
        + rules_bytes(plan.rules@)
}

fn hash_column(out: &mut Vec<u8>, plan: &ColumnPlan)
    ensures
        final(out)@ == old(out)@ + column_bytes(*plan),
{
    push_word(out, plan.column_index as u64);
    push_part(out, plan.field.as_str());
    hash_kernel(out, plan.kernel);
    hash_compiled_rules(out, &plan.rules);
    assert(out@ =~= old(out)@ + column_bytes(*plan));
}

/// The rules of a list, one after the other.
pub open spec fn column_bytes_each(plans: Seq<ColumnPlan>) -> spec_fn(int) -> Seq<u8> {
    |i: int| column_bytes(plans[i])
}

fn hash_column_each(out: &mut Vec<u8>, plans: &Vec<ColumnPlan>)
    ensures
        final(out)@ == old(out)@ + concat_of(plans@.len(), column_bytes_each(plans@)),
{
    let ghost f = column_bytes_each(plans@);
    let mut i: usize = 0;
    assert(out@ =~= old(out)@ + concat_of(0, f));
    while i < plans.len()
        invariant
            i <= plans@.len(),
            f == column_bytes_each(plans@),
            out@ == old(out)@ + concat_of(i as nat, f),
        decreases plans@.len() - i,
    {
        hash_column(out, &plans[i]);
        assert(f(i as int) == column_bytes(plans@[i as int]));
        i = i + 1;
        assert(out@ =~= old(out)@ + concat_of(i as nat, f));
    }
}

/// The rules of a list, one after the other.
pub open spec fn row_bytes_each(plans: Seq<RowPlan>) -> spec_fn(int) -> Seq<u8> {
    |i: int| row_bytes(plans[i]@)
}

fn hash_row_each(out: &mut Vec<u8>, plans: &Vec<RowPlan>)
    ensures
        final(out)@ == old(out)@ + concat_of(plans@.len(), row_bytes_each(plans@)),
{
    let ghost f = row_bytes_each(plans@);
    let mut i: usize = 0;
    assert(out@ =~= old(out)@ + concat_of(0, f));
    while i < plans.len()
        invariant
            i <= plans@.len(),
            f == row_bytes_each(plans@),
            out@ == old(out)@ + concat_of(i as nat, f),
        decreases plans@.len() - i,
    {
        hash_row_plan(out, &plans[i]);
        assert(f(i as int) == row_bytes(plans@[i as int]@));
        i = i + 1;
        assert(out@ =~= old(out)@ + concat_of(i as nat, f));
    }
}

/// Limits on the row count that may be absent.
pub open spec fn row_count_bytes(range: Option<CountRangeAst>) -> Seq<u8> {
    match range {
        Some(range) => seq![1u8] + count_range_bytes(range),
        None => seq![0u8],
    }
}

/// The dataset rules that every plan lists, with a count even where there is none.
pub open spec fn first_sections(plan: DatasetPlan) -> Seq<u8> {
    row_count_bytes(plan.row_count) + ratio_bytes_list(plan.null_ratios@) + count_bytes_list(
        plan.distinct_counts@,
    ) + ratio_bytes_list(plan.distinct_ratios@) + composite_bytes_list(plan.composite_unique@)
}

/// The dataset rules that a plan lists only where it has them.
pub open spec fn later_sections(plan: DatasetPlan) -> Seq<u8> {
    reference_bytes_section(plan.references@) + monotonicity_bytes_section(plan.monotonicity@)
        + gap_bytes_section(plan.gap_detection@) + exclusive_bytes_section(
        plan.mutually_exclusive@,
    ) + sum_bytes_section(plan.sums@) + statistic_bytes_section(plan.statistics@)
        + conditional_bytes_section(plan.conditional_unique@) + delta_bytes_section(
        plan.row_count_delta@,
    )
}

/// Every rule over a dataset.
pub open spec fn dataset_bytes(plan: DatasetPlan) -> Seq<u8> {
    first_sections(plan) + later_sections(plan)
}

/// A plan without rules of the later kinds has the bytes, and so the digest, that it had
/// before those kinds existed.
pub proof fn absent_rules_change_no_plan_identity(plan: DatasetPlan)
    requires
        plan.references@.len() == 0,
        plan.monotonicity@.len() == 0,
        plan.gap_detection@.len() == 0,
        plan.mutually_exclusive@.len() == 0,
        plan.sums@.len() == 0,
        plan.statistics@.len() == 0,
        plan.conditional_unique@.len() == 0,
        plan.row_count_delta@.len() == 0,
    ensures
        dataset_bytes(plan) == first_sections(plan),
{
    assert(later_sections(plan) =~= Seq::<u8>::empty());
    assert(dataset_bytes(plan) =~= first_sections(plan));
}

fn hash_row_count(out: &mut Vec<u8>, range: Option<CountRangeAst>)
    ensures
        final(out)@ == old(out)@ + row_count_bytes(range),
{
    match range {
        Some(range) => {
            push_byte(out, 1);
            hash_count_range(out, range);
        },
        None => push_byte(out, 0),
    }
    assert(out@ =~= old(out)@ + row_count_bytes(range));
}

fn hash_first_sections(out: &mut Vec<u8>, plan: &DatasetPlan)
    ensures
        final(out)@ == old(out)@ + first_sections(*plan),
{
    let ghost base = out@;
    hash_row_count(out, plan.row_count);
    hash_ratio_list(out, &plan.null_ratios);
    hash_count_list(out, &plan.distinct_counts);
    hash_ratio_list(out, &plan.distinct_ratios);
    hash_composite_list(out, &plan.composite_unique);
    proof {
        let a = row_count_bytes(plan.row_count);
        let b = a + ratio_bytes_list(plan.null_ratios@);
        let c = b + count_bytes_list(plan.distinct_counts@);
        let d = c + ratio_bytes_list(plan.distinct_ratios@);
        appended(base, a, ratio_bytes_list(plan.null_ratios@));
        appended(base, b, count_bytes_list(plan.distinct_counts@));
        appended(base, c, ratio_bytes_list(plan.distinct_ratios@));
        appended(base, d, composite_bytes_list(plan.composite_unique@));
    }
}

fn hash_later_sections(out: &mut Vec<u8>, plan: &DatasetPlan)
    requires
        forall|i: int| 0 <= i < plan.references@.len() ==> paired(#[trigger] plan.references@[i]),
    ensures
        final(out)@ == old(out)@ + later_sections(*plan),
{
    let ghost base = out@;
    hash_reference_section(out, &plan.references);
    hash_monotonicity_section(out, &plan.monotonicity);
    hash_gap_section(out, &plan.gap_detection);
    hash_exclusive_section(out, &plan.mutually_exclusive);
    hash_sum_section(out, &plan.sums);
    hash_statistic_section(out, &plan.statistics);
    hash_conditional_section(out, &plan.conditional_unique);
    hash_delta_section(out, &plan.row_count_delta);
    proof {
        let a = reference_bytes_section(plan.references@);
        let b = a + monotonicity_bytes_section(plan.monotonicity@);
        let c = b + gap_bytes_section(plan.gap_detection@);
        let d = c + exclusive_bytes_section(plan.mutually_exclusive@);
        let e = d + sum_bytes_section(plan.sums@);
        let f = e + statistic_bytes_section(plan.statistics@);
        let g = f + conditional_bytes_section(plan.conditional_unique@);
        appended(base, a, monotonicity_bytes_section(plan.monotonicity@));
        appended(base, b, gap_bytes_section(plan.gap_detection@));
        appended(base, c, exclusive_bytes_section(plan.mutually_exclusive@));
        appended(base, d, sum_bytes_section(plan.sums@));
        appended(base, e, statistic_bytes_section(plan.statistics@));
        appended(base, f, conditional_bytes_section(plan.conditional_unique@));
        appended(base, g, delta_bytes_section(plan.row_count_delta@));
    }
}

/// Appends every rule over a dataset.
fn hash_dataset_plan(out: &mut Vec<u8>, plan: &DatasetPlan)
    requires
        forall|i: int| 0 <= i < plan.references@.len() ==> paired(#[trigger] plan.references@[i]),
    ensures
        final(out)@ == old(out)@ + dataset_bytes(*plan),
{
    let ghost base = out@;
    hash_first_sections(out, plan);
    hash_later_sections(out, plan);
    proof {
        appended(base, first_sections(*plan), later_sections(*plan));
    }
}

/// The part of a plan's bytes that both versions have: the schema's digest, the most
/// findings to keep, and every column with rules.
pub open spec fn columns_stream(plan: CompiledContract, schema_bytes: Seq<u8>) -> Seq<u8> {
    blake3_digest(schema_bytes) + le(plan.max_findings as nat, 8) + concat_of(
        plan.columns@.len(),
        column_bytes_each(plan.columns@),
    )
}

/// The bytes of a plan.
pub open spec fn plan_stream(plan: CompiledContract, schema_bytes: Seq<u8>) -> Seq<u8> {
    match plan.version {
        ContractVersion::V1 => utf8("proofframe:compiled-plan:v1\0"@) + columns_stream(
            plan,
            schema_bytes,
        ),
        ContractVersion::V2 => utf8("proofframe:compiled-plan:v2\0"@) + columns_stream(
            plan,
            schema_bytes,
        ) + le(plan.row_plans@.len(), 8) + concat_of(
            plan.row_plans@.len(),
            row_bytes_each(plan.row_plans@),
        ) + dataset_bytes(plan.dataset_plan),
    }
}

/// The prefix of a plan digest.
pub open spec fn plan_prefix(version: ContractVersion) -> Seq<char> {
    match version {
        ContractVersion::V1 => "pf-plan-v1:"@,
        ContractVersion::V2 => "pf-plan-v2:"@,
    }
}

impl CompiledContract {
    /// Domain-separated digest of the schema used during compilation.
    pub fn schema_digest(&self) -> (r: Result<String, ProofFrameError>)
        ensures
            match schema_v2(self.schema, Seq::empty()) {
                Ok(b) => r matches Ok(s) && s@ == "pf-schema-v1:"@ + hex(
                    blake3_digest(utf8("proofframe:schema:v1\0"@) + blake3_digest(b)),
                ),
                Err(t) => r matches Err(e) && e@ == ErrorView::UnsupportedType(t),
            },
    {
        let keys: Vec<String> = Vec::new();
        assert(texts(keys@) =~= Seq::empty());
        let schema_digest = match fingerprint_schema(&self.schema, &keys) {
            Ok(d) => d,
            Err(e) => return Err(e),
        };
        let mut out: Vec<u8> = Vec::new();
        push_domain(&mut out, "proofframe:schema:v1\0");
        push_all(&mut out, schema_digest.as_slice());
        assert(out@ =~= utf8("proofframe:schema:v1\0"@) + schema_digest@);
        let digest = digest_of(out.as_slice());
        Ok(tagged_hex("pf-schema-v1:", digest.as_slice()))
    }

    /// Domain-separated digest of the schema-resolved execution plan.
    pub fn compiled_plan_digest(&self) -> (r: Result<String, ProofFrameError>)
        requires
            forall|i: int|
                0 <= i < self.dataset_plan.references@.len() ==> paired(
                    #[trigger] self.dataset_plan.references@[i],
                ),
        ensures
            match schema_v2(self.schema, Seq::empty()) {
                Ok(b) => r matches Ok(s) && s@ == plan_prefix(self.version) + hex(
                    blake3_digest(plan_stream(*self, b)),
                ),
                Err(t) => r matches Err(e) && e@ == ErrorView::UnsupportedType(t),
            },
    {
        let keys: Vec<String> = Vec::new();
        assert(texts(keys@) =~= Seq::empty());
        let schema_digest = match fingerprint_schema(&self.schema, &keys) {
            Ok(d) => d,
            Err(e) => return Err(e),
        };
        let ghost b = schema_v2(self.schema, Seq::empty())->Ok_0;
        let mut out: Vec<u8> = Vec::new();
        match self.version {
            ContractVersion::V1 => {
                push_domain(&mut out, "proofframe:compiled-plan:v1\0");
                hash_columns(&mut out, self, &schema_digest);
                assert(out@ =~= plan_stream(*self, b));
                let digest = digest_of(out.as_slice());
                Ok(tagged_hex("pf-plan-v1:", digest.as_slice()))
            },
            ContractVersion::V2 => {
                push_domain(&mut out, "proofframe:compiled-plan:v2\0");
                assert(out@ =~= utf8("proofframe:compiled-plan:v2\0"@));
                hash_columns(&mut out, self, &schema_digest);
                push_word(&mut out, self.row_plans.len() as u64);
                hash_row_each(&mut out, &self.row_plans);
                hash_dataset_plan(&mut out, &self.dataset_plan);
                let digest = digest_of(out.as_slice());
                Ok(tagged_hex("pf-plan-v2:", digest.as_slice()))
            },
        }
    }
}

fn hash_columns(out: &mut Vec<u8>, plan: &CompiledContract, schema_digest: &[u8; 32])
    ensures
        final(out)@ == old(out)@ + (schema_digest@ + le(plan.max_findings as nat, 8) + concat_of(
            plan.columns@.len(),
            column_bytes_each(plan.columns@),
        )),
{
    let ghost base = out@;
    push_all(out, schema_digest.as_slice());
    push_word(out, plan.max_findings as u64);
    hash_column_each(out, &plan.columns);
    proof {
        let a = schema_digest@;
        let b = a + le(plan.max_findings as nat, 8);
        appended(base, a, le(plan.max_findings as nat, 8));
        appended(base, b, concat_of(plan.columns@.len(), column_bytes_each(plan.columns@)));
    }
}

} // verus!
