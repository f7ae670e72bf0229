//! What the bytes of a dataset's rules tell apart: equal bytes come from the same rules in the same
//! order.

use crate::bytes::{concat_of, le, span, spans};
use crate::contract::ast::{CountRangeAst, ExclusiveModeAst, ReferenceNullPolicyAst};
use crate::contract::dataset::{
    CompositeUniquePlan, ConditionalUniquePlan, CountPlan, DatasetPlan, GapDetectionPlan,
    MonotonicityPlan, MutuallyExclusivePlan, RatioPlan, ReferencePlan, RowCountDeltaPlan,
    StatisticKind, StatisticPlan, SumBounds, SumPlan,
};
use crate::contract::plan_digest::{
    compare_bytes, composite_bytes, composite_bytes_each, composite_bytes_list, composite_tag,
    conditional_bytes, conditional_bytes_each, conditional_bytes_list, conditional_bytes_section,
    count_bytes, count_bytes_each, count_bytes_list, count_range_bytes, dataset_bytes, delta_bytes,
    delta_bytes_each, delta_bytes_list, delta_bytes_section, direction_tag, exclusive_bytes,
    exclusive_bytes_each, exclusive_bytes_list, exclusive_bytes_section, first_sections, gap_bytes,
    gap_bytes_each, gap_bytes_list, gap_bytes_section, kernel_bytes, later_sections,
    monotonicity_bytes, monotonicity_bytes_each, monotonicity_bytes_list,
    monotonicity_bytes_section, optional_wide, optional_word, ordering_tag, paired, part,
    position_part, ratio_bytes, ratio_bytes_each, ratio_bytes_list, reference_bytes,
    reference_bytes_each, reference_bytes_list, reference_bytes_section, reference_column_part,
    row_count_bytes, statistic_bytes, statistic_bytes_each, statistic_bytes_list,
    statistic_bytes_section, sum_bytes, sum_bytes_each, sum_bytes_list, sum_bytes_section,
    text_part,
};
use crate::contract::plan_identity::{
    as_long, behind, compare_bytes_tell_apart, kernel_bytes_tell_apart, lists, optional_wides,
    optional_words, parted, parts, rows_of_parts, same_compare, short, short_compare, tagged, tags,
    three, two, words,
};
use crate::text::{texts, utf8};
use vstd::prelude::*;
use vstd::utf8::is_ascii_chars_encode_utf8;

verus! {

proof fn seven_below_eight()
    ensures
        span(7) < span(8),
{
    reveal_with_fuel(span, 9);
}

proof fn tag_pairs(a: u8, b: u8, x: u8, y: u8)
    ensures
        parted(seq![a, b], seq![x, y]),
        seq![a, b] == seq![x, y] ==> a == x && b == y,
{
    as_long(seq![a, b], seq![x, y]);
    if seq![a, b] == seq![x, y] {
        assert(seq![a, b][0] == seq![x, y][0] && seq![a, b][1] == seq![x, y][1]);
    }
}

spec fn reference_tag(nulls: ReferenceNullPolicyAst) -> u8 {
    match nulls {
        ReferenceNullPolicyAst::Skip => 0u8,
        ReferenceNullPolicyAst::Reject => 1u8,
    }
}

spec fn mode_tag(mode: ExclusiveModeAst) -> u8 {
    match mode {
        ExclusiveModeAst::AtMostOne => 0u8,
        ExclusiveModeAst::ExactlyOne => 1u8,
    }
}

spec fn statistic_tag(kind: StatisticKind) -> u8 {
    match kind {
        StatisticKind::Mean => 0u8,
        StatisticKind::StdDev => 1u8,
    }
}

proof fn count_ranges(a: CountRangeAst, b: CountRangeAst)
    ensures
        parted(count_range_bytes(a), count_range_bytes(b)),
        count_range_bytes(a) == count_range_bytes(b) ==> a == b,
{
    optional_words(a.exact, b.exact);
    optional_words(a.min, b.min);
    optional_words(a.max, b.max);
    three(
        optional_word(a.exact),
        optional_word(a.min),
        optional_word(a.max),
        optional_word(b.exact),
        optional_word(b.min),
        optional_word(b.max),
    );
}

proof fn row_counts(a: Option<CountRangeAst>, b: Option<CountRangeAst>)
    ensures
        parted(row_count_bytes(a), row_count_bytes(b)),
        row_count_bytes(a) == row_count_bytes(b) ==> a == b,
{
    let none = Seq::<u8>::empty();
    let x = match a { Some(v) => count_range_bytes(v), None => none };
    let y = match b { Some(v) => count_range_bytes(v), None => none };
    let s: u8 = if a is Some { 1 } else { 0 };
    let t: u8 = if b is Some { 1 } else { 0 };
    assert(row_count_bytes(a) =~= seq![s] + x);
    assert(row_count_bytes(b) =~= seq![t] + y);
    as_long(none, none);
    if let (Some(v), Some(w)) = (a, b) {
        count_ranges(v, w);
    }
    tagged(s, x, t, y);
}

spec fn limits_bytes(bounds: SumBounds) -> Seq<u8> {
    match bounds {
        SumBounds::Integer { low, high } => seq![0u8] + optional_wide(low) + optional_wide(high),
        SumBounds::Float { min, max } => seq![1u8] + optional_word(min) + optional_word(max),
    }
}

proof fn limits_apart(a: SumBounds, b: SumBounds)
    ensures
        parted(limits_bytes(a), limits_bytes(b)),
        limits_bytes(a) == limits_bytes(b) ==> a == b,
{
    match (a, b) {
        (SumBounds::Integer { low: l, high: h }, SumBounds::Integer { low: m, high: i }) => {
            tags(0, 0);
            optional_wides(l, m);
            optional_wides(h, i);
            three(
                seq![0u8],
                optional_wide(l),
                optional_wide(h),
                seq![0u8],
                optional_wide(m),
                optional_wide(i),
            );
        },
        (SumBounds::Float { min: l, max: h }, SumBounds::Float { min: m, max: i }) => {
            tags(1, 1);
            optional_words(l, m);
            optional_words(h, i);
            three(
                seq![1u8],
                optional_word(l),
                optional_word(h),
                seq![1u8],
                optional_word(m),
                optional_word(i),
            );
        },
        _ => {
            assert(limits_bytes(a)[0] != limits_bytes(b)[0]);
        },
    }
}

proof fn positions_apart(a: Seq<usize>, b: Seq<usize>)
    requires
        a.len() < span(7),
        b.len() < span(7),
    ensures
        parted(
            le(a.len(), 8) + concat_of(a.len(), position_part(a)),
            le(b.len(), 8) + concat_of(b.len(), position_part(b)),
        ),
        le(a.len(), 8) + concat_of(a.len(), position_part(a)) == le(b.len(), 8) + concat_of(
            b.len(),
            position_part(b),
        ) ==> a == b,
{
    seven_below_eight();
    spans();
    let f = position_part(a);
    let g = position_part(b);
    if a.len() == b.len() {
        assert forall|i: int| 0 <= i < a.len() implies parted(#[trigger] f(i), g(i)) && (f(i)
            == g(i) ==> a[i] == b[i]) by {
            assert(f(i) == le(a[i] as nat, 8));
            assert(g(i) == le(b[i] as nat, 8));
            words(a[i] as nat, b[i] as nat);
        }
    }
    lists(a.len(), f, b.len(), g);
    if le(a.len(), 8) + concat_of(a.len(), f) == le(b.len(), 8) + concat_of(b.len(), g) {
        assert forall|i: int| 0 <= i < a.len() implies a[i] == b[i] by {
            assert(f(i) == g(i));
        }
        assert(a =~= b);
    }
}

spec fn reference_columns_bytes(plan: ReferencePlan) -> Seq<u8> {
    (le(plan.columns@.len(), 8) + concat_of(plan.columns@.len(), reference_column_part(plan)))
        + concat_of(plan.reference_columns@.len(), text_part(texts(plan.reference_columns@)))
}

/// Whether two rules refer from the same columns to the same columns.
pub open spec fn same_reference_columns(a: ReferencePlan, b: ReferencePlan) -> bool {
    &&& a.columns@ == b.columns@
    &&& texts(a.fields@) == texts(b.fields@)
    &&& a.kernels@ == b.kernels@
    &&& texts(a.reference_columns@) == texts(b.reference_columns@)
}

proof fn reference_columns_apart(a: ReferencePlan, b: ReferencePlan)
    requires
        short_reference(a),
        short_reference(b),
    ensures
        parted(reference_columns_bytes(a), reference_columns_bytes(b)),
        reference_columns_bytes(a) == reference_columns_bytes(b) ==> same_reference_columns(a, b),
{
    seven_below_eight();
    spans();
    let m = a.columns@.len();
    let n = b.columns@.len();
    let f = reference_column_part(a);
    let g = reference_column_part(b);
    let h = text_part(texts(a.reference_columns@));
    let k = text_part(texts(b.reference_columns@));
    if m == n {
        assert forall|i: int| 0 <= i < m implies parted(#[trigger] f(i), g(i)) && (f(i) == g(i)
            ==> a.columns@[i] == b.columns@[i] && a.fields@[i]@ == b.fields@[i]@ && a.kernels@[i]
            == b.kernels@[i]) by {
            words(a.columns@[i] as nat, b.columns@[i] as nat);
            parts(a.fields@[i]@, b.fields@[i]@);
            kernel_bytes_tell_apart(a.kernels@[i], b.kernels@[i]);
            three(
                le(a.columns@[i] as nat, 8),
                part(a.fields@[i]@),
                kernel_bytes(a.kernels@[i]),
                le(b.columns@[i] as nat, 8),
                part(b.fields@[i]@),
                kernel_bytes(b.kernels@[i]),
            );
        }
        assert forall|i: int| 0 <= i < m implies parted(#[trigger] h(i), k(i)) && (h(i) == k(i)
            ==> a.reference_columns@[i]@ == b.reference_columns@[i]@) by {
            assert(h(i) == part(a.reference_columns@[i]@));
            assert(k(i) == part(b.reference_columns@[i]@));
            parts(a.reference_columns@[i]@, b.reference_columns@[i]@);
        }
        rows_of_parts(m, h, k);
    }
    lists(m, f, n, g);
    two(le(m, 8) + concat_of(m, f), concat_of(m, h), le(n, 8) + concat_of(n, g), concat_of(n, k));
    if reference_columns_bytes(a) == reference_columns_bytes(b) {
        assert forall|i: int| 0 <= i < m implies a.columns@[i] == b.columns@[i] && a.kernels@[i]
            == b.kernels@[i] by {
            assert(f(i) == g(i));
        }
        assert(a.columns@ =~= b.columns@);
        assert(a.kernels@ =~= b.kernels@);
        assert forall|i: int| 0 <= i < m implies #[trigger] texts(a.fields@)[i] == texts(
            b.fields@,
        )[i] by {
            assert(f(i) == g(i));
        }
        assert forall|i: int| 0 <= i < m implies #[trigger] texts(a.reference_columns@)[i]
            == texts(b.reference_columns@)[i] by {
            assert(h(i) == k(i));
        }
        assert(texts(a.fields@) =~= texts(b.fields@));
        assert(texts(a.reference_columns@) =~= texts(b.reference_columns@));
    }
}

/// Which of the labelled sections begins some bytes; past every section where there are none.
spec fn label_rank(s: Seq<u8>) -> int {
    if s.len() == 0 {
        9
    } else if s.len() < 27 {
        0
    } else if s[25] == 'r' as u8 && s[26] == 'e' as u8 {
        1
    } else if s[25] == 'm' as u8 && s[26] == 'o' as u8 {
        2
    } else if s[25] == 'g' as u8 {
        3
    } else if s[25] == 'm' as u8 && s[26] == 'u' as u8 {
        4
    } else if s[25] == 's' as u8 && s[26] == 'u' as u8 {
        5
    } else if s[25] == 's' as u8 && s[26] == 't' as u8 {
        6
    } else if s[25] == 'c' as u8 {
        7
    } else if s[25] == 'r' as u8 && s[26] == 'o' as u8 {
        8
    } else {
        0
    }
}

spec fn section(label: Seq<u8>, m: nat, list: Seq<u8>) -> Seq<u8> {
    if m == 0 {
        Seq::empty()
    } else {
        label + list
    }
}

proof fn sections(
    rank: int,
    label: Seq<u8>,
    m: nat,
    a: Seq<u8>,
    x: Seq<u8>,
    n: nat,
    b: Seq<u8>,
    y: Seq<u8>,
)
    requires
        label.len() >= 27,
        label_rank(label) == rank,
        label_rank(x) > rank,
        label_rank(y) > rank,
        parted(a, b),
    ensures
        label_rank(section(label, m, a) + x) >= rank,
        section(label, m, a) + x == section(label, n, b) + y ==> (m == 0 <==> n == 0) && (m > 0
            ==> a == b) && x == y,
{
    let l = section(label, m, a) + x;
    let r = section(label, n, b) + y;
    if m == 0 {
        assert(l =~= x);
    } else {
        assert(l[25] == label[25] && l[26] == label[26]);
        assert(label_rank(l) == rank);
    }
    if n == 0 {
        assert(r =~= y);
    } else {
        assert(r[25] == label[25] && r[26] == label[26]);
        assert(label_rank(r) == rank);
    }
    if l == r && m > 0 {
        as_long(label, label);
        two(label, a, label, b);
        behind(label + a, x, label + b, y);
    }
}

/// Whether the texts and lists of a rule fit their bytes.
pub open spec fn short_ratio(plan: RatioPlan) -> bool {
    &&& short(plan.column@)
}

/// Whether two rules ask the same of the same columns.
pub open spec fn same_ratio(a: RatioPlan, b: RatioPlan) -> bool {
    &&& a.column_index == b.column_index
    &&& a.column@ == b.column@
    &&& a.range.min == b.range.min
    &&& a.range.max == b.range.max
    &&& a.kernel == b.kernel
}

/// Rules on a share with the same bytes ask the same of the same columns.
pub proof fn ratio_bytes_tell_apart(a: RatioPlan, b: RatioPlan)
    requires
        short_ratio(a),
        short_ratio(b),
    ensures
        parted(ratio_bytes(a), ratio_bytes(b)),
        ratio_bytes(a) == ratio_bytes(b) ==> same_ratio(a, b),
{
    spans();
    let p0 = le(a.column_index as nat, 8);
    let q0 = le(b.column_index as nat, 8);
    words(a.column_index as nat, b.column_index as nat);
    let p1 = part(a.column@);
    let q1 = part(b.column@);
    parts(a.column@, b.column@);
    let p2 = optional_word(a.range.min);
    let q2 = optional_word(b.range.min);
    optional_words(a.range.min, b.range.min);
    let p3 = optional_word(a.range.max);
    let q3 = optional_word(b.range.max);
    optional_words(a.range.max, b.range.max);
    let p4 = kernel_bytes(a.kernel);
    let q4 = kernel_bytes(b.kernel);
    kernel_bytes_tell_apart(a.kernel, b.kernel);
    let m1 = p0 + p1;
    let n1 = q0 + q1;
    two(p0, p1, q0, q1);
    let m2 = m1 + p2;
    let n2 = n1 + q2;
    two(m1, p2, n1, q2);
    let m3 = m2 + p3;
    let n3 = n2 + q3;
    two(m2, p3, n2, q3);
    let m4 = m3 + p4;
    let n4 = n3 + q4;
    two(m3, p4, n3, q4);
    assert(ratio_bytes(a) =~= m4);
    assert(ratio_bytes(b) =~= n4);
}

/// Whether a list of rules, and each of them, fits its bytes.
pub open spec fn short_ratio_list(plans: Seq<RatioPlan>) -> bool {
    plans.len() < span(7) && forall|i: int|
        0 <= i < plans.len() ==> short_ratio(#[trigger] plans[i])
}

/// Whether two lists hold the same rules in the same order.
pub open spec fn same_ratio_list(a: Seq<RatioPlan>, b: Seq<RatioPlan>) -> bool {
    a.len() == b.len() && forall|i: int|
        0 <= i < a.len() ==> same_ratio(#[trigger] a[i], b[i])
}

proof fn ratio_lists(a: Seq<RatioPlan>, b: Seq<RatioPlan>)
    requires
        short_ratio_list(a),
        short_ratio_list(b),
    ensures
        parted(ratio_bytes_list(a), ratio_bytes_list(b)),
        ratio_bytes_list(a) == ratio_bytes_list(b) ==> same_ratio_list(a, b),
{
    seven_below_eight();
    let f = ratio_bytes_each(a);
    let g = ratio_bytes_each(b);
    if a.len() == b.len() {
        assert forall|i: int| 0 <= i < a.len() implies parted(#[trigger] f(i), g(i)) && (f(i)
            == g(i) ==> same_ratio(a[i], b[i])) by {
            assert(f(i) == ratio_bytes(a[i]));
            assert(g(i) == ratio_bytes(b[i]));
            ratio_bytes_tell_apart(a[i], b[i]);
        }
    }
    lists(a.len(), f, b.len(), g);
    if ratio_bytes_list(a) == ratio_bytes_list(b) {
        assert forall|i: int| 0 <= i < a.len() implies same_ratio(#[trigger] a[i], b[i]) by {
            assert(f(i) == g(i));
        }
    }
}

/// Whether the texts and lists of a rule fit their bytes.
pub open spec fn short_count(plan: CountPlan) -> bool {
    &&& short(plan.column@)
}

/// Whether two rules ask the same of the same columns.
pub open spec fn same_count(a: CountPlan, b: CountPlan) -> bool {
    &&& a.column_index == b.column_index
    &&& a.column@ == b.column@
    &&& a.range == b.range
    &&& a.kernel == b.kernel
}

/// Rules on a number of values with the same bytes ask the same of the same columns.
pub proof fn count_bytes_tell_apart(a: CountPlan, b: CountPlan)
    requires
        short_count(a),
        short_count(b),
    ensures
        parted(count_bytes(a), count_bytes(b)),
        count_bytes(a) == count_bytes(b) ==> same_count(a, b),
{
    spans();
    let p0 = le(a.column_index as nat, 8);
    let q0 = le(b.column_index as nat, 8);
    words(a.column_index as nat, b.column_index as nat);
    let p1 = part(a.column@);
    let q1 = part(b.column@);
    parts(a.column@, b.column@);
    let p2 = count_range_bytes(a.range);
    let q2 = count_range_bytes(b.range);
    count_ranges(a.range, b.range);
    let p3 = kernel_bytes(a.kernel);
    let q3 = kernel_bytes(b.kernel);
    kernel_bytes_tell_apart(a.kernel, b.kernel);
    let m1 = p0 + p1;
    let n1 = q0 + q1;
    two(p0, p1, q0, q1);
    let m2 = m1 + p2;
    let n2 = n1 + q2;
    two(m1, p2, n1, q2);
    let m3 = m2 + p3;
    let n3 = n2 + q3;
    two(m2, p3, n2, q3);
    assert(count_bytes(a) =~= m3);
    assert(count_bytes(b) =~= n3);
}

/// Whether a list of rules, and each of them, fits its bytes.
pub open spec fn short_count_list(plans: Seq<CountPlan>) -> bool {
    plans.len() < span(7) && forall|i: int|
        0 <= i < plans.len() ==> short_count(#[trigger] plans[i])
}

/// Whether two lists hold the same rules in the same order.
pub open spec fn same_count_list(a: Seq<CountPlan>, b: Seq<CountPlan>) -> bool {
    a.len() == b.len() && forall|i: int|
        0 <= i < a.len() ==> same_count(#[trigger] a[i], b[i])
}

proof fn count_lists(a: Seq<CountPlan>, b: Seq<CountPlan>)
    requires
        short_count_list(a),
        short_count_list(b),
    ensures
        parted(count_bytes_list(a), count_bytes_list(b)),
        count_bytes_list(a) == count_bytes_list(b) ==> same_count_list(a, b),
{
    seven_below_eight();
    let f = count_bytes_each(a);
    let g = count_bytes_each(b);
    if a.len() == b.len() {
        assert forall|i: int| 0 <= i < a.len() implies parted(#[trigger] f(i), g(i)) && (f(i)
            == g(i) ==> same_count(a[i], b[i])) by {
            assert(f(i) == count_bytes(a[i]));
            assert(g(i) == count_bytes(b[i]));
            count_bytes_tell_apart(a[i], b[i]);
        }
    }
    lists(a.len(), f, b.len(), g);
    if count_bytes_list(a) == count_bytes_list(b) {
        assert forall|i: int| 0 <= i < a.len() implies same_count(#[trigger] a[i], b[i]) by {
            assert(f(i) == g(i));
        }
    }
}

/// Whether the texts and lists of a rule fit their bytes.
pub open spec fn short_composite(plan: CompositeUniquePlan) -> bool {
    &&& short(plan.name@)
    &&& plan.columns@.len() < span(7)
}

/// Whether two rules ask the same of the same columns.
pub open spec fn same_composite(a: CompositeUniquePlan, b: CompositeUniquePlan) -> bool {
    &&& a.name@ == b.name@
    &&& a.columns@ == b.columns@
    &&& a.nulls == b.nulls
}

/// Rules on keys with the same bytes ask the same of the same columns.
pub proof fn composite_bytes_tell_apart(a: CompositeUniquePlan, b: CompositeUniquePlan)
    requires
        short_composite(a),
        short_composite(b),
    ensures
        parted(composite_bytes(a), composite_bytes(b)),
        composite_bytes(a) == composite_bytes(b) ==> same_composite(a, b),
{
    spans();
    let p0 = part(a.name@);
    let q0 = part(b.name@);
    parts(a.name@, b.name@);
    let p1 = (le(a.columns@.len(), 8) + concat_of(a.columns@.len(), position_part(a.columns@)));
    let q1 = (le(b.columns@.len(), 8) + concat_of(b.columns@.len(), position_part(b.columns@)));
    positions_apart(a.columns@, b.columns@);
    let p2 = seq![composite_tag(a.nulls)];
    let q2 = seq![composite_tag(b.nulls)];
    tags(composite_tag(a.nulls), composite_tag(b.nulls));
    let m1 = p0 + p1;
    let n1 = q0 + q1;
    two(p0, p1, q0, q1);
    let m2 = m1 + p2;
    let n2 = n1 + q2;
    two(m1, p2, n1, q2);
    assert(composite_bytes(a) =~= m2);
    assert(composite_bytes(b) =~= n2);
}

/// Whether a list of rules, and each of them, fits its bytes.
pub open spec fn short_composite_list(plans: Seq<CompositeUniquePlan>) -> bool {
    plans.len() < span(7) && forall|i: int|
        0 <= i < plans.len() ==> short_composite(#[trigger] plans[i])
}

/// Whether two lists hold the same rules in the same order.
pub open spec fn same_composite_list(a: Seq<CompositeUniquePlan>, b: Seq<CompositeUniquePlan>) -> bool {
    a.len() == b.len() && forall|i: int|
        0 <= i < a.len() ==> same_composite(#[trigger] a[i], b[i])
}

proof fn composite_lists(a: Seq<CompositeUniquePlan>, b: Seq<CompositeUniquePlan>)
    requires
        short_composite_list(a),
        short_composite_list(b),
    ensures
        parted(composite_bytes_list(a), composite_bytes_list(b)),
        composite_bytes_list(a) == composite_bytes_list(b) ==> same_composite_list(a, b),
{
    seven_below_eight();
    let f = composite_bytes_each(a);
    let g = composite_bytes_each(b);
    if a.len() == b.len() {
        assert forall|i: int| 0 <= i < a.len() implies parted(#[trigger] f(i), g(i)) && (f(i)
            == g(i) ==> same_composite(a[i], b[i])) by {
            assert(f(i) == composite_bytes(a[i]));
            assert(g(i) == composite_bytes(b[i]));
            composite_bytes_tell_apart(a[i], b[i]);
        }
    }
    lists(a.len(), f, b.len(), g);
    if composite_bytes_list(a) == composite_bytes_list(b) {
        assert forall|i: int| 0 <= i < a.len() implies same_composite(#[trigger] a[i], b[i]) by {
            assert(f(i) == g(i));
        }
    }
}

/// Whether the texts and lists of a rule fit their bytes.
pub open spec fn short_reference(plan: ReferencePlan) -> bool {
    &&& short(plan.name@)
    &&& short(plan.reference@)
    &&& plan.columns@.len() < span(7)
    &&& plan.reference_columns@.len() == plan.columns@.len()
    &&& paired(plan)
    &&& forall|i: int|
        #![trigger plan.fields@[i]]
        0 <= i < plan.columns@.len() ==> short(plan.fields@[i]@)
    &&& forall|i: int|
        #![trigger plan.reference_columns@[i]]
        0 <= i < plan.columns@.len() ==> short(plan.reference_columns@[i]@)
}

/// Whether two rules ask the same of the same columns.
pub open spec fn same_reference(a: ReferencePlan, b: ReferencePlan) -> bool {
    &&& same_reference_columns(a, b)
    &&& a.name@ == b.name@
    &&& a.reference@ == b.reference@
    &&& a.nulls == b.nulls
}

/// Rules on references with the same bytes ask the same of the same columns.
pub proof fn reference_bytes_tell_apart(a: ReferencePlan, b: ReferencePlan)
    requires
        short_reference(a),
        short_reference(b),
    ensures
        parted(reference_bytes(a), reference_bytes(b)),
        reference_bytes(a) == reference_bytes(b) ==> same_reference(a, b),
{
    spans();
    let p0 = part(a.name@);
    let q0 = part(b.name@);
    parts(a.name@, b.name@);
    let p1 = part(a.reference@);
    let q1 = part(b.reference@);
    parts(a.reference@, b.reference@);
    let p2 = reference_columns_bytes(a);
    let q2 = reference_columns_bytes(b);
    reference_columns_apart(a, b);
    let p3 = seq![reference_tag(a.nulls)];
    let q3 = seq![reference_tag(b.nulls)];
    tags(reference_tag(a.nulls), reference_tag(b.nulls));
    let m1 = p0 + p1;
    let n1 = q0 + q1;
    two(p0, p1, q0, q1);
    let m2 = m1 + p2;
    let n2 = n1 + q2;
    two(m1, p2, n1, q2);
    let m3 = m2 + p3;
    let n3 = n2 + q3;
    two(m2, p3, n2, q3);
    assert(reference_bytes(a) =~= m3);
    assert(reference_bytes(b) =~= n3);
}

/// Whether a list of rules, and each of them, fits its bytes.
pub open spec fn short_reference_list(plans: Seq<ReferencePlan>) -> bool {
    plans.len() < span(7) && forall|i: int|
        0 <= i < plans.len() ==> short_reference(#[trigger] plans[i])
}

/// Whether two lists hold the same rules in the same order.
pub open spec fn same_reference_list(a: Seq<ReferencePlan>, b: Seq<ReferencePlan>) -> bool {
    a.len() == b.len() && forall|i: int|
        0 <= i < a.len() ==> same_reference(#[trigger] a[i], b[i])
}

proof fn reference_lists(a: Seq<ReferencePlan>, b: Seq<ReferencePlan>)
    requires
        short_reference_list(a),
        short_reference_list(b),
    ensures
        parted(reference_bytes_list(a), reference_bytes_list(b)),
        reference_bytes_list(a) == reference_bytes_list(b) ==> same_reference_list(a, b),
{
    seven_below_eight();
    let f = reference_bytes_each(a);
    let g = reference_bytes_each(b);
    if a.len() == b.len() {
        assert forall|i: int| 0 <= i < a.len() implies parted(#[trigger] f(i), g(i)) && (f(i)
            == g(i) ==> same_reference(a[i], b[i])) by {
            assert(f(i) == reference_bytes(a[i]));
            assert(g(i) == reference_bytes(b[i]));
            reference_bytes_tell_apart(a[i], b[i]);
        }
    }
    lists(a.len(), f, b.len(), g);
    if reference_bytes_list(a) == reference_bytes_list(b) {
        assert forall|i: int| 0 <= i < a.len() implies same_reference(#[trigger] a[i], b[i]) by {
            assert(f(i) == g(i));
        }
    }
}

proof fn reference_sections(a: Seq<ReferencePlan>, x: Seq<u8>, b: Seq<ReferencePlan>, y: Seq<u8>)
    requires
        short_reference_list(a),
        short_reference_list(b),
        label_rank(x) > 1,
        label_rank(y) > 1,
    ensures
        label_rank(reference_bytes_section(a) + x) >= 1,
        reference_bytes_section(a) + x == reference_bytes_section(b) + y ==> same_reference_list(a, b) && x == y,
{
    let label = utf8("proofframe:compiled-plan:references:v1\0"@);
    reveal_strlit("proofframe:compiled-plan:references:v1\0");
    is_ascii_chars_encode_utf8("proofframe:compiled-plan:references:v1\0"@);
    assert(label.len() >= 27 && label[25] == 'r' as u8 && label[26] == 'e' as u8);
    reference_lists(a, b);
    sections(1, label, a.len(), reference_bytes_list(a), x, b.len(), reference_bytes_list(b), y);
}

/// Whether the texts and lists of a rule fit their bytes.
pub open spec fn short_monotonicity(plan: MonotonicityPlan) -> bool {
    &&& short(plan.name@)
    &&& short(plan.column@)
}

/// Whether two rules ask the same of the same columns.
pub open spec fn same_monotonicity(a: MonotonicityPlan, b: MonotonicityPlan) -> bool {
    &&& a.name@ == b.name@
    &&& a.column_index == b.column_index
    &&& a.column@ == b.column@
    &&& a.kernel == b.kernel
    &&& a.direction == b.direction
    &&& a.nulls == b.nulls
}

/// Rules on an order with the same bytes ask the same of the same columns.
pub proof fn monotonicity_bytes_tell_apart(a: MonotonicityPlan, b: MonotonicityPlan)
    requires
        short_monotonicity(a),
        short_monotonicity(b),
    ensures
        parted(monotonicity_bytes(a), monotonicity_bytes(b)),
        monotonicity_bytes(a) == monotonicity_bytes(b) ==> same_monotonicity(a, b),
{
    spans();
    let p0 = part(a.name@);
    let q0 = part(b.name@);
    parts(a.name@, b.name@);
    let p1 = le(a.column_index as nat, 8);
    let q1 = le(b.column_index as nat, 8);
    words(a.column_index as nat, b.column_index as nat);
    let p2 = part(a.column@);
    let q2 = part(b.column@);
    parts(a.column@, b.column@);
    let p3 = kernel_bytes(a.kernel);
    let q3 = kernel_bytes(b.kernel);
    kernel_bytes_tell_apart(a.kernel, b.kernel);
    let p4 = seq![direction_tag(a.direction), ordering_tag(a.nulls)];
    let q4 = seq![direction_tag(b.direction), ordering_tag(b.nulls)];
    tag_pairs(direction_tag(a.direction), ordering_tag(a.nulls), direction_tag(b.direction), ordering_tag(b.nulls));
    let m1 = p0 + p1;
    let n1 = q0 + q1;
    two(p0, p1, q0, q1);
    let m2 = m1 + p2;
    let n2 = n1 + q2;
    two(m1, p2, n1, q2);
    let m3 = m2 + p3;
    let n3 = n2 + q3;
    two(m2, p3, n2, q3);
    let m4 = m3 + p4;
    let n4 = n3 + q4;
    two(m3, p4, n3, q4);
    assert(monotonicity_bytes(a) =~= m4);
    assert(monotonicity_bytes(b) =~= n4);
}

/// Whether a list of rules, and each of them, fits its bytes.
pub open spec fn short_monotonicity_list(plans: Seq<MonotonicityPlan>) -> bool {
    plans.len() < span(7) && forall|i: int|
        0 <= i < plans.len() ==> short_monotonicity(#[trigger] plans[i])
}

/// Whether two lists hold the same rules in the same order.
pub open spec fn same_monotonicity_list(a: Seq<MonotonicityPlan>, b: Seq<MonotonicityPlan>) -> bool {
    a.len() == b.len() && forall|i: int|
        0 <= i < a.len() ==> same_monotonicity(#[trigger] a[i], b[i])
}

proof fn monotonicity_lists(a: Seq<MonotonicityPlan>, b: Seq<MonotonicityPlan>)
    requires
        short_monotonicity_list(a),
        short_monotonicity_list(b),
    ensures
        parted(monotonicity_bytes_list(a), monotonicity_bytes_list(b)),
        monotonicity_bytes_list(a) == monotonicity_bytes_list(b) ==> same_monotonicity_list(a, b),
{
    seven_below_eight();
    let f = monotonicity_bytes_each(a);
    let g = monotonicity_bytes_each(b);
    if a.len() == b.len() {
        assert forall|i: int| 0 <= i < a.len() implies parted(#[trigger] f(i), g(i)) && (f(i)
            == g(i) ==> same_monotonicity(a[i], b[i])) by {
            assert(f(i) == monotonicity_bytes(a[i]));
            assert(g(i) == monotonicity_bytes(b[i]));
            monotonicity_bytes_tell_apart(a[i], b[i]);
        }
    }
    lists(a.len(), f, b.len(), g);
    if monotonicity_bytes_list(a) == monotonicity_bytes_list(b) {
        assert forall|i: int| 0 <= i < a.len() implies same_monotonicity(#[trigger] a[i], b[i]) by {
            assert(f(i) == g(i));
        }
    }
}

proof fn monotonicity_sections(a: Seq<MonotonicityPlan>, x: Seq<u8>, b: Seq<MonotonicityPlan>, y: Seq<u8>)
    requires
        short_monotonicity_list(a),
        short_monotonicity_list(b),
        label_rank(x) > 2,
        label_rank(y) > 2,
    ensures
        label_rank(monotonicity_bytes_section(a) + x) >= 2,
        monotonicity_bytes_section(a) + x == monotonicity_bytes_section(b) + y ==> same_monotonicity_list(a, b) && x == y,
{
    let label = utf8("proofframe:compiled-plan:monotonicity:v1\0"@);
    reveal_strlit("proofframe:compiled-plan:monotonicity:v1\0");
    is_ascii_chars_encode_utf8("proofframe:compiled-plan:monotonicity:v1\0"@);
    assert(label.len() >= 27 && label[25] == 'm' as u8 && label[26] == 'o' as u8);
    monotonicity_lists(a, b);
    sections(2, label, a.len(), monotonicity_bytes_list(a), x, b.len(), monotonicity_bytes_list(b), y);
}

/// Whether the texts and lists of a rule fit their bytes.
pub open spec fn short_gap(plan: GapDetectionPlan) -> bool {
    &&& short(plan.name@)
    &&& short(plan.column@)
}

/// Whether two rules ask the same of the same columns.
pub open spec fn same_gap(a: GapDetectionPlan, b: GapDetectionPlan) -> bool {
    &&& a.name@ == b.name@
    &&& a.column_index == b.column_index
    &&& a.column@ == b.column@
    &&& a.kernel == b.kernel
    &&& a.expected_step == b.expected_step
    &&& a.tolerance == b.tolerance
    &&& a.max_gaps == b.max_gaps
    &&& a.nulls == b.nulls
}

/// Rules on steps with the same bytes ask the same of the same columns.
pub proof fn gap_bytes_tell_apart(a: GapDetectionPlan, b: GapDetectionPlan)
    requires
        short_gap(a),
        short_gap(b),
    ensures
        parted(gap_bytes(a), gap_bytes(b)),
        gap_bytes(a) == gap_bytes(b) ==> same_gap(a, b),
{
    spans();
    let p0 = part(a.name@);
    let q0 = part(b.name@);
    parts(a.name@, b.name@);
    let p1 = le(a.column_index as nat, 8);
    let q1 = le(b.column_index as nat, 8);
    words(a.column_index as nat, b.column_index as nat);
    let p2 = part(a.column@);
    let q2 = part(b.column@);
    parts(a.column@, b.column@);
    let p3 = kernel_bytes(a.kernel);
    let q3 = kernel_bytes(b.kernel);
    kernel_bytes_tell_apart(a.kernel, b.kernel);
    let p4 = le(a.expected_step as nat, 8);
    let q4 = le(b.expected_step as nat, 8);
    words(a.expected_step as nat, b.expected_step as nat);
    let p5 = le(a.tolerance as nat, 8);
    let q5 = le(b.tolerance as nat, 8);
    words(a.tolerance as nat, b.tolerance as nat);
    let p6 = le(a.max_gaps as nat, 8);
    let q6 = le(b.max_gaps as nat, 8);
    words(a.max_gaps as nat, b.max_gaps as nat);
    let p7 = seq![ordering_tag(a.nulls)];
    let q7 = seq![ordering_tag(b.nulls)];
    tags(ordering_tag(a.nulls), ordering_tag(b.nulls));
    let m1 = p0 + p1;
    let n1 = q0 + q1;
    two(p0, p1, q0, q1);
    let m2 = m1 + p2;
    let n2 = n1 + q2;
    two(m1, p2, n1, q2);
    let m3 = m2 + p3;
    let n3 = n2 + q3;
    two(m2, p3, n2, q3);
    let m4 = m3 + p4;
    let n4 = n3 + q4;
    two(m3, p4, n3, q4);
    let m5 = m4 + p5;
    let n5 = n4 + q5;
    two(m4, p5, n4, q5);
    let m6 = m5 + p6;
    let n6 = n5 + q6;
    two(m5, p6, n5, q6);
    let m7 = m6 + p7;
    let n7 = n6 + q7;
    two(m6, p7, n6, q7);
    assert(gap_bytes(a) =~= m7);
    assert(gap_bytes(b) =~= n7);
}

/// Whether a list of rules, and each of them, fits its bytes.
pub open spec fn short_gap_list(plans: Seq<GapDetectionPlan>) -> bool {
    plans.len() < span(7) && forall|i: int|
        0 <= i < plans.len() ==> short_gap(#[trigger] plans[i])
}

/// Whether two lists hold the same rules in the same order.
pub open spec fn same_gap_list(a: Seq<GapDetectionPlan>, b: Seq<GapDetectionPlan>) -> bool {
    a.len() == b.len() && forall|i: int|
        0 <= i < a.len() ==> same_gap(#[trigger] a[i], b[i])
}

proof fn gap_lists(a: Seq<GapDetectionPlan>, b: Seq<GapDetectionPlan>)
    requires
        short_gap_list(a),
        short_gap_list(b),
    ensures
        parted(gap_bytes_list(a), gap_bytes_list(b)),
        gap_bytes_list(a) == gap_bytes_list(b) ==> same_gap_list(a, b),
{
    seven_below_eight();
    let f = gap_bytes_each(a);
    let g = gap_bytes_each(b);
    if a.len() == b.len() {
        assert forall|i: int| 0 <= i < a.len() implies parted(#[trigger] f(i), g(i)) && (f(i)
            == g(i) ==> same_gap(a[i], b[i])) by {
            assert(f(i) == gap_bytes(a[i]));
            assert(g(i) == gap_bytes(b[i]));
            gap_bytes_tell_apart(a[i], b[i]);
        }
    }
    lists(a.len(), f, b.len(), g);
    if gap_bytes_list(a) == gap_bytes_list(b) {
        assert forall|i: int| 0 <= i < a.len() implies same_gap(#[trigger] a[i], b[i]) by {
            assert(f(i) == g(i));
        }
    }
}

proof fn gap_sections(a: Seq<GapDetectionPlan>, x: Seq<u8>, b: Seq<GapDetectionPlan>, y: Seq<u8>)
    requires
        short_gap_list(a),
        short_gap_list(b),
        label_rank(x) > 3,
        label_rank(y) > 3,
    ensures
        label_rank(gap_bytes_section(a) + x) >= 3,
        gap_bytes_section(a) + x == gap_bytes_section(b) + y ==> same_gap_list(a, b) && x == y,
{
    let label = utf8("proofframe:compiled-plan:gap-detection:v1\0"@);
    reveal_strlit("proofframe:compiled-plan:gap-detection:v1\0");
    is_ascii_chars_encode_utf8("proofframe:compiled-plan:gap-detection:v1\0"@);
    assert(label.len() >= 27 && label[25] == 'g' as u8 && label[26] == 'a' as u8);
    gap_lists(a, b);
    sections(3, label, a.len(), gap_bytes_list(a), x, b.len(), gap_bytes_list(b), y);
}

/// Whether the texts and lists of a rule fit their bytes.
pub open spec fn short_exclusive(plan: MutuallyExclusivePlan) -> bool {
    &&& short(plan.name@)
    &&& plan.columns@.len() < span(7)
}

/// Whether two rules ask the same of the same columns.
pub open spec fn same_exclusive(a: MutuallyExclusivePlan, b: MutuallyExclusivePlan) -> bool {
    &&& a.name@ == b.name@
    &&& a.columns@ == b.columns@
    &&& a.mode == b.mode
}

/// Rules on exclusive columns with the same bytes ask the same of the same columns.
pub proof fn exclusive_bytes_tell_apart(a: MutuallyExclusivePlan, b: MutuallyExclusivePlan)
    requires
        short_exclusive(a),
        short_exclusive(b),
    ensures
        parted(exclusive_bytes(a), exclusive_bytes(b)),
        exclusive_bytes(a) == exclusive_bytes(b) ==> same_exclusive(a, b),
{
    spans();
    let p0 = part(a.name@);
    let q0 = part(b.name@);
    parts(a.name@, b.name@);
    let p1 = (le(a.columns@.len(), 8) + concat_of(a.columns@.len(), position_part(a.columns@)));
    let q1 = (le(b.columns@.len(), 8) + concat_of(b.columns@.len(), position_part(b.columns@)));
    positions_apart(a.columns@, b.columns@);
    let p2 = seq![mode_tag(a.mode)];
    let q2 = seq![mode_tag(b.mode)];
    tags(mode_tag(a.mode), mode_tag(b.mode));
    let m1 = p0 + p1;
    let n1 = q0 + q1;
    two(p0, p1, q0, q1);
    let m2 = m1 + p2;
    let n2 = n1 + q2;
    two(m1, p2, n1, q2);
    assert(exclusive_bytes(a) =~= m2);
    assert(exclusive_bytes(b) =~= n2);
}

/// Whether a list of rules, and each of them, fits its bytes.
pub open spec fn short_exclusive_list(plans: Seq<MutuallyExclusivePlan>) -> bool {
    plans.len() < span(7) && forall|i: int|
        0 <= i < plans.len() ==> short_exclusive(#[trigger] plans[i])
}

/// Whether two lists hold the same rules in the same order.
pub open spec fn same_exclusive_list(a: Seq<MutuallyExclusivePlan>, b: Seq<MutuallyExclusivePlan>) -> bool {
    a.len() == b.len() && forall|i: int|
        0 <= i < a.len() ==> same_exclusive(#[trigger] a[i], b[i])
}

proof fn exclusive_lists(a: Seq<MutuallyExclusivePlan>, b: Seq<MutuallyExclusivePlan>)
    requires
        short_exclusive_list(a),
        short_exclusive_list(b),
    ensures
        parted(exclusive_bytes_list(a), exclusive_bytes_list(b)),
        exclusive_bytes_list(a) == exclusive_bytes_list(b) ==> same_exclusive_list(a, b),
{
    seven_below_eight();
    let f = exclusive_bytes_each(a);
    let g = exclusive_bytes_each(b);
    if a.len() == b.len() {
        assert forall|i: int| 0 <= i < a.len() implies parted(#[trigger] f(i), g(i)) && (f(i)
            == g(i) ==> same_exclusive(a[i], b[i])) by {
            assert(f(i) == exclusive_bytes(a[i]));
            assert(g(i) == exclusive_bytes(b[i]));
            exclusive_bytes_tell_apart(a[i], b[i]);
        }
    }
    lists(a.len(), f, b.len(), g);
    if exclusive_bytes_list(a) == exclusive_bytes_list(b) {
        assert forall|i: int| 0 <= i < a.len() implies same_exclusive(#[trigger] a[i], b[i]) by {
            assert(f(i) == g(i));
        }
    }
}

proof fn exclusive_sections(a: Seq<MutuallyExclusivePlan>, x: Seq<u8>, b: Seq<MutuallyExclusivePlan>, y: Seq<u8>)
    requires
        short_exclusive_list(a),
        short_exclusive_list(b),
        label_rank(x) > 4,
        label_rank(y) > 4,
    ensures
        label_rank(exclusive_bytes_section(a) + x) >= 4,
        exclusive_bytes_section(a) + x == exclusive_bytes_section(b) + y ==> same_exclusive_list(a, b) && x == y,
{
    let label = utf8("proofframe:compiled-plan:mutually-exclusive:v1\0"@);
    reveal_strlit("proofframe:compiled-plan:mutually-exclusive:v1\0");
    is_ascii_chars_encode_utf8("proofframe:compiled-plan:mutually-exclusive:v1\0"@);
    assert(label.len() >= 27 && label[25] == 'm' as u8 && label[26] == 'u' as u8);
    exclusive_lists(a, b);
    sections(4, label, a.len(), exclusive_bytes_list(a), x, b.len(), exclusive_bytes_list(b), y);
}

/// Whether the texts and lists of a rule fit their bytes.
pub open spec fn short_sum(plan: SumPlan) -> bool {
    &&& short(plan.name@)
    &&& short(plan.column@)
}

/// Whether two rules ask the same of the same columns.
pub open spec fn same_sum(a: SumPlan, b: SumPlan) -> bool {
    &&& a.name@ == b.name@
    &&& a.column_index == b.column_index
    &&& a.column@ == b.column@
    &&& a.kernel == b.kernel
    &&& a.bounds == b.bounds
}

/// Rules on a total with the same bytes ask the same of the same columns.
pub proof fn sum_bytes_tell_apart(a: SumPlan, b: SumPlan)
    requires
        short_sum(a),
        short_sum(b),
    ensures
        parted(sum_bytes(a), sum_bytes(b)),
        sum_bytes(a) == sum_bytes(b) ==> same_sum(a, b),
{
    spans();
    let p0 = part(a.name@);
    let q0 = part(b.name@);
    parts(a.name@, b.name@);
    let p1 = le(a.column_index as nat, 8);
    let q1 = le(b.column_index as nat, 8);
    words(a.column_index as nat, b.column_index as nat);
    let p2 = part(a.column@);
    let q2 = part(b.column@);
    parts(a.column@, b.column@);
    let p3 = kernel_bytes(a.kernel);
    let q3 = kernel_bytes(b.kernel);
    kernel_bytes_tell_apart(a.kernel, b.kernel);
    let p4 = limits_bytes(a.bounds);
    let q4 = limits_bytes(b.bounds);
    limits_apart(a.bounds, b.bounds);
    let m1 = p0 + p1;
    let n1 = q0 + q1;
    two(p0, p1, q0, q1);
    let m2 = m1 + p2;
    let n2 = n1 + q2;
    two(m1, p2, n1, q2);
    let m3 = m2 + p3;
    let n3 = n2 + q3;
    two(m2, p3, n2, q3);
    let m4 = m3 + p4;
    let n4 = n3 + q4;
    two(m3, p4, n3, q4);
    assert(sum_bytes(a) =~= m4);
    assert(sum_bytes(b) =~= n4);
}

/// Whether a list of rules, and each of them, fits its bytes.
pub open spec fn short_sum_list(plans: Seq<SumPlan>) -> bool {
    plans.len() < span(7) && forall|i: int|
        0 <= i < plans.len() ==> short_sum(#[trigger] plans[i])
}

/// Whether two lists hold the same rules in the same order.
pub open spec fn same_sum_list(a: Seq<SumPlan>, b: Seq<SumPlan>) -> bool {
    a.len() == b.len() && forall|i: int|
        0 <= i < a.len() ==> same_sum(#[trigger] a[i], b[i])
}

proof fn sum_lists(a: Seq<SumPlan>, b: Seq<SumPlan>)
    requires
        short_sum_list(a),
        short_sum_list(b),
    ensures
        parted(sum_bytes_list(a), sum_bytes_list(b)),
        sum_bytes_list(a) == sum_bytes_list(b) ==> same_sum_list(a, b),
{
    seven_below_eight();
    let f = sum_bytes_each(a);
    let g = sum_bytes_each(b);
    if a.len() == b.len() {
        assert forall|i: int| 0 <= i < a.len() implies parted(#[trigger] f(i), g(i)) && (f(i)
            == g(i) ==> same_sum(a[i], b[i])) by {
            assert(f(i) == sum_bytes(a[i]));
            assert(g(i) == sum_bytes(b[i]));
            sum_bytes_tell_apart(a[i], b[i]);
        }
    }
    lists(a.len(), f, b.len(), g);
    if sum_bytes_list(a) == sum_bytes_list(b) {
        assert forall|i: int| 0 <= i < a.len() implies same_sum(#[trigger] a[i], b[i]) by {
            assert(f(i) == g(i));
        }
    }
}

proof fn sum_sections(a: Seq<SumPlan>, x: Seq<u8>, b: Seq<SumPlan>, y: Seq<u8>)
    requires
        short_sum_list(a),
        short_sum_list(b),
        label_rank(x) > 5,
        label_rank(y) > 5,
    ensures
        label_rank(sum_bytes_section(a) + x) >= 5,
        sum_bytes_section(a) + x == sum_bytes_section(b) + y ==> same_sum_list(a, b) && x == y,
{
    let label = utf8("proofframe:compiled-plan:sum:v1\0"@);
    reveal_strlit("proofframe:compiled-plan:sum:v1\0");
    is_ascii_chars_encode_utf8("proofframe:compiled-plan:sum:v1\0"@);
    assert(label.len() >= 27 && label[25] == 's' as u8 && label[26] == 'u' as u8);
    sum_lists(a, b);
    sections(5, label, a.len(), sum_bytes_list(a), x, b.len(), sum_bytes_list(b), y);
}

/// Whether the texts and lists of a rule fit their bytes.
pub open spec fn short_statistic(plan: StatisticPlan) -> bool {
    &&& short(plan.name@)
    &&& short(plan.column@)
}

/// Whether two rules ask the same of the same columns.
pub open spec fn same_statistic(a: StatisticPlan, b: StatisticPlan) -> bool {
    &&& a.name@ == b.name@
    &&& a.column_index == b.column_index
    &&& a.column@ == b.column@
    &&& a.kernel == b.kernel
    &&& a.kind == b.kind
    &&& a.min == b.min
    &&& a.max == b.max
}

/// Rules on a statistic with the same bytes ask the same of the same columns.
pub proof fn statistic_bytes_tell_apart(a: StatisticPlan, b: StatisticPlan)
    requires
        short_statistic(a),
        short_statistic(b),
    ensures
        parted(statistic_bytes(a), statistic_bytes(b)),
        statistic_bytes(a) == statistic_bytes(b) ==> same_statistic(a, b),
{
    spans();
    let p0 = part(a.name@);
    let q0 = part(b.name@);
    parts(a.name@, b.name@);
    let p1 = le(a.column_index as nat, 8);
    let q1 = le(b.column_index as nat, 8);
    words(a.column_index as nat, b.column_index as nat);
    let p2 = part(a.column@);
    let q2 = part(b.column@);
    parts(a.column@, b.column@);
    let p3 = kernel_bytes(a.kernel);
    let q3 = kernel_bytes(b.kernel);
    kernel_bytes_tell_apart(a.kernel, b.kernel);
    let p4 = seq![statistic_tag(a.kind)];
    let q4 = seq![statistic_tag(b.kind)];
    tags(statistic_tag(a.kind), statistic_tag(b.kind));
    let p5 = optional_word(a.min);
    let q5 = optional_word(b.min);
    optional_words(a.min, b.min);
    let p6 = optional_word(a.max);
    let q6 = optional_word(b.max);
    optional_words(a.max, b.max);
    let m1 = p0 + p1;
    let n1 = q0 + q1;
    two(p0, p1, q0, q1);
    let m2 = m1 + p2;
    let n2 = n1 + q2;
    two(m1, p2, n1, q2);
    let m3 = m2 + p3;
    let n3 = n2 + q3;
    two(m2, p3, n2, q3);
    let m4 = m3 + p4;
    let n4 = n3 + q4;
    two(m3, p4, n3, q4);
    let m5 = m4 + p5;
    let n5 = n4 + q5;
    two(m4, p5, n4, q5);
    let m6 = m5 + p6;
    let n6 = n5 + q6;
    two(m5, p6, n5, q6);
    assert(statistic_bytes(a) =~= m6);
    assert(statistic_bytes(b) =~= n6);
}

/// Whether a list of rules, and each of them, fits its bytes.
pub open spec fn short_statistic_list(plans: Seq<StatisticPlan>) -> bool {
    plans.len() < span(7) && forall|i: int|
        0 <= i < plans.len() ==> short_statistic(#[trigger] plans[i])
}

/// Whether two lists hold the same rules in the same order.
pub open spec fn same_statistic_list(a: Seq<StatisticPlan>, b: Seq<StatisticPlan>) -> bool {
    a.len() == b.len() && forall|i: int|
        0 <= i < a.len() ==> same_statistic(#[trigger] a[i], b[i])
}

proof fn statistic_lists(a: Seq<StatisticPlan>, b: Seq<StatisticPlan>)
    requires
        short_statistic_list(a),
        short_statistic_list(b),
    ensures
        parted(statistic_bytes_list(a), statistic_bytes_list(b)),
        statistic_bytes_list(a) == statistic_bytes_list(b) ==> same_statistic_list(a, b),
{
    seven_below_eight();
    let f = statistic_bytes_each(a);
    let g = statistic_bytes_each(b);
    if a.len() == b.len() {
        assert forall|i: int| 0 <= i < a.len() implies parted(#[trigger] f(i), g(i)) && (f(i)
            == g(i) ==> same_statistic(a[i], b[i])) by {
            assert(f(i) == statistic_bytes(a[i]));
            assert(g(i) == statistic_bytes(b[i]));
            statistic_bytes_tell_apart(a[i], b[i]);
        }
    }
    lists(a.len(), f, b.len(), g);
    if statistic_bytes_list(a) == statistic_bytes_list(b) {
        assert forall|i: int| 0 <= i < a.len() implies same_statistic(#[trigger] a[i], b[i]) by {
            assert(f(i) == g(i));
        }
    }
}

proof fn statistic_sections(a: Seq<StatisticPlan>, x: Seq<u8>, b: Seq<StatisticPlan>, y: Seq<u8>)
    requires
        short_statistic_list(a),
        short_statistic_list(b),
        label_rank(x) > 6,
        label_rank(y) > 6,
    ensures
        label_rank(statistic_bytes_section(a) + x) >= 6,
        statistic_bytes_section(a) + x == statistic_bytes_section(b) + y ==> same_statistic_list(a, b) && x == y,
{
    let label = utf8("proofframe:compiled-plan:statistic:v1\0"@);
    reveal_strlit("proofframe:compiled-plan:statistic:v1\0");
    is_ascii_chars_encode_utf8("proofframe:compiled-plan:statistic:v1\0"@);
    assert(label.len() >= 27 && label[25] == 's' as u8 && label[26] == 't' as u8);
    statistic_lists(a, b);
    sections(6, label, a.len(), statistic_bytes_list(a), x, b.len(), statistic_bytes_list(b), y);
}

/// Whether the texts and lists of a rule fit their bytes.
pub open spec fn short_conditional(plan: ConditionalUniquePlan) -> bool {
    &&& short(plan.name@)
    &&& plan.columns@.len() < span(7)
    &&& short_compare(plan.predicate@)
}

/// Whether two rules ask the same of the same columns.
pub open spec fn same_conditional(a: ConditionalUniquePlan, b: ConditionalUniquePlan) -> bool {
    &&& a.name@ == b.name@
    &&& a.columns@ == b.columns@
    &&& a.nulls == b.nulls
    &&& same_compare(a.predicate@, b.predicate@)
}

/// Rules on keys under a condition with the same bytes ask the same of the same columns.
pub proof fn conditional_bytes_tell_apart(a: ConditionalUniquePlan, b: ConditionalUniquePlan)
    requires
        short_conditional(a),
        short_conditional(b),
    ensures
        parted(conditional_bytes(a), conditional_bytes(b)),
        conditional_bytes(a) == conditional_bytes(b) ==> same_conditional(a, b),
{
    spans();
    let p0 = part(a.name@);
    let q0 = part(b.name@);
    parts(a.name@, b.name@);
    let p1 = (le(a.columns@.len(), 8) + concat_of(a.columns@.len(), position_part(a.columns@)));
    let q1 = (le(b.columns@.len(), 8) + concat_of(b.columns@.len(), position_part(b.columns@)));
    positions_apart(a.columns@, b.columns@);
    let p2 = seq![composite_tag(a.nulls)];
    let q2 = seq![composite_tag(b.nulls)];
    tags(composite_tag(a.nulls), composite_tag(b.nulls));
    let p3 = compare_bytes(a.predicate@);
    let q3 = compare_bytes(b.predicate@);
    compare_bytes_tell_apart(a.predicate@, b.predicate@);
    let m1 = p0 + p1;
    let n1 = q0 + q1;
    two(p0, p1, q0, q1);
    let m2 = m1 + p2;
    let n2 = n1 + q2;
    two(m1, p2, n1, q2);
    let m3 = m2 + p3;
    let n3 = n2 + q3;
    two(m2, p3, n2, q3);
    assert(conditional_bytes(a) =~= m3);
    assert(conditional_bytes(b) =~= n3);
}

/// Whether a list of rules, and each of them, fits its bytes.
pub open spec fn short_conditional_list(plans: Seq<ConditionalUniquePlan>) -> bool {
    plans.len() < span(7) && forall|i: int|
        0 <= i < plans.len() ==> short_conditional(#[trigger] plans[i])
}

/// Whether two lists hold the same rules in the same order.
pub open spec fn same_conditional_list(a: Seq<ConditionalUniquePlan>, b: Seq<ConditionalUniquePlan>) -> bool {
    a.len() == b.len() && forall|i: int|
        0 <= i < a.len() ==> same_conditional(#[trigger] a[i], b[i])
}

proof fn conditional_lists(a: Seq<ConditionalUniquePlan>, b: Seq<ConditionalUniquePlan>)
    requires
        short_conditional_list(a),
        short_conditional_list(b),
    ensures
        parted(conditional_bytes_list(a), conditional_bytes_list(b)),
        conditional_bytes_list(a) == conditional_bytes_list(b) ==> same_conditional_list(a, b),
{
    seven_below_eight();
    let f = conditional_bytes_each(a);
    let g = conditional_bytes_each(b);
    if a.len() == b.len() {
        assert forall|i: int| 0 <= i < a.len() implies parted(#[trigger] f(i), g(i)) && (f(i)
            == g(i) ==> same_conditional(a[i], b[i])) by {
            assert(f(i) == conditional_bytes(a[i]));
            assert(g(i) == conditional_bytes(b[i]));
            conditional_bytes_tell_apart(a[i], b[i]);
        }
    }
    lists(a.len(), f, b.len(), g);
    if conditional_bytes_list(a) == conditional_bytes_list(b) {
        assert forall|i: int| 0 <= i < a.len() implies same_conditional(#[trigger] a[i], b[i]) by {
            assert(f(i) == g(i));
        }
    }
}

proof fn conditional_sections(a: Seq<ConditionalUniquePlan>, x: Seq<u8>, b: Seq<ConditionalUniquePlan>, y: Seq<u8>)
    requires
        short_conditional_list(a),
        short_conditional_list(b),
        label_rank(x) > 7,
        label_rank(y) > 7,
    ensures
        label_rank(conditional_bytes_section(a) + x) >= 7,
        conditional_bytes_section(a) + x == conditional_bytes_section(b) + y ==> same_conditional_list(a, b) && x == y,
{
    let label = utf8("proofframe:compiled-plan:conditional-unique:v1\0"@);
    reveal_strlit("proofframe:compiled-plan:conditional-unique:v1\0");
    is_ascii_chars_encode_utf8("proofframe:compiled-plan:conditional-unique:v1\0"@);
    assert(label.len() >= 27 && label[25] == 'c' as u8 && label[26] == 'o' as u8);
    conditional_lists(a, b);
    sections(7, label, a.len(), conditional_bytes_list(a), x, b.len(), conditional_bytes_list(b), y);
}

/// Whether the texts and lists of a rule fit their bytes.
pub open spec fn short_delta(plan: RowCountDeltaPlan) -> bool {
    &&& short(plan.name@)
    &&& short(plan.reference@)
}

/// Whether two rules ask the same of the same columns.
pub open spec fn same_delta(a: RowCountDeltaPlan, b: RowCountDeltaPlan) -> bool {
    &&& a.name@ == b.name@
    &&& a.reference@ == b.reference@
    &&& a.min_ratio == b.min_ratio
    &&& a.max_ratio == b.max_ratio
}

/// Rules on a number of rows beside another with the same bytes ask the same of the same columns.
pub proof fn delta_bytes_tell_apart(a: RowCountDeltaPlan, b: RowCountDeltaPlan)
    requires
        short_delta(a),
        short_delta(b),
    ensures
        parted(delta_bytes(a), delta_bytes(b)),
        delta_bytes(a) == delta_bytes(b) ==> same_delta(a, b),
{
    spans();
    let p0 = part(a.name@);
    let q0 = part(b.name@);
    parts(a.name@, b.name@);
    let p1 = part(a.reference@);
    let q1 = part(b.reference@);
    parts(a.reference@, b.reference@);
    let p2 = optional_word(a.min_ratio);
    let q2 = optional_word(b.min_ratio);
    optional_words(a.min_ratio, b.min_ratio);
    let p3 = optional_word(a.max_ratio);
    let q3 = optional_word(b.max_ratio);
    optional_words(a.max_ratio, b.max_ratio);
    let m1 = p0 + p1;
    let n1 = q0 + q1;
    two(p0, p1, q0, q1);
    let m2 = m1 + p2;
    let n2 = n1 + q2;
    two(m1, p2, n1, q2);
    let m3 = m2 + p3;
    let n3 = n2 + q3;
    two(m2, p3, n2, q3);
    assert(delta_bytes(a) =~= m3);
    assert(delta_bytes(b) =~= n3);
}

/// Whether a list of rules, and each of them, fits its bytes.
pub open spec fn short_delta_list(plans: Seq<RowCountDeltaPlan>) -> bool {
    plans.len() < span(7) && forall|i: int|
        0 <= i < plans.len() ==> short_delta(#[trigger] plans[i])
}

/// Whether two lists hold the same rules in the same order.
pub open spec fn same_delta_list(a: Seq<RowCountDeltaPlan>, b: Seq<RowCountDeltaPlan>) -> bool {
    a.len() == b.len() && forall|i: int|
        0 <= i < a.len() ==> same_delta(#[trigger] a[i], b[i])
}

proof fn delta_lists(a: Seq<RowCountDeltaPlan>, b: Seq<RowCountDeltaPlan>)
    requires
        short_delta_list(a),
        short_delta_list(b),
    ensures
        parted(delta_bytes_list(a), delta_bytes_list(b)),
        delta_bytes_list(a) == delta_bytes_list(b) ==> same_delta_list(a, b),
{
    seven_below_eight();
    let f = delta_bytes_each(a);
    let g = delta_bytes_each(b);
    if a.len() == b.len() {
        assert forall|i: int| 0 <= i < a.len() implies parted(#[trigger] f(i), g(i)) && (f(i)
            == g(i) ==> same_delta(a[i], b[i])) by {
            assert(f(i) == delta_bytes(a[i]));
            assert(g(i) == delta_bytes(b[i]));
            delta_bytes_tell_apart(a[i], b[i]);
        }
    }
    lists(a.len(), f, b.len(), g);
    if delta_bytes_list(a) == delta_bytes_list(b) {
        assert forall|i: int| 0 <= i < a.len() implies same_delta(#[trigger] a[i], b[i]) by {
            assert(f(i) == g(i));
        }
    }
}

proof fn delta_sections(a: Seq<RowCountDeltaPlan>, x: Seq<u8>, b: Seq<RowCountDeltaPlan>, y: Seq<u8>)
    requires
        short_delta_list(a),
        short_delta_list(b),
        label_rank(x) > 8,
        label_rank(y) > 8,
    ensures
        label_rank(delta_bytes_section(a) + x) >= 8,
        delta_bytes_section(a) + x == delta_bytes_section(b) + y ==> same_delta_list(a, b) && x == y,
{
    let label = utf8("proofframe:compiled-plan:row-count-delta:v1\0"@);
    reveal_strlit("proofframe:compiled-plan:row-count-delta:v1\0");
    is_ascii_chars_encode_utf8("proofframe:compiled-plan:row-count-delta:v1\0"@);
    assert(label.len() >= 27 && label[25] == 'r' as u8 && label[26] == 'o' as u8);
    delta_lists(a, b);
    sections(8, label, a.len(), delta_bytes_list(a), x, b.len(), delta_bytes_list(b), y);
}

/// Whether every list and text of a dataset's rules fits its bytes.
pub open spec fn short_dataset(plan: DatasetPlan) -> bool {
    &&& short_ratio_list(plan.null_ratios@)
    &&& short_count_list(plan.distinct_counts@)
    &&& short_ratio_list(plan.distinct_ratios@)
    &&& short_composite_list(plan.composite_unique@)
    &&& short_reference_list(plan.references@)
    &&& short_monotonicity_list(plan.monotonicity@)
    &&& short_gap_list(plan.gap_detection@)
    &&& short_exclusive_list(plan.mutually_exclusive@)
    &&& short_sum_list(plan.sums@)
    &&& short_statistic_list(plan.statistics@)
    &&& short_conditional_list(plan.conditional_unique@)
    &&& short_delta_list(plan.row_count_delta@)
}

/// Whether two plans hold the same rules on a dataset.
pub open spec fn same_dataset(a: DatasetPlan, b: DatasetPlan) -> bool {
    &&& a.row_count == b.row_count
    &&& same_ratio_list(a.null_ratios@, b.null_ratios@)
    &&& same_count_list(a.distinct_counts@, b.distinct_counts@)
    &&& same_ratio_list(a.distinct_ratios@, b.distinct_ratios@)
    &&& same_composite_list(a.composite_unique@, b.composite_unique@)
    &&& same_later(a, b)
}

/// Whether two plans hold the same rules of the labelled kinds.
pub open spec fn same_later(a: DatasetPlan, b: DatasetPlan) -> bool {
    &&& same_reference_list(a.references@, b.references@)
    &&& same_monotonicity_list(a.monotonicity@, b.monotonicity@)
    &&& same_gap_list(a.gap_detection@, b.gap_detection@)
    &&& same_exclusive_list(a.mutually_exclusive@, b.mutually_exclusive@)
    &&& same_sum_list(a.sums@, b.sums@)
    &&& same_statistic_list(a.statistics@, b.statistics@)
    &&& same_conditional_list(a.conditional_unique@, b.conditional_unique@)
    &&& same_delta_list(a.row_count_delta@, b.row_count_delta@)
}

proof fn grouped(a: Seq<u8>, b: Seq<u8>, c: Seq<u8>)
    ensures
        a + b + c == a + (b + c),
{
    assert(a + b + c =~= a + (b + c));
}

spec fn last_two(plan: DatasetPlan) -> Seq<u8> {
    conditional_bytes_section(plan.conditional_unique@) + delta_bytes_section(plan.row_count_delta@)
}

spec fn last_four(plan: DatasetPlan) -> Seq<u8> {
    sum_bytes_section(plan.sums@) + (statistic_bytes_section(plan.statistics@) + last_two(plan))
}

spec fn last_six(plan: DatasetPlan) -> Seq<u8> {
    gap_bytes_section(plan.gap_detection@) + (exclusive_bytes_section(plan.mutually_exclusive@)
        + last_four(plan))
}

proof fn later_grouped(plan: DatasetPlan)
    ensures
        later_sections(plan) == reference_bytes_section(plan.references@) + (
        monotonicity_bytes_section(plan.monotonicity@) + last_six(plan)),
{
    let s1 = reference_bytes_section(plan.references@);
    let s2 = monotonicity_bytes_section(plan.monotonicity@);
    let s3 = gap_bytes_section(plan.gap_detection@);
    let s4 = exclusive_bytes_section(plan.mutually_exclusive@);
    let s5 = sum_bytes_section(plan.sums@);
    let s6 = statistic_bytes_section(plan.statistics@);
    let s7 = conditional_bytes_section(plan.conditional_unique@);
    let s8 = delta_bytes_section(plan.row_count_delta@);
    grouped(s1 + s2 + s3 + s4 + s5 + s6, s7, s8);
    grouped(s1 + s2 + s3 + s4 + s5, s6, last_two(plan));
    grouped(s1 + s2 + s3 + s4, s5, s6 + last_two(plan));
    grouped(s1 + s2 + s3, s4, last_four(plan));
    grouped(s1 + s2, s3, s4 + last_four(plan));
    grouped(s1, s2, last_six(plan));
}

proof fn last_two_apart(a: DatasetPlan, b: DatasetPlan)
    requires
        short_dataset(a),
        short_dataset(b),
    ensures
        label_rank(last_two(a)) >= 7,
        last_two(a) == last_two(b) ==> same_conditional_list(
            a.conditional_unique@,
            b.conditional_unique@,
        ) && same_delta_list(a.row_count_delta@, b.row_count_delta@),
{
    let none = Seq::<u8>::empty();
    let x = delta_bytes_section(a.row_count_delta@);
    let y = delta_bytes_section(b.row_count_delta@);
    delta_sections(a.row_count_delta@, none, b.row_count_delta@, none);
    delta_sections(b.row_count_delta@, none, a.row_count_delta@, none);
    assert(x + none =~= x);
    assert(y + none =~= y);
    conditional_sections(a.conditional_unique@, x, b.conditional_unique@, y);
}

proof fn last_four_apart(a: DatasetPlan, b: DatasetPlan)
    requires
        short_dataset(a),
        short_dataset(b),
    ensures
        label_rank(last_four(a)) >= 5,
        last_four(a) == last_four(b) ==> same_sum_list(a.sums@, b.sums@) && same_statistic_list(
            a.statistics@,
            b.statistics@,
        ) && last_two(a) == last_two(b),
{
    last_two_apart(a, b);
    last_two_apart(b, a);
    let x = statistic_bytes_section(a.statistics@) + last_two(a);
    let y = statistic_bytes_section(b.statistics@) + last_two(b);
    statistic_sections(a.statistics@, last_two(a), b.statistics@, last_two(b));
    statistic_sections(b.statistics@, last_two(b), a.statistics@, last_two(a));
    sum_sections(a.sums@, x, b.sums@, y);
}

proof fn last_six_apart(a: DatasetPlan, b: DatasetPlan)
    requires
        short_dataset(a),
        short_dataset(b),
    ensures
        label_rank(last_six(a)) >= 3,
        last_six(a) == last_six(b) ==> same_gap_list(a.gap_detection@, b.gap_detection@)
            && same_exclusive_list(a.mutually_exclusive@, b.mutually_exclusive@) && last_four(a)
            == last_four(b),
{
    last_four_apart(a, b);
    last_four_apart(b, a);
    let x = exclusive_bytes_section(a.mutually_exclusive@) + last_four(a);
    let y = exclusive_bytes_section(b.mutually_exclusive@) + last_four(b);
    exclusive_sections(a.mutually_exclusive@, last_four(a), b.mutually_exclusive@, last_four(b));
    exclusive_sections(b.mutually_exclusive@, last_four(b), a.mutually_exclusive@, last_four(a));
    gap_sections(a.gap_detection@, x, b.gap_detection@, y);
}

/// Plans with the same bytes for the labelled kinds hold the same rules of those kinds: a rule that
/// is absent from one is absent from the other.
pub proof fn later_bytes_tell_apart(a: DatasetPlan, b: DatasetPlan)
    requires
        short_dataset(a),
        short_dataset(b),
        later_sections(a) == later_sections(b),
    ensures
        same_later(a, b),
{
    later_grouped(a);
    later_grouped(b);
    last_six_apart(a, b);
    last_six_apart(b, a);
    let x = monotonicity_bytes_section(a.monotonicity@) + last_six(a);
    let y = monotonicity_bytes_section(b.monotonicity@) + last_six(b);
    monotonicity_sections(a.monotonicity@, last_six(a), b.monotonicity@, last_six(b));
    monotonicity_sections(b.monotonicity@, last_six(b), a.monotonicity@, last_six(a));
    reference_sections(a.references@, x, b.references@, y);
    last_four_apart(a, b);
    last_two_apart(a, b);
}

/// Dataset rules with the same bytes are the same rules in the same order.
pub proof fn dataset_bytes_tell_apart(a: DatasetPlan, b: DatasetPlan)
    requires
        short_dataset(a),
        short_dataset(b),
        dataset_bytes(a) == dataset_bytes(b),
    ensures
        same_dataset(a, b),
{
    let p0 = row_count_bytes(a.row_count);
    let q0 = row_count_bytes(b.row_count);
    row_counts(a.row_count, b.row_count);
    let p1 = ratio_bytes_list(a.null_ratios@);
    let q1 = ratio_bytes_list(b.null_ratios@);
    ratio_lists(a.null_ratios@, b.null_ratios@);
    let p2 = count_bytes_list(a.distinct_counts@);
    let q2 = count_bytes_list(b.distinct_counts@);
    count_lists(a.distinct_counts@, b.distinct_counts@);
    let p3 = ratio_bytes_list(a.distinct_ratios@);
    let q3 = ratio_bytes_list(b.distinct_ratios@);
    ratio_lists(a.distinct_ratios@, b.distinct_ratios@);
    let p4 = composite_bytes_list(a.composite_unique@);
    let q4 = composite_bytes_list(b.composite_unique@);
    composite_lists(a.composite_unique@, b.composite_unique@);
    three(p0, p1, p2, q0, q1, q2);
    three(p0 + p1 + p2, p3, p4, q0 + q1 + q2, q3, q4);
    behind(first_sections(a), later_sections(a), first_sections(b), later_sections(b));
    later_bytes_tell_apart(a, b);
}

} // verus!
