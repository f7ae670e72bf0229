//! Plans with the same bytes: they check the same columns, rows and dataset by the same rules.

use crate::bytes::{concat_of, le, le_len, span};
use crate::contract::ast::ContractVersion;
use crate::contract::compile::{ColumnPlan, CompiledContract};
use crate::contract::dataset_identity::{dataset_bytes_tell_apart, same_dataset, short_dataset};
use crate::contract::plan_digest::{
    column_bytes, column_bytes_each, columns_stream, compare_bytes, dataset_bytes, first_sections,
    kernel_bytes, part, plan_stream, row_bytes, row_bytes_each, row_count_bytes, rules_bytes,
};
use crate::contract::plan_identity::{
    as_long, behind, compare_bytes_tell_apart, kernel_bytes_tell_apart, labelled, parted, parts,
    rules_bytes_tell_apart, same_compare, short, short_compare, short_rules, tags, three, two,
    words,
};
use crate::contract::row::{RowPlan, RowView};
use crate::digest::blake3_digest;
use crate::text::utf8;
use vstd::prelude::*;
use vstd::utf8::is_ascii_chars_encode_utf8;

verus! {

proof fn top_byte(v: nat, width: nat)
    requires
        0 < width,
        v < span((width - 1) as nat),
    ensures
        le(v, width).len() == width,
        le(v, width)[width - 1] == 0,
    decreases width,
{
    le_len(v, width);
    if width > 1 {
        let rest = (width - 1) as nat;
        assert(span(rest) == 256 * span((rest - 1) as nat));
        assert(v / 256 < span((rest - 1) as nat));
        top_byte(v / 256, rest);
        assert(le(v, width)[width - 1] == le(v / 256, rest)[rest - 1]);
    } else {
        assert(v == 0);
        reveal_with_fuel(le, 2);
    }
}

proof fn numbers_are_no_labels(v: nat, x: Seq<u8>)
    requires
        v < span(7),
    ensures
        !labelled(le(v, 8) + x),
{
    top_byte(v, 8);
    assert((le(v, 8) + x)[7] == 0);
}

proof fn seven_fits(v: nat)
    requires
        v < span(7),
    ensures
        v < span(8),
{
    reveal_with_fuel(span, 9);
}

/// Whether the position, the name and the rules of a column fit their bytes.
pub open spec fn short_column(plan: ColumnPlan) -> bool {
    plan.column_index < span(7) && short(plan.field@) && short_rules(plan.rules@)
}

/// Whether two columns are the same column under the same rules.
pub open spec fn same_column(a: ColumnPlan, b: ColumnPlan) -> bool {
    &&& a.column_index == b.column_index
    &&& a.field@ == b.field@
    &&& a.kernel == b.kernel
    &&& a.rules@ == b.rules@
}

/// Columns with the same bytes are the same column under the same rules, whatever stands behind
/// them that is no label.
pub proof fn column_bytes_tell_apart(a: ColumnPlan, x: Seq<u8>, b: ColumnPlan, y: Seq<u8>)
    requires
        short_column(a),
        short_column(b),
        !labelled(x),
        !labelled(y),
        column_bytes(a) + x == column_bytes(b) + y,
    ensures
        same_column(a, b),
        x == y,
{
    let p = le(a.column_index as nat, 8) + part(a.field@) + kernel_bytes(a.kernel);
    let q = le(b.column_index as nat, 8) + part(b.field@) + kernel_bytes(b.kernel);
    seven_fits(a.column_index as nat);
    seven_fits(b.column_index as nat);
    words(a.column_index as nat, b.column_index as nat);
    parts(a.field@, b.field@);
    kernel_bytes_tell_apart(a.kernel, b.kernel);
    three(
        le(a.column_index as nat, 8),
        part(a.field@),
        kernel_bytes(a.kernel),
        le(b.column_index as nat, 8),
        part(b.field@),
        kernel_bytes(b.kernel),
    );
    assert(column_bytes(a) + x =~= p + (rules_bytes(a.rules@) + x));
    assert(column_bytes(b) + y =~= q + (rules_bytes(b.rules@) + y));
    behind(p, rules_bytes(a.rules@) + x, q, rules_bytes(b.rules@) + y);
    rules_bytes_tell_apart(a.rules@, x, b.rules@, y);
}

proof fn column_is_no_label(a: ColumnPlan, x: Seq<u8>)
    requires
        short_column(a),
    ensures
        !labelled(column_bytes(a) + x),
{
    let rest = part(a.field@) + kernel_bytes(a.kernel) + rules_bytes(a.rules@) + x;
    assert(column_bytes(a) + x =~= le(a.column_index as nat, 8) + rest);
    numbers_are_no_labels(a.column_index as nat, rest);
}

proof fn columns_apart(
    a: Seq<ColumnPlan>,
    x: Seq<u8>,
    b: Seq<ColumnPlan>,
    y: Seq<u8>,
    n: nat,
)
    requires
        n <= a.len(),
        n <= b.len(),
        forall|i: int| 0 <= i < n ==> short_column(#[trigger] a[i]),
        forall|i: int| 0 <= i < n ==> short_column(#[trigger] b[i]),
        !labelled(x),
        !labelled(y),
        concat_of(n, column_bytes_each(a)) + x == concat_of(n, column_bytes_each(b)) + y,
    ensures
        forall|i: int| 0 <= i < n ==> same_column(#[trigger] a[i], b[i]),
        x == y,
    decreases n,
{
    if n == 0 {
        assert(concat_of(n, column_bytes_each(a)) + x =~= x);
        assert(concat_of(n, column_bytes_each(b)) + y =~= y);
    } else {
        let m = (n - 1) as nat;
        let p = column_bytes(a[n - 1]) + x;
        let q = column_bytes(b[n - 1]) + y;
        assert(concat_of(n, column_bytes_each(a)) + x =~= concat_of(m, column_bytes_each(a)) + p);
        assert(concat_of(n, column_bytes_each(b)) + y =~= concat_of(m, column_bytes_each(b)) + q);
        column_is_no_label(a[n - 1], x);
        column_is_no_label(b[n - 1], y);
        columns_apart(a, p, b, q, m);
        column_bytes_tell_apart(a[n - 1], x, b[n - 1], y);
    }
}

/// Whether the numbers and texts of a row rule fit their bytes.
pub open spec fn short_row(plan: RowView) -> bool {
    match plan {
        RowView::Compare { name, compare } => short(name) && short_compare(compare),
        RowView::Conditional { name, predicate, column, field, assertion, .. } => short(name)
            && short_compare(predicate) && 0 <= column < span(7) && short(field) && short_rules(
            assertion,
        ),
    }
}

/// Whether two row rules ask the same of the same columns.
pub open spec fn same_row(a: RowView, b: RowView) -> bool {
    match (a, b) {
        (
            RowView::Compare { name: m, compare: c },
            RowView::Compare { name: n, compare: d },
        ) => m == n && same_compare(c, d),
        (
            RowView::Conditional {
                name: m,
                predicate: c,
                column: i,
                field: f,
                assertion: r,
                ..
            },
            RowView::Conditional {
                name: n,
                predicate: d,
                column: j,
                field: g,
                assertion: s,
                ..
            },
        ) => m == n && same_compare(c, d) && i == j && f == g && r == s,
        _ => false,
    }
}

spec fn row_tail(plan: RowView) -> (u8, Seq<u8>) {
    match plan {
        RowView::Compare { name, compare } => (0, compare_bytes(compare)),
        RowView::Conditional { name, predicate, column, field, assertion, .. } => (
            1,
            compare_bytes(predicate) + le(column as nat, 8) + part(field) + rules_bytes(assertion),
        ),
    }
}

spec fn row_name(plan: RowView) -> Seq<char> {
    match plan {
        RowView::Compare { name, .. } => name,
        RowView::Conditional { name, .. } => name,
    }
}

proof fn row_parts(plan: RowView, x: Seq<u8>)
    ensures
        row_bytes(plan) + x == (part(row_name(plan)) + seq![row_tail(plan).0]) + (row_tail(plan).1
            + x),
{
    assert(row_bytes(plan) + x =~= (part(row_name(plan)) + seq![row_tail(plan).0]) + (row_tail(
        plan,
    ).1 + x));
}

/// Row rules with the same bytes ask the same of the same columns, whatever stands behind them
/// that is no label.
pub proof fn row_bytes_tell_apart(a: RowView, x: Seq<u8>, b: RowView, y: Seq<u8>)
    requires
        short_row(a),
        short_row(b),
        !labelled(x),
        !labelled(y),
        row_bytes(a) + x == row_bytes(b) + y,
    ensures
        same_row(a, b),
        x == y,
{
    row_parts(a, x);
    row_parts(b, y);
    let (s, l) = row_tail(a);
    let (t, r) = row_tail(b);
    parts(row_name(a), row_name(b));
    tags(s, t);
    two(part(row_name(a)), seq![s], part(row_name(b)), seq![t]);
    behind(part(row_name(a)) + seq![s], l + x, part(row_name(b)) + seq![t], r + y);
    match (a, b) {
        (RowView::Compare { compare: c, .. }, RowView::Compare { compare: d, .. }) => {
            compare_bytes_tell_apart(c, d);
            behind(compare_bytes(c), x, compare_bytes(d), y);
        },
        (
            RowView::Conditional { predicate: c, column: i, field: f, assertion: v, .. },
            RowView::Conditional { predicate: d, column: j, field: g, assertion: w, .. },
        ) => {
            let p = compare_bytes(c) + le(i as nat, 8) + part(f);
            let q = compare_bytes(d) + le(j as nat, 8) + part(g);
            compare_bytes_tell_apart(c, d);
            seven_fits(i as nat);
            seven_fits(j as nat);
            words(i as nat, j as nat);
            parts(f, g);
            three(
                compare_bytes(c),
                le(i as nat, 8),
                part(f),
                compare_bytes(d),
                le(j as nat, 8),
                part(g),
            );
            assert(l + x =~= p + (rules_bytes(v) + x));
            assert(r + y =~= q + (rules_bytes(w) + y));
            behind(p, rules_bytes(v) + x, q, rules_bytes(w) + y);
            rules_bytes_tell_apart(v, x, w, y);
        },
        _ => {},
    }
}

proof fn row_is_no_label(a: RowView, x: Seq<u8>)
    requires
        short_row(a),
    ensures
        !labelled(row_bytes(a) + x),
{
    row_parts(a, x);
    let n = utf8(row_name(a)).len();
    let rest = utf8(row_name(a)) + seq![row_tail(a).0] + (row_tail(a).1 + x);
    assert(row_bytes(a) + x =~= le(n, 8) + rest);
    numbers_are_no_labels(n, rest);
}

proof fn rows_apart(a: Seq<RowPlan>, x: Seq<u8>, b: Seq<RowPlan>, y: Seq<u8>, n: nat)
    requires
        n <= a.len(),
        n <= b.len(),
        forall|i: int| 0 <= i < n ==> short_row((#[trigger] a[i])@),
        forall|i: int| 0 <= i < n ==> short_row((#[trigger] b[i])@),
        !labelled(x),
        !labelled(y),
        concat_of(n, row_bytes_each(a)) + x == concat_of(n, row_bytes_each(b)) + y,
    ensures
        forall|i: int| 0 <= i < n ==> same_row((#[trigger] a[i])@, b[i]@),
        x == y,
    decreases n,
{
    if n == 0 {
        assert(concat_of(n, row_bytes_each(a)) + x =~= x);
        assert(concat_of(n, row_bytes_each(b)) + y =~= y);
    } else {
        let m = (n - 1) as nat;
        let p = row_bytes(a[n - 1]@) + x;
        let q = row_bytes(b[n - 1]@) + y;
        assert(concat_of(n, row_bytes_each(a)) + x =~= concat_of(m, row_bytes_each(a)) + p);
        assert(concat_of(n, row_bytes_each(b)) + y =~= concat_of(m, row_bytes_each(b)) + q);
        row_is_no_label(a[n - 1]@, x);
        row_is_no_label(b[n - 1]@, y);
        rows_apart(a, p, b, q, m);
        row_bytes_tell_apart(a[n - 1]@, x, b[n - 1]@, y);
    }
}

/// Whether the numbers, texts and lists of a plan fit their bytes.
pub open spec fn short_plan(plan: CompiledContract) -> bool {
    &&& plan.max_findings < span(7)
    &&& plan.row_plans@.len() < span(7)
    &&& forall|i: int| 0 <= i < plan.columns@.len() ==> short_column(#[trigger] plan.columns@[i])
    &&& forall|i: int| 0 <= i < plan.row_plans@.len() ==> short_row((#[trigger] plan.row_plans@[i])@)
    &&& short_dataset(plan.dataset_plan)
}

/// Whether two plans check the same columns by the same rules, and keep as many findings.
pub open spec fn same_columns_checked(a: CompiledContract, b: CompiledContract) -> bool {
    &&& a.max_findings == b.max_findings
    &&& a.columns@.len() == b.columns@.len()
    &&& forall|i: int|
        0 <= i < a.columns@.len() ==> same_column(#[trigger] a.columns@[i], b.columns@[i])
}

proof fn columns_streams_apart(
    a: CompiledContract,
    s: Seq<u8>,
    x: Seq<u8>,
    b: CompiledContract,
    t: Seq<u8>,
    y: Seq<u8>,
)
    requires
        short_plan(a),
        short_plan(b),
        a.columns@.len() == b.columns@.len(),
        blake3_digest(s).len() == 32,
        blake3_digest(t).len() == 32,
        !labelled(x),
        !labelled(y),
        columns_stream(a, s) + x == columns_stream(b, t) + y,
    ensures
        blake3_digest(s) == blake3_digest(t),
        same_columns_checked(a, b),
        x == y,
{
    let n = a.columns@.len();
    let c = concat_of(n, column_bytes_each(a.columns@)) + x;
    let d = concat_of(n, column_bytes_each(b.columns@)) + y;
    let p = blake3_digest(s) + le(a.max_findings as nat, 8);
    let q = blake3_digest(t) + le(b.max_findings as nat, 8);
    as_long(blake3_digest(s), blake3_digest(t));
    seven_fits(a.max_findings as nat);
    seven_fits(b.max_findings as nat);
    words(a.max_findings as nat, b.max_findings as nat);
    two(
        blake3_digest(s),
        le(a.max_findings as nat, 8),
        blake3_digest(t),
        le(b.max_findings as nat, 8),
    );
    assert(columns_stream(a, s) + x =~= p + c);
    assert(columns_stream(b, t) + y =~= q + d);
    behind(p, c, q, d);
    columns_apart(a.columns@, x, b.columns@, y, n);
}

proof fn version_labels()
    ensures
        parted(utf8("proofframe:compiled-plan:v1\0"@), utf8("proofframe:compiled-plan:v2\0"@)),
        utf8("proofframe:compiled-plan:v1\0"@).len() == utf8("proofframe:compiled-plan:v2\0"@).len(),
        utf8("proofframe:compiled-plan:v1\0"@) != utf8("proofframe:compiled-plan:v2\0"@),
{
    let a = utf8("proofframe:compiled-plan:v1\0"@);
    let b = utf8("proofframe:compiled-plan:v2\0"@);
    reveal_strlit("proofframe:compiled-plan:v1\0");
    reveal_strlit("proofframe:compiled-plan:v2\0");
    is_ascii_chars_encode_utf8("proofframe:compiled-plan:v1\0"@);
    is_ascii_chars_encode_utf8("proofframe:compiled-plan:v2\0"@);
    assert(a.len() == b.len());
    as_long(a, b);
    assert(a[26] != b[26]);
}

proof fn dataset_is_no_label(plan: CompiledContract)
    ensures
        !labelled(dataset_bytes(plan.dataset_plan)),
{
    let d = plan.dataset_plan;
    assert(row_count_bytes(d.row_count).len() > 0);
    assert(row_count_bytes(d.row_count)[0] < 2);
    assert(first_sections(d)[0] == row_count_bytes(d.row_count)[0]);
    assert(dataset_bytes(d)[0] == first_sections(d)[0]);
}

spec fn version_label(plan: CompiledContract) -> Seq<u8> {
    match plan.version {
        ContractVersion::V1 => utf8("proofframe:compiled-plan:v1\0"@),
        ContractVersion::V2 => utf8("proofframe:compiled-plan:v2\0"@),
    }
}

spec fn rows_and_dataset(plan: CompiledContract) -> Seq<u8> {
    concat_of(plan.row_plans@.len(), row_bytes_each(plan.row_plans@)) + dataset_bytes(
        plan.dataset_plan,
    )
}

spec fn plan_tail(plan: CompiledContract) -> Seq<u8> {
    match plan.version {
        ContractVersion::V1 => Seq::empty(),
        ContractVersion::V2 => le(plan.row_plans@.len(), 8) + rows_and_dataset(plan),
    }
}

proof fn five_grouped(a: Seq<u8>, b: Seq<u8>, c: Seq<u8>, d: Seq<u8>, e: Seq<u8>)
    ensures
        a + b + c + d + e == a + (b + (c + (d + e))),
        a + b == a + (b + Seq::<u8>::empty()),
{
    assert(a + b + c + d + e =~= a + (b + (c + (d + e))));
    assert(a + b =~= a + (b + Seq::<u8>::empty()));
}

proof fn plan_parts(plan: CompiledContract, s: Seq<u8>)
    ensures
        plan_stream(plan, s) == version_label(plan) + (columns_stream(plan, s) + plan_tail(plan)),
{
    five_grouped(
        version_label(plan),
        columns_stream(plan, s),
        le(plan.row_plans@.len(), 8),
        concat_of(plan.row_plans@.len(), row_bytes_each(plan.row_plans@)),
        dataset_bytes(plan.dataset_plan),
    );
}

proof fn tail_is_no_label(plan: CompiledContract)
    requires
        short_plan(plan),
    ensures
        !labelled(plan_tail(plan)),
{
    numbers_are_no_labels(plan.row_plans@.len(), rows_and_dataset(plan));
}

proof fn tails_apart(a: CompiledContract, b: CompiledContract)
    requires
        short_plan(a),
        short_plan(b),
        a.version == ContractVersion::V2,
        b.version == ContractVersion::V2,
        plan_tail(a) == plan_tail(b),
    ensures
        a.row_plans@.len() == b.row_plans@.len(),
        same_dataset(a.dataset_plan, b.dataset_plan),
        forall|i: int|
            0 <= i < a.row_plans@.len() ==> same_row((#[trigger] a.row_plans@[i])@, b.row_plans@[i]@),
{
    let m = a.row_plans@.len();
    let n = b.row_plans@.len();
    seven_fits(m);
    seven_fits(n);
    words(m, n);
    behind(le(m, 8), rows_and_dataset(a), le(n, 8), rows_and_dataset(b));
    dataset_is_no_label(a);
    dataset_is_no_label(b);
    rows_apart(
        a.row_plans@,
        dataset_bytes(a.dataset_plan),
        b.row_plans@,
        dataset_bytes(b.dataset_plan),
        m,
    );
    dataset_bytes_tell_apart(a.dataset_plan, b.dataset_plan);
}

/// Plans of as many columns with the same bytes are of one version, stand on schemas of one
/// digest, and hold the same rules: on columns and, in version 2, on rows and on the dataset. A
/// changed rule changes the bytes of which the digest of a plan is taken.
pub proof fn plan_bytes_tell_apart(
    a: CompiledContract,
    s: Seq<u8>,
    b: CompiledContract,
    t: Seq<u8>,
)
    requires
        short_plan(a),
        short_plan(b),
        a.columns@.len() == b.columns@.len(),
        blake3_digest(s).len() == 32,
        blake3_digest(t).len() == 32,
        plan_stream(a, s) == plan_stream(b, t),
    ensures
        a.version == b.version,
        blake3_digest(s) == blake3_digest(t),
        same_columns_checked(a, b),
        a.version == ContractVersion::V2 ==> a.row_plans@.len() == b.row_plans@.len()
            && same_dataset(a.dataset_plan, b.dataset_plan) && forall|i: int|
            0 <= i < a.row_plans@.len() ==> same_row((#[trigger] a.row_plans@[i])@, b.row_plans@[i]@),
{
    plan_parts(a, s);
    plan_parts(b, t);
    let v = version_label(a);
    let w = version_label(b);
    let x = plan_tail(a);
    let y = plan_tail(b);
    version_labels();
    as_long(v, w);
    behind(v, columns_stream(a, s) + x, w, columns_stream(b, t) + y);
    assert(a.version == b.version);
    tail_is_no_label(a);
    tail_is_no_label(b);
    columns_streams_apart(a, s, x, b, t, y);
    if a.version == ContractVersion::V2 {
        tails_apart(a, b);
    }
}

} // verus!
