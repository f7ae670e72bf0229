//! What rules say of the values that cells hold.

use crate::contract::ast::{CompareOpAst, MonotonicDirectionAst, MonotonicNullPolicyAst, Spelling};
use crate::contract::bounds::{bound_of, TypedBound};
use crate::contract::dataset::{GapDetectionPlan, MonotonicityPlan};
use crate::contract::row::ScalarView;
use crate::contract::rules::{regex_matches, KernelKind, NaNPolicy, RulesView};
use crate::error::ErrorView;
use crate::execution::kernels::{
    above, below, beside, broken_rules, cell_findings, cell_nan, column_findings, text_of,
};
use crate::execution::ordering::{
    may_follow, place_of, precedes, same_kind, steps, trail, Place, Steps,
};
use crate::execution::row_kernels::{comparable, holds, literal_for, Comparable};
use crate::execution::validation::FindingView;
use crate::numbers::{nan32, nan64};
use crate::profile::agreement::{
    floats32_order_as_numbers, floats64_order_as_numbers, units32, units64,
};
use crate::text::{lex_less, utf8, utf8_injective};
use crate::value::{Cell, DataType, TimeUnit};
use vstd::prelude::*;

verus! {

/// The integer that a cell holds: a number, a date or an instant counted from the epoch, or the
/// digits of a decimal.
pub open spec fn whole(cell: Cell) -> Option<int> {
    match cell {
        Cell::Int8(v) => Some(v as int),
        Cell::Int16(v) => Some(v as int),
        Cell::Int32(v) => Some(v as int),
        Cell::Int64(v) => Some(v as int),
        Cell::UInt8(v) => Some(v as int),
        Cell::UInt16(v) => Some(v as int),
        Cell::UInt32(v) => Some(v as int),
        Cell::UInt64(v) => Some(v as int),
        Cell::Date32(v) => Some(v as int),
        Cell::Date64(v) => Some(v as int),
        Cell::Timestamp(_, v) => Some(v as int),
        Cell::Decimal128(v) => Some(v as int),
        _ => None,
    }
}

/// Whether a cell that is not null can stand in a column of a type with an order.
pub open spec fn of_type(cell: Cell, data_type: DataType) -> bool {
    match data_type {
        DataType::Int8 => cell is Int8,
        DataType::Int16 => cell is Int16,
        DataType::Int32 => cell is Int32,
        DataType::Int64 => cell is Int64,
        DataType::UInt8 => cell is UInt8,
        DataType::UInt16 => cell is UInt16,
        DataType::UInt32 => cell is UInt32,
        DataType::UInt64 => cell is UInt64,
        DataType::Date32 => cell is Date32,
        DataType::Date64 => cell is Date64,
        DataType::Timestamp(_, _) => cell is Timestamp,
        DataType::Decimal128(_, _) => cell is Decimal128,
        DataType::Float32 => cell is Float32,
        DataType::Float64 => cell is Float64,
        DataType::Utf8 => cell is Utf8,
        DataType::LargeUtf8 => cell is LargeUtf8,
        DataType::Utf8View => cell is Utf8View,
        DataType::Boolean => cell is Boolean,
        _ => false,
    }
}

/// The integer of a bound.
pub open spec fn bound_whole(bound: TypedBound) -> Option<int> {
    match bound {
        TypedBound::I64(v) => Some(v as int),
        TypedBound::U64(v) => Some(v as int),
        TypedBound::Decimal128 { value, .. } => Some(value as int),
        TypedBound::Timestamp { value, .. } => Some(value as int),
        _ => None,
    }
}

/// Whether the number of a cell is less than that of a bound: as integers, or as the numbers
/// that floats stand for.
pub open spec fn number_less(cell: Cell, bound: TypedBound) -> bool {
    match (cell, bound) {
        (Cell::Float32(v), TypedBound::F32(b)) => units32(v) < units32(b),
        (Cell::Float64(v), TypedBound::F64(b)) => units64(v) < units64(b),
        _ => whole(cell) matches Some(v) && bound_whole(bound) matches Some(b) && v < b,
    }
}

/// Whether the number of a cell is greater than that of a bound.
pub open spec fn number_greater(cell: Cell, bound: TypedBound) -> bool {
    match (cell, bound) {
        (Cell::Float32(v), TypedBound::F32(b)) => units32(v) > units32(b),
        (Cell::Float64(v), TypedBound::F64(b)) => units64(v) > units64(b),
        _ => whole(cell) matches Some(v) && bound_whole(bound) matches Some(b) && v > b,
    }
}

/// A bound that is read for the type of a column speaks of every number in it: the number of a
/// cell and that of the bound are compared.
pub proof fn bounds_speak_of_every_number(
    s: Spelling,
    data_type: DataType,
    shown: Seq<char>,
    path: Seq<char>,
    instant: Option<(i64, u32)>,
    days: Option<i64>,
    cell: Cell,
)
    requires
        bound_of(s, data_type, shown, path, instant, days) is Ok,
        of_type(cell, data_type),
        !cell_nan(cell),
    ensures
        ({
            let bound = bound_of(s, data_type, shown, path, instant, days)->Ok_0;
            &&& beside(cell, bound) is Some
            &&& !(data_type is Float32) && !(data_type is Float64) ==> whole(cell) is Some
                && bound_whole(bound) is Some && beside(cell, bound) == Some(
                (whole(cell).unwrap(), bound_whole(bound).unwrap()),
            )
            &&& below(cell, Some(bound)) <==> number_less(cell, bound)
            &&& above(cell, Some(bound)) <==> number_greater(cell, bound)
            &&& !below(cell, None) && !above(cell, None)
        }),
{
    match (cell, bound_of(s, data_type, shown, path, instant, days)->Ok_0) {
        (Cell::Float32(v), TypedBound::F32(b)) => {
            floats32_order_as_numbers(v, b);
            floats32_order_as_numbers(b, v);
        },
        (Cell::Float64(v), TypedBound::F64(b)) => {
            floats64_order_as_numbers(v, b);
            floats64_order_as_numbers(b, v);
        },
        _ => {},
    }
}

proof fn rule_names_differ()
    ensures
        "min"@ != "max"@,
        "min"@ != "pattern"@,
        "min"@ != "allowed"@,
        "max"@ != "pattern"@,
        "max"@ != "allowed"@,
        "pattern"@ != "allowed"@,
        "not_null"@ != "min"@,
        "not_null"@ != "max"@,
        "not_null"@ != "pattern"@,
        "not_null"@ != "allowed"@,
        "not_null"@ != "nan"@,
        "nan"@ != "min"@,
        "nan"@ != "max"@,
        "nan"@ != "pattern"@,
        "nan"@ != "allowed"@,
{
    reveal_strlit("min");
    reveal_strlit("max");
    reveal_strlit("nan");
    reveal_strlit("pattern");
    reveal_strlit("allowed");
    reveal_strlit("not_null");
    assert("min"@[1] == 'i' && "max"@[0] == 'm' && "max"@[1] == 'a' && "nan"@[0] == 'n');
    assert("min"@[0] == 'm' && "pattern"@[0] == 'p' && "allowed"@[0] == 'a');
    assert("min"@.len() == 3 && "max"@.len() == 3 && "nan"@.len() == 3);
    assert("not_null"@.len() == 8);
}

proof fn named_once(a: Seq<Seq<char>>, b: Seq<Seq<char>>, name: Seq<char>)
    ensures
        (a + b).contains(name) <==> a.contains(name) || b.contains(name),
{
    let c = a + b;
    if a.contains(name) {
        let i = choose|i: int| 0 <= i < a.len() && a[i] == name;
        assert(c[i] == name);
    }
    if b.contains(name) {
        let i = choose|i: int| 0 <= i < b.len() && b[i] == name;
        assert(c[a.len() + i] == name);
    }
    if c.contains(name) {
        let i = choose|i: int| 0 <= i < c.len() && c[i] == name;
        if i < a.len() {
            assert(a[i] == name);
        } else {
            assert(b[i - a.len()] == name);
        }
    }
}

proof fn named_when(condition: bool, name: Seq<char>, other: Seq<char>)
    ensures
        crate::execution::kernels::when(condition, name).contains(other) <==> condition && name == other,
{
    if condition {
        assert(crate::execution::kernels::when(condition, name)[0] == name);
    }
}

/// A value breaks exactly the rules that it should: the minimum where its number is less than
/// the bound, the maximum where it is greater, the pattern where its text does not match, and
/// the list where its text is not on it. A null breaks the rule against nulls and no other; so
/// does a float that is not a number with the rule against those.
pub proof fn cells_break_the_rules_they_should(
    rules: RulesView,
    cell: Cell,
    data_type: DataType,
    shown: Seq<char>,
    path: Seq<char>,
    min: Spelling,
    max: Spelling,
    instant: Option<(i64, u32)>,
    days: Option<i64>,
    name: Seq<char>,
)
    requires
        cell is Null || of_type(cell, data_type),
        rules.min matches Some(b) ==> bound_of(min, data_type, shown, path, instant, days) == Ok::<
            TypedBound,
            ErrorView,
        >(b),
        rules.max matches Some(b) ==> bound_of(max, data_type, shown, path, instant, days) == Ok::<
            TypedBound,
            ErrorView,
        >(b),
    ensures
        broken_rules(rules, cell).contains(name) <==> {
            let plain = !(cell is Null) && !cell_nan(cell);
            ||| name == "not_null"@ && cell is Null && rules.not_null
            ||| name == "nan"@ && cell_nan(cell) && rules.validate_nan && rules.nan
                == NaNPolicy::Reject
            ||| name == "min"@ && plain && (rules.min matches Some(b) && number_less(cell, b))
            ||| name == "max"@ && plain && (rules.max matches Some(b) && number_greater(cell, b))
            ||| name == "pattern"@ && (text_of(cell) matches Some(t) && rules.pattern matches Some(
                p,
            ) && !regex_matches(p, t))
            ||| name == "allowed"@ && (text_of(cell) matches Some(t) && rules.allowed matches Some(
                list,
            ) && !list.contains(t))
        },
{
    rule_names_differ();
    if cell is Null {
        if rules.not_null {
            assert(broken_rules(rules, cell)[0] == "not_null"@);
        }
    } else if cell_nan(cell) {
        if rules.validate_nan && rules.nan == NaNPolicy::Reject {
            assert(broken_rules(rules, cell)[0] == "nan"@);
        }
    } else {
        if rules.min is Some {
            bounds_speak_of_every_number(min, data_type, shown, path, instant, days, cell);
        }
        if rules.max is Some {
            bounds_speak_of_every_number(max, data_type, shown, path, instant, days, cell);
        }
        let p = text_of(cell) is Some && rules.pattern is Some && !regex_matches(
            rules.pattern.unwrap(),
            text_of(cell).unwrap(),
        );
        let l = text_of(cell) is Some && rules.allowed is Some
            && !rules.allowed.unwrap().contains(text_of(cell).unwrap());
        let a = crate::execution::kernels::when(below(cell, rules.min), "min"@);
        let b = crate::execution::kernels::when(above(cell, rules.max), "max"@);
        let c = crate::execution::kernels::when(p, "pattern"@);
        let d = crate::execution::kernels::when(l, "allowed"@);
        named_when(below(cell, rules.min), "min"@, name);
        named_when(above(cell, rules.max), "max"@, name);
        named_when(p, "pattern"@, name);
        named_when(l, "allowed"@, name);
        named_once(a, b, name);
        named_once(a + b, c, name);
        named_once(a + b + c, d, name);
        assert(broken_rules(rules, cell) == a + b + c + d);
    }
}

/// Text cells hold their texts, and other cells none.
pub proof fn texts_are_those_of_text_cells(cell: Cell)
    ensures
        cell matches Cell::Utf8(s) ==> text_of(cell) == Some(s@),
        cell matches Cell::LargeUtf8(s) ==> text_of(cell) == Some(s@),
        cell matches Cell::Utf8View(s) ==> text_of(cell) == Some(s@),
        text_of(cell) is Some ==> cell is Utf8 || cell is LargeUtf8 || cell is Utf8View,
{
}

/// The findings of a column are those of its cells: a rule is reported at a row exactly where
/// the cell of that row breaks it.
pub proof fn columns_are_found_row_by_row(
    rules: RulesView,
    column: Seq<char>,
    cells: Seq<Cell>,
    row_offset: int,
    n: nat,
    i: int,
    rule: Seq<char>,
)
    requires
        0 <= i < n <= cells.len(),
        0 <= row_offset,
        row_offset + cells.len() <= u64::MAX,
    ensures
        broken_rules(rules, cells[i]).contains(rule) <==> exists|k: int|
            0 <= k < column_findings(rules, column, cells, row_offset, n).len() && ({
                let f = #[trigger] column_findings(rules, column, cells, row_offset, n)[k];
                f.rule == rule && f.row == Some((row_offset + i) as u64) && f.column == column
            }),
    decreases n,
{
    let all = column_findings(rules, column, cells, row_offset, n);
    let rest = column_findings(rules, column, cells, row_offset, (n - 1) as nat);
    let last = cell_findings(rules, column, cells[n - 1], (row_offset + n - 1) as u64);
    let broken = broken_rules(rules, cells[n - 1]);
    assert(all == rest + last);
    assert forall|k: int| 0 <= k < last.len() implies (#[trigger] last[k]).rule == broken[k]
        && last[k].row == Some((row_offset + n - 1) as u64) && last[k].column == column by {}
    rows_lie_below(rules, column, cells, row_offset, (n - 1) as nat);
    if i < n - 1 {
        columns_are_found_row_by_row(rules, column, cells, row_offset, (n - 1) as nat, i, rule);
        if broken_rules(rules, cells[i]).contains(rule) {
            let k = choose|k: int|
                0 <= k < rest.len() && ({
                    let f = #[trigger] rest[k];
                    f.rule == rule && f.row == Some((row_offset + i) as u64) && f.column == column
                });
            assert(all[k] == rest[k]);
        }
        if exists|k: int|
            0 <= k < all.len() && ({
                let f = #[trigger] all[k];
                f.rule == rule && f.row == Some((row_offset + i) as u64) && f.column == column
            }) {
            let k = choose|k: int|
                0 <= k < all.len() && ({
                    let f = #[trigger] all[k];
                    f.rule == rule && f.row == Some((row_offset + i) as u64) && f.column == column
                });
            if k >= rest.len() {
                assert(all[k] == last[k - rest.len()]);
            } else {
                assert(all[k] == rest[k]);
            }
        }
    } else {
        if broken.contains(rule) {
            let k = choose|k: int| 0 <= k < broken.len() && broken[k] == rule;
            assert(all[rest.len() + k] == last[k]);
        }
        if exists|k: int|
            0 <= k < all.len() && ({
                let f = #[trigger] all[k];
                f.rule == rule && f.row == Some((row_offset + i) as u64) && f.column == column
            }) {
            let k = choose|k: int|
                0 <= k < all.len() && ({
                    let f = #[trigger] all[k];
                    f.rule == rule && f.row == Some((row_offset + i) as u64) && f.column == column
                });
            if k >= rest.len() {
                assert(all[k] == last[k - rest.len()]);
                assert(broken[k - rest.len()] == rule);
            } else {
                assert(all[k] == rest[k]);
            }
        }
    }
}

proof fn rows_lie_below(
    rules: RulesView,
    column: Seq<char>,
    cells: Seq<Cell>,
    row_offset: int,
    n: nat,
)
    requires
        n <= cells.len(),
        0 <= row_offset,
        row_offset + cells.len() <= u64::MAX,
    ensures
        forall|k: int|
            0 <= k < column_findings(rules, column, cells, row_offset, n).len() ==> ((
            #[trigger] column_findings(rules, column, cells, row_offset, n)[k]).row matches Some(r)
                && r < row_offset + n),
    decreases n,
{
    if n > 0 {
        rows_lie_below(rules, column, cells, row_offset, (n - 1) as nat);
        let rest = column_findings(rules, column, cells, row_offset, (n - 1) as nat);
        let last = cell_findings(rules, column, cells[n - 1], (row_offset + n - 1) as u64);
        let all = column_findings(rules, column, cells, row_offset, n);
        assert forall|k: int| 0 <= k < all.len() implies ((#[trigger] all[k]).row matches Some(r)
            && r < row_offset + n) by {
            if k < rest.len() {
                assert(all[k] == rest[k]);
            } else {
                assert(all[k] == last[k - rest.len()]);
            }
        }
    }
}

/// Whether an integer may follow another in a direction.
pub open spec fn in_direction(direction: MonotonicDirectionAst, a: int, b: int) -> bool {
    match direction {
        MonotonicDirectionAst::Increasing => a <= b,
        MonotonicDirectionAst::StrictlyIncreasing => a < b,
        MonotonicDirectionAst::Decreasing => a >= b,
        MonotonicDirectionAst::StrictlyDecreasing => a > b,
    }
}

/// Integers of one column follow each other in a direction exactly where their numbers do.
pub proof fn integers_follow_by_number(
    direction: MonotonicDirectionAst,
    data_type: DataType,
    a: Cell,
    b: Cell,
)
    requires
        of_type(a, data_type),
        of_type(b, data_type),
        whole(a) is Some,
    ensures
        place_of(a) is Some,
        place_of(b) is Some,
        same_kind(place_of(a).unwrap(), place_of(b).unwrap()),
        whole(b) is Some,
        may_follow(direction, place_of(a).unwrap(), place_of(b).unwrap()) <==> in_direction(
            direction,
            whole(a).unwrap(),
            whole(b).unwrap(),
        ),
{
}

/// Values of every kind follow each other in one direction exactly where, read backwards, they
/// do in the opposite one; and strictly where they do in one direction alone.
pub proof fn directions_are_opposite(a: Place, b: Place)
    requires
        same_kind(a, b),
    ensures
        may_follow(MonotonicDirectionAst::Decreasing, a, b) <==> may_follow(
            MonotonicDirectionAst::Increasing,
            b,
            a,
        ),
        may_follow(MonotonicDirectionAst::StrictlyDecreasing, a, b) <==> may_follow(
            MonotonicDirectionAst::StrictlyIncreasing,
            b,
            a,
        ),
        may_follow(MonotonicDirectionAst::StrictlyIncreasing, a, b) <==> !may_follow(
            MonotonicDirectionAst::Increasing,
            b,
            a,
        ),
        may_follow(MonotonicDirectionAst::Increasing, a, a),
        !may_follow(MonotonicDirectionAst::StrictlyIncreasing, a, a),
{
    match a {
        Place::Text(x) => {
            not_before_itself(x);
        },
        _ => {},
    }
}

proof fn not_before_itself(x: Seq<u8>)
    ensures
        !lex_less(x, x),
    decreases x.len(),
{
    if x.len() > 0 {
        not_before_itself(x.drop_first());
    }
}

/// One byte string comes before another exactly where it has the lesser byte at the first place
/// at which they differ, or is the beginning of the other.
pub proof fn texts_order_at_their_first_difference(a: Seq<u8>, b: Seq<u8>)
    ensures
        lex_less(a, b) <==> exists|k: int|
            #![trigger a.take(k), b.take(k)]
            0 <= k <= a.len() && k < b.len() && a.take(k) == b.take(k) && (k == a.len() || a[k]
                < b[k]),
    decreases a.len(),
{
    if b.len() > 0 && a.len() == 0 {
        assert(a.take(0) =~= b.take(0));
    } else if b.len() > 0 && a[0] != b[0] {
        assert(a.take(0) =~= b.take(0));
        if exists|k: int|
            #![trigger a.take(k), b.take(k)]
            0 <= k <= a.len() && k < b.len() && a.take(k) == b.take(k) && (k == a.len() || a[k]
                < b[k]) {
            let k = choose|k: int|
                #![trigger a.take(k), b.take(k)]
                0 <= k <= a.len() && k < b.len() && a.take(k) == b.take(k) && (k == a.len() || a[k]
                    < b[k]);
            if k > 0 {
                assert(a.take(k)[0] == b.take(k)[0]);
            }
        }
    } else if b.len() > 0 {
        let (x, y) = (a.drop_first(), b.drop_first());
        texts_order_at_their_first_difference(x, y);
        if lex_less(x, y) {
            let k = choose|k: int|
                #![trigger x.take(k), y.take(k)]
                0 <= k <= x.len() && k < y.len() && x.take(k) == y.take(k) && (k == x.len() || x[k]
                    < y[k]);
            assert(a.take(k + 1) =~= seq![a[0]] + x.take(k));
            assert(b.take(k + 1) =~= seq![b[0]] + y.take(k));
            assert(a.take(k + 1) == b.take(k + 1));
        }
        if exists|k: int|
            #![trigger a.take(k), b.take(k)]
            0 <= k <= a.len() && k < b.len() && a.take(k) == b.take(k) && (k == a.len() || a[k]
                < b[k]) {
            let k = choose|k: int|
                #![trigger a.take(k), b.take(k)]
                0 <= k <= a.len() && k < b.len() && a.take(k) == b.take(k) && (k == a.len() || a[k]
                    < b[k]);
            assert(k > 0);
            assert(a.take(k).drop_first() =~= x.take(k - 1));
            assert(b.take(k).drop_first() =~= y.take(k - 1));
        }
    }
}

/// Texts of a column are ordered as their bytes, and floats as the numbers that they stand for.
pub proof fn texts_and_floats_have_their_order(data_type: DataType, a: Cell, b: Cell)
    requires
        of_type(a, data_type),
        of_type(b, data_type),
    ensures
        text_of(a) is Some ==> place_of(a) == Some(Place::Text(utf8(text_of(a).unwrap())))
            && place_of(b) == Some(Place::Text(utf8(text_of(b).unwrap()))) && (precedes(
            place_of(a).unwrap(),
            place_of(b).unwrap(),
        ) <==> lex_less(utf8(text_of(a).unwrap()), utf8(text_of(b).unwrap()))),
        a matches Cell::Float64(x) ==> (b matches Cell::Float64(y) && (!nan64(x) && !nan64(y)
            && units64(x) < units64(y) ==> precedes(place_of(a).unwrap(), place_of(b).unwrap())
            && !precedes(place_of(b).unwrap(), place_of(a).unwrap()))),
        a matches Cell::Float32(x) ==> (b matches Cell::Float32(y) && (!nan32(x) && !nan32(y)
            && units32(x) < units32(y) ==> precedes(place_of(a).unwrap(), place_of(b).unwrap())
            && !precedes(place_of(b).unwrap(), place_of(a).unwrap()))),
        a matches Cell::Boolean(x) ==> (b matches Cell::Boolean(y) && (precedes(
            place_of(a).unwrap(),
            place_of(b).unwrap(),
        ) <==> !x && y)),
{
    match (a, b) {
        (Cell::Float64(x), Cell::Float64(y)) => {
            floats64_order_as_numbers(x, y);
        },
        (Cell::Float32(x), Cell::Float32(y)) => {
            floats32_order_as_numbers(x, y);
        },
        _ => {},
    }
}

proof fn integer_trail(
    plan: MonotonicityPlan,
    shown: Seq<char>,
    data_type: DataType,
    cells: Seq<Cell>,
    row_offset: int,
    n: nat,
)
    requires
        n <= cells.len(),
        0 <= row_offset,
        row_offset + cells.len() <= u64::MAX,
        forall|i: int|
            0 <= i < cells.len() ==> of_type(#[trigger] cells[i], data_type) && whole(cells[i])
                is Some,
    ensures
        ({
            let t = trail(plan, shown, cells, row_offset, None, n);
            &&& t.error is None
            &&& n > 0 ==> t.last == place_of(cells[n - 1])
            &&& n == 0 ==> t.last is None
            &&& forall|i: int|
                0 <= i < n ==> ((#[trigger] out_of_order(plan.direction, cells, i)) <==> exists|
                    k: int,
                |
                    0 <= k < t.findings.len() && #[trigger] t.findings[k].row == Some(
                        (row_offset + i) as u64,
                    ))
            &&& forall|k: int|
                0 <= k < t.findings.len() ==> ((#[trigger] t.findings[k]).row matches Some(r)
                    && r < row_offset + n)
        }),
    decreases n,
{
    if n > 0 {
        let m = (n - 1) as nat;
        integer_trail(plan, shown, data_type, cells, row_offset, m);
        let t = trail(plan, shown, cells, row_offset, None, m);
        let u = trail(plan, shown, cells, row_offset, None, n);
        assert(of_type(cells[n - 1], data_type));
        assert(whole(cells[n - 1]) is Some);
        integers_follow_by_number(plan.direction, data_type, cells[n - 1], cells[n - 1]);
        if n > 1 {
            assert(of_type(cells[n - 2], data_type));
            integers_follow_by_number(plan.direction, data_type, cells[n - 2], cells[n - 1]);
        }
        assert forall|i: int| 0 <= i < n implies ((#[trigger] out_of_order(
            plan.direction,
            cells,
            i,
        )) <==> exists|k: int|
            0 <= k < u.findings.len() && #[trigger] u.findings[k].row == Some(
                (row_offset + i) as u64,
            )) by {
            if i < m {
                if out_of_order(plan.direction, cells, i) {
                    let k = choose|k: int|
                        0 <= k < t.findings.len() && #[trigger] t.findings[k].row == Some(
                            (row_offset + i) as u64,
                        );
                    assert(u.findings[k] == t.findings[k]);
                }
                if exists|k: int|
                    0 <= k < u.findings.len() && #[trigger] u.findings[k].row == Some(
                        (row_offset + i) as u64,
                    ) {
                    let k = choose|k: int|
                        0 <= k < u.findings.len() && #[trigger] u.findings[k].row == Some(
                            (row_offset + i) as u64,
                        );
                    assert(k < t.findings.len());
                    assert(t.findings[k].row == u.findings[k].row);
                }
            } else {
                if out_of_order(plan.direction, cells, i) {
                    let k = t.findings.len() as int;
                    assert(u.findings[k].row == Some((row_offset + i) as u64));
                } else {
                    assert(u.findings == t.findings);
                }
            }
        }
    }
}

/// Whether an integer of a column may not follow the one before it.
pub open spec fn out_of_order(direction: MonotonicDirectionAst, cells: Seq<Cell>, i: int) -> bool {
    0 < i < cells.len() && !in_direction(
        direction,
        whole(cells[i - 1]).unwrap(),
        whole(cells[i]).unwrap(),
    )
}

/// A rule on the order of a column of integers reports a row exactly where its integer may not
/// follow the one of the row before.
pub proof fn rows_out_of_order_are_found(
    plan: MonotonicityPlan,
    shown: Seq<char>,
    data_type: DataType,
    cells: Seq<Cell>,
    row_offset: int,
    i: int,
)
    requires
        0 <= i < cells.len(),
        0 <= row_offset,
        row_offset + cells.len() <= u64::MAX,
        forall|i: int|
            0 <= i < cells.len() ==> of_type(#[trigger] cells[i], data_type) && whole(cells[i])
                is Some,
    ensures
        ({
            let t = trail(plan, shown, cells, row_offset, None, cells.len());
            &&& t.error is None
            &&& out_of_order(plan.direction, cells, i) <==> exists|k: int|
                0 <= k < t.findings.len() && #[trigger] t.findings[k].row == Some(
                    (row_offset + i) as u64,
                )
        }),
{
    integer_trail(plan, shown, data_type, cells, row_offset, cells.len());
    assert(out_of_order(plan.direction, cells, i) == out_of_order(plan.direction, cells, i));
}

proof fn pairs_in_order(direction: MonotonicDirectionAst, cells: Seq<Cell>, i: int, j: int)
    requires
        0 <= i < j < cells.len(),
        forall|k: int| 0 <= k < cells.len() ==> !#[trigger] out_of_order(direction, cells, k),
        forall|k: int| 0 <= k < cells.len() ==> whole(#[trigger] cells[k]) is Some,
    ensures
        in_direction(direction, whole(cells[i]).unwrap(), whole(cells[j]).unwrap()),
    decreases j,
{
    assert(!out_of_order(direction, cells, j));
    if i < j - 1 {
        pairs_in_order(direction, cells, i, j - 1);
    }
}

/// A rule on the order of a column of integers finds nothing exactly where every two of them, in
/// their order, are in its direction.
pub proof fn columns_in_order_pass(
    plan: MonotonicityPlan,
    shown: Seq<char>,
    data_type: DataType,
    cells: Seq<Cell>,
    row_offset: int,
)
    requires
        0 <= row_offset,
        row_offset + cells.len() <= u64::MAX,
        forall|i: int|
            0 <= i < cells.len() ==> of_type(#[trigger] cells[i], data_type) && whole(cells[i])
                is Some,
    ensures
        trail(plan, shown, cells, row_offset, None, cells.len()).findings.len() == 0 <==> forall|
            i: int,
            j: int,
        |
            #![trigger cells[i], cells[j]]
            0 <= i < j < cells.len() ==> in_direction(
                plan.direction,
                whole(cells[i]).unwrap(),
                whole(cells[j]).unwrap(),
            ),
{
    integer_trail(plan, shown, data_type, cells, row_offset, cells.len());
    let t = trail(plan, shown, cells, row_offset, None, cells.len());
    if t.findings.len() == 0 {
        assert forall|k: int| 0 <= k < cells.len() implies !#[trigger] out_of_order(
            plan.direction,
            cells,
            k,
        ) by {}
        assert forall|i: int, j: int|
            #![trigger cells[i], cells[j]]
            0 <= i < j < cells.len() implies in_direction(
            plan.direction,
            whole(cells[i]).unwrap(),
            whole(cells[j]).unwrap(),
        ) by {
            pairs_in_order(plan.direction, cells, i, j);
        }
    } else {
        found_rows_exist(plan, shown, data_type, cells, row_offset, cells.len());
        let i = choose|i: int|
            0 <= i < cells.len() && #[trigger] out_of_order(plan.direction, cells, i);
        assert(cells[i - 1] == cells[i - 1] && cells[i] == cells[i]);
    }
}

proof fn found_rows_exist(
    plan: MonotonicityPlan,
    shown: Seq<char>,
    data_type: DataType,
    cells: Seq<Cell>,
    row_offset: int,
    n: nat,
)
    requires
        n <= cells.len(),
        0 <= row_offset,
        row_offset + cells.len() <= u64::MAX,
        forall|i: int|
            0 <= i < cells.len() ==> of_type(#[trigger] cells[i], data_type) && whole(cells[i])
                is Some,
        trail(plan, shown, cells, row_offset, None, n).findings.len() > 0,
    ensures
        exists|i: int| 0 <= i < n && #[trigger] out_of_order(plan.direction, cells, i),
    decreases n,
{
    if n > 0 {
        let m = (n - 1) as nat;
        integer_trail(plan, shown, data_type, cells, row_offset, m);
        assert(of_type(cells[n - 1], data_type));
        if trail(plan, shown, cells, row_offset, None, m).findings.len() > 0 {
            found_rows_exist(plan, shown, data_type, cells, row_offset, m);
        } else {
            if n > 1 {
                assert(of_type(cells[n - 2], data_type));
                integers_follow_by_number(plan.direction, data_type, cells[n - 2], cells[n - 1]);
            }
            assert(out_of_order(plan.direction, cells, n - 1));
        }
    }
}

/// A null is never compared: under a rule that skips nulls it changes nothing, and under one
/// that rejects them it is reported at its row and the last value stays.
pub proof fn nulls_are_not_compared(
    plan: MonotonicityPlan,
    shown: Seq<char>,
    cells: Seq<Cell>,
    row_offset: int,
    last: Option<Place>,
    n: nat,
)
    requires
        n < cells.len(),
        cells[n as int] is Null,
        trail(plan, shown, cells, row_offset, last, n).error is None,
    ensures
        ({
            let t = trail(plan, shown, cells, row_offset, last, n);
            let u = trail(plan, shown, cells, row_offset, last, n + 1);
            &&& u.last == t.last
            &&& u.error is None
            &&& plan.nulls == MonotonicNullPolicyAst::Skip ==> u.findings == t.findings
            &&& plan.nulls == MonotonicNullPolicyAst::Reject ==> u.findings.len()
                == t.findings.len() + 1 && u.findings.drop_last() == t.findings
                && u.findings.last().row == Some((row_offset + n) as u64)
                && u.findings.last().column == plan.column@
        }),
{
    let t = trail(plan, shown, cells, row_offset, last, n);
    let u = trail(plan, shown, cells, row_offset, last, n + 1);
    if plan.nulls == MonotonicNullPolicyAst::Reject {
        assert(u.findings.drop_last() =~= t.findings);
    }
}

/// How many of the steps to the first `n` rows are too long; there is no step to the first.
pub open spec fn long_steps(long: Seq<bool>, n: nat) -> nat
    decreases n,
{
    if n <= 1 {
        0
    } else {
        long_steps(long, (n - 1) as nat) + if long[n - 1] {
            1nat
        } else {
            0nat
        }
    }
}

/// A rule on the steps of a column of integers counts the steps that are too long, and keeps the
/// row of the first of them.
pub proof fn long_steps_are_counted(
    plan: GapDetectionPlan,
    shown: Seq<char>,
    data_type: DataType,
    cells: Seq<Cell>,
    long: Seq<bool>,
    row_offset: int,
    n: nat,
)
    requires
        n <= cells.len() <= long.len(),
        0 <= row_offset,
        row_offset + cells.len() <= u64::MAX,
        forall|i: int|
            0 <= i < cells.len() ==> of_type(#[trigger] cells[i], data_type) && whole(cells[i])
                is Some,
    ensures
        ({
            let none = Steps {
                findings: Seq::empty(),
                last: None,
                gaps: 0,
                first_row: None,
                error: None,
            };
            let s = steps(none, plan, shown, cells, long, row_offset, n);
            &&& s.error is None
            &&& s.findings == Seq::<FindingView>::empty()
            &&& s.gaps == long_steps(long, n) <= n
            &&& n > 0 ==> s.last == place_of(cells[n - 1])
            &&& n == 0 ==> s.last is None
            &&& s.first_row is None <==> forall|i: int| 0 < i < n ==> !#[trigger] long[i]
            &&& s.first_row matches Some(r) ==> row_offset < r < row_offset + n && long[r
                - row_offset] && forall|i: int| 0 < i < r - row_offset ==> !#[trigger] long[i]
        }),
    decreases n,
{
    if n > 0 {
        long_steps_are_counted(plan, shown, data_type, cells, long, row_offset, (n - 1) as nat);
        assert(of_type(cells[n - 1], data_type));
        integers_follow_by_number(
            MonotonicDirectionAst::Increasing,
            data_type,
            cells[n - 1],
            cells[n - 1],
        );
        if n > 1 {
            assert(of_type(cells[n - 2], data_type));
            integers_follow_by_number(
                MonotonicDirectionAst::Increasing,
                data_type,
                cells[n - 2],
                cells[n - 1],
            );
        }
    }
}

/// Whether a comparison holds of two integers.
pub open spec fn holds_of(op: CompareOpAst, a: int, b: int) -> bool {
    match op {
        CompareOpAst::Eq => a == b,
        CompareOpAst::Ne => a != b,
        CompareOpAst::Lt => a < b,
        CompareOpAst::Lte => a <= b,
        CompareOpAst::Gt => a > b,
        CompareOpAst::Gte => a >= b,
    }
}

/// A comparison of integers holds exactly where it holds of their numbers.
pub proof fn integers_compare_by_number(op: CompareOpAst, a: Cell, b: Cell)
    requires
        whole(a) is Some,
        whole(b) is Some,
    ensures
        holds(op, comparable(a), comparable(b)) <==> holds_of(
            op,
            whole(a).unwrap(),
            whole(b).unwrap(),
        ),
{
}

/// Texts are equal where they are the same text, and compare as their bytes do.
pub proof fn texts_compare_by_bytes(op: CompareOpAst, a: Cell, b: Cell)
    requires
        text_of(a) is Some,
        text_of(b) is Some,
    ensures
        ({
            let (x, y) = (text_of(a).unwrap(), text_of(b).unwrap());
            holds(op, comparable(a), comparable(b)) <==> match op {
                CompareOpAst::Eq => x == y,
                CompareOpAst::Ne => x != y,
                CompareOpAst::Lt => lex_less(utf8(x), utf8(y)),
                CompareOpAst::Lte => lex_less(utf8(x), utf8(y)) || x == y,
                CompareOpAst::Gt => lex_less(utf8(y), utf8(x)),
                CompareOpAst::Gte => lex_less(utf8(y), utf8(x)) || x == y,
            }
        }),
{
    let (x, y) = (text_of(a).unwrap(), text_of(b).unwrap());
    if utf8(x) == utf8(y) {
        utf8_injective(x, y);
    }
}

/// Floats compare as the numbers that they stand for; one that is not a number is equal to
/// nothing, less than nothing and greater than nothing.
pub proof fn floats_compare_by_number(op: CompareOpAst, a: Cell, b: Cell)
    ensures
        a matches Cell::Float64(x) ==> (b matches Cell::Float64(y) ==> (holds(
            op,
            comparable(a),
            comparable(b),
        ) <==> if nan64(x) || nan64(y) {
            op == CompareOpAst::Ne
        } else {
            holds_of(op, units64(x), units64(y))
        })),
        a matches Cell::Float32(x) ==> (b matches Cell::Float32(y) ==> (holds(
            op,
            comparable(a),
            comparable(b),
        ) <==> if nan32(x) || nan32(y) {
            op == CompareOpAst::Ne
        } else {
            holds_of(op, units32(x), units32(y))
        })),
        a matches Cell::Boolean(x) ==> (b matches Cell::Boolean(y) ==> (holds(
            op,
            comparable(a),
            comparable(b),
        ) <==> match op {
            CompareOpAst::Eq => x == y,
            CompareOpAst::Ne => x != y,
            CompareOpAst::Lt => !x && y,
            CompareOpAst::Lte => !x || y,
            CompareOpAst::Gt => x && !y,
            CompareOpAst::Gte => x || !y,
        })),
{
    match (a, b) {
        (Cell::Float64(x), Cell::Float64(y)) => {
            floats64_order_as_numbers(x, y);
            floats64_order_as_numbers(y, x);
        },
        (Cell::Float32(x), Cell::Float32(y)) => {
            floats32_order_as_numbers(x, y);
            floats32_order_as_numbers(y, x);
        },
        _ => {},
    }
}

/// A literal that lies in the domain of a column is compared as the number, the text or the
/// truth value that it is.
pub proof fn literals_keep_their_value(v: i64, u: u64, t: Seq<char>, b: bool)
    ensures
        i8::MIN <= v <= i8::MAX ==> literal_for(KernelKind::I8, ScalarView::I64(v)) == Some(
            Comparable::Int(v as int),
        ),
        i16::MIN <= v <= i16::MAX ==> literal_for(KernelKind::I16, ScalarView::I64(v)) == Some(
            Comparable::Int(v as int),
        ),
        i32::MIN <= v <= i32::MAX ==> literal_for(KernelKind::I32, ScalarView::I64(v)) == Some(
            Comparable::Int(v as int),
        ) && literal_for(KernelKind::Date32, ScalarView::I64(v)) == Some(Comparable::Int(v as int)),
        literal_for(KernelKind::I64, ScalarView::I64(v)) == Some(Comparable::Int(v as int)),
        literal_for(KernelKind::Date64, ScalarView::I64(v)) == Some(Comparable::Int(v as int)),
        u <= u8::MAX ==> literal_for(KernelKind::U8, ScalarView::U64(u)) == Some(
            Comparable::Int(u as int),
        ),
        u <= u16::MAX ==> literal_for(KernelKind::U16, ScalarView::U64(u)) == Some(
            Comparable::Int(u as int),
        ),
        u <= u32::MAX ==> literal_for(KernelKind::U32, ScalarView::U64(u)) == Some(
            Comparable::Int(u as int),
        ),
        literal_for(KernelKind::U64, ScalarView::U64(u)) == Some(Comparable::Int(u as int)),
        literal_for(KernelKind::Utf8, ScalarView::Text(t)) == Some(Comparable::Text(utf8(t))),
        literal_for(KernelKind::LargeUtf8, ScalarView::Text(t)) == Some(Comparable::Text(utf8(t))),
        literal_for(KernelKind::Utf8View, ScalarView::Text(t)) == Some(Comparable::Text(utf8(t))),
        literal_for(KernelKind::Boolean, ScalarView::Boolean(b)) == comparable(Cell::Boolean(b)),
{
}

/// A literal of floats or instants is compared as the number in the width of its column, and an
/// integer that its column cannot hold is compared as the one that it wraps to.
pub proof fn literals_take_the_width_of_their_column(
    v: i64,
    u: u64,
    bits: u64,
    narrow: u32,
    unit: TimeUnit,
)
    ensures
        literal_for(KernelKind::F64, ScalarView::F64 { bits, narrow }) == comparable(
            Cell::Float64(bits),
        ),
        literal_for(KernelKind::F32, ScalarView::F64 { bits, narrow }) == comparable(
            Cell::Float32(narrow),
        ),
        literal_for(KernelKind::Timestamp(unit), ScalarView::I64(v)) == Some(
            Comparable::Int(v as int),
        ),
        literal_for(KernelKind::I8, ScalarView::I64(v)) matches Some(Comparable::Int(w))
            && i8::MIN <= w <= i8::MAX && (w - v) % 0x100 == 0,
        literal_for(KernelKind::I16, ScalarView::I64(v)) matches Some(Comparable::Int(w))
            && i16::MIN <= w <= i16::MAX && (w - v) % 0x1_0000 == 0,
        literal_for(KernelKind::I32, ScalarView::I64(v)) matches Some(Comparable::Int(w))
            && i32::MIN <= w <= i32::MAX && (w - v) % 0x1_0000_0000 == 0,
        literal_for(KernelKind::U8, ScalarView::U64(u)) matches Some(Comparable::Int(w)) && 0 <= w
            <= u8::MAX && (w - u) % 0x100 == 0,
        literal_for(KernelKind::U16, ScalarView::U64(u)) matches Some(Comparable::Int(w)) && 0 <= w
            <= u16::MAX && (w - u) % 0x1_0000 == 0,
        literal_for(KernelKind::U32, ScalarView::U64(u)) matches Some(Comparable::Int(w)) && 0 <= w
            <= u32::MAX && (w - u) % 0x1_0000_0000 == 0,
{
}

} // verus!
