//! Rules of one column, applied to its cells.

use crate::contract::bounds::TypedBound;
use crate::contract::compile::ColumnPlan;
use crate::contract::rules::{regex_is_match, regex_matches, CompiledRules, NaNPolicy, RulesView};
use crate::execution::validation::{
    recorded_all, recorded_in_parts, Finding, FindingView, ValidationState,
};
use crate::numbers::{
    is_nan32, is_nan64, key32, key64, nan32, nan64, order_key32, order_key64,
};
use crate::text::{str_in, text};
use crate::value::Cell;
use vstd::prelude::*;

verus! {

/// The text of a cell, where it is text.
pub open spec fn text_of(cell: Cell) -> Option<Seq<char>> {
    match cell {
        Cell::Utf8(s) => Some(s@),
        Cell::LargeUtf8(s) => Some(s@),
        Cell::Utf8View(s) => Some(s@),
        _ => None,
    }
}

/// The text of a cell, where it is text.
pub fn cell_text(cell: &Cell) -> (r: Option<&str>)
    ensures
        match text_of(*cell) {
            Some(t) => r matches Some(s) && s@ == t,
            None => r is None,
        },
{
    match cell {
        Cell::Utf8(s) => Some(s.as_str()),
        Cell::LargeUtf8(s) => Some(s.as_str()),
        Cell::Utf8View(s) => Some(s.as_str()),
        _ => None,
    }
}

/// Whether a cell is a float that is not a number.
pub open spec fn cell_nan(cell: Cell) -> bool {
    match cell {
        Cell::Float32(b) => nan32(b),
        Cell::Float64(b) => nan64(b),
        _ => false,
    }
}

/// Whether a cell is a float that is not a number.
pub fn is_nan(cell: &Cell) -> (r: bool)
    ensures
        r == cell_nan(*cell),
{
    match cell {
        Cell::Float32(b) => is_nan32(*b),
        Cell::Float64(b) => is_nan64(*b),
        _ => false,
    }
}

/// A cell and a bound of its column as two numbers in one order; nothing for a cell that
/// the bound does not speak of.
pub open spec fn beside(cell: Cell, bound: TypedBound) -> Option<(int, int)> {
    match (cell, bound) {
        (Cell::Int8(v), TypedBound::I64(b)) => Some((v as int, b as int)),
        (Cell::Int16(v), TypedBound::I64(b)) => Some((v as int, b as int)),
        (Cell::Int32(v), TypedBound::I64(b)) => Some((v as int, b as int)),
        (Cell::Int64(v), TypedBound::I64(b)) => Some((v as int, b as int)),
        (Cell::Date32(v), TypedBound::I64(b)) => Some((v as int, b as int)),
        (Cell::Date64(v), TypedBound::I64(b)) => Some((v as int, b as int)),
        (Cell::UInt8(v), TypedBound::U64(b)) => Some((v as int, b as int)),
        (Cell::UInt16(v), TypedBound::U64(b)) => Some((v as int, b as int)),
        (Cell::UInt32(v), TypedBound::U64(b)) => Some((v as int, b as int)),
        (Cell::UInt64(v), TypedBound::U64(b)) => Some((v as int, b as int)),
        (Cell::Float32(v), TypedBound::F32(b)) => if nan32(v) || nan32(b) {
            None
        } else {
            Some((key32(v), key32(b)))
        },
        (Cell::Float64(v), TypedBound::F64(b)) => if nan64(v) || nan64(b) {
            None
        } else {
            Some((key64(v), key64(b)))
        },
        (Cell::Decimal128(v), TypedBound::Decimal128 { value, scale }) => Some(
            (v as int, value as int),
        ),
        (Cell::Timestamp(_, v), TypedBound::Timestamp { value, unit }) => Some(
            (v as int, value as int),
        ),
        _ => None,
    }
}

/// A cell and a bound of its column as two numbers in one order.
pub fn cell_beside(cell: &Cell, bound: &TypedBound) -> (r: Option<(i128, i128)>)
    ensures
        match beside(*cell, *bound) {
            Some((v, b)) => r matches Some(p) && p.0 == v && p.1 == b,
            None => r is None,
        },
{
    match (cell, bound) {
        (Cell::Int8(v), TypedBound::I64(b)) => Some((*v as i128, *b as i128)),
        (Cell::Int16(v), TypedBound::I64(b)) => Some((*v as i128, *b as i128)),
        (Cell::Int32(v), TypedBound::I64(b)) => Some((*v as i128, *b as i128)),
        (Cell::Int64(v), TypedBound::I64(b)) => Some((*v as i128, *b as i128)),
        (Cell::Date32(v), TypedBound::I64(b)) => Some((*v as i128, *b as i128)),
        (Cell::Date64(v), TypedBound::I64(b)) => Some((*v as i128, *b as i128)),
        (Cell::UInt8(v), TypedBound::U64(b)) => Some((*v as i128, *b as i128)),
        (Cell::UInt16(v), TypedBound::U64(b)) => Some((*v as i128, *b as i128)),
        (Cell::UInt32(v), TypedBound::U64(b)) => Some((*v as i128, *b as i128)),
        (Cell::UInt64(v), TypedBound::U64(b)) => Some((*v as i128, *b as i128)),
        (Cell::Float32(v), TypedBound::F32(b)) => if is_nan32(*v) || is_nan32(*b) {
            None
        } else {
            Some((order_key32(*v), order_key32(*b)))
        },
        (Cell::Float64(v), TypedBound::F64(b)) => if is_nan64(*v) || is_nan64(*b) {
            None
        } else {
            Some((order_key64(*v), order_key64(*b)))
        },
        (Cell::Decimal128(v), TypedBound::Decimal128 { value, scale }) => Some((*v, *value)),
        (Cell::Timestamp(_, v), TypedBound::Timestamp { value, unit }) => Some(
            (*v as i128, *value as i128),
        ),
        _ => None,
    }
}

/// Whether a cell lies below a bound.
pub open spec fn below(cell: Cell, bound: Option<TypedBound>) -> bool {
    bound is Some && (beside(cell, bound.unwrap()) matches Some(p) && p.0 < p.1)
}

/// Whether a cell lies above a bound.
pub open spec fn above(cell: Cell, bound: Option<TypedBound>) -> bool {
    bound is Some && (beside(cell, bound.unwrap()) matches Some(p) && p.0 > p.1)
}

/// Whether a cell lies below a bound.
pub fn is_below(cell: &Cell, bound: Option<TypedBound>) -> (r: bool)
    ensures
        r == below(*cell, bound),
{
    match bound {
        Some(b) => match cell_beside(cell, &b) {
            Some((v, limit)) => v < limit,
            None => false,
        },
        None => false,
    }
}

/// Whether a cell lies above a bound.
pub fn is_above(cell: &Cell, bound: Option<TypedBound>) -> (r: bool)
    ensures
        r == above(*cell, bound),
{
    match bound {
        Some(b) => match cell_beside(cell, &b) {
            Some((v, limit)) => v > limit,
            None => false,
        },
        None => false,
    }
}

/// The rules that a cell breaks, in the order in which they are reported.
pub open spec fn broken_rules(rules: RulesView, cell: Cell) -> Seq<Seq<char>> {
    if cell is Null {
        if rules.not_null {
            seq!["not_null"@]
        } else {
            Seq::empty()
        }
    } else if cell_nan(cell) {
        if rules.validate_nan && rules.nan == NaNPolicy::Reject {
            seq!["nan"@]
        } else {
            Seq::empty()
        }
    } else {
        when(below(cell, rules.min), "min"@) + when(above(cell, rules.max), "max"@) + when(
            text_of(cell) is Some && rules.pattern is Some && !regex_matches(
                rules.pattern.unwrap(),
                text_of(cell).unwrap(),
            ),
            "pattern"@,
        ) + when(
            text_of(cell) is Some && rules.allowed is Some && !rules.allowed.unwrap().contains(
                text_of(cell).unwrap(),
            ),
            "allowed"@,
        )
    }
}

/// A list of one name where a condition holds.
pub open spec fn when(condition: bool, name: Seq<char>) -> Seq<Seq<char>> {
    if condition {
        seq![name]
    } else {
        Seq::empty()
    }
}

/// The sentence of a broken rule.
pub open spec fn rule_message(rule: Seq<char>) -> Seq<char> {
    if rule == "not_null"@ {
        "Null value is not allowed"@
    } else if rule == "nan"@ {
        "NaN value is not allowed"@
    } else if rule == "min"@ {
        "Value is below the compiled minimum"@
    } else if rule == "max"@ {
        "Value is above the compiled maximum"@
    } else if rule == "pattern"@ {
        "Value does not match the required pattern"@
    } else {
        "Value is not in the allowlist"@
    }
}

/// The findings of a cell.
pub open spec fn cell_findings(rules: RulesView, column: Seq<char>, cell: Cell, row: u64) -> Seq<
    FindingView,
> {
    broken_rules(rules, cell).map_values(
        |rule: Seq<char>|
            FindingView { rule, column, row: Some(row), message: rule_message(rule) },
    )
}

/// The findings of the first `n` cells of a column.
pub open spec fn column_findings(
    rules: RulesView,
    column: Seq<char>,
    cells: Seq<Cell>,
    row_offset: int,
    n: nat,
) -> Seq<FindingView>
    decreases n,
{
    if n == 0 {
        Seq::empty()
    } else {
        column_findings(rules, column, cells, row_offset, (n - 1) as nat) + cell_findings(
            rules,
            column,
            cells[n - 1],
            (row_offset + n - 1) as u64,
        )
    }
}

/// The names of the rules that a cell breaks, given whether its text matches the pattern.
pub fn check_cell(rules: &CompiledRules, cell: &Cell, matches_pattern: bool) -> (r: Vec<
    &'static str,
>)
    ensures
        (rules@.pattern is Some && text_of(*cell) is Some ==> matches_pattern == regex_matches(
            rules@.pattern.unwrap(),
            text_of(*cell).unwrap(),
        )) ==> names(r@) == broken_rules(rules@, *cell),
        !(text_of(*cell) is Some && rules@.pattern is Some) ==> names(r@) == broken_rules(
            rules@,
            *cell,
        ),
        text_of(*cell) is Some && rules@.pattern is Some ==> names(r@) == when(
            !matches_pattern,
            "pattern"@,
        ) + when(
            rules@.allowed is Some && !rules@.allowed.unwrap().contains(text_of(*cell).unwrap()),
            "allowed"@,
        ),
{
    let mut out: Vec<&'static str> = Vec::new();
    assert(names(out@) =~= Seq::empty());
    match cell {
        Cell::Null => {
            if rules.not_null() {
                out.push("not_null");
                assert(names(out@) =~= seq!["not_null"@]);
            }
            return out;
        },
        _ => {},
    }
    if is_nan(cell) {
        if rules.validates_nan() && rules.nan() == NaNPolicy::Reject {
            out.push("nan");
            assert(names(out@) =~= seq!["nan"@]);
        }
        return out;
    }
    let ghost a = when(below(*cell, rules@.min), "min"@);
    let ghost b = when(above(*cell, rules@.max), "max"@);
    if is_below(cell, rules.min()) {
        out.push("min");
    }
    assert(names(out@) =~= a);
    if is_above(cell, rules.max()) {
        out.push("max");
    }
    assert(names(out@) =~= a + b);
    match cell_text(cell) {
        Some(t) => {
            let ghost c = when(rules@.pattern is Some && !matches_pattern, "pattern"@);
            if rules.pattern().is_some() && !matches_pattern {
                out.push("pattern");
            }
            assert(names(out@) =~= a + b + c);
            let ghost d = when(
                rules@.allowed is Some && !rules@.allowed.unwrap().contains(t@),
                "allowed"@,
            );
            match rules.allowed() {
                Some(list) => {
                    if !str_in(t, list) {
                        out.push("allowed");
                    }
                },
                None => {},
            }
            assert(names(out@) =~= a + b + c + d);
            assert(a =~= Seq::empty() && b =~= Seq::empty());
            assert(a + b + c + d =~= c + d);
        },
        None => {
            assert(names(out@) =~= a + b + Seq::<Seq<char>>::empty() + Seq::<Seq<char>>::empty());
        },
    }
    out
}

/// The texts of a list of names.
pub open spec fn names(list: Seq<&str>) -> Seq<Seq<char>> {
    list.map_values(|s: &str| s@)
}

/// The sentence of a broken rule.
fn message_for(rule: &'static str) -> (r: &'static str)
    ensures
        r@ == rule_message(rule@),
{
    if crate::text::str_eq(rule, "not_null") {
        "Null value is not allowed"
    } else if crate::text::str_eq(rule, "nan") {
        "NaN value is not allowed"
    } else if crate::text::str_eq(rule, "min") {
        "Value is below the compiled minimum"
    } else if crate::text::str_eq(rule, "max") {
        "Value is above the compiled maximum"
    } else if crate::text::str_eq(rule, "pattern") {
        "Value does not match the required pattern"
    } else {
        "Value is not in the allowlist"
    }
}

/// Whether a cell's text matches the pattern of a column's rules; true where there is no
/// text or no pattern.
pub fn matches_rules(rules: &CompiledRules, cell: &Cell) -> (r: bool)
    ensures
        r == (rules@.pattern is Some && text_of(*cell) is Some ==> regex_matches(
            rules@.pattern.unwrap(),
            text_of(*cell).unwrap(),
        )),
{
    match rules.pattern() {
        Some(re) => match cell_text(cell) {
            Some(t) => regex_is_match(re, t),
            None => true,
        },
        None => true,
    }
}

/// Records a list of broken rules of one cell.
pub fn record_broken(
    validation: &mut ValidationState,
    column: &str,
    row: u64,
    broken: &Vec<&'static str>,
)
    requires
        old(validation).wf(),
    ensures
        final(validation).wf(),
        final(validation).offered() == old(validation).offered(),
        final(validation)@ == recorded_all(
            old(validation)@,
            names(broken@).map_values(
                |rule: Seq<char>|
                    FindingView { rule, column: column@, row: Some(row), message: rule_message(rule) },
            ),
        ),
{
    let ghost to_view = |rule: Seq<char>|
        FindingView { rule, column: column@, row: Some(row), message: rule_message(rule) };
    let ghost views = names(broken@).map_values(to_view);
    let mut i: usize = 0;
    assert(views.take(0) =~= Seq::empty());
    while i < broken.len()
        invariant
            i <= broken@.len(),
            validation.wf(),
            validation.offered() == old(validation).offered(),
            views == names(broken@).map_values(to_view),
            to_view == (|rule: Seq<char>|
                FindingView { rule, column: column@, row: Some(row), message: rule_message(rule) }),
            validation@ == recorded_all(old(validation)@, views.take(i as int)),
        decreases broken@.len() - i,
    {
        let rule = broken[i];
        proof {
            assert(views.take(i + 1).drop_last() =~= views.take(i as int));
            assert(names(broken@)[i as int] == rule@);
            assert(views.take(i + 1).last() == to_view(rule@));
        }
        validation.record(
            Finding { rule, column: text(column), row: Some(row), message: text(message_for(rule)) },
        );
        i = i + 1;
    }
    assert(views.take(broken@.len() as int) =~= views);
}

/// Applies a column's rules to its cells.
pub fn scan_column(
    plan: &ColumnPlan,
    cells: &Vec<Cell>,
    row_offset: u64,
    validation: &mut ValidationState,
)
    requires
        old(validation).wf(),
        row_offset + cells@.len() <= u64::MAX,
    ensures
        final(validation).wf(),
        final(validation).offered() == old(validation).offered(),
        final(validation)@ == recorded_all(
            old(validation)@,
            column_findings(
                plan.rules@,
                plan.field@,
                cells@,
                row_offset as int,
                cells@.len(),
            ),
        ),
{
    let ghost start = validation@;
    let mut i: usize = 0;
    while i < cells.len()
        invariant
            i <= cells@.len(),
            validation.wf(),
            validation.offered() == old(validation).offered(),
            row_offset + cells@.len() <= u64::MAX,
            start == old(validation)@,
            validation@ == recorded_all(
                start,
                column_findings(plan.rules@, plan.field@, cells@, row_offset as int, i as nat),
            ),
        decreases cells@.len() - i,
    {
        let row: u64 = row_offset + i as u64;
        let matched = matches_rules(&plan.rules, &cells[i]);
        let broken = check_cell(&plan.rules, &cells[i], matched);
        record_broken(validation, plan.field.as_str(), row, &broken);
        proof {
            let so_far = column_findings(
                plan.rules@,
                plan.field@,
                cells@,
                row_offset as int,
                i as nat,
            );
            let here = cell_findings(plan.rules@, plan.field@, cells@[i as int], row);
            assert(names(broken@) == broken_rules(plan.rules@, cells@[i as int]));
            recorded_in_parts(start, so_far, here);
        }
        i = i + 1;
    }
}

} // verus!
