//! Profiling and compiled contracts reject the same values.

use crate::bytes::{spans, twos_tell_apart};
use crate::contract::bounds::TypedBound;
use crate::contract::rules::RulesView;
use crate::encoding::{
    encoded, encoding_is_injective, item_of, items_tell_values_apart, proper, same_value, tag_of,
};
use crate::execution::kernels::{above, below, beside, broken_rules, cell_nan, text_of};
use crate::execution::keys::scalar_key;
use crate::execution::validation::FindingView;
use crate::numbers::{key32, key64, nan32, nan64};
use crate::profile::legacy::{ColumnContract, FloatBound};
use crate::profile::rules::{below64, broken, value_findings};
use crate::text::{texts, utf8_injective};
use crate::value::Cell;
use vstd::arithmetic::power2::{
    lemma_pow2_pos, lemma_pow2_strictly_increases, lemma_pow2_unfold, pow2,
};
use vstd::prelude::*;

verus! {

/// A number in units of the smallest positive 64-bit float, halved: the significand, by a
/// power of two for the exponent field. Both fields of a positive float stand in one number,
/// whose lowest part, below `unit`, is the fraction.
pub open spec fn scaled(magnitude: nat, unit: nat, shift: nat) -> nat {
    let exponent = magnitude / unit;
    let fraction = magnitude % unit;
    if exponent == 0 {
        fraction * pow2(shift + 1)
    } else {
        (unit + fraction) * pow2(shift + exponent)
    }
}

/// Greater fields mean a greater number.
proof fn scaled_grows(a: nat, b: nat, unit: nat, shift: nat)
    requires
        unit > 0,
        a < b,
    ensures
        scaled(a, unit, shift) < scaled(b, unit, shift),
{
    let (ea, fa) = (a / unit, a % unit);
    let (eb, fb) = (b / unit, b % unit);
    vstd::arithmetic::div_mod::lemma_fundamental_div_mod(a as int, unit as int);
    vstd::arithmetic::div_mod::lemma_fundamental_div_mod(b as int, unit as int);
    vstd::arithmetic::div_mod::lemma_mod_bound(a as int, unit as int);
    vstd::arithmetic::div_mod::lemma_mod_bound(b as int, unit as int);
    assert(ea <= eb) by (nonlinear_arith)
        requires
            a == unit * ea + fa,
            b == unit * eb + fb,
            a < b,
            fa < unit,
            fb < unit,
            unit > 0,
    ;
    let la = if ea == 0 { shift + 1 } else { shift + ea };
    let lb = if eb == 0 { shift + 1 } else { shift + eb };
    let sa = if ea == 0 { fa } else { unit + fa };
    let sb = if eb == 0 { fb } else { unit + fb };
    lemma_pow2_pos(la);
    lemma_pow2_pos(lb);
    if ea == eb {
        assert(fa < fb) by (nonlinear_arith)
            requires
                a == unit * ea + fa,
                b == unit * eb + fb,
                a < b,
                ea == eb,
        ;
        assert(sa * pow2(la) < sb * pow2(lb)) by (nonlinear_arith)
            requires
                sa < sb,
                la == lb,
                pow2(la) > 0,
        ;
    } else if la == lb {
        assert(sa < sb);
        assert(sa * pow2(la) < sb * pow2(lb)) by (nonlinear_arith)
            requires
                sa < sb,
                la == lb,
                pow2(la) > 0,
        ;
    } else {
        lemma_pow2_unfold(la + 1);
        if la + 1 < lb {
            lemma_pow2_strictly_increases(la + 1, lb);
        }
        assert(pow2(lb) >= 2 * pow2(la));
        assert(sa * pow2(la) < sb * pow2(lb)) by (nonlinear_arith)
            requires
                sa < 2 * unit,
                sb >= unit,
                unit > 0,
                pow2(la) > 0,
                pow2(lb) >= 2 * pow2(la),
        ;
    }
}

/// The value of a 64-bit float that is a number, in units of two to the power of -1075.
pub open spec fn units64(bits: u64) -> int {
    if bits < 0x8000_0000_0000_0000 {
        scaled(bits as nat, 0x10_0000_0000_0000, 0) as int
    } else {
        -(scaled((bits - 0x8000_0000_0000_0000) as nat, 0x10_0000_0000_0000, 0) as int)
    }
}

/// The value of a 32-bit float that is a number, in units of two to the power of -1075.
pub open spec fn units32(bits: u32) -> int {
    if bits < 0x8000_0000 {
        scaled(bits as nat, 0x80_0000, 925) as int
    } else {
        -(scaled((bits - 0x8000_0000) as nat, 0x80_0000, 925) as int)
    }
}

/// Nothing is scaled to nothing, and only nothing.
proof fn scaled_zero(unit: nat, shift: nat)
    requires
        unit > 0,
    ensures
        scaled(0, unit, shift) == 0,
{
    assert(0nat / unit == 0) by (nonlinear_arith)
        requires
            unit > 0,
    ;
    assert(0nat % unit == 0) by (nonlinear_arith)
        requires
            unit > 0,
    ;
    assert(0 * pow2(shift + 1) == 0) by (nonlinear_arith);
}

/// The units of a key: those of its magnitude, with its sign.
spec fn signed_units(key: int, unit: nat, shift: nat) -> int {
    if key < 0 {
        -(scaled((-key) as nat, unit, shift) as int)
    } else {
        scaled(key as nat, unit, shift) as int
    }
}

proof fn keys_follow_units(a: int, b: int, ua: int, ub: int, unit: nat, shift: nat)
    requires
        unit > 0,
        ua == signed_units(a, unit, shift),
        ub == signed_units(b, unit, shift),
    ensures
        a < b <==> ua < ub,
{
    scaled_zero(unit, shift);
    if a != 0 {
        scaled_grows(0, (if a < 0 { -a } else { a }) as nat, unit, shift);
    }
    if b != 0 {
        scaled_grows(0, (if b < 0 { -b } else { b }) as nat, unit, shift);
    }
    if 0 <= a && 0 <= b {
        if a < b {
            scaled_grows(a as nat, b as nat, unit, shift);
        } else if b < a {
            scaled_grows(b as nat, a as nat, unit, shift);
        }
    } else if a < 0 && b < 0 {
        if a < b {
            scaled_grows((-b) as nat, (-a) as nat, unit, shift);
        } else if b < a {
            scaled_grows((-a) as nat, (-b) as nat, unit, shift);
        }
    }
}

/// 64-bit floats are ordered as the numbers that they stand for.
pub proof fn floats64_order_as_numbers(a: u64, b: u64)
    ensures
        key64(a) < key64(b) <==> units64(a) < units64(b),
{
    scaled_zero(0x10_0000_0000_0000, 0);
    keys_follow_units(key64(a), key64(b), units64(a), units64(b), 0x10_0000_0000_0000, 0);
}

/// 32-bit floats are ordered as the numbers that they stand for.
pub proof fn floats32_order_as_numbers(a: u32, b: u32)
    ensures
        key32(a) < key32(b) <==> units32(a) < units32(b),
{
    scaled_zero(0x80_0000, 925);
    keys_follow_units(key32(a), key32(b), units32(a), units32(b), 0x80_0000, 925);
}

/// The value of a cell that the profile reads as a number, in units of two to the power of
/// -1075.
pub open spec fn cell_units(cell: Cell) -> Option<int> {
    match cell {
        Cell::Int8(v) => Some(v * pow2(1075)),
        Cell::Int16(v) => Some(v * pow2(1075)),
        Cell::Int32(v) => Some(v * pow2(1075)),
        Cell::Int64(v) => Some(v * pow2(1075)),
        Cell::UInt8(v) => Some(v * pow2(1075)),
        Cell::UInt16(v) => Some(v * pow2(1075)),
        Cell::UInt32(v) => Some(v * pow2(1075)),
        Cell::UInt64(v) => Some(v * pow2(1075)),
        Cell::Timestamp(_, v) => Some(v * pow2(1075)),
        Cell::Float32(b) => if nan32(b) {
            None
        } else {
            Some(units32(b))
        },
        Cell::Float64(b) => if nan64(b) {
            None
        } else {
            Some(units64(b))
        },
        _ => None,
    }
}

/// The value of a compiled bound, in the same units.
pub open spec fn bound_units(bound: TypedBound) -> Option<int> {
    match bound {
        TypedBound::I64(v) => Some(v * pow2(1075)),
        TypedBound::U64(v) => Some(v * pow2(1075)),
        TypedBound::Timestamp { value, .. } => Some(value * pow2(1075)),
        TypedBound::F32(b) => if nan32(b) {
            None
        } else {
            Some(units32(b))
        },
        TypedBound::F64(b) => if nan64(b) {
            None
        } else {
            Some(units64(b))
        },
        _ => None,
    }
}

/// Whether a float is a number and has a value.
pub open spec fn stands_for(bits: u64, units: Option<int>) -> bool {
    !nan64(bits) && units == Some(units64(bits))
}

/// Whether the floating-point bound of a profile and the compiled bound of a column are the
/// same number, and the float that was read from a cell is its value.
pub open spec fn same_limit(
    cell: Cell,
    number: Option<u64>,
    bound: Option<FloatBound>,
    compiled: Option<TypedBound>,
) -> bool {
    match (bound, compiled) {
        (None, None) => true,
        (Some(b), Some(t)) => {
            &&& beside(cell, t) is Some
            &&& number is Some && stands_for(number.unwrap(), cell_units(cell))
            &&& stands_for(b.bits, bound_units(t))
        },
        _ => false,
    }
}

proof fn whole_numbers_keep_order(a: int, b: int)
    ensures
        a < b <==> a * pow2(1075) < b * pow2(1075),
{
    lemma_pow2_pos(1075);
    let p = pow2(1075) as int;
    assert(a < b <==> a * p < b * p) by (nonlinear_arith)
        requires
            p > 0,
    ;
}

/// A value lies beyond a floating-point bound exactly where it lies beyond the compiled
/// bound, where the floats are the numbers themselves. They need not be: the value
/// 2^53 + 1 reads as the float 2^53, which is not above a bound of 2^53.
pub proof fn bounds_agree(
    cell: Cell,
    number: u64,
    bound: FloatBound,
    compiled: TypedBound,
)
    requires
        same_limit(cell, Some(number), Some(bound), Some(compiled)),
    ensures
        below64(number, bound.bits) == below(cell, Some(compiled)),
        below64(bound.bits, number) == above(cell, Some(compiled)),
{
    floats64_order_as_numbers(number, bound.bits);
    floats64_order_as_numbers(bound.bits, number);
    let (v, b) = beside(cell, compiled).unwrap();
    match (cell, compiled) {
        (Cell::Float32(x), TypedBound::F32(y)) => {
            floats32_order_as_numbers(x, y);
            floats32_order_as_numbers(y, x);
        },
        (Cell::Float64(x), TypedBound::F64(y)) => {
            floats64_order_as_numbers(x, y);
            floats64_order_as_numbers(y, x);
        },
        _ => {
            whole_numbers_keep_order(v, b);
            whole_numbers_keep_order(b, v);
        },
    }
}

/// Whether the rules of a profile and the compiled rules of a column say the same of a cell
/// that is neither null nor a float that is no number.
pub open spec fn same_rules(
    cell: Cell,
    shown: Seq<char>,
    number: Option<u64>,
    rule: ColumnContract,
    compiled: RulesView,
) -> bool {
    &&& !(cell is Null) && !cell_nan(cell)
    &&& same_limit(cell, number, rule.min, compiled.min)
    &&& same_limit(cell, number, rule.max, compiled.max)
    &&& match (rule.pattern, compiled.pattern) {
        (None, None) => true,
        (Some(p), Some(q)) => p@ == q && text_of(cell) == Some(shown),
        _ => false,
    }
    &&& match (rule.allowed, compiled.allowed) {
        (None, None) => true,
        (Some(p), Some(q)) => text_of(cell) == Some(shown) && (texts(p@).contains(shown)
            <==> q.contains(shown)),
        _ => false,
    }
}

/// The names of the rules that findings report.
pub open spec fn rule_names(findings: Seq<FindingView>) -> Seq<Seq<char>> {
    findings.map_values(|f: FindingView| f.rule)
}

proof fn names_of_broken(
    is_broken: bool,
    rule: Seq<char>,
    column: Seq<char>,
    row: u64,
    message: Seq<char>,
)
    ensures
        rule_names(broken(is_broken, rule, column, row, message))
            == crate::execution::kernels::when(is_broken, rule),
{
    assert(rule_names(broken(is_broken, rule, column, row, message))
        =~= crate::execution::kernels::when(is_broken, rule));
}

proof fn names_join(a: Seq<FindingView>, b: Seq<FindingView>)
    ensures
        rule_names(a + b) == rule_names(a) + rule_names(b),
{
    assert(rule_names(a + b) =~= rule_names(a) + rule_names(b));
}

/// A profile and a compiled contract break the same rules on a value that does not repeat.
pub proof fn verdicts_agree(
    cell: Cell,
    shown: Seq<char>,
    number: Option<u64>,
    rule: ColumnContract,
    compiled: RulesView,
    column: Seq<char>,
    row: u64,
)
    requires
        same_rules(cell, shown, number, rule, compiled),
    ensures
        rule_names(value_findings(rule, column, shown, number, false, row)) == broken_rules(
            compiled,
            cell,
        ),
{
    let low = rule.min is Some && number is Some && below64(
        number.unwrap(),
        rule.min.unwrap().bits,
    );
    let high = rule.max is Some && number is Some && below64(
        rule.max.unwrap().bits,
        number.unwrap(),
    );
    let odd = rule.pattern is Some && !crate::contract::rules::regex_matches(
        rule.pattern.unwrap()@,
        shown,
    );
    let strange = rule.allowed is Some && !texts(rule.allowed.unwrap()@).contains(shown);
    if rule.min is Some {
        bounds_agree(cell, number.unwrap(), rule.min.unwrap(), compiled.min.unwrap());
    }
    if rule.max is Some {
        bounds_agree(cell, number.unwrap(), rule.max.unwrap(), compiled.max.unwrap());
    }
    let a = broken(false, "unique"@, column, row, "Duplicate value `"@ + shown + "`"@);
    let b = broken(
        low,
        "min"@,
        column,
        row,
        "Value `"@ + shown + "` is below "@ + rule.min.unwrap().shown@,
    );
    let c = broken(
        high,
        "max"@,
        column,
        row,
        "Value `"@ + shown + "` is above "@ + rule.max.unwrap().shown@,
    );
    let d = broken(
        odd,
        "pattern"@,
        column,
        row,
        "Value `"@ + shown + "` does not match `"@ + rule.pattern.unwrap()@ + "`"@,
    );
    let e = broken(
        strange,
        "allowed"@,
        column,
        row,
        "Value `"@ + shown + "` is not in the allowlist"@,
    );
    assert(value_findings(rule, column, shown, number, false, row) == a + b + c + d + e);
    names_join(a + b + c + d, e);
    names_join(a + b + c, d);
    names_join(a + b, c);
    names_join(a, b);
    names_of_broken(false, "unique"@, column, row, "Duplicate value `"@ + shown + "`"@);
    names_of_broken(
        low,
        "min"@,
        column,
        row,
        "Value `"@ + shown + "` is below "@ + rule.min.unwrap().shown@,
    );
    names_of_broken(
        high,
        "max"@,
        column,
        row,
        "Value `"@ + shown + "` is above "@ + rule.max.unwrap().shown@,
    );
    names_of_broken(
        odd,
        "pattern"@,
        column,
        row,
        "Value `"@ + shown + "` does not match `"@ + rule.pattern.unwrap()@ + "`"@,
    );
    names_of_broken(
        strange,
        "allowed"@,
        column,
        row,
        "Value `"@ + shown + "` is not in the allowlist"@,
    );
    assert(rule_names(a) + rule_names(b) =~= rule_names(b));
}

/// Two values of one column repeat each other for a profile exactly where they do for a
/// compiled contract: where they are the same value.
pub proof fn repeats_agree(a: Cell, b: Cell)
    requires
        scalar_key(a) is Some,
        tag_of(item_of(a)) == tag_of(item_of(b)),
        proper(item_of(a)),
        proper(item_of(b)),
    ensures
        scalar_key(a) == scalar_key(b) <==> same_value(a, b),
        encoded(item_of(a)) == encoded(item_of(b)) <==> same_value(a, b),
{
    items_tell_values_apart(a, b);
    if encoded(item_of(a)) == encoded(item_of(b)) {
        encoding_is_injective(item_of(a), item_of(b));
    }
    match (a, b) {
        (Cell::Decimal128(x), Cell::Decimal128(y)) => {
            spans();
            if scalar_key(a) == scalar_key(b) {
                twos_tell_apart(x as int, y as int, 16);
            }
        },
        (Cell::Utf8(x), Cell::Utf8(y)) => utf8_injective(x@, y@),
        (Cell::LargeUtf8(x), Cell::LargeUtf8(y)) => utf8_injective(x@, y@),
        (Cell::Utf8View(x), Cell::Utf8View(y)) => utf8_injective(x@, y@),
        _ => {},
    }
}

} // verus!
