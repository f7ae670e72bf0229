//! What the bounds of a contract stand for.

use crate::contract::ast::{
    path_to, BoundAst, NaNPolicyAst, PrimitiveTypeAst, RuleAst, RuleAstV2, Spelling, TypeAst,
};
use crate::contract::bounds::{
    bound_of, decimal_magnitude, decimal_value, first_point, fraction_part, iso, nanos_per_tick,
    nonzero_behind, rfc3339, ticks_per_second, timestamp_bound, whole_part, zeros, TypedBound,
};
use crate::contract::compile::{
    resolved_columns, resolved_columns_v2, rules_for, rules_for_v2, ColumnView,
};
use crate::contract::rules::{
    expected_type, kernel_of, opt_bound_of, rules_outcome, value_rules, NaNPolicy, RulesView,
};
use crate::error::ErrorView;
use crate::numbers::{
    all_digits, digit_count, digits_value, finite32, finite64, integer_text, is_digit, pow10,
    signed, unsigned_part, Order,
};
use crate::text::{decimal, decimal_int, digit_char, texts};
use crate::value::{DataType, Field, TimeUnit};
use vstd::prelude::*;

verus! {

proof fn decimal_spells(n: nat)
    ensures
        digits_value(decimal(n)) == n,
        decimal(n).len() > 0,
        all_digits(decimal(n)),
    decreases n,
{
    if n < 10 {
        assert(decimal(n).drop_last() =~= Seq::empty());
        assert(digits_value(decimal(n).drop_last()) == 0);
        assert(digit_char(n) as u32 == 48 + n);
    } else {
        decimal_spells(n / 10);
        assert(decimal(n).drop_last() =~= decimal(n / 10));
        assert(digit_char(n % 10) as u32 == 48 + n % 10);
        assert forall|i: int| 0 <= i < decimal(n).len() implies is_digit(
            #[trigger] decimal(n)[i],
        ) by {
            if i < decimal(n / 10).len() {
                assert(decimal(n)[i] == decimal(n / 10)[i]);
            }
        }
    }
}

/// The decimal spelling of an integer is read as the integer, with or without a plus sign where
/// it is not negative.
pub proof fn integers_are_read_as_spelled(n: int)
    ensures
        integer_text(decimal_int(n)) == Some(n),
        n >= 0 ==> integer_text(seq!['+'] + decimal_int(n)) == Some(n),
{
    if n >= 0 {
        decimal_spells(n as nat);
        let s = decimal_int(n);
        assert(is_digit(s[0]));
        assert(!signed(s));
        let t = seq!['+'] + s;
        assert(t.drop_first() =~= s);
        assert(t[0] == '+');
    } else {
        decimal_spells((-n) as nat);
        let s = decimal_int(n);
        assert(s[0] == '-');
        assert(s.drop_first() =~= decimal((-n) as nat));
    }
}

/// The least and the greatest integer of an integer type, or of a date in its unit.
pub open spec fn domain(data_type: DataType) -> Option<(int, int)> {
    match data_type {
        DataType::Int8 => Some((i8::MIN as int, i8::MAX as int)),
        DataType::Int16 => Some((i16::MIN as int, i16::MAX as int)),
        DataType::Int32 => Some((i32::MIN as int, i32::MAX as int)),
        DataType::Int64 => Some((i64::MIN as int, i64::MAX as int)),
        DataType::UInt8 => Some((0, u8::MAX as int)),
        DataType::UInt16 => Some((0, u16::MAX as int)),
        DataType::UInt32 => Some((0, u32::MAX as int)),
        DataType::UInt64 => Some((0, u64::MAX as int)),
        _ => None,
    }
}

/// A bound on integers stands for the integer that it spells, and is refused exactly where that
/// integer lies outside the domain of the column.
pub proof fn integer_bounds_stand_for_their_number(
    s: Spelling,
    n: int,
    data_type: DataType,
    shown: Seq<char>,
    path: Seq<char>,
    instant: Option<(i64, u32)>,
    days: Option<i64>,
)
    requires
        s.text@ == decimal_int(n),
        domain(data_type) is Some,
    ensures
        ({
            let (low, high) = domain(data_type).unwrap();
            let r = bound_of(s, data_type, shown, path, instant, days);
            &&& r is Ok <==> low <= n <= high
            &&& r matches Ok(TypedBound::I64(v)) ==> v == n && low < 0
            &&& r matches Ok(TypedBound::U64(v)) ==> v == n && low == 0
            &&& r matches Ok(b) ==> b is I64 || b is U64
        }),
{
    integers_are_read_as_spelled(n);
    if n < 0 {
        assert(decimal_int(n)[0] == '-');
    } else {
        decimal_spells(n as nat);
        assert(is_digit(decimal_int(n)[0]));
    }
}

/// A bound on dates is a number of days, or of milliseconds for the wider type: spelled as an
/// integer, or as a calendar day, of which each has 86 400 000 milliseconds.
pub proof fn date_bounds_count_days(
    s: Spelling,
    shown: Seq<char>,
    path: Seq<char>,
    instant: Option<(i64, u32)>,
    days: Option<i64>,
    n: int,
)
    ensures
        s.text@ == decimal_int(n) && i32::MIN <= n <= i32::MAX ==> bound_of(
            s,
            DataType::Date32,
            shown,
            path,
            instant,
            days,
        ) == Ok::<TypedBound, ErrorView>(TypedBound::I64(n as i64)),
        s.text@ == decimal_int(n) && i64::MIN <= n <= i64::MAX ==> bound_of(
            s,
            DataType::Date64,
            shown,
            path,
            instant,
            days,
        ) == Ok::<TypedBound, ErrorView>(TypedBound::I64(n as i64)),
        integer_text(s.text@) is None ==> (days matches Some(d) ==> bound_of(
            s,
            DataType::Date32,
            shown,
            path,
            instant,
            days,
        ) == Ok::<TypedBound, ErrorView>(TypedBound::I64(d)) && (bound_of(
            s,
            DataType::Date64,
            shown,
            path,
            instant,
            days,
        ) matches Ok(TypedBound::I64(v)) ==> v == d * 24 * 60 * 60 * 1000)),
        integer_text(s.text@) is None && days is None ==> bound_of(
            s,
            DataType::Date32,
            shown,
            path,
            instant,
            days,
        ) is Err && bound_of(s, DataType::Date64, shown, path, instant, days) is Err,
{
    integers_are_read_as_spelled(n);
}

/// The nanoseconds of one tick of a unit.
pub open spec fn tick_nanos(unit: TimeUnit) -> int {
    match unit {
        TimeUnit::Second => 1_000_000_000,
        TimeUnit::Millisecond => 1_000_000,
        TimeUnit::Microsecond => 1_000,
        TimeUnit::Nanosecond => 1,
    }
}

/// The ticks of a unit in one second.
pub open spec fn second_ticks(unit: TimeUnit) -> int {
    match unit {
        TimeUnit::Second => 1,
        TimeUnit::Millisecond => 1_000,
        TimeUnit::Microsecond => 1_000_000,
        TimeUnit::Nanosecond => 1_000_000_000,
    }
}

/// A bound on instants that is spelled as an instant is that many ticks from the epoch, exactly:
/// an instant between two ticks is refused.
pub proof fn instant_bounds_are_exact(
    source: Seq<char>,
    unit: TimeUnit,
    path: Seq<char>,
    seconds: i64,
    nanos: u32,
)
    requires
        integer_text(source) is None,
    ensures
        ({
            let r = timestamp_bound(source, unit, path, Some((seconds, nanos)));
            let at = seconds * 1_000_000_000 + nanos;
            &&& r matches Ok(b) ==> (b matches TypedBound::Timestamp { value, unit: u } && u == unit
                && value * tick_nanos(unit) == at)
            &&& at % tick_nanos(unit) != 0 ==> r is Err
            &&& at % tick_nanos(unit) == 0 && i64::MIN <= seconds * second_ticks(
                unit,
            ) <= i64::MAX && i64::MIN <= at / tick_nanos(unit) <= i64::MAX ==> r is Ok
        }),
        timestamp_bound(source, unit, path, None) is Err,
{
    let (a, b) = (seconds as int, nanos as int);
    let at = a * 1_000_000_000 + b;
    let t = tick_nanos(unit);
    let k = second_ticks(unit);
    assert(k * t == 1_000_000_000) by {
        match unit {
            TimeUnit::Second => {},
            TimeUnit::Millisecond => {},
            TimeUnit::Microsecond => {},
            TimeUnit::Nanosecond => {},
        }
    }
    assert(t == nanos_per_tick(unit) && k == ticks_per_second(unit));
    vstd::arithmetic::div_mod::lemma_fundamental_div_mod(b, t);
    let v = a * k + b / t;
    assert(v * t == a * 1_000_000_000 + (b - b % t)) by (nonlinear_arith)
        requires
            v == a * k + b / t,
            k * t == 1_000_000_000,
            b == t * (b / t) + b % t,
    ;
    assert(at == v * t + b % t);
    vstd::arithmetic::div_mod::lemma_fundamental_div_mod_converse(at, t, v, b % t);
}

/// A bound on instants that is spelled as an integer is that many ticks.
pub proof fn tick_bounds_stand_for_their_number(
    n: int,
    unit: TimeUnit,
    path: Seq<char>,
    instant: Option<(i64, u32)>,
)
    requires
        i64::MIN <= n <= i64::MAX,
    ensures
        timestamp_bound(decimal_int(n), unit, path, instant) == Ok::<TypedBound, ErrorView>(
            TypedBound::Timestamp { value: n as i64, unit },
        ),
{
    integers_are_read_as_spelled(n);
}

/// A bound on floats is the float that its spelling was read as, and infinities and what is not
/// a number are no bounds.
pub proof fn float_bounds_are_finite(
    s: Spelling,
    shown: Seq<char>,
    path: Seq<char>,
    instant: Option<(i64, u32)>,
    days: Option<i64>,
)
    ensures
        bound_of(s, DataType::Float64, shown, path, instant, days) is Ok <==> (
        s.float64 matches Some(b) && finite64(b)),
        bound_of(s, DataType::Float32, shown, path, instant, days) is Ok <==> (
        s.float32 matches Some(b) && finite32(b)),
        bound_of(s, DataType::Float64, shown, path, instant, days) matches Ok(b) ==> b
            == TypedBound::F64(s.float64.unwrap()),
        bound_of(s, DataType::Float32, shown, path, instant, days) matches Ok(b) ==> b
            == TypedBound::F32(s.float32.unwrap()),
{
}

proof fn pow10_adds(a: nat, b: nat)
    ensures
        pow10(a + b) == pow10(a) * pow10(b),
        pow10(a) > 0,
    decreases a,
{
    if a == 0 {
        assert(pow10(0) * pow10(b) == pow10(b)) by (nonlinear_arith)
            requires
                pow10(0) == 1,
        ;
    } else {
        pow10_adds((a - 1) as nat, b);
        assert(pow10(a + b) == 10 * pow10((a - 1 + b) as nat));
        assert(10 * (pow10((a - 1) as nat) * pow10(b)) == (10 * pow10((a - 1) as nat)) * pow10(b))
            by (nonlinear_arith);
    }
}

proof fn digits_joined(a: Seq<char>, b: Seq<char>)
    requires
        all_digits(b),
    ensures
        digits_value(a + b) == digits_value(a) * pow10(b.len()) + digits_value(b),
    decreases b.len(),
{
    if b.len() == 0 {
        assert(a + b =~= a);
        assert(digits_value(a) * 1 == digits_value(a));
    } else {
        let rest = b.drop_last();
        assert(is_digit(b[b.len() - 1]));
        assert forall|i: int| 0 <= i < rest.len() implies is_digit(#[trigger] rest[i]) by {
            assert(rest[i] == b[i]);
        }
        digits_joined(a, rest);
        assert((a + b).drop_last() =~= a + rest);
        let d = (b.last() as u32 - 48) as nat;
        let (p, v, w) = (pow10(rest.len()), digits_value(a), digits_value(rest));
        assert(10 * (v * p + w) + d == v * (10 * p) + (10 * w + d)) by (nonlinear_arith);
    }
}

proof fn zeros_are_nothing(s: Seq<char>)
    requires
        forall|i: int| 0 <= i < s.len() ==> #[trigger] s[i] == '0',
    ensures
        digits_value(s) == 0,
        all_digits(s),
    decreases s.len(),
{
    if s.len() > 0 {
        let rest = s.drop_last();
        assert forall|i: int| 0 <= i < rest.len() implies #[trigger] rest[i] == '0' by {
            assert(rest[i] == s[i]);
        }
        zeros_are_nothing(rest);
        assert(s[s.len() - 1] == '0');
    }
}

/// A bound on decimals is exact: the digits that it counts, at the scale of the column, are the
/// number that was spelled, by its digits before and behind the point.
pub proof fn decimal_bounds_are_exact(s: Seq<char>, precision: int, scale: int)
    requires
        decimal_value(s, precision, scale) is Ok,
    ensures
        ({
            let v = decimal_value(s, precision, scale)->Ok_0;
            let size: int = if v < 0 {
                -v
            } else {
                v
            };
            let (w, f) = (whole_part(s), fraction_part(s));
            &&& scale >= 0 ==> size * pow10(f.len()) == digits_value(w + f) * pow10(scale as nat)
            &&& scale < 0 ==> size * pow10((-scale) as nat) == digits_value(w) && digits_value(f)
                == 0
            &&& s[0] == '-' ==> v <= 0
            &&& s[0] != '-' ==> v >= 0
            &&& digit_count(size as nat) <= precision
        }),
{
    let (w, f) = (whole_part(s), fraction_part(s));
    let m = decimal_magnitude(w, f, scale)->Ok_0;
    if scale >= 0 {
        let n = scale as nat;
        let kept = f.take(if f.len() < scale { f.len() as int } else { scale });
        let pad = zeros((scale - kept.len()) as nat);
        zeros_are_nothing(pad);
        digits_joined(w + kept, pad);
        assert(m == digits_value(w + kept) * pow10(pad.len()));
        if f.len() < n {
            assert(kept =~= f);
            pow10_adds((n - f.len()) as nat, f.len());
            let (a, b, c) = (digits_value(w + f), pow10((n - f.len()) as nat), pow10(f.len()));
            assert((a * b) * c == a * (b * c)) by (nonlinear_arith);
        } else {
            let rest = f.skip(scale);
            assert forall|i: int| 0 <= i < rest.len() implies #[trigger] rest[i] == '0' by {
                assert(rest[i] == f[scale + i]);
                assert(!nonzero_behind(f, scale));
            }
            zeros_are_nothing(rest);
            digits_joined(w + kept, rest);
            assert(w + kept + rest =~= w + f);
            pow10_adds(rest.len(), n);
            let (a, b, c) = (digits_value(w + kept), pow10(rest.len()), pow10(n));
            assert(m == a * pow10(0));
            assert(pow10(0) == 1);
            assert(a * 1 == a);
            assert((a * b) * c == a * (b * c)) by (nonlinear_arith);
        }
    } else {
        let k = pow10((-scale) as nat) as int;
        pow10_adds((-scale) as nat, 0);
        vstd::arithmetic::div_mod::lemma_fundamental_div_mod(digits_value(w) as int, k);
        assert(k * m == m * k) by (nonlinear_arith);
        assert forall|i: int| 0 <= i < f.len() implies #[trigger] f[i] == '0' by {
            assert(!nonzero_behind(f, 0));
        }
        zeros_are_nothing(f);
    }
}

/// The digits before the point of a decimal and those behind it are the text without its sign
/// and its point.
pub proof fn points_part_decimals(s: Seq<char>)
    ensures
        ({
            let u = unsigned_part(s);
            &&& u == whole_part(s) && fraction_part(s) == Seq::<char>::empty() || u == whole_part(s)
                + seq!['.'] + fraction_part(s)
            &&& !whole_part(s).contains('.')
        }),
{
    let u = unsigned_part(s);
    point_is_first(u);
    let p = first_point(u);
    if p < u.len() {
        assert(u =~= u.take(p) + seq!['.'] + u.skip(p + 1));
    } else {
        assert(u.take(p) =~= u);
    }
    if whole_part(s).contains('.') {
        let i = choose|i: int| 0 <= i < whole_part(s).len() && whole_part(s)[i] == '.';
        assert(u[i] == '.');
    }
}

proof fn point_is_first(s: Seq<char>)
    ensures
        0 <= first_point(s) <= s.len(),
        first_point(s) < s.len() ==> s[first_point(s)] == '.',
        forall|i: int| 0 <= i < first_point(s) ==> #[trigger] s[i] != '.',
    decreases s.len(),
{
    if s.len() > 0 && s[0] != '.' {
        let rest = s.drop_first();
        point_is_first(rest);
        assert forall|i: int| 0 <= i < first_point(s) implies #[trigger] s[i] != '.' by {
            if i > 0 {
                assert(s[i] == rest[i - 1]);
            }
        }
    }
}

/// Bounds of one kind are ordered as their numbers.
pub proof fn bounds_are_ordered_as_numbers(a: TypedBound, b: TypedBound)
    ensures
        a matches TypedBound::I64(x) ==> (b matches TypedBound::I64(y) ==> (a.spec_compare(b)
            == Some(Order::Less) <==> x < y) && (a.spec_compare(b) == Some(Order::Equal) <==> x
            == y) && a.spec_compare(b) is Some),
        a matches TypedBound::U64(x) ==> (b matches TypedBound::U64(y) ==> (a.spec_compare(b)
            == Some(Order::Less) <==> x < y) && (a.spec_compare(b) == Some(Order::Equal) <==> x
            == y) && a.spec_compare(b) is Some),
        a matches TypedBound::Timestamp { value: x, unit: u } ==> (
        b matches TypedBound::Timestamp { value: y, unit: v } ==> u == v ==> (a.spec_compare(b)
            == Some(Order::Less) <==> x < y) && (a.spec_compare(b) == Some(Order::Equal) <==> x
            == y) && a.spec_compare(b) is Some),
        a matches TypedBound::Decimal128 { value: x, scale: u } ==> (
        b matches TypedBound::Decimal128 { value: y, scale: v } ==> u == v ==> (a.spec_compare(b)
            == Some(Order::Less) <==> x < y) && (a.spec_compare(b) == Some(Order::Equal) <==> x
            == y) && a.spec_compare(b) is Some),
{
}

/// Whether compiled rules are those of a source: each rule of the source is there as it stands,
/// and a bound as what it spells in the type of the column.
pub open spec fn carries(
    rules: RulesView,
    source: RuleAst,
    field: Field,
    length: (Option<usize>, Option<usize>),
) -> bool {
    &&& rules.required == source.required
    &&& rules.not_null == source.not_null
    &&& rules.unique == source.unique
    &&& rules.min is Some <==> source.min is Some
    &&& rules.max is Some <==> source.max is Some
    &&& rules.min matches Some(t) ==> exists|path: Seq<char>| #[trigger]
        reads_as(source.min.unwrap(), field, path, t)
    &&& rules.max matches Some(t) ==> exists|path: Seq<char>| #[trigger]
        reads_as(source.max.unwrap(), field, path, t)
    &&& rules.pattern is Some <==> source.pattern is Some
    &&& rules.pattern matches Some(p) ==> p == source.pattern.unwrap()@
    &&& rules.allowed is Some <==> source.allowed is Some
    &&& rules.allowed matches Some(list) ==> list == texts(source.allowed.unwrap()@)
    &&& rules.nan == NaNPolicy::Allow <==> source.nan == Some(NaNPolicyAst::Allow)
    &&& rules.validate_nan <==> source.nan is Some || source.min is Some || source.max is Some
    &&& (rules.min_length, rules.max_length) == length
}

/// Whether a bound is read as a typed one in the type of a field.
pub open spec fn reads_as(bound: BoundAst, field: Field, path: Seq<char>, t: TypedBound) -> bool {
    bound_of(
        bound.spelling(),
        field.data_type,
        field.type_text@,
        path,
        rfc3339(bound.spelling().text@),
        iso(bound.spelling().text@),
    ) == Ok::<TypedBound, ErrorView>(t)
}

/// The rules of a column compile to themselves, or not at all.
pub proof fn rules_compile_to_themselves(
    field: Field,
    source: RuleAst,
    length: (Option<usize>, Option<usize>),
)
    requires
        rules_outcome(
            field.name@,
            field.data_type,
            field.type_text@,
            kernel_of(field.data_type),
            source,
            length,
        ) is Ok,
    ensures
        carries(
            rules_outcome(
                field.name@,
                field.data_type,
                field.type_text@,
                kernel_of(field.data_type),
                source,
                length,
            )->Ok_0,
            source,
            field,
            length,
        ),
{
    let base = path_to("$.columns"@, field.name@);
    let rules = rules_outcome(
        field.name@,
        field.data_type,
        field.type_text@,
        kernel_of(field.data_type),
        source,
        length,
    )->Ok_0;
    if let Some(t) = rules.min {
        assert(reads_as(source.min.unwrap(), field, path_to(base, "min"@), t));
    }
    if let Some(t) = rules.max {
        assert(reads_as(source.max.unwrap(), field, path_to(base, "max"@), t));
    }
}

/// Whether a compiled column stands for a field at a place, with the rules of a source.
pub open spec fn compiled_for(
    list: Seq<ColumnView>,
    field: Field,
    place: int,
    source: RuleAst,
    length: (Option<usize>, Option<usize>),
) -> bool {
    exists|k: int|
        0 <= k < list.len() && (#[trigger] list[k]).column_index == place && list[k].field
            == field.name@ && list[k].kernel == kernel_of(field.data_type) && carries(
            list[k].rules,
            source,
            field,
            length,
        )
}

proof fn compiled_stays(
    list: Seq<ColumnView>,
    more: Seq<ColumnView>,
    field: Field,
    place: int,
    source: RuleAst,
    length: (Option<usize>, Option<usize>),
)
    requires
        compiled_for(list, field, place, source, length),
        list.len() <= more.len(),
        more.take(list.len() as int) == list,
    ensures
        compiled_for(more, field, place, source, length),
{
    let k = choose|k: int|
        0 <= k < list.len() && (#[trigger] list[k]).column_index == place && list[k].field
            == field.name@ && list[k].kernel == kernel_of(field.data_type) && carries(
            list[k].rules,
            source,
            field,
            length,
        );
    assert(more.take(list.len() as int)[k] == more[k]);
}

/// A compiled contract carries the rules of every column that it names, at the place of the
/// column: no rule is lost, moved to another column or replaced.
pub proof fn compiled_columns_carry_their_rules(
    fields: Seq<Field>,
    n: nat,
    columns: Seq<(String, RuleAst)>,
    i: int,
    source: RuleAst,
)
    requires
        0 <= i < n <= fields.len(),
        resolved_columns(fields, n, columns) is Ok,
        rules_for(columns, fields[i].name@) == Some(source),
        value_rules(source),
    ensures
        compiled_for(
            resolved_columns(fields, n, columns)->Ok_0,
            fields[i],
            i,
            source,
            (None, None),
        ),
    decreases n,
{
    let m = (n - 1) as nat;
    let before = resolved_columns(fields, m, columns)->Ok_0;
    let all = resolved_columns(fields, n, columns)->Ok_0;
    if i < m {
        compiled_columns_carry_their_rules(fields, m, columns, i, source);
        assert(all.take(before.len() as int) =~= before);
        compiled_stays(before, all, fields[i], i, source, (None, None));
    } else {
        rules_compile_to_themselves(fields[i], source, (None, None));
        assert(all[before.len() as int].column_index == i);
    }
}

/// A compiled contract of version 2 carries the rules of every column that it names, at the
/// place of the column, with the lengths that it declares.
pub proof fn compiled_columns_carry_their_rules_v2(
    fields: Seq<Field>,
    n: nat,
    columns: Seq<(String, RuleAstV2)>,
    i: int,
    source: RuleAstV2,
)
    requires
        0 <= i < n <= fields.len(),
        resolved_columns_v2(fields, n, columns) is Ok,
        rules_for_v2(columns, fields[i].name@) == Some(source),
        value_rules(source.rules),
    ensures
        compiled_for(
            resolved_columns_v2(fields, n, columns)->Ok_0,
            fields[i],
            i,
            source.rules,
            (source.min_length, source.max_length),
        ),
    decreases n,
{
    let m = (n - 1) as nat;
    let length = (source.min_length, source.max_length);
    let before = resolved_columns_v2(fields, m, columns)->Ok_0;
    let all = resolved_columns_v2(fields, n, columns)->Ok_0;
    if i < m {
        compiled_columns_carry_their_rules_v2(fields, m, columns, i, source);
        assert(all.take(before.len() as int) =~= before);
        compiled_stays(before, all, fields[i], i, source.rules, length);
    } else {
        rules_compile_to_themselves(fields[i], source.rules, length);
        assert(all[before.len() as int].column_index == i);
    }
}

/// A rule says something of values where it forbids nulls, repeats, numbers, what is not a
/// number, or texts.
pub proof fn value_rules_are_those_on_values(source: RuleAst)
    ensures
        source.not_null ==> value_rules(source),
        source.unique ==> value_rules(source),
        source.min is Some ==> value_rules(source),
        source.max is Some ==> value_rules(source),
        source.nan is Some ==> value_rules(source),
        source.pattern is Some ==> value_rules(source),
        source.allowed is Some ==> value_rules(source),
{
}

/// The rules for a column are the first under its name.
pub proof fn rules_are_found_by_name(columns: Seq<(String, RuleAst)>, name: Seq<char>, i: int)
    requires
        0 <= i < columns.len(),
        columns[i].0@ == name,
        forall|j: int| 0 <= j < i ==> (#[trigger] columns[j]).0@ != name,
    ensures
        rules_for(columns, name) == Some(columns[i].1),
    decreases i,
{
    if i > 0 {
        let rest = columns.drop_first();
        assert(columns[0].0@ != name);
        assert forall|j: int| 0 <= j < i - 1 implies (#[trigger] rest[j]).0@ != name by {
            assert(rest[j] == columns[j + 1]);
        }
        rules_are_found_by_name(rest, name, i - 1);
    }
}

/// The rules for a column of version 2 are the first under its name.
pub proof fn rules_are_found_by_name_v2(columns: Seq<(String, RuleAstV2)>, name: Seq<char>, i: int)
    requires
        0 <= i < columns.len(),
        columns[i].0@ == name,
        forall|j: int| 0 <= j < i ==> (#[trigger] columns[j]).0@ != name,
    ensures
        rules_for_v2(columns, name) == Some(columns[i].1),
    decreases i,
{
    if i > 0 {
        let rest = columns.drop_first();
        assert(columns[0].0@ != name);
        assert forall|j: int| 0 <= j < i - 1 implies (#[trigger] rest[j]).0@ != name by {
            assert(rest[j] == columns[j + 1]);
        }
        rules_are_found_by_name_v2(rest, name, i - 1);
    }
}

/// Rules compile only on columns that they can judge: bounds on numbers, dates and instants,
/// patterns and lists on texts, and the rule on what is not a number on floats.
pub proof fn rules_need_columns_they_can_judge(field: Field, source: RuleAst)
    requires
        rules_outcome(
            field.name@,
            field.data_type,
            field.type_text@,
            kernel_of(field.data_type),
            source,
            (None, None),
        ) is Ok,
    ensures
        source.min is Some || source.max is Some ==> domain(field.data_type) is Some
            || field.data_type is Float32 || field.data_type is Float64 || field.data_type is Date32
            || field.data_type is Date64 || field.data_type is Timestamp
            || field.data_type is Decimal128,
        source.pattern is Some || source.allowed is Some ==> field.data_type is Utf8
            || field.data_type is LargeUtf8 || field.data_type is Utf8View,
        source.nan is Some ==> field.data_type is Float32 || field.data_type is Float64,
        source.min is Some && source.max is Some ==> opt_bound_of(
            source.min,
            field.data_type,
            field.type_text@,
            path_to(path_to("$.columns"@, field.name@), "min"@),
        )->Ok_0.unwrap().spec_compare(
            opt_bound_of(
                source.max,
                field.data_type,
                field.type_text@,
                path_to(path_to("$.columns"@, field.name@), "max"@),
            )->Ok_0.unwrap(),
        ) != Some(Order::Greater),
{
}

/// An expected type without parameters admits the type of its name, and no other.
pub proof fn expected_types_admit_their_own(p: PrimitiveTypeAst, actual: DataType)
    ensures
        expected_type(TypeAst::Primitive(p), actual) <==> match p {
            PrimitiveTypeAst::Boolean => actual is Boolean,
            PrimitiveTypeAst::Int8 => actual is Int8,
            PrimitiveTypeAst::Int16 => actual is Int16,
            PrimitiveTypeAst::Int32 => actual is Int32,
            PrimitiveTypeAst::Int64 => actual is Int64,
            PrimitiveTypeAst::Uint8 => actual is UInt8,
            PrimitiveTypeAst::Uint16 => actual is UInt16,
            PrimitiveTypeAst::Uint32 => actual is UInt32,
            PrimitiveTypeAst::Uint64 => actual is UInt64,
            PrimitiveTypeAst::Float32 => actual is Float32,
            PrimitiveTypeAst::Float64 => actual is Float64,
            PrimitiveTypeAst::Date32 => actual is Date32,
            PrimitiveTypeAst::Date64 => actual is Date64,
            PrimitiveTypeAst::Utf8 => actual is Utf8,
            PrimitiveTypeAst::LargeUtf8 => actual is LargeUtf8,
            PrimitiveTypeAst::Utf8View => actual is Utf8View,
            PrimitiveTypeAst::Binary => actual is Binary,
            PrimitiveTypeAst::LargeBinary => actual is LargeBinary,
            PrimitiveTypeAst::BinaryView => actual is BinaryView,
        },
{
}

} // verus!
