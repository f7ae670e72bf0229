//! Typed bounds: reading a bound's spelling in the arithmetic of its column.

use crate::contract::ast::{fail, failure, BoundAst, Spelling};
use crate::error::{ErrorCode, ErrorView, ProofFrameError};
use crate::numbers::{
    all_digits, decimal_digits, digit_count, digits_only, digits_to_u128, digits_value, finite32,
    finite64, integer_in, is_finite32, is_finite64, is_nan32, is_nan64, is_space, is_whitespace,
    key32, key64, nan32, nan64, natural_in, order_key32, order_key64, parse_integer,
    parse_natural, pow10, signed, unsigned_part, Order,
};
use crate::text::{cat7, chars_of, text};
use crate::value::{DataType, TimeUnit};
use vstd::prelude::*;

verus! {

/// Exact semantic value used by compiled range checks. Floats are bit patterns.
#[allow(inconsistent_fields)]
#[derive(Debug, Clone, Copy, PartialEq, Eq, Structural)]
pub enum TypedBound {
    I64(i64),
    U64(u64),
    F32(u32),
    F64(u64),
    Decimal128 { value: i128, scale: i8 },
    Timestamp { value: i64, unit: TimeUnit },
}

/// The order of two integers.
pub open spec fn int_order(a: int, b: int) -> Order {
    if a < b {
        Order::Less
    } else if a == b {
        Order::Equal
    } else {
        Order::Greater
    }
}

fn order_ints(a: i128, b: i128) -> (r: Order)
    ensures
        r == int_order(a as int, b as int),
{
    if a < b {
        Order::Less
    } else if a == b {
        Order::Equal
    } else {
        Order::Greater
    }
}

impl TypedBound {
    /// The order of two bounds of one type; nothing for bounds that cannot be compared.
    pub open spec fn spec_compare(self, other: Self) -> Option<Order> {
        match (self, other) {
            (TypedBound::I64(a), TypedBound::I64(b)) => Some(int_order(a as int, b as int)),
            (TypedBound::U64(a), TypedBound::U64(b)) => Some(int_order(a as int, b as int)),
            (TypedBound::F32(a), TypedBound::F32(b)) => if nan32(a) || nan32(b) {
                None
            } else {
                Some(int_order(key32(a), key32(b)))
            },
            (TypedBound::F64(a), TypedBound::F64(b)) => if nan64(a) || nan64(b) {
                None
            } else {
                Some(int_order(key64(a), key64(b)))
            },
            (
                TypedBound::Decimal128 { value: a, scale: s },
                TypedBound::Decimal128 { value: b, scale: t },
            ) => if s == t {
                Some(int_order(a as int, b as int))
            } else {
                None
            },
            (
                TypedBound::Timestamp { value: a, unit: s },
                TypedBound::Timestamp { value: b, unit: t },
            ) => if s == t {
                Some(int_order(a as int, b as int))
            } else {
                None
            },
            _ => None,
        }
    }

    /// The order of two bounds of one type; nothing for bounds that cannot be compared.
    pub fn compare(&self, other: &Self) -> (r: Option<Order>)
        ensures
            r == self.spec_compare(*other),
    {
        match (*self, *other) {
            (TypedBound::I64(a), TypedBound::I64(b)) => Some(order_ints(a as i128, b as i128)),
            (TypedBound::U64(a), TypedBound::U64(b)) => Some(order_ints(a as i128, b as i128)),
            (TypedBound::F32(a), TypedBound::F32(b)) => if is_nan32(a) || is_nan32(b) {
                None
            } else {
                Some(order_ints(order_key32(a), order_key32(b)))
            },
            (TypedBound::F64(a), TypedBound::F64(b)) => if is_nan64(a) || is_nan64(b) {
                None
            } else {
                Some(order_ints(order_key64(a), order_key64(b)))
            },
            (
                TypedBound::Decimal128 { value: a, scale: s },
                TypedBound::Decimal128 { value: b, scale: t },
            ) => if s == t {
                Some(order_ints(a, b))
            } else {
                None
            },
            (
                TypedBound::Timestamp { value: a, unit: s },
                TypedBound::Timestamp { value: b, unit: t },
            ) => if s == t {
                Some(order_ints(a as i128, b as i128))
            } else {
                None
            },
            _ => None,
        }
    }
}

/// The instant of an RFC 3339 text, as whole seconds since the epoch and nanoseconds.
pub uninterp spec fn rfc3339(s: Seq<char>) -> Option<(i64, u32)>;

/// `chrono::DateTime::parse_from_rfc3339`, with the `timestamp` and
/// `timestamp_subsec_nanos` of what it returns; nothing where it returns an error.
#[verifier::external_body]
pub(crate) fn parse_rfc3339(s: &str) -> (r: Option<(i64, u32)>)
    ensures
        r == rfc3339(s@),
{
    match chrono::DateTime::parse_from_rfc3339(s) {
        Ok(t) => Some((t.timestamp(), t.timestamp_subsec_nanos())),
        Err(_) => None,
    }
}

/// The days from 1970-01-01 to the date that a text spells in a form.
pub uninterp spec fn calendar_days(s: Seq<char>, form: Seq<char>) -> Option<i64>;

/// `chrono::NaiveDate::parse_from_str`, with what it returns as the whole days since
/// 1970-01-01; nothing where it returns an error.
#[verifier::external_body]
pub(crate) fn parse_calendar_days(s: &str, form: &str) -> (r: Option<i64>)
    ensures
        r == calendar_days(s@, form@),
{
    match chrono::NaiveDate::parse_from_str(s, form) {
        Ok(d) => Some(d.signed_duration_since(chrono::NaiveDate::default()).num_days()),
        Err(_) => None,
    }
}

/// Whether a text has the complete calendar form: four digits, a hyphen, two digits, a
/// hyphen, two digits.
pub open spec fn calendar_form(s: Seq<char>) -> bool {
    &&& s.len() == 10
    &&& s[4] == '-'
    &&& s[7] == '-'
    &&& all_digits(s.subrange(0, 4))
    &&& all_digits(s.subrange(5, 7))
    &&& all_digits(s.subrange(8, 10))
}

/// Days since the epoch for a date in the complete calendar form. Texts such as `2024-1-1`
/// and `2024-01` are no dates: a reader and a parser may differ in what they mean.
pub open spec fn iso(s: Seq<char>) -> Option<i64> {
    if calendar_form(s) {
        calendar_days(s, "%Y-%m-%d"@)
    } else {
        None
    }
}

/// Days since the epoch for a date in the complete calendar form.
pub fn iso_days(s: &str) -> (r: Option<i64>)
    ensures
        r == iso(s@),
        r is Some ==> calendar_form(s@),
{
    let chars = chars_of(s);
    if chars.len() == 10 && chars[4] == '-' && chars[7] == '-' && digits_only(&chars, 0, 4)
        && digits_only(&chars, 5, 7) && digits_only(&chars, 8, 10) {
        parse_calendar_days(s, "%Y-%m-%d")
    } else {
        None
    }
}

/// The error of a bound that cannot be read.
pub open spec fn bound_failure(source: Seq<char>, path: Seq<char>, reason: Seq<char>) -> ErrorView {
    failure(
        ErrorCode::ContractInvalidBound,
        "Invalid bound `"@ + source + "` at "@ + path + ": "@ + reason + ""@,
        path,
    )
}

fn bound_error(source: &str, path: &str, reason: &str) -> (r: ProofFrameError)
    ensures
        r@ == bound_failure(source@, path@, reason@),
{
    fail(
        ErrorCode::ContractInvalidBound,
        cat7("Invalid bound `", source, "` at ", path, ": ", reason, ""),
        text(path),
    )
}

/// The error of a timestamp bound that cannot be read.
pub open spec fn timestamp_failure(
    source: Seq<char>,
    path: Seq<char>,
    reason: Seq<char>,
) -> ErrorView {
    failure(
        ErrorCode::ContractInvalidBound,
        "Invalid timestamp bound `"@ + source + "` at "@ + path + ": "@ + reason + ""@,
        path,
    )
}

/// The error of a decimal bound that cannot be read.
pub open spec fn decimal_failure(source: Seq<char>, path: Seq<char>, reason: Seq<char>) -> ErrorView {
    failure(
        ErrorCode::ContractInvalidBound,
        "Invalid decimal bound `"@ + source + "` at "@ + path + ": "@ + reason + ""@,
        path,
    )
}

/// The ticks of a second in a unit.
pub open spec fn ticks_per_second(unit: TimeUnit) -> int {
    match unit {
        TimeUnit::Second => 1,
        TimeUnit::Millisecond => 1_000,
        TimeUnit::Microsecond => 1_000_000,
        TimeUnit::Nanosecond => 1_000_000_000,
    }
}

/// The nanoseconds of a tick in a unit.
pub open spec fn nanos_per_tick(unit: TimeUnit) -> int {
    match unit {
        TimeUnit::Second => 1_000_000_000,
        TimeUnit::Millisecond => 1_000_000,
        TimeUnit::Microsecond => 1_000,
        TimeUnit::Nanosecond => 1,
    }
}

/// The ticks of a timestamp bound: an integer, or an instant that the unit can hold
/// without rounding.
pub open spec fn timestamp_bound(
    source: Seq<char>,
    unit: TimeUnit,
    path: Seq<char>,
    instant: Option<(i64, u32)>,
) -> Result<TypedBound, ErrorView> {
    match integer_in(source, i64::MIN as int, i64::MAX as int) {
        Some(v) => Ok(TypedBound::Timestamp { value: v as i64, unit }),
        None => match instant {
            None => Err(
                timestamp_failure(
                    source,
                    path,
                    "expected integer ticks or an ISO-8601 timestamp with an explicit UTC offset"@,
                ),
            ),
            Some((seconds, nanos)) => if nanos as int % nanos_per_tick(unit) != 0 {
                Err(
                    timestamp_failure(
                        source,
                        path,
                        "fractional precision exceeds the Arrow timestamp unit; rounding is not allowed"@,
                    ),
                )
            } else if !(i64::MIN <= seconds * ticks_per_second(unit) <= i64::MAX) || !(i64::MIN
                <= seconds * ticks_per_second(unit) + nanos as int / nanos_per_tick(unit)
                <= i64::MAX) {
                Err(
                    timestamp_failure(
                        source,
                        path,
                        "timestamp exceeds the signed Arrow tick range"@,
                    ),
                )
            } else {
                Ok(
                    TypedBound::Timestamp {
                        value: (seconds * ticks_per_second(unit) + nanos as int / nanos_per_tick(
                            unit,
                        )) as i64,
                        unit,
                    },
                )
            },
        },
    }
}

/// A result with its error seen by its view.
pub open spec fn seen<T>(r: Result<T, ProofFrameError>) -> Result<T, ErrorView> {
    match r {
        Ok(v) => Ok(v),
        Err(e) => Err(e@),
    }
}

fn timestamp_error(source: &str, path: &str, reason: &str) -> (r: ProofFrameError)
    ensures
        r@ == timestamp_failure(source@, path@, reason@),
{
    fail(
        ErrorCode::ContractInvalidBound,
        cat7("Invalid timestamp bound `", source, "` at ", path, ": ", reason, ""),
        text(path),
    )
}

/// Reads a timestamp bound, given the instant that its text spells.
pub fn resolve_timestamp(source: &str, unit: TimeUnit, path: &str, instant: Option<(i64, u32)>) -> (r:
    Result<TypedBound, ProofFrameError>)
    ensures
        seen(r) == timestamp_bound(source@, unit, path@, instant),
{
    let chars = chars_of(source);
    match parse_integer(&chars, i64::MIN as i128, i64::MAX as i128) {
        Some(value) => return Ok(TypedBound::Timestamp { value: value as i64, unit }),
        None => {},
    }
    match instant {
        None => Err(
            timestamp_error(
                source,
                path,
                "expected integer ticks or an ISO-8601 timestamp with an explicit UTC offset",
            ),
        ),
        Some((seconds, nanos)) => {
            let (scale, precision): (i64, u32) = match unit {
                TimeUnit::Second => (1, 1_000_000_000),
                TimeUnit::Millisecond => (1_000, 1_000_000),
                TimeUnit::Microsecond => (1_000_000, 1_000),
                TimeUnit::Nanosecond => (1_000_000_000, 1),
            };
            if nanos % precision != 0 {
                return Err(
                    timestamp_error(
                        source,
                        path,
                        "fractional precision exceeds the Arrow timestamp unit; rounding is not allowed",
                    ),
                );
            }
            let ticks: i64 = (nanos / precision) as i64;
            match seconds.checked_mul(scale) {
                Some(whole) => match whole.checked_add(ticks) {
                    Some(value) => Ok(TypedBound::Timestamp { value, unit }),
                    None => Err(
                        timestamp_error(
                            source,
                            path,
                            "timestamp exceeds the signed Arrow tick range",
                        ),
                    ),
                },
                None => Err(
                    timestamp_error(source, path, "timestamp exceeds the signed Arrow tick range"),
                ),
            }
        },
    }
}

/// Reads a timestamp bound.
pub fn parse_timestamp(source: &str, unit: TimeUnit, path: &str) -> (r: Result<
    TypedBound,
    ProofFrameError,
>)
    ensures
        seen(r) == timestamp_bound(source@, unit, path@, rfc3339(source@)),
{
    let instant = parse_rfc3339(source);
    resolve_timestamp(source, unit, path, instant)
}

/// The position of the first point in a text, or its length.
pub open spec fn first_point(s: Seq<char>) -> int
    decreases s.len(),
{
    if s.len() == 0 {
        0
    } else if s[0] == '.' {
        0
    } else {
        1 + first_point(s.drop_first())
    }
}

/// A run of zeros.
pub open spec fn zeros(n: nat) -> Seq<char> {
    Seq::new(n, |i: int| '0')
}

/// Whether a digit behind position `n` is not zero.
pub open spec fn nonzero_behind(s: Seq<char>, n: int) -> bool {
    exists|i: int| n <= i < s.len() && s[i] != '0'
}

/// The digits of a decimal before its point.
pub open spec fn whole_part(s: Seq<char>) -> Seq<char> {
    unsigned_part(s).take(first_point(unsigned_part(s)))
}

/// The digits of a decimal behind its point.
pub open spec fn fraction_part(s: Seq<char>) -> Seq<char> {
    let u = unsigned_part(s);
    if first_point(u) < u.len() {
        u.skip(first_point(u) + 1)
    } else {
        Seq::empty()
    }
}

/// The magnitude of a decimal in units of its scale, or why there is none.
pub open spec fn decimal_magnitude(whole: Seq<char>, fraction: Seq<char>, scale: int) -> Result<
    nat,
    Seq<char>,
> {
    if scale >= 0 {
        let kept = fraction.take(if fraction.len() < scale { fraction.len() as int } else { scale });
        let magnitude = digits_value(whole + kept + zeros((scale - kept.len()) as nat));
        if nonzero_behind(fraction, scale) {
            Err("fractional digits exceed the Arrow scale"@)
        } else if magnitude > i128::MAX {
            Err("decimal magnitude exceeds i128"@)
        } else {
            Ok(magnitude)
        }
    } else {
        if nonzero_behind(fraction, 0) {
            Err("negative-scale decimals cannot contain a fractional value"@)
        } else if digits_value(whole) > i128::MAX {
            Err("decimal magnitude exceeds i128"@)
        } else if pow10((-scale) as nat) > i128::MAX {
            Err("decimal scale is too large"@)
        } else if digits_value(whole) % pow10((-scale) as nat) != 0 {
            Err("value is not aligned to the negative Arrow scale"@)
        } else {
            Ok(digits_value(whole) / pow10((-scale) as nat))
        }
    }
}

/// The value of a decimal bound in units of its scale, or why there is none.
pub open spec fn decimal_value(s: Seq<char>, precision: int, scale: int) -> Result<int, Seq<char>> {
    if s.len() == 0 || is_space(s[0]) || is_space(s.last()) || s.contains('e') || s.contains('E') {
        Err("expected a plain base-10 decimal"@)
    } else if unsigned_part(s).len() == 0 {
        Err("missing decimal digits"@)
    } else if whole_part(s).len() == 0 || !all_digits(whole_part(s)) || !all_digits(
        fraction_part(s),
    ) {
        Err("expected digits with at most one decimal point"@)
    } else {
        match decimal_magnitude(whole_part(s), fraction_part(s), scale) {
            Err(reason) => Err(reason),
            Ok(m) => if digit_count(m) > precision {
                Err("value exceeds the Arrow decimal precision"@)
            } else if s[0] == '-' {
                Ok(-(m as int))
            } else {
                Ok(m as int)
            },
        }
    }
}

fn contains_char(s: &Vec<char>, c: char) -> (r: bool)
    ensures
        r == s@.contains(c),
{
    let mut i: usize = 0;
    while i < s.len()
        invariant
            i <= s@.len(),
            forall|j: int| 0 <= j < i ==> s@[j] != c,
        decreases s@.len() - i,
    {
        if s[i] == c {
            assert(s@[i as int] == c);
            return true;
        }
        i = i + 1;
    }
    false
}

fn find_point(s: &Vec<char>, start: usize) -> (r: usize)
    requires
        start <= s@.len(),
    ensures
        r == start + first_point(s@.skip(start as int)),
        start <= r <= s@.len(),
    decreases s@.len() - start,
{
    let ghost rest = s@.skip(start as int);
    if start == s.len() {
        start
    } else {
        assert(rest[0] == s@[start as int]);
        if s[start] == '.' {
            start
        } else {
            assert(rest.drop_first() =~= s@.skip(start + 1));
            find_point(s, start + 1)
        }
    }
}

fn has_nonzero(s: &Vec<char>, start: usize) -> (r: bool)
    ensures
        r == nonzero_behind(s@, start as int),
{
    let mut i: usize = start;
    while i < s.len()
        invariant
            start <= i,
            i <= s@.len() || i == start,
            forall|j: int| start <= j < i ==> s@[j] == '0',
        decreases s@.len() - i,
    {
        if s[i] != '0' {
            assert(s@[i as int] != '0');
            return true;
        }
        i = i + 1;
    }
    false
}

fn subchars(s: &Vec<char>, start: usize, end: usize) -> (r: Vec<char>)
    requires
        start <= end <= s@.len(),
    ensures
        r@ == s@.subrange(start as int, end as int),
{
    let mut r: Vec<char> = Vec::new();
    let mut i: usize = start;
    while i < end
        invariant
            start <= i <= end <= s@.len(),
            r@ == s@.subrange(start as int, i as int),
        decreases end - i,
    {
        r.push(s[i]);
        assert(s@.subrange(start as int, i + 1) =~= s@.subrange(start as int, i as int).push(
            s@[i as int],
        ));
        i = i + 1;
    }
    r
}

fn power_of_ten(n: usize) -> (r: Option<i128>)
    requires
        n <= 200,
    ensures
        if pow10(n as nat) <= i128::MAX {
            r matches Some(p) && p == pow10(n as nat)
        } else {
            r is None
        },
{
    let mut p: i128 = 1;
    let mut i: usize = 0;
    while i < n
        invariant
            i <= n <= 200,
            p == pow10(i as nat),
            p >= 1,
        decreases n - i,
    {
        proof {
            pow10_grows((i + 1) as nat, n as nat);
        }
        p = match p.checked_mul(10) {
            Some(q) => q,
            None => return None,
        };
        i = i + 1;
    }
    Some(p)
}

proof fn pow10_grows(a: nat, b: nat)
    requires
        a <= b,
    ensures
        1 <= pow10(a) <= pow10(b),
    decreases b,
{
    if a < b {
        pow10_grows(a, (b - 1) as nat);
    } else if a > 0 {
        pow10_grows((a - 1) as nat, (a - 1) as nat);
    }
}

fn magnitude_of(whole: &Vec<char>, fraction: &Vec<char>, scale: i8) -> (r: Result<
    i128,
    &'static str,
>)
    requires
        all_digits(whole@),
        all_digits(fraction@),
        whole@.len() > 0,
    ensures
        match decimal_magnitude(whole@, fraction@, scale as int) {
            Ok(m) => r matches Ok(v) && v == m,
            Err(reason) => r matches Err(t) && t@ == reason,
        },
{
    let limit: u128 = 170141183460469231731687303715884105727;
    if scale >= 0 {
        let places: usize = scale as usize;
        if has_nonzero(fraction, places) {
            return Err("fractional digits exceed the Arrow scale");
        }
        let keep: usize = if fraction.len() < places {
            fraction.len()
        } else {
            places
        };
        let mut digits: Vec<char> = subchars(whole, 0, whole.len());
        assert(digits@ =~= whole@);
        let ghost kept = fraction@.take(keep as int);
        let mut i: usize = 0;
        while i < keep
            invariant
                i <= keep <= fraction@.len(),
                digits@ == whole@ + fraction@.take(i as int),
            decreases keep - i,
        {
            digits.push(fraction[i]);
            assert(digits@ =~= whole@ + fraction@.take(i + 1));
            i = i + 1;
        }
        let mut z: usize = 0;
        assert(digits@ =~= whole@ + kept + zeros(0));
        while z < places - keep
            invariant
                z <= places - keep,
                keep <= places,
                digits@ == whole@ + kept + zeros(z as nat),
            decreases places - keep - z,
        {
            digits.push('0');
            z = z + 1;
            assert(digits@ =~= whole@ + kept + zeros(z as nat));
        }
        let n: usize = digits.len();
        assert(all_digits(digits@));
        assert(digits@.subrange(0, n as int) =~= digits@);
        match digits_to_u128(&digits, 0, n) {
            Some(m) => if m <= limit {
                Ok(m as i128)
            } else {
                Err("decimal magnitude exceeds i128")
            },
            None => Err("decimal magnitude exceeds i128"),
        }
    } else {
        if has_nonzero(fraction, 0) {
            return Err("negative-scale decimals cannot contain a fractional value");
        }
        let n: usize = whole.len();
        assert(whole@.subrange(0, n as int) =~= whole@);
        let value: i128 = match digits_to_u128(whole, 0, n) {
            Some(m) => if m <= limit {
                m as i128
            } else {
                return Err("decimal magnitude exceeds i128");
            },
            None => return Err("decimal magnitude exceeds i128"),
        };
        let places: usize = (-(scale as i16)) as usize;
        match power_of_ten(places) {
            None => Err("decimal scale is too large"),
            Some(divisor) => {
                proof {
                    pow10_grows(0, places as nat);
                }
                if value % divisor != 0 {
                    Err("value is not aligned to the negative Arrow scale")
                } else {
                    Ok(value / divisor)
                }
            },
        }
    }
}

fn decimal_reason(source: &Vec<char>, precision: u8, scale: i8) -> (r: Result<i128, &'static str>)
    ensures
        match decimal_value(source@, precision as int, scale as int) {
            Ok(m) => r matches Ok(v) && v == m,
            Err(reason) => r matches Err(t) && t@ == reason,
        },
{
    let n: usize = source.len();
    if n == 0 || is_whitespace(source[0]) || is_whitespace(source[n - 1]) || contains_char(
        source,
        'e',
    ) || contains_char(source, 'E') {
        return Err("expected a plain base-10 decimal");
    }
    let negative = source[0] == '-';
    let start: usize = if source[0] == '-' || source[0] == '+' {
        1
    } else {
        0
    };
    let ghost u = unsigned_part(source@);
    assert(u =~= source@.skip(start as int));
    if start == n {
        return Err("missing decimal digits");
    }
    let point: usize = find_point(source, start);
    let whole = subchars(source, start, point);
    assert(whole@ =~= whole_part(source@));
    let fraction = if point < n {
        subchars(source, point + 1, n)
    } else {
        Vec::new()
    };
    assert(fraction@ =~= fraction_part(source@));
    assert(whole@.subrange(0, whole@.len() as int) =~= whole@);
    assert(fraction@.subrange(0, fraction@.len() as int) =~= fraction@);
    if whole.len() == 0 || !digits_only(&whole, 0, whole.len()) || !digits_only(
        &fraction,
        0,
        fraction.len(),
    ) {
        return Err("expected digits with at most one decimal point");
    }
    match magnitude_of(&whole, &fraction, scale) {
        Err(reason) => Err(reason),
        Ok(m) => {
            if decimal_digits(m) > precision as usize {
                Err("value exceeds the Arrow decimal precision")
            } else if negative {
                Ok(-m)
            } else {
                Ok(m)
            }
        },
    }
}

/// Reads a decimal bound in units of its scale, without rounding.
pub fn parse_decimal(source: &str, precision: u8, scale: i8, path: &str) -> (r: Result<
    i128,
    ProofFrameError,
>)
    ensures
        match decimal_value(source@, precision as int, scale as int) {
            Ok(m) => r matches Ok(v) && v == m,
            Err(reason) => r matches Err(e) && e@ == decimal_failure(source@, path@, reason),
        },
{
    let chars = chars_of(source);
    match decimal_reason(&chars, precision, scale) {
        Ok(v) => Ok(v),
        Err(reason) => Err(
            fail(
                ErrorCode::ContractInvalidBound,
                cat7("Invalid decimal bound `", source, "` at ", path, ": ", reason, ""),
                text(path),
            ),
        ),
    }
}

/// The integer range of a signed column type, with what a bound on it must be.
pub open spec fn signed_domain(data_type: DataType) -> Option<(int, int, Seq<char>)> {
    match data_type {
        DataType::Int8 => Some((-0x80, 0x7f, "expected an integer in the Int8 domain"@)),
        DataType::Int16 => Some((-0x8000, 0x7fff, "expected an integer in the Int16 domain"@)),
        DataType::Int32 => Some(
            (-0x8000_0000, 0x7fff_ffff, "expected an integer in the Int32 domain"@),
        ),
        DataType::Int64 => Some(
            (
                -0x8000_0000_0000_0000,
                0x7fff_ffff_ffff_ffff,
                "expected an integer in the Int64 domain"@,
            ),
        ),
        _ => None,
    }
}

/// The largest value of an unsigned column type, with what a bound on it must be.
pub open spec fn unsigned_domain(data_type: DataType) -> Option<(int, Seq<char>)> {
    match data_type {
        DataType::UInt8 => Some((0xff, "expected an integer in the UInt8 domain"@)),
        DataType::UInt16 => Some((0xffff, "expected an integer in the UInt16 domain"@)),
        DataType::UInt32 => Some((0xffff_ffff, "expected an integer in the UInt32 domain"@)),
        DataType::UInt64 => Some(
            (0xffff_ffff_ffff_ffff, "expected an integer in the UInt64 domain"@),
        ),
        _ => None,
    }
}

/// A bound read in the arithmetic of a column type, given the instant and the days that
/// its text spells.
pub open spec fn bound_of(
    s: Spelling,
    data_type: DataType,
    shown: Seq<char>,
    path: Seq<char>,
    instant: Option<(i64, u32)>,
    days: Option<i64>,
) -> Result<TypedBound, ErrorView> {
    let source = s.text@;
    match data_type {
        DataType::Date32 => match integer_in(source, i32::MIN as int, i32::MAX as int) {
            Some(v) => Ok(TypedBound::I64(v as i64)),
            None => match days {
                Some(d) => Ok(TypedBound::I64(d)),
                None => Err(
                    bound_failure(
                        source,
                        path,
                        "expected `YYYY-MM-DD` or a day count in the Date32 domain"@,
                    ),
                ),
            },
        },
        DataType::Date64 => match integer_in(source, i64::MIN as int, i64::MAX as int) {
            Some(v) => Ok(TypedBound::I64(v as i64)),
            None => if days is Some && i64::MIN <= days.unwrap() * 86_400_000 <= i64::MAX {
                Ok(TypedBound::I64((days.unwrap() * 86_400_000) as i64))
            } else {
                Err(
                    bound_failure(
                        source,
                        path,
                        "expected `YYYY-MM-DD` or a millisecond count in the Date64 domain"@,
                    ),
                )
            },
        },
        DataType::Float32 => match s.float32 {
            None => Err(bound_failure(source, path, "expected a finite 32-bit float"@)),
            Some(b) => if finite32(b) {
                Ok(TypedBound::F32(b))
            } else {
                Err(bound_failure(source, path, "floating-point bounds must be finite"@))
            },
        },
        DataType::Float64 => match s.float64 {
            None => Err(bound_failure(source, path, "expected a finite 64-bit float"@)),
            Some(b) => if finite64(b) {
                Ok(TypedBound::F64(b))
            } else {
                Err(bound_failure(source, path, "floating-point bounds must be finite"@))
            },
        },
        DataType::Decimal128(precision, scale) => match decimal_value(
            source,
            precision as int,
            scale as int,
        ) {
            Ok(v) => Ok(TypedBound::Decimal128 { value: v as i128, scale }),
            Err(reason) => Err(decimal_failure(source, path, reason)),
        },
        DataType::Timestamp(unit, _) => timestamp_bound(source, unit, path, instant),
        _ => match signed_domain(data_type) {
            Some((low, high, reason)) => match integer_in(source, low, high) {
                Some(v) => Ok(TypedBound::I64(v as i64)),
                None => Err(bound_failure(source, path, reason)),
            },
            None => match unsigned_domain(data_type) {
                Some((high, reason)) => match natural_in(source, high) {
                    Some(v) => Ok(TypedBound::U64(v as u64)),
                    None => Err(bound_failure(source, path, reason)),
                },
                None => Err(
                    failure(
                        ErrorCode::ContractTypeMismatch,
                        "Bounds are not supported for Arrow type `"@ + shown + "`"@,
                        path,
                    ),
                ),
            },
        },
    }
}

fn signed_bound(source: &str, low: i64, high: i64, path: &str, reason: &'static str) -> (r: Result<
    TypedBound,
    ProofFrameError,
>)
    ensures
        seen(r) == (match integer_in(source@, low as int, high as int) {
            Some(v) => Ok(TypedBound::I64(v as i64)),
            None => Err(bound_failure(source@, path@, reason@)),
        }),
{
    let chars = chars_of(source);
    match parse_integer(&chars, low as i128, high as i128) {
        Some(v) => Ok(TypedBound::I64(v as i64)),
        None => Err(bound_error(source, path, reason)),
    }
}

fn unsigned_bound(source: &str, high: u64, path: &str, reason: &'static str) -> (r: Result<
    TypedBound,
    ProofFrameError,
>)
    ensures
        seen(r) == (match natural_in(source@, high as int) {
            Some(v) => Ok(TypedBound::U64(v as u64)),
            None => Err(bound_failure(source@, path@, reason@)),
        }),
{
    let chars = chars_of(source);
    match parse_natural(&chars, high) {
        Some(v) => Ok(TypedBound::U64(v)),
        None => Err(bound_error(source, path, reason)),
    }
}

/// Reads a bound in the arithmetic of a column type, given the instant and the days that
/// its text spells.
pub fn resolve_bound(
    bound: &BoundAst,
    data_type: &DataType,
    shown: &str,
    path: &str,
    instant: Option<(i64, u32)>,
    days: Option<i64>,
) -> (r: Result<TypedBound, ProofFrameError>)
    ensures
        seen(r) == bound_of(bound.spelling(), *data_type, shown@, path@, instant, days),
{
    let spelling = bound.as_spelling();
    let source = spelling.text.as_str();
    match data_type {
        DataType::Int8 => signed_bound(
            source,
            -0x80,
            0x7f,
            path,
            "expected an integer in the Int8 domain",
        ),
        DataType::Int16 => signed_bound(
            source,
            -0x8000,
            0x7fff,
            path,
            "expected an integer in the Int16 domain",
        ),
        DataType::Int32 => signed_bound(
            source,
            -0x8000_0000,
            0x7fff_ffff,
            path,
            "expected an integer in the Int32 domain",
        ),
        DataType::Int64 => signed_bound(
            source,
            i64::MIN,
            i64::MAX,
            path,
            "expected an integer in the Int64 domain",
        ),
        DataType::UInt8 => unsigned_bound(
            source,
            0xff,
            path,
            "expected an integer in the UInt8 domain",
        ),
        DataType::UInt16 => unsigned_bound(
            source,
            0xffff,
            path,
            "expected an integer in the UInt16 domain",
        ),
        DataType::UInt32 => unsigned_bound(
            source,
            0xffff_ffff,
            path,
            "expected an integer in the UInt32 domain",
        ),
        DataType::UInt64 => unsigned_bound(
            source,
            u64::MAX,
            path,
            "expected an integer in the UInt64 domain",
        ),
        DataType::Date32 => {
            let chars = chars_of(source);
            match parse_integer(&chars, i32::MIN as i128, i32::MAX as i128) {
                Some(v) => Ok(TypedBound::I64(v as i64)),
                None => match days {
                    Some(d) => Ok(TypedBound::I64(d)),
                    None => Err(
                        bound_error(
                            source,
                            path,
                            "expected `YYYY-MM-DD` or a day count in the Date32 domain",
                        ),
                    ),
                },
            }
        },
        DataType::Date64 => {
            let chars = chars_of(source);
            match parse_integer(&chars, i64::MIN as i128, i64::MAX as i128) {
                Some(v) => Ok(TypedBound::I64(v as i64)),
                None => {
                    let millis = match days {
                        Some(d) => d.checked_mul(86_400_000),
                        None => None,
                    };
                    match millis {
                        Some(m) => Ok(TypedBound::I64(m)),
                        None => Err(
                            bound_error(
                                source,
                                path,
                                "expected `YYYY-MM-DD` or a millisecond count in the Date64 domain",
                            ),
                        ),
                    }
                },
            }
        },
        DataType::Float32 => match spelling.float32 {
            None => Err(bound_error(source, path, "expected a finite 32-bit float")),
            Some(b) => if is_finite32(b) {
                Ok(TypedBound::F32(b))
            } else {
                Err(bound_error(source, path, "floating-point bounds must be finite"))
            },
        },
        DataType::Float64 => match spelling.float64 {
            None => Err(bound_error(source, path, "expected a finite 64-bit float")),
            Some(b) => if is_finite64(b) {
                Ok(TypedBound::F64(b))
            } else {
                Err(bound_error(source, path, "floating-point bounds must be finite"))
            },
        },
        DataType::Decimal128(precision, scale) => match parse_decimal(
            source,
            *precision,
            *scale,
            path,
        ) {
            Ok(value) => Ok(TypedBound::Decimal128 { value, scale: *scale }),
            Err(e) => Err(e),
        },
        DataType::Timestamp(unit, _) => resolve_timestamp(source, *unit, path, instant),
        _ => Err(
            fail(
                ErrorCode::ContractTypeMismatch,
                crate::text::cat3("Bounds are not supported for Arrow type `", shown, "`"),
                text(path),
            ),
        ),
    }
}

/// Reads a bound in the arithmetic of a column type.
pub fn parse_bound(bound: &BoundAst, data_type: &DataType, shown: &str, path: &str) -> (r: Result<
    TypedBound,
    ProofFrameError,
>)
    ensures
        seen(r) == bound_of(
            bound.spelling(),
            *data_type,
            shown@,
            path@,
            rfc3339(bound.spelling().text@),
            iso(bound.spelling().text@),
        ),
{
    let source = bound.as_text();
    match data_type {
        DataType::Timestamp(_, _) => {
            let instant = parse_rfc3339(source);
            resolve_bound(bound, data_type, shown, path, instant, None)
        },
        DataType::Date32 | DataType::Date64 => {
            let days = iso_days(source);
            resolve_bound(bound, data_type, shown, path, None, days)
        },
        _ => resolve_bound(bound, data_type, shown, path, None, None),
    }
}

} // verus!
