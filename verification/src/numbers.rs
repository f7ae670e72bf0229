//! Numbers: integer and decimal spellings, the order of float bit patterns, and the
//! exact comparison of a fraction with a float.

use crate::text::decimal;
use vstd::arithmetic::power2::{
    lemma_pow2, lemma_pow2_adds, lemma_pow2_strictly_increases, lemma_pow2_unfold, pow2,
};
use vstd::prelude::*;

verus! {

/// Whether a character is an ASCII digit.
pub open spec fn is_digit(c: char) -> bool {
    '0' <= c && c <= '9'
}

/// Whether every character is an ASCII digit.
pub open spec fn all_digits(s: Seq<char>) -> bool {
    forall|i: int| 0 <= i < s.len() ==> is_digit(#[trigger] s[i])
}

/// The number that decimal digits spell.
pub open spec fn digits_value(s: Seq<char>) -> nat
    decreases s.len(),
{
    if s.len() == 0 {
        0
    } else {
        (10 * digits_value(s.drop_last()) + (s.last() as u32 - 48)) as nat
    }
}

/// Whether a text starts with a sign.
pub open spec fn signed(s: Seq<char>) -> bool {
    s.len() > 0 && (s[0] == '+' || s[0] == '-')
}

/// A text without its sign.
pub open spec fn unsigned_part(s: Seq<char>) -> Seq<char> {
    if signed(s) {
        s.drop_first()
    } else {
        s
    }
}

/// The integer that a text spells: an optional sign, then one or more digits.
pub open spec fn integer_text(s: Seq<char>) -> Option<int> {
    let body = unsigned_part(s);
    if body.len() == 0 || !all_digits(body) {
        None
    } else if s[0] == '-' {
        Some(-(digits_value(body) as int))
    } else {
        Some(digits_value(body) as int)
    }
}

/// The integer that a text spells, if it lies in a range.
pub open spec fn integer_in(s: Seq<char>, low: int, high: int) -> Option<int> {
    match integer_text(s) {
        Some(v) => if low <= v <= high {
            Some(v)
        } else {
            None
        },
        None => None,
    }
}

/// The unsigned integer that a text spells: an optional plus sign, then digits.
pub open spec fn natural_in(s: Seq<char>, high: int) -> Option<int> {
    if s.len() > 0 && s[0] == '-' {
        None
    } else {
        integer_in(s, 0, high)
    }
}

/// Longer digit strings spell no smaller numbers.
pub proof fn digits_grow(s: Seq<char>, n: int)
    requires
        0 <= n <= s.len(),
        all_digits(s),
    ensures
        digits_value(s.take(n)) <= digits_value(s),
    decreases s.len() - n,
{
    if n < s.len() {
        digits_grow(s, n + 1);
        let more = s.take(n + 1);
        assert(more.drop_last() =~= s.take(n));
        assert(more.last() == s[n]);
        assert(is_digit(s[n]));
    } else {
        assert(s.take(n) =~= s);
    }
}

/// Whether every character from `start` to `end` is a digit.
pub fn digits_only(s: &Vec<char>, start: usize, end: usize) -> (r: bool)
    requires
        start <= end <= s@.len(),
    ensures
        r == all_digits(s@.subrange(start as int, end as int)),
{
    let mut i: usize = start;
    while i < end
        invariant
            start <= i <= end <= s@.len(),
            forall|j: int| start <= j < i ==> is_digit(#[trigger] s@[j]),
        decreases end - i,
    {
        if !('0' <= s[i] && s[i] <= '9') {
            assert(!is_digit(s@.subrange(start as int, end as int)[i - start]));
            return false;
        }
        i = i + 1;
    }
    assert forall|j: int| 0 <= j < s@.subrange(start as int, end as int).len() implies is_digit(
        #[trigger] s@.subrange(start as int, end as int)[j],
    ) by {
        assert(is_digit(s@[start + j]));
    }
    true
}

/// The number that digits spell, if it fits.
pub fn digits_to_u128(s: &Vec<char>, start: usize, end: usize) -> (r: Option<u128>)
    requires
        start <= end <= s@.len(),
        all_digits(s@.subrange(start as int, end as int)),
    ensures
        ({
            let v = digits_value(s@.subrange(start as int, end as int));
            if v <= u128::MAX {
                r == Some(v as u128)
            } else {
                r is None
            }
        }),
{
    let ghost body = s@.subrange(start as int, end as int);
    let mut value: u128 = 0;
    let mut i: usize = start;
    while i < end
        invariant
            start <= i <= end <= s@.len(),
            body == s@.subrange(start as int, end as int),
            all_digits(body),
            value == digits_value(body.take(i - start)),
        decreases end - i,
    {
        proof {
            let more = body.take(i + 1 - start);
            assert(more.drop_last() =~= body.take(i - start));
            assert(more.last() == s@[i as int]);
            assert(is_digit(body[i - start]));
            digits_grow(body, i + 1 - start);
        }
        let digit: u128 = (s[i] as u32 - 48) as u128;
        value = match value.checked_mul(10) {
            Some(shifted) => match shifted.checked_add(digit) {
                Some(next) => next,
                None => return None,
            },
            None => return None,
        };
        i = i + 1;
    }
    assert(body.take(end - start) =~= body);
    Some(value)
}

/// Reads an integer that lies between two limits.
pub fn parse_integer(s: &Vec<char>, low: i128, high: i128) -> (r: Option<i128>)
    ensures
        match integer_in(s@, low as int, high as int) {
            Some(v) => r matches Some(k) && k == v,
            None => r is None,
        },
{
    let n: usize = s.len();
    let negative = n > 0 && s[0] == '-';
    let start: usize = if n > 0 && (s[0] == '+' || s[0] == '-') {
        1
    } else {
        0
    };
    proof {
        assert(unsigned_part(s@) =~= s@.subrange(start as int, n as int));
    }
    if start == n || !digits_only(s, start, n) {
        return None;
    }
    match digits_to_u128(s, start, n) {
        None => None,
        Some(m) => {
            let limit: u128 = 170141183460469231731687303715884105727;
            let value: i128 = if negative {
                if m <= limit {
                    -(m as i128)
                } else if m == limit + 1 {
                    i128::MIN
                } else {
                    return None;
                }
            } else {
                if m <= limit {
                    m as i128
                } else {
                    return None;
                }
            };
            if low <= value && value <= high {
                Some(value)
            } else {
                None
            }
        },
    }
}

/// Reads an unsigned integer no larger than a limit.
pub fn parse_natural(s: &Vec<char>, high: u64) -> (r: Option<u64>)
    ensures
        match natural_in(s@, high as int) {
            Some(v) => r matches Some(k) && k == v,
            None => r is None,
        },
{
    if s.len() > 0 && s[0] == '-' {
        return None;
    }
    match parse_integer(s, 0, high as i128) {
        Some(v) => Some(v as u64),
        None => None,
    }
}

/// Whether a character is white space in Unicode.
pub open spec fn is_space(c: char) -> bool {
    let u = c as u32;
    ||| 0x9 <= u <= 0xD
    ||| u == 0x20
    ||| u == 0x85
    ||| u == 0xA0
    ||| u == 0x1680
    ||| 0x2000 <= u <= 0x200A
    ||| u == 0x2028
    ||| u == 0x2029
    ||| u == 0x202F
    ||| u == 0x205F
    ||| u == 0x3000
}

/// Whether a character is white space in Unicode.
pub fn is_whitespace(c: char) -> (r: bool)
    ensures
        r == is_space(c),
{
    let u: u32 = c as u32;
    (0x9 <= u && u <= 0xD) || u == 0x20 || u == 0x85 || u == 0xA0 || u == 0x1680 || (0x2000 <= u
        && u <= 0x200A) || u == 0x2028 || u == 0x2029 || u == 0x202F || u == 0x205F || u
        == 0x3000
}

/// Whether a text holds nothing but white space.
pub open spec fn blank(s: Seq<char>) -> bool {
    forall|i: int| 0 <= i < s.len() ==> is_space(#[trigger] s[i])
}

/// Whether a text holds nothing but white space.
pub fn is_blank(s: &str) -> (r: bool)
    ensures
        r == blank(s@),
{
    let chars = crate::text::chars_of(s);
    let mut i: usize = 0;
    while i < chars.len()
        invariant
            i <= chars@.len(),
            chars@ == s@,
            forall|j: int| 0 <= j < i ==> is_space(#[trigger] s@[j]),
        decreases chars@.len() - i,
    {
        if !is_whitespace(chars[i]) {
            assert(!is_space(s@[i as int]));
            return false;
        }
        i = i + 1;
    }
    true
}

/// Ten to the power `n`.
pub open spec fn pow10(n: nat) -> nat
    decreases n,
{
    if n == 0 {
        1
    } else {
        10 * pow10((n - 1) as nat)
    }
}

/// The number of decimal digits of a magnitude.
pub open spec fn digit_count(n: nat) -> nat {
    decimal(n).len()
}

/// A number below a power of ten has no more digits than the power.
pub proof fn digit_count_bound(n: nat, k: nat)
    requires
        k >= 1,
        n < pow10(k),
    ensures
        1 <= digit_count(n) <= k,
    decreases k,
{
    if n >= 10 {
        if k == 1 {
            assert(pow10(1) == 10) by {
                reveal_with_fuel(pow10, 2);
            }
        } else {
            digit_count_bound(n / 10, (k - 1) as nat);
        }
    }
}

/// The number of decimal digits of a value, without its sign.
pub fn decimal_digits(value: i128) -> (r: usize)
    ensures
        r == digit_count(
            if value >= 0 {
                value as nat
            } else {
                (-value) as nat
            },
        ),
{
    let mut m: u128 = crate::text::magnitude(value);
    let ghost whole = m as nat;
    let mut count: usize = 1;
    proof {
        reveal_with_fuel(pow10, 40);
        digit_count_bound(whole, 39);
    }
    while m >= 10
        invariant
            count + digit_count(m as nat) == 1 + digit_count(whole),
            digit_count(whole) <= 39,
        decreases m,
    {
        m = m / 10;
        count = count + 1;
    }
    count
}

/// The exponent field of a 64-bit float.
pub open spec fn exponent64(bits: u64) -> nat {
    ((bits / 0x10_0000_0000_0000) % 2048) as nat
}

/// The fraction field of a 64-bit float.
pub open spec fn fraction64(bits: u64) -> nat {
    (bits % 0x10_0000_0000_0000) as nat
}

/// Whether a 64-bit float is finite.
pub open spec fn finite64(bits: u64) -> bool {
    exponent64(bits) != 2047
}

/// Whether a 64-bit float is not a number.
pub open spec fn nan64(bits: u64) -> bool {
    exponent64(bits) == 2047 && fraction64(bits) != 0
}

/// A number that orders 64-bit floats as their values: both zeros have the number zero.
pub open spec fn key64(bits: u64) -> int {
    if bits < 0x8000_0000_0000_0000 {
        bits as int
    } else {
        -(bits - 0x8000_0000_0000_0000)
    }
}

/// A number that orders all 64-bit patterns totally: negative before positive, minus
/// zero before zero, and patterns that are not numbers at the two ends.
pub open spec fn total_key64(bits: u64) -> int {
    if bits < 0x8000_0000_0000_0000 {
        bits as int
    } else {
        -(bits - 0x8000_0000_0000_0000) - 1
    }
}

/// Whether a 32-bit float is finite.
pub open spec fn finite32(bits: u32) -> bool {
    (bits / 0x80_0000) % 256 != 255
}

/// Whether a 32-bit float is not a number.
pub open spec fn nan32(bits: u32) -> bool {
    (bits / 0x80_0000) % 256 == 255 && bits % 0x80_0000 != 0
}

/// A number that orders 32-bit floats as their values.
pub open spec fn key32(bits: u32) -> int {
    if bits < 0x8000_0000 {
        bits as int
    } else {
        -(bits - 0x8000_0000)
    }
}

/// A number that orders all 32-bit patterns totally.
pub open spec fn total_key32(bits: u32) -> int {
    if bits < 0x8000_0000 {
        bits as int
    } else {
        -(bits - 0x8000_0000) - 1
    }
}

/// Whether a 64-bit float is finite.
pub fn is_finite64(bits: u64) -> (r: bool)
    ensures
        r == finite64(bits),
{
    (bits / 0x10_0000_0000_0000) % 2048 != 2047
}

/// Whether a 64-bit float is not a number.
pub fn is_nan64(bits: u64) -> (r: bool)
    ensures
        r == nan64(bits),
{
    (bits / 0x10_0000_0000_0000) % 2048 == 2047 && bits % 0x10_0000_0000_0000 != 0
}

/// The number that orders 64-bit floats as their values.
pub fn order_key64(bits: u64) -> (r: i128)
    ensures
        r == key64(bits),
{
    if bits < 0x8000_0000_0000_0000 {
        bits as i128
    } else {
        -((bits - 0x8000_0000_0000_0000) as i128)
    }
}

/// The number that orders all 64-bit patterns totally.
pub fn total_order_key64(bits: u64) -> (r: i128)
    ensures
        r == total_key64(bits),
{
    if bits < 0x8000_0000_0000_0000 {
        bits as i128
    } else {
        -((bits - 0x8000_0000_0000_0000) as i128) - 1
    }
}

/// Whether a 32-bit float is finite.
pub fn is_finite32(bits: u32) -> (r: bool)
    ensures
        r == finite32(bits),
{
    (bits / 0x80_0000) % 256 != 255
}

/// Whether a 32-bit float is not a number.
pub fn is_nan32(bits: u32) -> (r: bool)
    ensures
        r == nan32(bits),
{
    (bits / 0x80_0000) % 256 == 255 && bits % 0x80_0000 != 0
}

/// The number that orders 32-bit floats as their values.
pub fn order_key32(bits: u32) -> (r: i128)
    ensures
        r == key32(bits),
{
    if bits < 0x8000_0000 {
        bits as i128
    } else {
        -((bits - 0x8000_0000) as i128)
    }
}

/// The number that orders all 32-bit patterns totally.
pub fn total_order_key32(bits: u32) -> (r: i128)
    ensures
        r == total_key32(bits),
{
    if bits < 0x8000_0000 {
        bits as i128
    } else {
        -((bits - 0x8000_0000) as i128) - 1
    }
}

/// How one value stands to another.
#[derive(Debug, Clone, Copy, PartialEq, Eq, Structural)]
pub enum Order {
    Less,
    Equal,
    Greater,
}

/// The significand of a positive finite 64-bit float.
pub open spec fn significand64(bits: u64) -> nat {
    if exponent64(bits) == 0 {
        fraction64(bits)
    } else {
        0x10_0000_0000_0000 + fraction64(bits)
    }
}

/// The power of two that divides the significand of a positive float below one.
pub open spec fn binary_places(bits: u64) -> nat {
    if exponent64(bits) == 0 {
        1074
    } else {
        (1075 - exponent64(bits)) as nat
    }
}

/// The order of two integers.
pub open spec fn order_of(a: int, b: int) -> Order {
    if a < b {
        Order::Less
    } else if a == b {
        Order::Equal
    } else {
        Order::Greater
    }
}

/// The order of the fraction `numerator / denominator` and a float. Between zero and one
/// the float is its significand over a power of two, and the fractions are compared
/// exactly. A fraction of nothing counts as zero and is ordered totally.
pub open spec fn fraction_order(numerator: u64, denominator: u64, bound: u64) -> Order {
    if denominator == 0 {
        order_of(total_key64(0), total_key64(bound))
    } else if nan64(bound) {
        if numerator == 0 {
            Order::Less
        } else {
            Order::Greater
        }
    } else if key64(bound) <= 0 {
        order_of(numerator as int, 0)
    } else if key64(bound) >= 0x3FF0_0000_0000_0000 {
        order_of(numerator as int, denominator as int)
    } else {
        order_of(
            numerator * pow2(binary_places(bound)),
            denominator * significand64(bound),
        )
    }
}

fn order_i128(a: i128, b: i128) -> (r: Order)
    ensures
        r == order_of(a as int, b as int),
{
    if a < b {
        Order::Less
    } else if a == b {
        Order::Equal
    } else {
        Order::Greater
    }
}

fn order_u128(a: u128, b: u128) -> (r: Order)
    ensures
        r == order_of(a as int, b as int),
{
    if a < b {
        Order::Less
    } else if a == b {
        Order::Equal
    } else {
        Order::Greater
    }
}

fn power_of_two(k: usize) -> (r: u128)
    requires
        k < 128,
    ensures
        r == pow2(k as nat),
{
    let mut r: u128 = 1;
    let mut i: usize = 0;
    proof {
        lemma_pow2(0);
        vstd::arithmetic::power::lemma_pow0(2);
        pow2_127();
    }
    while i < k
        invariant
            i <= k < 128,
            r == pow2(i as nat),
            pow2(127) == 0x8000_0000_0000_0000_0000_0000_0000_0000,
        decreases k - i,
    {
        proof {
            lemma_pow2_unfold((i + 1) as nat);
            if i + 1 < 127 {
                lemma_pow2_strictly_increases((i + 1) as nat, 127);
            }
        }
        r = 2 * r;
        i = i + 1;
    }
    r
}

proof fn pow2_127()
    ensures
        pow2(127) == 0x8000_0000_0000_0000_0000_0000_0000_0000,
        pow2(64) == 0x1_0000_0000_0000_0000,
{
    vstd::arithmetic::power2::lemma2_to64();
    lemma_pow2_adds(64, 63);
    assert(pow2(64) == 0x1_0000_0000_0000_0000);
    lemma_pow2_unfold(64);
    assert(pow2(63) == 0x8000_0000_0000_0000);
    assert(0x1_0000_0000_0000_0000 * 0x8000_0000_0000_0000
        == 0x8000_0000_0000_0000_0000_0000_0000_0000) by (nonlinear_arith);
}

/// The order of a fraction and a float below one, given its significand and the power of
/// two under it.
fn order_scaled(numerator: u64, denominator: u64, significand: u64, places: usize) -> (r: Order)
    requires
        significand < 0x20_0000_0000_0000,
        denominator > 0,
        significand > 0,
    ensures
        r == order_of(numerator * pow2(places as nat), denominator * significand),
{
    let ghost scaled = numerator * pow2(places as nat);
    proof {
        pow2_127();
        assert(denominator * significand <= 0x1_0000_0000_0000_0000 * 0x20_0000_0000_0000)
            by (nonlinear_arith)
            requires
                denominator < 0x1_0000_0000_0000_0000,
                significand < 0x20_0000_0000_0000,
        ;
        assert(denominator * significand > 0) by (nonlinear_arith)
            requires
                denominator > 0,
                significand > 0,
        ;
    }
    if numerator == 0 {
        assert(scaled == 0) by (nonlinear_arith)
            requires
                scaled == numerator * pow2(places as nat),
                numerator == 0,
        ;
        return Order::Less;
    }
    if places >= 128 {
        proof {
            lemma_pow2_strictly_increases(127, places as nat);
            assert(scaled >= pow2(127)) by (nonlinear_arith)
                requires
                    scaled == numerator * pow2(places as nat),
                    numerator >= 1,
                    pow2(places as nat) > pow2(127),
            ;
        }
        return Order::Greater;
    }
    let factor: u128 = power_of_two(places);
    let right: u128 = (denominator as u128) * (significand as u128);
    match (numerator as u128).checked_mul(factor) {
        Some(left) => order_u128(left, right),
        None => Order::Greater,
    }
}

/// Compares `numerator / denominator` with a float without rounding either.
pub fn compare_fraction_to_bound(numerator: u64, denominator: u64, bound: u64) -> (r: Order)
    ensures
        r == fraction_order(numerator, denominator, bound),
{
    if denominator == 0 {
        return order_i128(0, total_order_key64(bound));
    }
    if is_nan64(bound) {
        if numerator == 0 {
            return Order::Less;
        } else {
            return Order::Greater;
        }
    }
    let key: i128 = order_key64(bound);
    if key <= 0 {
        return order_wide(numerator, 0);
    }
    if key >= 0x3FF0_0000_0000_0000 {
        return order_wide(numerator, denominator);
    }
    let exponent: u64 = (bound / 0x10_0000_0000_0000) % 2048;
    let fraction: u64 = bound % 0x10_0000_0000_0000;
    proof {
        assert(bound < 0x3FF0_0000_0000_0000);
        assert(exponent < 1023);
        if exponent == 0 {
            assert(fraction == bound);
        }
    }
    if exponent == 0 {
        order_scaled(numerator, denominator, fraction, 1074)
    } else {
        order_scaled(
            numerator,
            denominator,
            0x10_0000_0000_0000 + fraction,
            places_below(exponent),
        )
    }
}

fn order_wide(a: u64, b: u64) -> (r: Order)
    ensures
        r == order_of(a as int, b as int),
{
    if a < b {
        Order::Less
    } else if a == b {
        Order::Equal
    } else {
        Order::Greater
    }
}

fn places_below(exponent: u64) -> (r: usize)
    requires
        exponent <= 1075,
    ensures
        r == 1075 - exponent,
{
    (1075 - exponent) as usize
}

/// Whether a float is a number from zero to one.
pub open spec fn in_unit_interval(bits: u64) -> bool {
    !nan64(bits) && 0 <= key64(bits) <= 0x3FF0_0000_0000_0000
}

} // verus!
