//! What the bytes of a plan tell apart: plans with the same bytes have the same rules.

use crate::bytes::{concat_of, le, le_len, le_round_trip, span, spans, twos, twos_tell_apart};
use crate::contract::bounds::TypedBound;
use crate::contract::plan_digest::{
    allowed_bytes, bound_bytes, compare_bytes, kernel_bytes, kernel_tag, length_bytes, op_tag,
    operand_bytes, optional_length, optional_wide, optional_word, part, pattern_bytes, policy_tag,
    rules_bytes, switch_bytes, text_part, time_unit_name,
};
use crate::contract::row::{CompareView, OperandView, ScalarView};
use crate::contract::rules::{KernelKind, NaNPolicy, RulesView};
use crate::text::{utf8, utf8_injective};
use crate::value::TimeUnit;
use vstd::prelude::*;
use vstd::utf8::is_ascii_chars_encode_utf8;

verus! {

/// Whether one byte string begins with the other.
pub open spec fn begins(a: Seq<u8>, b: Seq<u8>) -> bool {
    forall|i: int| 0 <= i < a.len() && i < b.len() ==> #[trigger] a[i] == b[i]
}

/// Whether two byte strings are equal or part before either ends.
pub open spec fn parted(a: Seq<u8>, b: Seq<u8>) -> bool {
    begins(a, b) ==> a == b
}

/// Whether the length of a text fits the eight bytes in front of it.
pub open spec fn short(s: Seq<char>) -> bool {
    utf8(s).len() < span(7)
}

proof fn short_fits(s: Seq<char>)
    requires
        short(s),
    ensures
        utf8(s).len() < span(8),
{
    reveal_with_fuel(span, 9);
}

pub(crate) proof fn as_long(a: Seq<u8>, b: Seq<u8>)
    requires
        a.len() == b.len(),
    ensures
        parted(a, b),
{
    if begins(a, b) {
        assert(a =~= b);
    }
}

pub(crate) proof fn two(a: Seq<u8>, b: Seq<u8>, x: Seq<u8>, y: Seq<u8>)
    requires
        parted(a, x),
        a == x ==> parted(b, y),
    ensures
        parted(a + b, x + y),
        a + b == x + y ==> a == x && b == y,
{
    if begins(a + b, x + y) {
        assert forall|i: int| 0 <= i < a.len() && i < x.len() implies #[trigger] a[i] == x[i] by {
            assert((a + b)[i] == a[i]);
            assert((x + y)[i] == x[i]);
        }
        assert(a == x);
        assert forall|i: int| 0 <= i < b.len() && i < y.len() implies #[trigger] b[i] == y[i] by {
            assert((a + b)[a.len() + i] == b[i]);
            assert((x + y)[a.len() + i] == y[i]);
        }
    }
}

pub(crate) proof fn three(a: Seq<u8>, b: Seq<u8>, c: Seq<u8>, x: Seq<u8>, y: Seq<u8>, z: Seq<u8>)
    requires
        parted(a, x),
        parted(b, y),
        parted(c, z),
    ensures
        parted(a + b + c, x + y + z),
        a + b + c == x + y + z ==> a == x && b == y && c == z,
{
    two(a, b, x, y);
    two(a + b, c, x + y, z);
}

pub(crate) proof fn tags(a: u8, b: u8)
    ensures
        parted(seq![a], seq![b]),
        seq![a] == seq![b] ==> a == b,
{
    as_long(seq![a], seq![b]);
    if seq![a] == seq![b] {
        assert(seq![a][0] == seq![b][0]);
    }
}

pub(crate) proof fn tagged(a: u8, b: Seq<u8>, x: u8, y: Seq<u8>)
    requires
        a == x ==> parted(b, y),
    ensures
        parted(seq![a] + b, seq![x] + y),
        seq![a] + b == seq![x] + y ==> a == x && b == y,
{
    tags(a, x);
    two(seq![a], b, seq![x], y);
}

proof fn twice_tagged(a: u8, b: u8, c: Seq<u8>, x: u8, y: u8, z: Seq<u8>)
    requires
        a == x && b == y ==> parted(c, z),
    ensures
        parted(seq![a, b] + c, seq![x, y] + z),
        seq![a, b] + c == seq![x, y] + z ==> a == x && b == y && c == z,
{
    assert(seq![a, b] + c =~= seq![a] + (seq![b] + c));
    assert(seq![x, y] + z =~= seq![x] + (seq![y] + z));
    if a == x {
        tagged(b, c, y, z);
    }
    tagged(a, seq![b] + c, x, seq![y] + z);
}

pub(crate) proof fn words(v: nat, w: nat)
    requires
        v < span(8),
        w < span(8),
    ensures
        parted(le(v, 8), le(w, 8)),
        le(v, 8) == le(w, 8) ==> v == w,
{
    le_len(v, 8);
    le_len(w, 8);
    le_round_trip(v, 8);
    le_round_trip(w, 8);
    as_long(le(v, 8), le(w, 8));
}

proof fn signed(v: int, w: int, width: nat)
    requires
        width == 1 || width == 8 || width == 16,
        -span(width) <= 2 * v < span(width),
        -span(width) <= 2 * w < span(width),
    ensures
        parted(le(twos(v), width), le(twos(w), width)),
        le(twos(v), width) == le(twos(w), width) ==> v == w,
{
    le_len(twos(v), width);
    le_len(twos(w), width);
    as_long(le(twos(v), width), le(twos(w), width));
    if le(twos(v), width) == le(twos(w), width) {
        twos_tell_apart(v, w, width);
    }
}

pub(crate) proof fn parts(s: Seq<char>, t: Seq<char>)
    requires
        short(s),
        short(t),
    ensures
        parted(part(s), part(t)),
        part(s) == part(t) ==> s == t,
{
    short_fits(s);
    short_fits(t);
    words(utf8(s).len(), utf8(t).len());
    if le(utf8(s).len(), 8) == le(utf8(t).len(), 8) {
        as_long(utf8(s), utf8(t));
    }
    two(le(utf8(s).len(), 8), utf8(s), le(utf8(t).len(), 8), utf8(t));
    utf8_injective(s, t);
}

pub(crate) proof fn rows_of_parts(n: nat, f: spec_fn(int) -> Seq<u8>, g: spec_fn(int) -> Seq<u8>)
    requires
        forall|i: int| 0 <= i < n ==> parted(#[trigger] f(i), g(i)),
    ensures
        parted(concat_of(n, f), concat_of(n, g)),
        concat_of(n, f) == concat_of(n, g) ==> forall|i: int|
            0 <= i < n ==> #[trigger] f(i) == g(i),
    decreases n,
{
    if n > 0 {
        let m = (n - 1) as nat;
        rows_of_parts(m, f, g);
        two(concat_of(m, f), f(n - 1), concat_of(m, g), g(n - 1));
        if concat_of(n, f) == concat_of(n, g) {
            assert forall|i: int| 0 <= i < n implies #[trigger] f(i) == g(i) by {}
        }
    } else {
        as_long(concat_of(n, f), concat_of(n, g));
    }
}

/// Lists behind their lengths, of parts that part, are told apart by their parts.
pub(crate) proof fn lists(m: nat, f: spec_fn(int) -> Seq<u8>, n: nat, g: spec_fn(int) -> Seq<u8>)
    requires
        m < span(8),
        n < span(8),
        m == n ==> forall|i: int| 0 <= i < n ==> parted(#[trigger] f(i), g(i)),
    ensures
        parted(le(m, 8) + concat_of(m, f), le(n, 8) + concat_of(n, g)),
        le(m, 8) + concat_of(m, f) == le(n, 8) + concat_of(n, g) ==> m == n && forall|i: int|
            0 <= i < n ==> #[trigger] f(i) == g(i),
{
    words(m, n);
    if m == n {
        rows_of_parts(n, f, g);
    }
    two(le(m, 8), concat_of(m, f), le(n, 8), concat_of(n, g));
}

proof fn units(a: TimeUnit, b: TimeUnit)
    ensures
        short(time_unit_name(a)),
        parted(part(time_unit_name(a)), part(time_unit_name(b))),
        part(time_unit_name(a)) == part(time_unit_name(b)) ==> a == b,
{
    reveal_strlit("Second");
    reveal_strlit("Millisecond");
    reveal_strlit("Microsecond");
    reveal_strlit("Nanosecond");
    is_ascii_chars_encode_utf8("Second"@);
    is_ascii_chars_encode_utf8("Millisecond"@);
    is_ascii_chars_encode_utf8("Microsecond"@);
    is_ascii_chars_encode_utf8("Nanosecond"@);
    reveal_with_fuel(span, 8);
    parts(time_unit_name(a), time_unit_name(b));
    assert("Second"@[0] == 'S');
    assert("Millisecond"@[1] == 'i' && "Millisecond"@[0] == 'M');
    assert("Microsecond"@[2] == 'c' && "Microsecond"@[0] == 'M');
    assert("Millisecond"@[2] == 'l');
    assert("Nanosecond"@[0] == 'N');
}

/// Kernels with the same bytes are the same, down to the unit of an instant and the scale of a
/// decimal.
pub proof fn kernel_bytes_tell_apart(a: KernelKind, b: KernelKind)
    ensures
        parted(kernel_bytes(a), kernel_bytes(b)),
        kernel_bytes(a) == kernel_bytes(b) ==> a == b,
{
    let none = Seq::<u8>::empty();
    as_long(none, none);
    spans();
    match (a, b) {
        (KernelKind::Timestamp(u), KernelKind::Timestamp(v)) => {
            units(u, v);
            tagged(14, part(time_unit_name(u)), 14, part(time_unit_name(v)));
        },
        (
            KernelKind::Decimal128 { precision: p, scale: s },
            KernelKind::Decimal128 { precision: q, scale: t },
        ) => {
            signed(s as int, t as int, 1);
            tagged(p, le(twos(s as int), 1), q, le(twos(t as int), 1));
            tagged(
                13,
                seq![p] + le(twos(s as int), 1),
                13,
                seq![q] + le(twos(t as int), 1),
            );
        },
        _ => {
            let x = kernel_bytes(a).skip(1);
            let y = kernel_bytes(b).skip(1);
            assert(kernel_bytes(a) =~= seq![kernel_tag(a)] + x);
            assert(kernel_bytes(b) =~= seq![kernel_tag(b)] + y);
            if kernel_tag(a) == kernel_tag(b) {
                assert(a == b);
            }
            tagged(kernel_tag(a), x, kernel_tag(b), y);
        },
    }
}

pub(crate) proof fn optional_words(a: Option<u64>, b: Option<u64>)
    ensures
        parted(optional_word(a), optional_word(b)),
        optional_word(a) == optional_word(b) ==> a == b,
{
    spans();
    let none = Seq::<u8>::empty();
    let x = match a { Some(v) => le(v as nat, 8), None => none };
    let y = match b { Some(v) => le(v as nat, 8), None => none };
    let s: u8 = if a is Some { 1 } else { 0 };
    let t: u8 = if b is Some { 1 } else { 0 };
    assert(optional_word(a) =~= seq![s] + x);
    assert(optional_word(b) =~= seq![t] + y);
    as_long(none, none);
    if let (Some(v), Some(w)) = (a, b) {
        words(v as nat, w as nat);
    }
    tagged(s, x, t, y);
}

proof fn optional_lengths(a: Option<usize>, b: Option<usize>)
    ensures
        parted(optional_length(a), optional_length(b)),
        optional_length(a) == optional_length(b) ==> a == b,
{
    let c = match a { Some(v) => Some(v as u64), None => None };
    let d = match b { Some(v) => Some(v as u64), None => None };
    assert(optional_length(a) == optional_word(c));
    assert(optional_length(b) == optional_word(d));
    optional_words(c, d);
}

pub(crate) proof fn optional_wides(a: Option<i128>, b: Option<i128>)
    ensures
        parted(optional_wide(a), optional_wide(b)),
        optional_wide(a) == optional_wide(b) ==> a == b,
{
    spans();
    let none = Seq::<u8>::empty();
    let x = match a { Some(v) => le(twos(v as int), 16), None => none };
    let y = match b { Some(v) => le(twos(v as int), 16), None => none };
    let s: u8 = if a is Some { 1 } else { 0 };
    let t: u8 = if b is Some { 1 } else { 0 };
    assert(optional_wide(a) =~= seq![s] + x);
    assert(optional_wide(b) =~= seq![t] + y);
    as_long(none, none);
    if let (Some(v), Some(w)) = (a, b) {
        signed(v as int, w as int, 16);
    }
    tagged(s, x, t, y);
}

/// The tag of a bound's type, and what stands behind it.
spec fn bound_tail(bound: TypedBound) -> (u8, Seq<u8>) {
    match bound {
        TypedBound::I64(v) => (0, le(twos(v as int), 8)),
        TypedBound::U64(v) => (1, le(v as nat, 8)),
        TypedBound::F32(v) => (2, le(v as nat, 4)),
        TypedBound::F64(v) => (3, le(v as nat, 8)),
        TypedBound::Decimal128 { value, scale } => (
            4,
            le(twos(scale as int), 1) + le(twos(value as int), 16),
        ),
        TypedBound::Timestamp { value, unit } => (
            5,
            le(twos(value as int), 8) + part(time_unit_name(unit)),
        ),
    }
}

proof fn bound_tails(a: TypedBound, b: TypedBound)
    ensures
        bound_tail(a).0 == bound_tail(b).0 ==> parted(bound_tail(a).1, bound_tail(b).1),
        bound_tail(a) == bound_tail(b) ==> a == b,
{
    spans();
    match (a, b) {
        (TypedBound::I64(v), TypedBound::I64(w)) => signed(v as int, w as int, 8),
        (TypedBound::U64(v), TypedBound::U64(w)) => words(v as nat, w as nat),
        (TypedBound::F32(v), TypedBound::F32(w)) => {
            le_len(v as nat, 4);
            le_len(w as nat, 4);
            le_round_trip(v as nat, 4);
            le_round_trip(w as nat, 4);
            as_long(le(v as nat, 4), le(w as nat, 4));
        },
        (TypedBound::F64(v), TypedBound::F64(w)) => words(v as nat, w as nat),
        (
            TypedBound::Decimal128 { value: v, scale: s },
            TypedBound::Decimal128 { value: w, scale: t },
        ) => {
            signed(s as int, t as int, 1);
            signed(v as int, w as int, 16);
            two(
                le(twos(s as int), 1),
                le(twos(v as int), 16),
                le(twos(t as int), 1),
                le(twos(w as int), 16),
            );
        },
        (
            TypedBound::Timestamp { value: v, unit: s },
            TypedBound::Timestamp { value: w, unit: t },
        ) => {
            signed(v as int, w as int, 8);
            units(s, t);
            two(
                le(twos(v as int), 8),
                part(time_unit_name(s)),
                le(twos(w as int), 8),
                part(time_unit_name(t)),
            );
        },
        _ => {},
    }
}

/// Bounds with the same bytes are the same number of the same type, or both absent.
pub proof fn bound_bytes_tell_apart(a: Option<TypedBound>, b: Option<TypedBound>)
    ensures
        parted(bound_bytes(a), bound_bytes(b)),
        bound_bytes(a) == bound_bytes(b) ==> a == b,
{
    let none = Seq::<u8>::empty();
    match (a, b) {
        (Some(v), Some(w)) => {
            let (s, x) = bound_tail(v);
            let (t, y) = bound_tail(w);
            assert(bound_bytes(a) =~= seq![1u8, s] + x);
            assert(bound_bytes(b) =~= seq![1u8, t] + y);
            bound_tails(v, w);
            twice_tagged(1, s, x, 1, t, y);
        },
        (Some(v), None) => {
            let (s, x) = bound_tail(v);
            assert(bound_bytes(a) =~= seq![1u8] + (seq![s] + x));
            assert(bound_bytes(b) =~= seq![0u8] + none);
            tagged(1, seq![s] + x, 0, none);
        },
        (None, Some(w)) => {
            let (t, y) = bound_tail(w);
            assert(bound_bytes(b) =~= seq![1u8] + (seq![t] + y));
            assert(bound_bytes(a) =~= seq![0u8] + none);
            tagged(0, none, 1, seq![t] + y);
        },
        (None, None) => {},
    }
}

proof fn patterns(a: Option<Seq<char>>, b: Option<Seq<char>>)
    requires
        a matches Some(s) ==> short(s),
        b matches Some(s) ==> short(s),
    ensures
        parted(pattern_bytes(a), pattern_bytes(b)),
        pattern_bytes(a) == pattern_bytes(b) ==> a == b,
{
    let none = Seq::<u8>::empty();
    let x = match a { Some(v) => part(v), None => none };
    let y = match b { Some(v) => part(v), None => none };
    let s: u8 = if a is Some { 1 } else { 0 };
    let t: u8 = if b is Some { 1 } else { 0 };
    assert(pattern_bytes(a) =~= seq![s] + x);
    assert(pattern_bytes(b) =~= seq![t] + y);
    as_long(none, none);
    if let (Some(v), Some(w)) = (a, b) {
        parts(v, w);
    }
    tagged(s, x, t, y);
}

/// Whether a list of texts, and each of them, is short.
pub open spec fn short_texts(values: Seq<Seq<char>>) -> bool {
    values.len() < span(7) && forall|i: int| 0 <= i < values.len() ==> short(#[trigger] values[i])
}

pub(crate) proof fn text_lists(a: Seq<Seq<char>>, b: Seq<Seq<char>>)
    requires
        short_texts(a),
        short_texts(b),
    ensures
        parted(
            le(a.len(), 8) + concat_of(a.len(), text_part(a)),
            le(b.len(), 8) + concat_of(b.len(), text_part(b)),
        ),
        le(a.len(), 8) + concat_of(a.len(), text_part(a)) == le(b.len(), 8) + concat_of(
            b.len(),
            text_part(b),
        ) ==> a == b,
{
    reveal_with_fuel(span, 9);
    let f = text_part(a);
    let g = text_part(b);
    if a.len() == b.len() {
        assert forall|i: int| 0 <= i < a.len() implies parted(#[trigger] f(i), g(i)) && (f(i)
            == g(i) ==> a[i] == b[i]) by {
            assert(f(i) == part(a[i]));
            assert(g(i) == part(b[i]));
            parts(a[i], b[i]);
        }
    }
    lists(a.len(), f, b.len(), g);
    if le(a.len(), 8) + concat_of(a.len(), f) == le(b.len(), 8) + concat_of(b.len(), g) {
        assert forall|i: int| 0 <= i < a.len() implies a[i] == b[i] by {
            assert(f(i) == g(i));
        }
        assert(a =~= b);
    }
}

proof fn allowances(a: Option<Seq<Seq<char>>>, b: Option<Seq<Seq<char>>>)
    requires
        a matches Some(s) ==> short_texts(s),
        b matches Some(s) ==> short_texts(s),
    ensures
        parted(allowed_bytes(a), allowed_bytes(b)),
        allowed_bytes(a) == allowed_bytes(b) ==> a == b,
{
    let none = Seq::<u8>::empty();
    let x = match a {
        Some(v) => le(v.len(), 8) + concat_of(v.len(), text_part(v)),
        None => none,
    };
    let y = match b {
        Some(v) => le(v.len(), 8) + concat_of(v.len(), text_part(v)),
        None => none,
    };
    let s: u8 = if a is Some { 1 } else { 0 };
    let t: u8 = if b is Some { 1 } else { 0 };
    assert(allowed_bytes(a) =~= seq![s] + x);
    assert(allowed_bytes(b) =~= seq![t] + y);
    as_long(none, none);
    if let (Some(v), Some(w)) = (a, b) {
        text_lists(v, w);
    }
    tagged(s, x, t, y);
}

/// Whether every text of a column's rules is short.
pub open spec fn short_rules(rules: RulesView) -> bool {
    &&& rules.pattern matches Some(s) ==> short(s)
    &&& rules.allowed matches Some(s) ==> short_texts(s)
}

proof fn switches(a: RulesView, b: RulesView)
    ensures
        parted(switch_bytes(a), switch_bytes(b)),
        switch_bytes(a) == switch_bytes(b) ==> a.required == b.required && a.not_null
            == b.not_null && a.unique == b.unique && a.validate_nan == b.validate_nan && a.nan
            == b.nan,
{
    let x = switch_bytes(a);
    let y = switch_bytes(b);
    as_long(x, y);
    if x == y {
        assert(x[0] == y[0] && x[1] == y[1] && x[2] == y[2] && x[3] == y[3] && x[4] == y[4]);
        assert(a.nan == b.nan) by {
            assert(a.nan == NaNPolicy::Reject || a.nan == NaNPolicy::Allow);
        }
    }
}

/// The bytes of a column's rules without its lengths.
spec fn rules_head(rules: RulesView) -> Seq<u8> {
    switch_bytes(rules) + bound_bytes(rules.min) + bound_bytes(rules.max) + pattern_bytes(
        rules.pattern,
    ) + allowed_bytes(rules.allowed)
}

proof fn rules_heads(a: RulesView, b: RulesView)
    requires
        short_rules(a),
        short_rules(b),
    ensures
        parted(rules_head(a), rules_head(b)),
        rules_head(a) == rules_head(b) ==> a == (RulesView {
            min_length: a.min_length,
            max_length: a.max_length,
            ..b
        }),
{
    switches(a, b);
    bound_bytes_tell_apart(a.min, b.min);
    bound_bytes_tell_apart(a.max, b.max);
    patterns(a.pattern, b.pattern);
    allowances(a.allowed, b.allowed);
    let x = switch_bytes(a) + bound_bytes(a.min) + bound_bytes(a.max);
    let y = switch_bytes(b) + bound_bytes(b.min) + bound_bytes(b.max);
    three(
        switch_bytes(a),
        bound_bytes(a.min),
        bound_bytes(a.max),
        switch_bytes(b),
        bound_bytes(b.min),
        bound_bytes(b.max),
    );
    three(
        x,
        pattern_bytes(a.pattern),
        allowed_bytes(a.allowed),
        y,
        pattern_bytes(b.pattern),
        allowed_bytes(b.allowed),
    );
}

/// Whether bytes begin as a label does.
pub open spec fn labelled(s: Seq<u8>) -> bool {
    s.len() >= 8 && s[0] == 112 && s[7] == 97
}

proof fn length_label()
    ensures
        labelled(utf8("proofframe:compiled-plan:length:v1\0"@)),
{
    reveal_strlit("proofframe:compiled-plan:length:v1\0");
    is_ascii_chars_encode_utf8("proofframe:compiled-plan:length:v1\0"@);
}

proof fn length_rules(
    a: (Option<usize>, Option<usize>),
    x: Seq<u8>,
    b: (Option<usize>, Option<usize>),
    y: Seq<u8>,
)
    requires
        !labelled(x),
        !labelled(y),
        length_bytes(a.0, a.1) + x == length_bytes(b.0, b.1) + y,
    ensures
        a == b,
        x == y,
{
    let label = utf8("proofframe:compiled-plan:length:v1\0"@);
    length_label();
    let l = length_bytes(a.0, a.1) + x;
    let r = length_bytes(b.0, b.1) + y;
    let some = a.0 is Some || a.1 is Some;
    let other = b.0 is Some || b.1 is Some;
    if some {
        assert(l[0] == label[0] && l[7] == label[7]);
        assert(labelled(l));
    } else {
        assert(l =~= x);
    }
    if other {
        assert(r[0] == label[0] && r[7] == label[7]);
        assert(labelled(r));
    } else {
        assert(r =~= y);
    }
    if some && other {
        as_long(label, label);
        optional_lengths(a.0, b.0);
        optional_lengths(a.1, b.1);
        three(
            label,
            optional_length(a.0),
            optional_length(a.1),
            label,
            optional_length(b.0),
            optional_length(b.1),
        );
        behind(length_bytes(a.0, a.1), x, length_bytes(b.0, b.1), y);
    }
}

pub(crate) proof fn behind(a: Seq<u8>, x: Seq<u8>, b: Seq<u8>, y: Seq<u8>)
    requires
        parted(a, b),
        a + x == b + y,
    ensures
        a == b,
        x == y,
{
    assert forall|i: int| 0 <= i < a.len() && i < b.len() implies #[trigger] a[i] == b[i] by {
        assert((a + x)[i] == a[i]);
        assert((b + y)[i] == b[i]);
    }
    assert((a + x).skip(a.len() as int) =~= x);
    assert((b + y).skip(a.len() as int) =~= y);
}

/// The rules of a column with the same bytes are the same rules, whatever stands behind them
/// that is no label.
pub proof fn rules_bytes_tell_apart(a: RulesView, x: Seq<u8>, b: RulesView, y: Seq<u8>)
    requires
        short_rules(a),
        short_rules(b),
        !labelled(x),
        !labelled(y),
        rules_bytes(a) + x == rules_bytes(b) + y,
    ensures
        a == b,
        x == y,
{
    let m = length_bytes(a.min_length, a.max_length);
    let n = length_bytes(b.min_length, b.max_length);
    assert(rules_bytes(a) + x =~= rules_head(a) + (m + x));
    assert(rules_bytes(b) + y =~= rules_head(b) + (n + y));
    rules_heads(a, b);
    behind(rules_head(a), m + x, rules_head(b), n + y);
    length_rules((a.min_length, a.max_length), x, (b.min_length, b.max_length), y);
}

/// Whether the numbers and texts of a side of a comparison fit their bytes.
pub open spec fn short_side(side: OperandView) -> bool {
    match side {
        OperandView::Column { column_index, field, .. } => 0 <= column_index < span(7) && short(
            field,
        ),
        OperandView::Literal(ScalarView::Text(t)) => short(t),
        _ => true,
    }
}

/// Whether two sides of comparisons are the same column or the same literal.
pub open spec fn same_side(a: OperandView, b: OperandView) -> bool {
    match (a, b) {
        (
            OperandView::Literal(ScalarView::F64 { bits: v, .. }),
            OperandView::Literal(ScalarView::F64 { bits: w, .. }),
        ) => v == w,
        _ => a == b,
    }
}

spec fn literal_tail(value: ScalarView) -> (u8, Seq<u8>) {
    match value {
        ScalarView::Boolean(b) => (0, seq![crate::contract::plan_digest::flag(b)]),
        ScalarView::I64(v) => (1, le(twos(v as int), 8)),
        ScalarView::U64(v) => (2, le(v as nat, 8)),
        ScalarView::F64 { bits, narrow } => (3, le(bits as nat, 8)),
        ScalarView::Text(t) => (4, part(t)),
    }
}

proof fn literal_tails(a: ScalarView, b: ScalarView)
    requires
        short_side(OperandView::Literal(a)),
        short_side(OperandView::Literal(b)),
    ensures
        literal_tail(a).0 == literal_tail(b).0 ==> parted(literal_tail(a).1, literal_tail(b).1),
        literal_tail(a) == literal_tail(b) ==> same_side(
            OperandView::Literal(a),
            OperandView::Literal(b),
        ),
{
    spans();
    match (a, b) {
        (ScalarView::Boolean(v), ScalarView::Boolean(w)) => tags(
            crate::contract::plan_digest::flag(v),
            crate::contract::plan_digest::flag(w),
        ),
        (ScalarView::I64(v), ScalarView::I64(w)) => signed(v as int, w as int, 8),
        (ScalarView::U64(v), ScalarView::U64(w)) => words(v as nat, w as nat),
        (ScalarView::F64 { bits: v, .. }, ScalarView::F64 { bits: w, .. }) => words(
            v as nat,
            w as nat,
        ),
        (ScalarView::Text(v), ScalarView::Text(w)) => parts(v, w),
        _ => {},
    }
}

spec fn side_tail(side: OperandView) -> (u8, Seq<u8>) {
    match side {
        OperandView::Column { column_index, field, kernel } => (
            0,
            le(column_index as nat, 8) + part(field) + kernel_bytes(kernel),
        ),
        OperandView::Literal(v) => (1, seq![literal_tail(v).0] + literal_tail(v).1),
    }
}

proof fn side_is_tagged(side: OperandView)
    ensures
        operand_bytes(side) == seq![side_tail(side).0] + side_tail(side).1,
{
    assert(operand_bytes(side) =~= seq![side_tail(side).0] + side_tail(side).1);
}

/// Sides of comparisons with the same bytes are the same column or the same literal.
pub proof fn operand_bytes_tell_apart(a: OperandView, b: OperandView)
    requires
        short_side(a),
        short_side(b),
    ensures
        parted(operand_bytes(a), operand_bytes(b)),
        operand_bytes(a) == operand_bytes(b) ==> same_side(a, b),
{
    side_is_tagged(a);
    side_is_tagged(b);
    match (a, b) {
        (
            OperandView::Column { column_index: i, field: f, kernel: k },
            OperandView::Column { column_index: j, field: g, kernel: l },
        ) => {
            reveal_with_fuel(span, 9);
            words(i as nat, j as nat);
            parts(f, g);
            kernel_bytes_tell_apart(k, l);
            three(
                le(i as nat, 8),
                part(f),
                kernel_bytes(k),
                le(j as nat, 8),
                part(g),
                kernel_bytes(l),
            );
        },
        (OperandView::Literal(v), OperandView::Literal(w)) => {
            literal_tails(v, w);
            tagged(literal_tail(v).0, literal_tail(v).1, literal_tail(w).0, literal_tail(w).1);
        },
        _ => {},
    }
    tagged(side_tail(a).0, side_tail(a).1, side_tail(b).0, side_tail(b).1);
}

/// Whether the numbers and texts of a comparison fit their bytes.
pub open spec fn short_compare(plan: CompareView) -> bool {
    short_side(plan.left) && short_side(plan.right)
}

/// Whether two comparisons compare the same sides the same way round, by the same operator.
pub open spec fn same_compare(a: CompareView, b: CompareView) -> bool {
    same_side(a.left, b.left) && a.op == b.op && same_side(a.right, b.right) && a.nulls == b.nulls
}

/// Comparisons with the same bytes compare the same sides, by the same operator and with the same
/// word on nulls.
pub proof fn compare_bytes_tell_apart(a: CompareView, b: CompareView)
    requires
        short_compare(a),
        short_compare(b),
    ensures
        parted(compare_bytes(a), compare_bytes(b)),
        compare_bytes(a) == compare_bytes(b) ==> same_compare(a, b),
{
    let m = seq![op_tag(a.op), policy_tag(a.nulls)];
    let n = seq![op_tag(b.op), policy_tag(b.nulls)];
    as_long(m, n);
    if m == n {
        assert(m[0] == n[0] && m[1] == n[1]);
    }
    operand_bytes_tell_apart(a.left, b.left);
    operand_bytes_tell_apart(a.right, b.right);
    three(
        operand_bytes(a.left),
        m,
        operand_bytes(a.right),
        operand_bytes(b.left),
        n,
        operand_bytes(b.right),
    );
}

} // verus!
