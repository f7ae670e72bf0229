//! Little-endian integers and length-prefixed byte strings.

use vstd::prelude::*;

verus! {

/// The `width` low bytes of a number, least significant first.
pub open spec fn le(v: nat, width: nat) -> Seq<u8>
    decreases width,
{
    if width == 0 {
        Seq::empty()
    } else {
        seq![(v % 256) as u8] + le(v / 256, (width - 1) as nat)
    }
}

/// The number that little-endian bytes spell.
pub open spec fn from_le(s: Seq<u8>) -> nat
    decreases s.len(),
{
    if s.len() == 0 {
        0
    } else {
        s[0] as nat + 256 * from_le(s.drop_first())
    }
}

/// Two hundred and fifty-six to the power `width`.
pub open spec fn span(width: nat) -> nat
    decreases width,
{
    if width == 0 {
        1
    } else {
        256 * span((width - 1) as nat)
    }
}

/// The unsigned number whose sixteen bytes are the two's complement of `v`. Its low
/// bytes are the two's complement of `v` in fewer bytes.
pub open spec fn twos(v: int) -> nat {
    if v >= 0 {
        v as nat
    } else {
        (v + span(16)) as nat
    }
}

/// A number of `width` bytes is spelled by that many bytes.
pub proof fn le_len(v: nat, width: nat)
    ensures
        le(v, width).len() == width,
    decreases width,
{
    if width > 0 {
        le_len(v / 256, (width - 1) as nat);
    }
}

/// Reading little-endian bytes gives back the number that was written.
pub proof fn le_round_trip(v: nat, width: nat)
    requires
        v < span(width),
    ensures
        from_le(le(v, width)) == v,
        le(v, width).len() == width,
    decreases width,
{
    le_len(v, width);
    if width > 0 {
        assert(v / 256 < span((width - 1) as nat)) by (nonlinear_arith)
            requires
                v < 256 * span((width - 1) as nat),
        ;
        le_round_trip(v / 256, (width - 1) as nat);
        assert(le(v, width).drop_first() =~= le(v / 256, (width - 1) as nat));
    }
}

/// Little-endian bytes keep the remainder of a number that is too long for them.
pub proof fn le_wraps(v: nat, width: nat)
    ensures
        from_le(le(v, width)) == v % span(width),
    decreases width,
{
    if width == 0 {
        assert(v % 1 == 0);
    } else {
        let rest = (width - 1) as nat;
        le_wraps(v / 256, rest);
        span_positive(rest);
        vstd::arithmetic::div_mod::lemma_mod_breakdown(v as int, 256, span(rest) as int);
        assert(le(v, width).drop_first() =~= le(v / 256, rest));
    }
}

proof fn span_positive(width: nat)
    ensures
        span(width) > 0,
    decreases width,
{
    if width > 0 {
        span_positive((width - 1) as nat);
    }
}

/// Signed numbers with the same bytes in two's complement are equal.
pub proof fn twos_tell_apart(a: int, b: int, width: nat)
    requires
        width == 1 || width == 2 || width == 4 || width == 8 || width == 16,
        -span(width) <= 2 * a < span(width),
        -span(width) <= 2 * b < span(width),
        le(twos(a), width) == le(twos(b), width),
    ensures
        a == b,
{
    spans();
    le_wraps(twos(a), width);
    le_wraps(twos(b), width);
    let m = span(width) as int;
    let k = span((16 - width) as nat) as int;
    span_splits((16 - width) as nat, width);
    wrapped_once(a, m, k);
    wrapped_once(b, m, k);
    assert(a == b) by (nonlinear_arith)
        requires
            a % m == b % m,
            m > 0,
            -m <= 2 * a < m,
            -m <= 2 * b < m,
    ;
}

proof fn span_splits(a: nat, b: nat)
    ensures
        span(a + b) == span(a) * span(b),
    decreases a,
{
    if a > 0 {
        span_splits((a - 1) as nat, b);
        let (x, y) = (span((a - 1) as nat), span(b));
        assert(256 * (x * y) == (256 * x) * y) by (nonlinear_arith);
        assert((a + b - 1) as nat == (a - 1) as nat + b);
        assert(span(a) == 256 * x);
        assert(span(a + b) == 256 * span((a + b - 1) as nat));
        assert(span(a) * span(b) == (256 * x) * y);
    } else {
        assert(span(0) == 1);
        assert(1 * span(b) == span(b));
    }
}

/// Adding a multiple leaves the remainder of a number in two's complement.
proof fn wrapped_once(v: int, m: int, k: int)
    requires
        m > 0,
        span(16) == k * m,
        v + span(16) >= 0,
    ensures
        twos(v) as int % m == v % m,
{
    vstd::arithmetic::div_mod::lemma_mod_multiples_vanish(k, v, m);
    assert(m * k == k * m) by (nonlinear_arith);
}

/// Writing the number that bytes spell gives back the bytes.
pub proof fn from_le_round_trip(s: Seq<u8>)
    ensures
        from_le(s) < span(s.len()),
        le(from_le(s), s.len()) == s,
    decreases s.len(),
{
    if s.len() > 0 {
        from_le_round_trip(s.drop_first());
        let rest = from_le(s.drop_first());
        assert(from_le(s) % 256 == s[0] as nat);
        assert(from_le(s) / 256 == rest);
        assert(le(from_le(s), s.len()) =~= s);
    } else {
        assert(le(0, 0) =~= s);
    }
}

/// The spans of the integer widths in use.
pub proof fn spans()
    ensures
        span(1) == 0x100,
        span(2) == 0x1_0000,
        span(4) == 0x1_0000_0000,
        span(8) == 0x1_0000_0000_0000_0000,
        span(16) == 0x1_0000_0000_0000_0000 * 0x1_0000_0000_0000_0000,
{
    reveal_with_fuel(span, 17);
}

/// Appends the `width` low bytes of a number.
pub fn push_le(out: &mut Vec<u8>, v: u128, width: usize)
    ensures
        final(out)@ == old(out)@ + le(v as nat, width as nat),
    decreases width,
{
    if width > 0 {
        out.push((v % 256) as u8);
        push_le(out, v / 256, width - 1);
        assert(final(out)@ =~= old(out)@ + le(v as nat, width as nat));
    } else {
        assert(final(out)@ =~= old(out)@ + le(v as nat, width as nat));
    }
}

/// The unsigned 128-bit number whose bytes are the two's complement of `v`.
pub fn twos_i128(v: i128) -> (r: u128)
    ensures
        r == twos(v as int),
{
    proof {
        spans();
    }
    if v >= 0 {
        v as u128
    } else {
        let below: i128 = -(v + 1);
        u128::MAX - below as u128
    }
}

/// Appends the `width` low bytes of the two's complement of a signed integer.
pub fn push_le_signed(out: &mut Vec<u8>, v: i128, width: usize)
    requires
        width <= 16,
    ensures
        final(out)@ == old(out)@ + le(twos(v as int), width as nat),
{
    push_le(out, twos_i128(v), width);
}

/// The little-endian number in a byte string.
pub fn read_le(s: &[u8], start: usize, width: usize) -> (r: u64)
    requires
        width <= 8,
        start + width <= s@.len(),
    ensures
        r == from_le(s@.subrange(start as int, start + width)),
    decreases width,
{
    if width == 0 {
        0
    } else {
        let n: usize = s.len();
        let rest = read_le(s, start + 1, width - 1);
        let ghost tail = s@.subrange(start + 1, start + width);
        let ghost whole = s@.subrange(start as int, start + width);
        proof {
            spans();
            from_le_round_trip(tail);
            assert(whole.drop_first() =~= tail);
            span_small((width - 1) as nat);
        }
        s[start] as u64 + 256 * rest
    }
}

proof fn span_small(width: nat)
    requires
        width <= 7,
    ensures
        span(width) <= 0x100_0000_0000_0000,
{
    reveal_with_fuel(span, 8);
}

/// Appends a byte string.
pub fn push_all(out: &mut Vec<u8>, value: &[u8])
    ensures
        final(out)@ == old(out)@ + value@,
{
    let mut i: usize = 0;
    let ghost before = out@;
    while i < value.len()
        invariant
            i <= value@.len(),
            out@ == before + value@.take(i as int),
            before == old(out)@,
        decreases value@.len() - i,
    {
        out.push(value[i]);
        assert(out@ =~= before + value@.take(i + 1));
        i = i + 1;
    }
    assert(value@.take(value@.len() as int) =~= value@);
    assert(before + value@.take(0) =~= before);
}

/// A byte string behind its length in eight bytes.
pub open spec fn prefixed(value: Seq<u8>) -> Seq<u8> {
    le(value.len(), 8) + value
}

/// Appends a byte string behind its length.
pub fn push_prefixed(out: &mut Vec<u8>, value: &[u8])
    ensures
        final(out)@ == old(out)@ + prefixed(value@),
{
    push_le(out, value.len() as u128, 8);
    push_all(out, value);
    assert(final(out)@ =~= old(out)@ + prefixed(value@));
}

/// The byte strings of the first `n` parts of a list, one after the other.
pub open spec fn concat_of(n: nat, part: spec_fn(int) -> Seq<u8>) -> Seq<u8>
    decreases n,
{
    if n == 0 {
        Seq::empty()
    } else {
        concat_of((n - 1) as nat, part) + part(n - 1)
    }
}

/// A slice of a byte string, copied.
pub fn slice_of(s: &[u8], start: usize, end: usize) -> (r: Vec<u8>)
    requires
        start <= end <= s@.len(),
    ensures
        r@ == s@.subrange(start as int, end as int),
{
    let mut r: Vec<u8> = Vec::new();
    let mut i: usize = start;
    while i < end
        invariant
            start <= i <= end <= s@.len(),
            r@ == s@.subrange(start as int, i as int),
        decreases end - i,
    {
        r.push(s[i]);
        assert(s@.subrange(start as int, i + 1) =~= s@.subrange(start as int, i as int).push(
            s@[i as int],
        ));
        i = i + 1;
    }
    r
}

} // verus!
