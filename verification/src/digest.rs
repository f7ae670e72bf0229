//! BLAKE3 digests and their hexadecimal spelling.

use crate::text::strip_prefix;
use vstd::prelude::*;
use vstd::string::*;

verus! {

/// The incremental hasher of the `blake3` crate.
#[verifier::external_type_specification]
#[verifier::external_body]
pub struct ExHasher(blake3::Hasher);

/// The bytes that a hasher has taken in since it was made, in order.
pub uninterp spec fn absorbed(hasher: blake3::Hasher) -> Seq<u8>;

/// The BLAKE3 digest of a byte string.
pub uninterp spec fn blake3_digest(input: Seq<u8>) -> Seq<u8>;

/// The BLAKE3 keyed digest of a byte string under a key of 32 bytes.
pub uninterp spec fn blake3_keyed(key: Seq<u8>, input: Seq<u8>) -> Seq<u8>;

/// `blake3::Hasher::new` makes a hasher for the regular hash function that has taken in
/// nothing yet.
#[verifier::external_body]
pub(crate) fn hasher_new() -> (r: blake3::Hasher)
    ensures
        absorbed(r) == Seq::<u8>::empty(),
{
    blake3::Hasher::new()
}

/// `blake3::Hasher::update` adds its input behind what the hasher took in before.
#[verifier::external_body]
pub(crate) fn hasher_update(hasher: &mut blake3::Hasher, input: &[u8])
    ensures
        absorbed(*final(hasher)) == absorbed(*old(hasher)) + input@,
{
    hasher.update(input);
}

/// `blake3::Hasher::finalize` returns the digest of all that the hasher took in.
#[verifier::external_body]
pub(crate) fn hasher_finish(hasher: &blake3::Hasher) -> (r: [u8; 32])
    ensures
        r@ == blake3_digest(absorbed(*hasher)),
{
    *hasher.finalize().as_bytes()
}

/// `blake3::keyed_hash` returns the keyed digest of its input.
#[verifier::external_body]
pub(crate) fn keyed_hash(key: &[u8; 32], input: &[u8]) -> (r: [u8; 32])
    ensures
        r@ == blake3_keyed(key@, input@),
{
    *blake3::keyed_hash(key, input).as_bytes()
}

/// Adds bytes to a hasher.
pub fn feed(hasher: &mut blake3::Hasher, input: &[u8])
    ensures
        absorbed(*final(hasher)) == absorbed(*old(hasher)) + input@,
{
    hasher_update(hasher, input);
}

/// The digest of a byte string.
pub fn digest_of(input: &[u8]) -> (r: [u8; 32])
    ensures
        r@ == blake3_digest(input@),
{
    let mut hasher = hasher_new();
    hasher_update(&mut hasher, input);
    assert(absorbed(hasher) =~= input@);
    hasher_finish(&hasher)
}

/// The character of a hexadecimal digit, in lower case.
pub open spec fn hex_char(n: nat) -> char {
    if n < 10 {
        (48 + n) as u8 as char
    } else {
        (87 + n) as u8 as char
    }
}

/// The hexadecimal spelling of a byte string: two lower-case digits for each byte.
pub open spec fn hex(bytes: Seq<u8>) -> Seq<char>
    decreases bytes.len(),
{
    if bytes.len() == 0 {
        Seq::empty()
    } else {
        hex(bytes.drop_last()).push(hex_char((bytes.last() / 16) as nat)).push(
            hex_char((bytes.last() % 16) as nat),
        )
    }
}

fn hex_digit(n: u8) -> (c: char)
    requires
        n < 16,
    ensures
        c == hex_char(n as nat),
{
    if n < 10 {
        (48 + n) as char
    } else {
        (87 + n) as char
    }
}

/// A prefix followed by the hexadecimal spelling of a byte string.
pub fn tagged_hex(prefix: &str, bytes: &[u8]) -> (r: String)
    ensures
        r@ == prefix@ + hex(bytes@),
{
    let mut r = prefix.to_owned();
    let mut i: usize = 0;
    assert(hex(bytes@.take(0)) =~= Seq::empty());
    while i < bytes.len()
        invariant
            i <= bytes@.len(),
            r@ == prefix@ + hex(bytes@.take(i as int)),
        decreases bytes@.len() - i,
    {
        r.push(hex_digit(bytes[i] / 16));
        r.push(hex_digit(bytes[i] % 16));
        proof {
            let now = bytes@.take(i + 1);
            assert(now.drop_last() =~= bytes@.take(i as int));
            assert(r@ =~= prefix@ + hex(now));
        }
        i = i + 1;
    }
    assert(bytes@.take(bytes@.len() as int) =~= bytes@);
    r
}

/// The hexadecimal spelling of `n` bytes has `2 * n` digits, two for each byte.
pub proof fn hex_digits(bytes: Seq<u8>)
    ensures
        hex(bytes).len() == 2 * bytes.len(),
        forall|i: int|
            0 <= i < bytes.len() ==> hex(bytes)[2 * i] == hex_char((#[trigger] bytes[i] / 16) as nat)
                && hex(bytes)[2 * i + 1] == hex_char((bytes[i] % 16) as nat),
    decreases bytes.len(),
{
    if bytes.len() > 0 {
        let rest = bytes.drop_last();
        hex_digits(rest);
        assert forall|i: int| 0 <= i < bytes.len() implies hex(bytes)[2 * i] == hex_char(
            (#[trigger] bytes[i] / 16) as nat,
        ) && hex(bytes)[2 * i + 1] == hex_char((bytes[i] % 16) as nat) by {
            if i < rest.len() {
                assert(rest[i] == bytes[i]);
                assert(hex(rest)[2 * i] == hex_char((rest[i] / 16) as nat));
            }
        }
    }
}

/// A lower-case hexadecimal digit.
pub open spec fn lower_hex(c: char) -> bool {
    ('0' <= c && c <= '9') || ('a' <= c && c <= 'f')
}

/// A digest of 32 bytes in lower-case hexadecimal digits behind a tag.
pub open spec fn tagged_digest(value: Seq<char>, tag: Seq<char>) -> bool {
    &&& value.len() == tag.len() + 64
    &&& value.take(tag.len() as int) == tag
    &&& forall|i: int| tag.len() <= i < value.len() ==> lower_hex(#[trigger] value[i])
}

/// Whether a text is a tagged digest.
pub fn is_tagged_digest(value: &str, tag: &str) -> (r: bool)
    ensures
        r == tagged_digest(value@, tag@),
{
    match strip_prefix(value, tag) {
        None => false,
        Some(rest) => {
            if rest.len() != 64 {
                return false;
            }
            let mut i: usize = 0;
            while i < rest.len()
                invariant
                    i <= rest@.len(),
                    rest@.len() == 64,
                    value@ == tag@ + rest@,
                    forall|k: int| 0 <= k < i ==> lower_hex(#[trigger] rest@[k]),
                decreases rest@.len() - i,
            {
                let c: char = rest[i];
                if !(('0' <= c && c <= '9') || ('a' <= c && c <= 'f')) {
                    assert(value@[tag@.len() + i] == c);
                    return false;
                }
                i = i + 1;
            }
            assert(value@.take(tag@.len() as int) =~= tag@);
            assert forall|k: int| tag@.len() <= k < value@.len() implies lower_hex(
                #[trigger] value@[k],
            ) by {
                assert(rest@[k - tag@.len()] == value@[k]);
            }
            true
        },
    }
}

/// The hexadecimal spelling of 32 bytes behind a tag is a tagged digest.
pub proof fn hex_is_tagged(tag: Seq<char>, bytes: Seq<u8>)
    requires
        bytes.len() == 32,
    ensures
        tagged_digest(tag + hex(bytes), tag),
{
    hex_digits(bytes);
    let value = tag + hex(bytes);
    assert(value.take(tag.len() as int) =~= tag);
    assert forall|i: int| tag.len() <= i < value.len() implies lower_hex(#[trigger] value[i]) by {
        let k = i - tag.len();
        let b = bytes[k / 2];
        if k % 2 == 0 {
            assert(value[i] == hex(bytes)[2 * (k / 2)]);
        } else {
            assert(value[i] == hex(bytes)[2 * (k / 2) + 1]);
        }
    }
}

/// Byte strings with one hexadecimal spelling are equal.
pub proof fn hex_injective(a: Seq<u8>, b: Seq<u8>)
    requires
        hex(a) == hex(b),
    ensures
        a == b,
{
    hex_digits(a);
    hex_digits(b);
    assert forall|i: int| 0 <= i < a.len() implies a[i] == b[i] by {
        assert(hex(a)[2 * i] == hex_char((a[i] / 16) as nat));
        assert(hex(b)[2 * i] == hex_char((b[i] / 16) as nat));
    }
    assert(a =~= b);
}

} // verus!
