//! What kind of personal data a value looks like.

use crate::contract::rules::{
    pattern_of, regex_error, regex_is_match, regex_matches, regex_new,
};
use crate::error::{ErrorView, ProofFrameError};
use crate::numbers::{digits_value, is_digit, is_space, is_whitespace};
use crate::text::{chars_of, from_chars};
use vstd::arithmetic::div_mod::{lemma_add_mod_noop, lemma_mul_mod_noop};
use vstd::prelude::*;
use vstd::string::*;

verus! {

/// Whether a character is an ASCII letter.
pub open spec fn is_letter(c: char) -> bool {
    ('a' <= c && c <= 'z') || ('A' <= c && c <= 'Z')
}

fn digit(c: char) -> (r: bool)
    ensures
        r == is_digit(c),
{
    '0' <= c && c <= '9'
}

fn letter(c: char) -> (r: bool)
    ensures
        r == is_letter(c),
{
    ('a' <= c && c <= 'z') || ('A' <= c && c <= 'Z')
}

/// A text without white space at its start.
pub open spec fn trimmed_start(s: Seq<char>) -> Seq<char>
    decreases s.len(),
{
    if s.len() > 0 && is_space(s[0]) {
        trimmed_start(s.drop_first())
    } else {
        s
    }
}

/// A text without white space at its end.
pub open spec fn trimmed_end(s: Seq<char>) -> Seq<char>
    decreases s.len(),
{
    if s.len() > 0 && is_space(s.last()) {
        trimmed_end(s.drop_last())
    } else {
        s
    }
}

/// A text without white space at its ends.
pub open spec fn trimmed(s: Seq<char>) -> Seq<char> {
    trimmed_end(trimmed_start(s))
}

/// A text without white space at its ends, as characters.
pub fn trim(value: &str) -> (r: Vec<char>)
    ensures
        r@ == trimmed(value@),
{
    let chars = chars_of(value);
    let mut start: usize = 0;
    assert(chars@.skip(0) =~= chars@);
    while start < chars.len() && is_whitespace(chars[start])
        invariant
            start <= chars@.len(),
            chars@ == value@,
            trimmed_start(value@) == trimmed_start(chars@.skip(start as int)),
        decreases chars@.len() - start,
    {
        assert(chars@.skip(start as int).drop_first() =~= chars@.skip(start + 1));
        start = start + 1;
    }
    let ghost body = chars@.skip(start as int);
    proof {
        if start < chars@.len() {
            assert(body[0] == chars@[start as int]);
        }
        assert(trimmed_start(value@) == body);
    }
    let mut end: usize = chars.len();
    assert(body.take(body.len() as int) =~= body);
    while end > start && is_whitespace(chars[end - 1])
        invariant
            start <= end <= chars@.len(),
            body == chars@.skip(start as int),
            trimmed_end(body) == trimmed_end(body.take(end - start)),
        decreases end,
    {
        proof {
            let now = body.take(end - start);
            assert(now.last() == chars@[end - 1]);
            assert(now.drop_last() =~= body.take(end - start - 1));
        }
        end = end - 1;
    }
    let mut out: Vec<char> = Vec::new();
    let mut i: usize = start;
    while i < end
        invariant
            start <= i <= end <= chars@.len(),
            body == chars@.skip(start as int),
            out@ == body.take(i - start),
        decreases end - i,
    {
        out.push(chars[i]);
        assert(out@ =~= body.take(i + 1 - start));
        i = i + 1;
    }
    proof {
        if end > start {
            assert(body.take(end - start).last() == chars@[end - 1]);
        }
    }
    out
}

/// Whether a text holds a character.
fn holds(value: &Vec<char>, wanted: char) -> (r: bool)
    ensures
        r == value@.contains(wanted),
{
    let mut i: usize = 0;
    while i < value.len()
        invariant
            i <= value@.len(),
            forall|k: int| 0 <= k < i ==> value@[k] != wanted,
        decreases value@.len() - i,
    {
        if value[i] == wanted {
            assert(value@[i as int] == wanted);
            return true;
        }
        i = i + 1;
    }
    false
}

/// The parts of a text between its dots.
pub open spec fn dotted_parts(s: Seq<char>) -> Seq<Seq<char>>
    decreases s.len(),
{
    if s.len() == 0 {
        seq![Seq::empty()]
    } else {
        let rest = dotted_parts(s.drop_last());
        if s.last() == '.' {
            rest.push(Seq::empty())
        } else {
            rest.drop_last().push(rest.last().push(s.last()))
        }
    }
}

/// A part of an address: a number that fits a byte.
pub open spec fn is_octet(part: Seq<char>) -> bool {
    part.len() > 0 && digits_value(part) <= 255
}

/// Whether a text consists of digits and dots.
pub open spec fn digits_and_dots(s: Seq<char>) -> bool {
    forall|i: int| 0 <= i < s.len() ==> is_digit(#[trigger] s[i]) || s[i] == '.'
}

/// Whether digits and dots are an address: four numbers that fit a byte each.
pub open spec fn is_ipv4(s: Seq<char>) -> bool {
    let parts = dotted_parts(s);
    parts.len() == 4 && forall|i: int| 0 <= i < 4 ==> is_octet(#[trigger] parts[i])
}

/// Whether digits and dots are an address.
pub fn valid_ipv4(value: &Vec<char>) -> (r: bool)
    requires
        digits_and_dots(value@),
    ensures
        r == is_ipv4(value@),
{
    let mut parts: usize = 0;
    let mut good = true;
    let mut length: usize = 0;
    let mut number: u32 = 0;
    let mut i: usize = 0;
    assert(value@.take(0) =~= Seq::empty());
    while i < value.len()
        invariant
            i <= value@.len(),
            parts <= i,
            length <= i,
            digits_and_dots(value@),
            dotted_parts(value@.take(i as int)).len() == parts + 1,
            dotted_parts(value@.take(i as int)).last().len() == length,
            number == if digits_value(dotted_parts(value@.take(i as int)).last()) < 1000 {
                digits_value(dotted_parts(value@.take(i as int)).last()) as int
            } else {
                1000
            },
            good <==> forall|k: int|
                0 <= k < parts ==> is_octet(#[trigger] dotted_parts(value@.take(i as int))[k]),
        decreases value@.len() - i,
    {
        let c: char = value[i];
        let ghost before = dotted_parts(value@.take(i as int));
        let ghost after = dotted_parts(value@.take(i + 1));
        proof {
            assert(value@.take(i + 1).drop_last() =~= value@.take(i as int));
            assert(value@.take(i + 1).last() == c);
        }
        if c == '.' {
            proof {
                assert forall|k: int| 0 <= k < parts + 1 implies #[trigger] after[k]
                    == before[k] by {}
                assert(before[parts as int] == before.last());
            }
            let octet = length > 0 && number <= 255;
            assert(octet == is_octet(before[parts as int]));
            proof {
                if good && octet {
                    assert forall|k: int| 0 <= k < parts + 1 implies is_octet(
                        #[trigger] after[k],
                    ) by {
                        assert(after[k] == before[k]);
                    }
                } else if good {
                    assert(!is_octet(after[parts as int]));
                } else {
                    let k = choose|k: int| 0 <= k < parts && !is_octet(#[trigger] before[k]);
                    assert(!is_octet(after[k]));
                }
            }
            good = good && octet;
            parts = parts + 1;
            length = 0;
            number = 0;
        } else {
            proof {
                assert(is_digit(value@[i as int]));
                let part = before.last();
                assert(after.last() == part.push(c));
                assert(part.push(c).drop_last() =~= part);
                assert forall|k: int| 0 <= k < parts implies #[trigger] after[k] == before[k] by {}
                if good {
                    assert forall|k: int| 0 <= k < parts implies is_octet(
                        #[trigger] after[k],
                    ) by {
                        assert(is_octet(before[k]));
                    }
                } else {
                    let k = choose|k: int| 0 <= k < parts && !is_octet(#[trigger] before[k]);
                    assert(!is_octet(after[k]));
                }
            }
            let d: u32 = c as u32 - 48;
            length = length + 1;
            number = if number >= 100 {
                1000
            } else {
                number * 10 + d
            };
        }
        i = i + 1;
    }
    assert(value@.take(value@.len() as int) =~= value@);
    let last = length > 0 && number <= 255;
    proof {
        let all = dotted_parts(value@);
        assert(all[parts as int] == all.last());
        assert(last == is_octet(all[parts as int]));
        if parts == 3 && good && last {
            assert forall|k: int| 0 <= k < 4 implies is_octet(#[trigger] all[k]) by {
                if k == 3 {
                    assert(all[k] == all.last());
                }
            }
        }
    }
    good && last && parts == 3
}

/// Whether a character is ASCII white space.
pub open spec fn is_ascii_space(c: char) -> bool {
    c == ' ' || c == '\t' || c == '\n' || c as u32 == 12 || c == '\r'
}

/// A text without ASCII white space.
pub open spec fn compact(s: Seq<char>) -> Seq<char>
    decreases s.len(),
{
    if s.len() == 0 {
        Seq::empty()
    } else if is_ascii_space(s.last()) {
        compact(s.drop_last())
    } else {
        compact(s.drop_last()).push(s.last())
    }
}

/// Whether a character may stand at a place of an account number: two letters, two digits,
/// then letters and digits.
pub open spec fn iban_place(c: char, place: int) -> bool {
    if place < 2 {
        is_letter(c)
    } else if place < 4 {
        is_digit(c)
    } else {
        is_letter(c) || is_digit(c)
    }
}

/// The number of a character: a digit is itself, and letters count on from ten.
pub open spec fn iban_digits(c: char) -> nat {
    if is_digit(c) {
        (c as u32 - 48) as nat
    } else if 'a' <= c && c <= 'z' {
        (c as u32 - 87) as nat
    } else {
        (c as u32 - 55) as nat
    }
}

/// The number that letters and digits spell, with two digits for each letter.
pub open spec fn iban_value(s: Seq<char>) -> nat
    decreases s.len(),
{
    if s.len() == 0 {
        0
    } else {
        iban_value(s.drop_last()) * (if is_digit(s.last()) {
            10nat
        } else {
            100
        }) + iban_digits(s.last())
    }
}

/// An account number with its first four characters at the end.
pub open spec fn rotated(s: Seq<char>) -> Seq<char> {
    s.skip(4) + s.take(4)
}

/// Whether a text is an international account number: the check digits leave a remainder
/// of one.
pub open spec fn is_iban(value: Seq<char>) -> bool {
    let s = compact(value);
    &&& forall|i: int| 0 <= i < s.len() ==> iban_place(#[trigger] s[i], i)
    &&& 15 <= s.len() <= 34
    &&& iban_value(rotated(s)) % 97 == 1
}

fn ascii_space(c: char) -> (r: bool)
    ensures
        r == is_ascii_space(c),
{
    c == ' ' || c == '\t' || c == '\n' || c as u32 == 12 || c == '\r'
}

/// A text without ASCII white space.
fn compacted(value: &Vec<char>) -> (r: Vec<char>)
    ensures
        r@ == compact(value@),
{
    let mut out: Vec<char> = Vec::new();
    let mut i: usize = 0;
    assert(value@.take(0) =~= Seq::empty());
    while i < value.len()
        invariant
            i <= value@.len(),
            out@ == compact(value@.take(i as int)),
        decreases value@.len() - i,
    {
        assert(value@.take(i + 1).drop_last() =~= value@.take(i as int));
        if !ascii_space(value[i]) {
            out.push(value[i]);
        }
        i = i + 1;
    }
    assert(value@.take(value@.len() as int) =~= value@);
    out
}

/// The remainder after one more character.
fn iban_remainder(remainder: u32, c: char) -> (r: u32)
    requires
        remainder < 97,
        is_digit(c) || is_letter(c),
    ensures
        r == (remainder * (if is_digit(c) {
            10int
        } else {
            100
        }) + iban_digits(c)) % 97,
        r < 97,
{
    let u: u32 = c as u32;
    if digit(c) {
        (remainder * 10 + (u - 48)) % 97
    } else {
        let number: u32 = if 'a' <= c && c <= 'z' {
            u - 87
        } else {
            u - 55
        };
        (remainder * 100 + number) % 97
    }
}

proof fn remainder_step(value: nat, factor: nat, more: nat)
    ensures
        (value * factor + more) % 97 == ((value % 97) * factor + more) % 97,
{
    lemma_mul_mod_noop(value as int, factor as int, 97);
    lemma_mul_mod_noop((value % 97) as int, factor as int, 97);
    assert((value % 97) % 97 == value % 97);
    lemma_add_mod_noop((value * factor) as int, more as int, 97);
    lemma_add_mod_noop(((value % 97) * factor) as int, more as int, 97);
}

/// Whether a text is an international account number.
pub fn valid_iban(value: &Vec<char>) -> (r: bool)
    ensures
        r == is_iban(value@),
{
    let s = compacted(value);
    let mut i: usize = 0;
    while i < s.len()
        invariant
            i <= s@.len(),
            s@ == compact(value@),
            forall|k: int| 0 <= k < i ==> iban_place(#[trigger] s@[k], k),
        decreases s@.len() - i,
    {
        let c: char = s[i];
        let fits = if i < 2 {
            letter(c)
        } else if i < 4 {
            digit(c)
        } else {
            letter(c) || digit(c)
        };
        if !fits {
            assert(!iban_place(s@[i as int], i as int));
            return false;
        }
        i = i + 1;
    }
    if s.len() < 15 || s.len() > 34 {
        return false;
    }
    let ghost spelled = rotated(s@);
    let mut remainder: u32 = 0;
    let mut k: usize = 0;
    assert(spelled.take(0) =~= Seq::empty());
    while k < s.len()
        invariant
            k <= s@.len(),
            15 <= s@.len() <= 34,
            spelled == rotated(s@),
            forall|j: int| 0 <= j < s@.len() ==> iban_place(#[trigger] s@[j], j),
            remainder < 97,
            remainder == iban_value(spelled.take(k as int)) % 97,
        decreases s@.len() - k,
    {
        let at: usize = if k < s.len() - 4 {
            k + 4
        } else {
            k - (s.len() - 4)
        };
        let c: char = s[at];
        proof {
            assert(iban_place(s@[at as int], at as int));
            assert(spelled[k as int] == c);
            assert(spelled.take(k + 1).drop_last() =~= spelled.take(k as int));
            assert(spelled.take(k + 1).last() == c);
            remainder_step(
                iban_value(spelled.take(k as int)),
                if is_digit(c) {
                    10
                } else {
                    100
                },
                iban_digits(c),
            );
        }
        remainder = iban_remainder(remainder, c);
        k = k + 1;
    }
    assert(spelled.take(s@.len() as int) =~= spelled);
    remainder == 1
}

/// The digits of a text.
pub open spec fn digits_of(s: Seq<char>) -> Seq<char>
    decreases s.len(),
{
    if s.len() == 0 {
        Seq::empty()
    } else if is_digit(s.last()) {
        digits_of(s.drop_last()).push(s.last())
    } else {
        digits_of(s.drop_last())
    }
}

/// What a digit adds to the check sum: itself, or the digit sum of its double.
pub open spec fn luhn_weight(c: char, doubled: bool) -> nat {
    let d = (c as u32 - 48) as nat;
    if !doubled {
        d
    } else if 2 * d > 9 {
        (2 * d - 9) as nat
    } else {
        2 * d
    }
}

/// The check sum of digits: from the right, every second one is doubled.
pub open spec fn luhn_sum(digits: Seq<char>, doubled: bool) -> nat
    decreases digits.len(),
{
    if digits.len() == 0 {
        0
    } else {
        luhn_sum(digits.drop_last(), !doubled) + luhn_weight(digits.last(), doubled)
    }
}

/// Whether a text is a card number: digits in groups, as many as cards have, whose check
/// sum ends in zero.
pub open spec fn is_card(s: Seq<char>) -> bool {
    &&& 13 <= s.len() <= 23
    &&& forall|i: int|
        0 <= i < s.len() ==> is_digit(#[trigger] s[i]) || s[i] == ' ' || s[i] == '-'
    &&& 13 <= digits_of(s).len() <= 19
    &&& luhn_sum(digits_of(s), false) % 10 == 0
}

proof fn digits_of_bound(s: Seq<char>)
    ensures
        digits_of(s).len() <= s.len(),
        forall|i: int| 0 <= i < digits_of(s).len() ==> is_digit(#[trigger] digits_of(s)[i]),
    decreases s.len(),
{
    if s.len() > 0 {
        digits_of_bound(s.drop_last());
    }
}

fn digits(value: &Vec<char>) -> (r: Vec<char>)
    ensures
        r@ == digits_of(value@),
{
    let mut out: Vec<char> = Vec::new();
    let mut i: usize = 0;
    assert(value@.take(0) =~= Seq::empty());
    while i < value.len()
        invariant
            i <= value@.len(),
            out@ == digits_of(value@.take(i as int)),
        decreases value@.len() - i,
    {
        assert(value@.take(i + 1).drop_last() =~= value@.take(i as int));
        if digit(value[i]) {
            out.push(value[i]);
        }
        i = i + 1;
    }
    assert(value@.take(value@.len() as int) =~= value@);
    out
}

/// Whether a text is a card number.
pub fn luhn_filtered(value: &Vec<char>) -> (r: bool)
    ensures
        r == is_card(value@),
{
    if value.len() < 13 || value.len() > 23 {
        return false;
    }
    let mut i: usize = 0;
    while i < value.len()
        invariant
            i <= value@.len(),
            forall|k: int|
                0 <= k < i ==> is_digit(#[trigger] value@[k]) || value@[k] == ' ' || value@[k]
                    == '-',
        decreases value@.len() - i,
    {
        let c: char = value[i];
        if !digit(c) && c != ' ' && c != '-' {
            assert(!is_digit(value@[i as int]));
            return false;
        }
        i = i + 1;
    }
    let ds = digits(value);
    if ds.len() < 13 || ds.len() > 19 {
        return false;
    }
    proof {
        digits_of_bound(value@);
    }
    let mut sum: u32 = 0;
    let mut doubled = false;
    let mut left: usize = ds.len();
    assert(ds@.take(ds@.len() as int) =~= ds@);
    while left > 0
        invariant
            left <= ds@.len() <= 19,
            sum <= 9 * (ds@.len() - left),
            forall|k: int| 0 <= k < ds@.len() ==> is_digit(#[trigger] ds@[k]),
            luhn_sum(ds@, false) == luhn_sum(ds@.take(left as int), doubled) + sum,
        decreases left,
    {
        let c: char = ds[left - 1];
        proof {
            assert(is_digit(ds@[left - 1]));
            assert(ds@.take(left as int).drop_last() =~= ds@.take(left - 1));
            assert(ds@.take(left as int).last() == c);
        }
        let d: u32 = c as u32 - 48;
        let weight: u32 = if !doubled {
            d
        } else if 2 * d > 9 {
            2 * d - 9
        } else {
            2 * d
        };
        sum = sum + weight;
        doubled = !doubled;
        left = left - 1;
    }
    assert(ds@.take(0) =~= Seq::empty());
    sum % 10 == 0
}

/// Whether a text is made like a phone number.
pub open spec fn phone_like(s: Seq<char>) -> bool {
    &&& 8 <= s.len() <= 20
    &&& s[0] == '+' || is_digit(s[0])
    &&& forall|i: int|
        0 <= i < s.len() ==> is_digit(#[trigger] s[i]) || s[i] == '+' || s[i] == ' ' || s[i]
            == '(' || s[i] == ')' || s[i] == '-'
}

/// Whether a text is made like a phone number.
pub fn phone_candidate(value: &Vec<char>) -> (r: bool)
    ensures
        r == phone_like(value@),
{
    if value.len() < 8 || value.len() > 20 {
        return false;
    }
    if value[0] != '+' && !digit(value[0]) {
        return false;
    }
    let mut i: usize = 0;
    while i < value.len()
        invariant
            i <= value@.len(),
            forall|k: int|
                0 <= k < i ==> is_digit(#[trigger] value@[k]) || value@[k] == '+' || value@[k]
                    == ' ' || value@[k] == '(' || value@[k] == ')' || value@[k] == '-',
        decreases value@.len() - i,
    {
        let c: char = value[i];
        if !digit(c) && c != '+' && c != ' ' && c != '(' && c != ')' && c != '-' {
            assert(!is_digit(value@[i as int]));
            return false;
        }
        i = i + 1;
    }
    true
}

/// What a value looks like.
#[derive(Debug, Clone, Copy)]
pub struct Match {
    pub kind: &'static str,
    pub confidence: &'static str,
}

/// What a value looks like.
pub struct MatchView {
    pub kind: Seq<char>,
    pub confidence: Seq<char>,
}

/// What a trimmed text looks like, given what the three patterns make of it.
pub open spec fn classified(
    s: Seq<char>,
    email: bool,
    ipv4: bool,
    phone: bool,
) -> Option<MatchView> {
    if s.contains('@') && email {
        Some(MatchView { kind: "email"@, confidence: "high"@ })
    } else if s.contains('.') && digits_and_dots(s) && ipv4 && is_ipv4(s) {
        Some(MatchView { kind: "ipv4"@, confidence: "high"@ })
    } else if is_iban(s) {
        Some(MatchView { kind: "iban"@, confidence: "high"@ })
    } else if is_card(s) {
        Some(MatchView { kind: "payment_card"@, confidence: "high"@ })
    } else if phone_like(s) && phone && 8 <= digits_of(s).len() <= 15 {
        Some(MatchView { kind: "phone"@, confidence: "medium"@ })
    } else {
        None
    }
}

/// Whether a word is one of the two that say how sure a detector is.
pub open spec fn sure(confidence: Seq<char>) -> bool {
    confidence == "high"@ || confidence == "medium"@
}

/// Whether a result is a match.
pub open spec fn matched(r: Option<Match>, wanted: Option<MatchView>) -> bool {
    match wanted {
        Some(m) => r matches Some(x) && x.kind@ == m.kind && x.confidence@ == m.confidence,
        None => r is None,
    }
}

fn are_digits_and_dots(value: &Vec<char>) -> (r: bool)
    ensures
        r == digits_and_dots(value@),
{
    let mut i: usize = 0;
    while i < value.len()
        invariant
            i <= value@.len(),
            forall|k: int| 0 <= k < i ==> is_digit(#[trigger] value@[k]) || value@[k] == '.',
        decreases value@.len() - i,
    {
        if !digit(value[i]) && value[i] != '.' {
            assert(!is_digit(value@[i as int]));
            return false;
        }
        i = i + 1;
    }
    true
}

/// What a trimmed text looks like, given what the three patterns make of it.
pub fn classify(
    value: &Vec<char>,
    email: bool,
    ipv4: bool,
    phone: bool,
) -> (r: Option<Match>)
    ensures
        matched(r, classified(value@, email, ipv4, phone)),
        r matches Some(m) ==> sure(m.confidence@),
{
    if email && holds(value, '@') {
        return Some(Match { kind: "email", confidence: "high" });
    }
    if ipv4 && holds(value, '.') && are_digits_and_dots(value) && valid_ipv4(value) {
        return Some(Match { kind: "ipv4", confidence: "high" });
    }
    if valid_iban(value) {
        return Some(Match { kind: "iban", confidence: "high" });
    }
    if luhn_filtered(value) {
        return Some(Match { kind: "payment_card", confidence: "high" });
    }
    if phone && phone_candidate(value) {
        let ds = digits(value);
        if 8 <= ds.len() && ds.len() <= 15 {
            return Some(Match { kind: "phone", confidence: "medium" });
        }
    }
    None
}

pub const EMAIL_PATTERN: &'static str = "(?i)^[a-z0-9.!#$%&'*+/=?^_`{|}~-]+@[a-z0-9](?:[a-z0-9-]{0,61}[a-z0-9])?(?:\\.[a-z0-9](?:[a-z0-9-]{0,61}[a-z0-9])?)+$";

pub const IPV4_PATTERN: &'static str = "^(?:\\d{1,3}\\.){3}\\d{1,3}$";

pub const PHONE_PATTERN: &'static str = "^\\+?[0-9][0-9 ()-]{7,19}$";

/// The patterns of a detector, compiled.
pub struct Detector {
    email: regex::Regex,
    ipv4: regex::Regex,
    phone: regex::Regex,
}

/// The first error of the patterns of a detector.
pub open spec fn detector_error() -> Option<Seq<char>> {
    if regex_error(EMAIL_PATTERN@) is Some {
        regex_error(EMAIL_PATTERN@)
    } else if regex_error(IPV4_PATTERN@) is Some {
        regex_error(IPV4_PATTERN@)
    } else {
        regex_error(PHONE_PATTERN@)
    }
}

/// What a value looks like to a detector.
pub open spec fn looks_like(value: Seq<char>) -> Option<MatchView> {
    let s = trimmed(value);
    classified(
        s,
        regex_matches(EMAIL_PATTERN@, s),
        regex_matches(IPV4_PATTERN@, s),
        regex_matches(PHONE_PATTERN@, s),
    )
}

impl Detector {
    /// The detector has the three patterns.
    pub closed spec fn wf(&self) -> bool {
        &&& pattern_of(self.email) == EMAIL_PATTERN@
        &&& pattern_of(self.ipv4) == IPV4_PATTERN@
        &&& pattern_of(self.phone) == PHONE_PATTERN@
    }

    /// Compiles the patterns.
    pub fn new() -> (r: Result<Self, ProofFrameError>)
        ensures
            match detector_error() {
                Some(m) => r matches Err(e) && e@ == ErrorView::Regex(m),
                None => r matches Ok(d) && d.wf(),
            },
    {
        let email = match regex_new(EMAIL_PATTERN) {
            Ok(re) => re,
            Err(m) => {
                return Err(ProofFrameError::Regex(m));
            },
        };
        let ipv4 = match regex_new(IPV4_PATTERN) {
            Ok(re) => re,
            Err(m) => {
                return Err(ProofFrameError::Regex(m));
            },
        };
        let phone = match regex_new(PHONE_PATTERN) {
            Ok(re) => re,
            Err(m) => {
                return Err(ProofFrameError::Regex(m));
            },
        };
        Ok(Detector { email, ipv4, phone })
    }

    /// What a value looks like.
    pub fn classify_cell(&self, value: &str) -> (r: Option<Match>)
        requires
            self.wf(),
        ensures
            matched(r, looks_like(value@)),
            r matches Some(m) ==> sure(m.confidence@),
    {
        let chars = trim(value);
        let body = from_chars(&chars);
        let email = regex_is_match(&self.email, body.as_str());
        let ipv4 = regex_is_match(&self.ipv4, body.as_str());
        let phone = regex_is_match(&self.phone, body.as_str());
        classify(&chars, email, ipv4, phone)
    }
}

/// A text with a character other than digits, blanks and dashes is no card number.
pub proof fn letters_are_no_card(s: Seq<char>, i: int)
    requires
        0 <= i < s.len(),
        !is_digit(s[i]),
        s[i] != ' ',
        s[i] != '-',
    ensures
        !is_card(s),
{
}

} // verus!
