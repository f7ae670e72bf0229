//! What detectors find, in terms of the texts that they read.

use crate::digest::{blake3_keyed, hex, hex_injective};
use crate::numbers::{digits_value, is_digit, is_space};
use crate::pii::detect::{
    classified, compact, digits_and_dots, digits_of, dotted_parts, iban_digits, iban_place,
    iban_value, is_ascii_space, is_card, is_iban, is_ipv4, is_letter, is_octet, looks_like,
    luhn_sum, luhn_weight, phone_like, trimmed, trimmed_end, trimmed_start,
};
use crate::pii::options::fingerprint_of;
use crate::pii::scan::{cell_hits, hits, kind_count, row_hits, scanned_text, FindingView};
use crate::text::{decimal, digit_char, joined, utf8, utf8_injective};
use crate::value::{Cell, Field};
use vstd::prelude::*;

verus! {

/// The number that a digit stands for.
pub open spec fn digit_number(c: char) -> nat {
    (c as u32 - 48) as nat
}

/// What a digit adds to the check sum of a card, by its place from the right: in an even place
/// itself, in an odd one the sum of the two decimal digits of its double.
pub open spec fn place_weight(d: nat, place: int) -> nat {
    if place % 2 == 0 {
        d
    } else {
        (2 * d) / 10 + (2 * d) % 10
    }
}

/// The check sum of the first `n` digits, with places counted from so far to the right of the
/// last digit.
pub open spec fn weighed(digits: Seq<char>, shift: int, n: nat) -> nat
    decreases n,
{
    if n == 0 {
        0
    } else {
        weighed(digits, shift, (n - 1) as nat) + place_weight(
            digit_number(digits[n - 1]),
            digits.len() - n + shift,
        )
    }
}

proof fn weighed_alike(a: Seq<char>, b: Seq<char>, s: int, t: int, n: nat)
    requires
        n <= a.len(),
        n <= b.len(),
        forall|i: int| 0 <= i < n ==> a[i] == b[i],
        (a.len() + s) % 2 == (b.len() + t) % 2,
    ensures
        weighed(a, s, n) == weighed(b, t, n),
    decreases n,
{
    if n > 0 {
        weighed_alike(a, b, s, t, (n - 1) as nat);
        assert(a[n - 1] == b[n - 1]);
        assert((a.len() - n + s) % 2 == (b.len() - n + t) % 2);
    }
}

proof fn sum_by_places(digits: Seq<char>, doubled: bool)
    requires
        forall|i: int| 0 <= i < digits.len() ==> is_digit(#[trigger] digits[i]),
    ensures
        luhn_sum(digits, doubled) == weighed(
            digits,
            if doubled {
                1
            } else {
                0
            },
            digits.len(),
        ),
    decreases digits.len(),
{
    let shift: int = if doubled {
        1
    } else {
        0
    };
    if digits.len() > 0 {
        let rest = digits.drop_last();
        let n = rest.len();
        sum_by_places(rest, !doubled);
        weighed_alike(
            rest,
            digits,
            if doubled {
                0
            } else {
                1
            },
            shift,
            n,
        );
        assert(is_digit(digits[digits.len() - 1]));
        assert(weighed(digits, shift, digits.len()) == weighed(digits, shift, n) + place_weight(
            digit_number(digits.last()),
            shift,
        ));
    }
}

/// The characters of a text that are digits, in their order.
pub proof fn digits_are_kept_in_order(s: Seq<char>)
    ensures
        digits_of(s) == s.filter(|c: char| is_digit(c)),
        forall|i: int| 0 <= i < digits_of(s).len() ==> is_digit(#[trigger] digits_of(s)[i]),
    decreases s.len(),
{
    reveal(Seq::filter);
    if s.len() > 0 {
        digits_are_kept_in_order(s.drop_last());
    }
}

/// A text is a card number exactly where it holds thirteen to nineteen digits, among blanks and
/// dashes and in at most twenty-three characters, and ten divides their check sum: from the
/// right, every second digit counts as the sum of the digits of its double.
pub proof fn cards_are_told_by_their_check_sum(s: Seq<char>)
    ensures
        ({
            let digits = s.filter(|c: char| is_digit(c));
            is_card(s) <==> {
                &&& s.len() <= 23
                &&& forall|i: int|
                    0 <= i < s.len() ==> #[trigger] s[i] == ' ' || s[i] == '-' || ('0' <= s[i]
                        && s[i] <= '9')
                &&& 13 <= digits.len() <= 19
                &&& weighed(digits, 0, digits.len()) % 10 == 0
            }
        }),
{
    digits_are_kept_in_order(s);
    sum_by_places(digits_of(s), false);
    s.lemma_filter_len(|c: char| is_digit(c));
}

proof fn weights_differ(a: char, b: char, doubled: bool)
    requires
        is_digit(a),
        is_digit(b),
        a != b,
    ensures
        luhn_weight(a, doubled) <= 9,
        luhn_weight(b, doubled) <= 9,
        luhn_weight(a, doubled) != luhn_weight(b, doubled),
{
}

proof fn one_digit_changed(digits: Seq<char>, j: int, c: char, doubled: bool)
    requires
        0 <= j < digits.len(),
        is_digit(digits[j]),
        is_digit(c),
        c != digits[j],
    ensures
        luhn_sum(digits.update(j, c), doubled) % 10 != luhn_sum(digits, doubled) % 10,
    decreases digits.len(),
{
    let changed = digits.update(j, c);
    if j == digits.len() - 1 {
        assert(changed.drop_last() =~= digits.drop_last());
        weights_differ(digits[j], c, doubled);
    } else {
        assert(changed.drop_last() =~= digits.drop_last().update(j, c));
        one_digit_changed(digits.drop_last(), j, c, !doubled);
    }
}

proof fn digit_changed(s: Seq<char>, i: int, c: char) -> (j: int)
    requires
        0 <= i < s.len(),
        is_digit(s[i]),
        is_digit(c),
    ensures
        0 <= j < digits_of(s).len(),
        digits_of(s)[j] == s[i],
        digits_of(s.update(i, c)) == digits_of(s).update(j, c),
    decreases s.len(),
{
    let t = s.update(i, c);
    if i == s.len() - 1 {
        assert(t.drop_last() =~= s.drop_last());
        let j = digits_of(s).len() - 1;
        assert(digits_of(t) =~= digits_of(s).update(j, c));
        j
    } else {
        assert(t.drop_last() =~= s.drop_last().update(i, c));
        let j = digit_changed(s.drop_last(), i, c);
        assert(digits_of(t) =~= digits_of(s).update(j, c));
        j
    }
}

/// A card number with one digit mistaken for another is no card number.
pub proof fn one_wrong_digit_is_no_card(s: Seq<char>, i: int, c: char)
    requires
        is_card(s),
        0 <= i < s.len(),
        is_digit(s[i]),
        is_digit(c),
        c != s[i],
    ensures
        !is_card(s.update(i, c)),
{
    let j = digit_changed(s, i, c);
    one_digit_changed(digits_of(s), j, c, false);
}

/// The decimal digits of a letter or digit of an account number: a letter is its place in the
/// alphabet, from ten on for `A`, whatever its case.
pub open spec fn spelled_char(c: char) -> Seq<char> {
    if '0' <= c && c <= '9' {
        seq![c]
    } else if 'a' <= c && c <= 'z' {
        decimal((10 + (c as u32 - 'a' as u32)) as nat)
    } else {
        decimal((10 + (c as u32 - 'A' as u32)) as nat)
    }
}

/// An account number with every letter in digits.
pub open spec fn spelled(s: Seq<char>) -> Seq<char>
    decreases s.len(),
{
    if s.len() == 0 {
        Seq::empty()
    } else {
        spelled(s.drop_last()) + spelled_char(s.last())
    }
}

proof fn two_digits(n: nat)
    requires
        10 <= n < 100,
    ensures
        decimal(n) == seq![digit_char(n / 10), digit_char(n % 10)],
        digit_char(n / 10) as u32 == 48 + n / 10,
        digit_char(n % 10) as u32 == 48 + n % 10,
{
    reveal_with_fuel(decimal, 2);
    assert(decimal(n) =~= seq![digit_char(n / 10), digit_char(n % 10)]);
}

proof fn spelled_value(s: Seq<char>)
    requires
        forall|i: int| 0 <= i < s.len() ==> is_letter(#[trigger] s[i]) || is_digit(s[i]),
    ensures
        digits_value(spelled(s)) == iban_value(s),
    decreases s.len(),
{
    if s.len() > 0 {
        let rest = s.drop_last();
        let c = s.last();
        assert(is_letter(s[s.len() - 1]) || is_digit(s[s.len() - 1]));
        assert forall|i: int| 0 <= i < rest.len() implies is_letter(#[trigger] rest[i]) || is_digit(
            rest[i],
        ) by {
            assert(rest[i] == s[i]);
        }
        spelled_value(rest);
        let all = spelled(s);
        if is_digit(c) {
            assert(all.drop_last() =~= spelled(rest));
            assert(all.last() == c);
        } else {
            let n: nat = if 'a' <= c && c <= 'z' {
                (10 + (c as u32 - 'a' as u32)) as nat
            } else {
                (10 + (c as u32 - 'A' as u32)) as nat
            };
            two_digits(n);
            assert(all.drop_last().drop_last() =~= spelled(rest));
            assert(all.last() == digit_char(n % 10));
            assert(all.drop_last().last() == digit_char(n / 10));
            assert(digits_value(all.drop_last()) == 10 * digits_value(spelled(rest)) + n / 10);
            assert(digits_value(all) == 10 * digits_value(all.drop_last()) + n % 10);
            assert(iban_digits(c) == n);
        }
    }
}

/// A text is an account number exactly where it has, blanks aside, fifteen to thirty-four
/// characters, two letters and two digits in front and then letters and digits, and the number
/// that they spell, with the first four at the end, leaves one when divided by 97.
pub proof fn accounts_are_told_by_their_check_digits(value: Seq<char>)
    ensures
        ({
            let s = value.filter(|c: char| !is_ascii_space(c));
            is_iban(value) <==> {
                &&& 15 <= s.len() <= 34
                &&& is_letter(s[0]) && is_letter(s[1]) && is_digit(s[2]) && is_digit(s[3])
                &&& forall|i: int| 0 <= i < s.len() ==> is_letter(#[trigger] s[i]) || is_digit(s[i])
                &&& digits_value(spelled(s.skip(4) + s.take(4))) % 97 == 1
            }
        }),
{
    compact_keeps_the_rest(value);
    let s = compact(value);
    if 15 <= s.len() <= 34 {
        let turned = s.skip(4) + s.take(4);
        if forall|i: int| 0 <= i < s.len() ==> is_letter(#[trigger] s[i]) || is_digit(s[i]) {
            assert forall|i: int| 0 <= i < turned.len() implies is_letter(#[trigger] turned[i])
                || is_digit(turned[i]) by {
                if i < s.len() - 4 {
                    assert(turned[i] == s[i + 4]);
                } else {
                    assert(turned[i] == s[i - (s.len() - 4)]);
                }
            }
            spelled_value(turned);
        }
        if forall|i: int| 0 <= i < s.len() ==> iban_place(#[trigger] s[i], i) {
            assert(iban_place(s[0], 0) && iban_place(s[1], 1) && iban_place(s[2], 2) && iban_place(
                s[3],
                3,
            ));
            assert forall|i: int| 0 <= i < s.len() implies is_letter(#[trigger] s[i]) || is_digit(
                s[i],
            ) by {
                assert(iban_place(s[i], i));
            }
        }
    }
}

/// A text without ASCII white space is every other character of it, in their order.
pub proof fn compact_keeps_the_rest(s: Seq<char>)
    ensures
        compact(s) == s.filter(|c: char| !is_ascii_space(c)),
    decreases s.len(),
{
    reveal(Seq::filter);
    if s.len() > 0 {
        compact_keeps_the_rest(s.drop_last());
    }
}

/// The parts between the dots of a text hold no dot, and with dots between them they are the
/// text.
pub proof fn dotted_parts_join_again(s: Seq<char>)
    ensures
        joined(dotted_parts(s), "."@) == s,
        dotted_parts(s).len() > 0,
        forall|i: int| 0 <= i < dotted_parts(s).len() ==> !(#[trigger] dotted_parts(s)[i]).contains(
            '.',
        ),
    decreases s.len(),
{
    reveal_strlit(".");
    assert("."@ =~= seq!['.']);
    let parts = dotted_parts(s);
    if s.len() == 0 {
        assert(joined(parts, "."@) =~= s);
    } else {
        let rest = dotted_parts(s.drop_last());
        dotted_parts_join_again(s.drop_last());
        if s.last() == '.' {
            assert(parts.drop_last() =~= rest);
            assert(joined(parts, "."@) =~= s);
        } else {
            let grown = rest.last().push(s.last());
            assert(parts.drop_last() =~= rest.drop_last());
            assert(rest[rest.len() - 1] == rest.last());
            assert(!grown.contains('.')) by {
                assert forall|k: int| 0 <= k < grown.len() implies grown[k] != '.' by {
                    if k < rest.last().len() {
                        assert(rest.last().contains(rest.last()[k]));
                    }
                }
            }
            if rest.len() > 1 {
                assert(joined(parts, "."@) == joined(rest.drop_last(), "."@) + "."@ + grown);
                assert(joined(rest, "."@) == joined(rest.drop_last(), "."@) + "."@ + rest.last());
            } else {
                assert(joined(parts, "."@) == grown);
            }
            assert(s =~= s.drop_last().push(s.last()));
            assert(joined(parts, "."@) =~= joined(rest, "."@).push(s.last()));
        }
    }
}

/// Texts without dots, joined by dots, are the parts of what they join to.
pub proof fn joined_texts_are_dotted_parts(parts: Seq<Seq<char>>)
    requires
        parts.len() > 0,
        forall|i: int| 0 <= i < parts.len() ==> !(#[trigger] parts[i]).contains('.'),
    ensures
        dotted_parts(joined(parts, "."@)) == parts,
    decreases parts.len(),
{
    reveal_strlit(".");
    assert("."@ =~= seq!['.']);
    let last = parts.last();
    assert(!parts[parts.len() - 1].contains('.'));
    if parts.len() == 1 {
        assert(Seq::<char>::empty() + last =~= last);
        part_appended(Seq::empty(), last, last.len());
        assert(last.take(last.len() as int) =~= last);
        assert(joined(parts, "."@) =~= last);
        assert(dotted_parts(last) =~= parts);
    } else {
        let rest = parts.drop_last();
        assert forall|i: int| 0 <= i < rest.len() implies !(#[trigger] rest[i]).contains('.') by {
            assert(rest[i] == parts[i]);
        }
        joined_texts_are_dotted_parts(rest);
        let head = joined(rest, "."@).push('.');
        assert(head.drop_last() =~= joined(rest, "."@));
        assert(dotted_parts(head) == rest.push(Seq::empty()));
        part_appended(head, last, last.len());
        assert(last.take(last.len() as int) =~= last);
        assert(joined(parts, "."@) =~= head + last);
        assert(dotted_parts(head + last) =~= parts);
    }
}

proof fn part_appended(head: Seq<char>, part: Seq<char>, n: nat)
    requires
        n <= part.len(),
        !part.contains('.'),
        dotted_parts(head).len() > 0,
        dotted_parts(head).last() == Seq::<char>::empty(),
    ensures
        dotted_parts(head + part.take(n as int)) == dotted_parts(head).drop_last().push(
            part.take(n as int),
        ),
    decreases n,
{
    if n == 0 {
        assert(head + part.take(0) =~= head);
        assert(part.take(0) =~= Seq::empty());
        assert(dotted_parts(head) =~= dotted_parts(head).drop_last().push(Seq::empty()));
    } else {
        part_appended(head, part, (n - 1) as nat);
        let now = head + part.take(n as int);
        assert(now.drop_last() =~= head + part.take(n - 1));
        assert(part.contains(part[n - 1]));
        assert(now.last() == part[n - 1]);
        let before = dotted_parts(head).drop_last().push(part.take(n - 1));
        assert(before.drop_last() =~= dotted_parts(head).drop_last());
        assert(part.take(n - 1).push(part[n - 1]) =~= part.take(n as int));
    }
}

proof fn decimal_reads_back(n: nat)
    ensures
        digits_value(decimal(n)) == n,
        decimal(n).len() > 0,
        forall|i: int| 0 <= i < decimal(n).len() ==> is_digit(#[trigger] decimal(n)[i]),
    decreases n,
{
    if n < 10 {
        assert(decimal(n).drop_last() =~= Seq::empty());
        assert(digits_value(decimal(n).drop_last()) == 0);
        assert(digit_char(n) as u32 == 48 + n);
    } else {
        decimal_reads_back(n / 10);
        assert(decimal(n).drop_last() =~= decimal(n / 10));
        assert(digit_char(n % 10) as u32 == 48 + n % 10);
    }
}

/// Four numbers joined by dots are an address exactly where each fits a byte.
pub proof fn four_numbers_are_an_address(a: nat, b: nat, c: nat, d: nat)
    ensures
        is_ipv4(joined(seq![decimal(a), decimal(b), decimal(c), decimal(d)], "."@)) <==> a <= 255
            && b <= 255 && c <= 255 && d <= 255,
{
    let numbers = seq![a, b, c, d];
    let parts = seq![decimal(a), decimal(b), decimal(c), decimal(d)];
    assert forall|i: int| 0 <= i < 4 implies #[trigger] parts[i] == decimal(numbers[i]) && (is_octet(
        parts[i],
    ) <==> numbers[i] <= 255) && !parts[i].contains('.') by {
        decimal_reads_back(numbers[i]);
        if parts[i].contains('.') {
            let k = choose|k: int| 0 <= k < parts[i].len() && parts[i][k] == '.';
            assert(is_digit(decimal(numbers[i])[k]));
        }
    }
    joined_texts_are_dotted_parts(parts);
    assert(is_octet(parts[0]) <==> a <= 255);
    assert(is_octet(parts[1]) <==> b <= 255);
    assert(is_octet(parts[2]) <==> c <= 255);
    assert(is_octet(parts[3]) <==> d <= 255);
}

/// An address is four parts of digits, none of them empty, with dots between them, each a number
/// that fits a byte.
pub proof fn addresses_have_four_numbers(s: Seq<char>) -> (parts: Seq<Seq<char>>)
    requires
        digits_and_dots(s),
        is_ipv4(s),
    ensures
        parts.len() == 4,
        joined(parts, "."@) == s,
        forall|i: int|
            0 <= i < 4 ==> (#[trigger] parts[i]).len() > 0 && digits_value(parts[i]) < 256
                && !parts[i].contains('.'),
{
    dotted_parts_join_again(s);
    let parts = dotted_parts(s);
    assert forall|i: int| 0 <= i < 4 implies (#[trigger] parts[i]).len() > 0 && digits_value(
        parts[i],
    ) < 256 && !parts[i].contains('.') by {
        assert(is_octet(parts[i]));
    }
    parts
}

proof fn start_trimmed(s: Seq<char>) -> (n: int)
    ensures
        0 <= n <= s.len(),
        trimmed_start(s) == s.skip(n),
        forall|i: int| 0 <= i < n ==> is_space(#[trigger] s[i]),
        n < s.len() ==> !is_space(s[n]),
    decreases s.len(),
{
    if s.len() > 0 && is_space(s[0]) {
        let m = start_trimmed(s.drop_first());
        assert(s.drop_first().skip(m) =~= s.skip(m + 1));
        assert forall|i: int| 0 <= i < m + 1 implies is_space(#[trigger] s[i]) by {
            if i > 0 {
                assert(s[i] == s.drop_first()[i - 1]);
            }
        }
        m + 1
    } else {
        assert(s.skip(0) =~= s);
        0
    }
}

proof fn end_trimmed(s: Seq<char>) -> (n: int)
    ensures
        0 <= n <= s.len(),
        trimmed_end(s) == s.take(n),
        forall|i: int| n <= i < s.len() ==> is_space(#[trigger] s[i]),
        n > 0 ==> !is_space(s[n - 1]),
    decreases s.len(),
{
    if s.len() > 0 && is_space(s.last()) {
        let n = end_trimmed(s.drop_last());
        assert(s.drop_last().take(n) =~= s.take(n));
        assert forall|i: int| n <= i < s.len() implies is_space(#[trigger] s[i]) by {
            if i < s.len() - 1 {
                assert(s[i] == s.drop_last()[i]);
            }
        }
        n
    } else {
        assert(s.take(s.len() as int) =~= s);
        s.len() as int
    }
}

/// A trimmed text is what stands between the white space at both ends of a text: only white
/// space was taken, and none is left at an end.
pub proof fn trimming_takes_white_space_alone(s: Seq<char>) -> (ends: (int, int))
    ensures
        0 <= ends.0 <= ends.1 <= s.len(),
        trimmed(s) == s.subrange(ends.0, ends.1),
        forall|i: int| 0 <= i < ends.0 || ends.1 <= i < s.len() ==> is_space(#[trigger] s[i]),
        ends.0 < ends.1 ==> !is_space(s[ends.0]) && !is_space(s[ends.1 - 1]),
{
    let a = start_trimmed(s);
    let body = s.skip(a);
    let n = end_trimmed(body);
    assert(body.take(n) =~= s.subrange(a, a + n));
    assert forall|i: int| 0 <= i < a || a + n <= i < s.len() implies is_space(#[trigger] s[i]) by {
        if i >= a + n {
            assert(s[i] == body[i - a]);
        }
    }
    if n > 0 {
        assert(body[0] == s[a]);
        assert(body[n - 1] == s[a + n - 1]);
    }
    (a, a + n)
}

/// What is found in a value is there: an email address has an at sign and its pattern, an
/// address is one, and so on; phone numbers alone are not sure. Whatever is there is found,
/// where nothing that is sought before it is.
pub proof fn detectors_find_what_is_there(s: Seq<char>, email: bool, ipv4: bool, phone: bool)
    ensures
        ({
            let found = classified(s, email, ipv4, phone);
            let mail = email && s.contains('@');
            let address = ipv4 && s.contains('.') && digits_and_dots(s) && is_ipv4(s);
            let number = phone && phone_like(s) && 8 <= digits_of(s).len() && digits_of(s).len()
                <= 15;
            &&& found is None <==> !mail && !address && !is_iban(s) && !is_card(s) && !number
            &&& found matches Some(m) ==> {
                &&& m.kind == "email"@ || m.kind == "ipv4"@ || m.kind == "iban"@ || m.kind
                    == "payment_card"@ || m.kind == "phone"@
                &&& m.kind == "email"@ <==> mail
                &&& m.kind == "ipv4"@ <==> address && !mail
                &&& m.kind == "iban"@ <==> is_iban(s) && !mail && !address
                &&& m.kind == "payment_card"@ <==> is_card(s) && !mail && !address && !is_iban(s)
                &&& m.kind == "phone"@ <==> number && !mail && !address && !is_iban(s) && !is_card(s)
                &&& m.confidence == if m.kind == "phone"@ {
                    "medium"@
                } else {
                    "high"@
                }
            }
        }),
{
    reveal_strlit("email");
    reveal_strlit("ipv4");
    reveal_strlit("iban");
    reveal_strlit("payment_card");
    reveal_strlit("phone");
    assert("email"@[0] == 'e' && "phone"@[0] == 'p' && "payment_card"@[0] == 'p');
    assert("ipv4"@[1] == 'p' && "iban"@[1] == 'b');
    assert("payment_card"@.len() == 12 && "phone"@.len() == 5 && "email"@.len() == 5);
    assert("ipv4"@.len() == 4 && "iban"@.len() == 4);
}

/// A text is made like a phone number where it has eight to twenty characters, digits, blanks,
/// brackets, dashes and plus signs, and begins with a digit or a plus sign.
pub proof fn phones_are_made_of_digits_and_signs(s: Seq<char>)
    ensures
        phone_like(s) <==> {
            &&& 8 <= s.len() <= 20
            &&& '0' <= s[0] <= '9' || s[0] == '+'
            &&& forall|i: int| 0 <= i < s.len() ==> "+ ()-0123456789"@.contains(#[trigger] s[i])
        },
{
    reveal_strlit("+ ()-0123456789");
    let signs = "+ ()-0123456789"@;
    assert forall|c: char| #[trigger] signs.contains(c) <==> is_digit(c) || c == '+' || c == ' ' || c
        == '(' || c == ')' || c == '-' by {
        if is_digit(c) {
            assert(signs[5 + (c as u32 - 48)] == c);
        } else if c == '+' {
            assert(signs[0] == c);
        } else if c == ' ' {
            assert(signs[1] == c);
        } else if c == '(' {
            assert(signs[2] == c);
        } else if c == ')' {
            assert(signs[3] == c);
        } else if c == '-' {
            assert(signs[4] == c);
        }
    }
}

/// Whether a detection stands for a cell: it has the kind that the text looks like, the name of
/// the column and the number of the row.
pub open spec fn stands_for_cell(
    found: FindingView,
    fields: Seq<Field>,
    rows: Seq<Seq<Option<Seq<char>>>>,
    key: Seq<u8>,
    r: int,
    c: int,
) -> bool {
    &&& 0 <= r < rows.len()
    &&& 0 <= c < rows[r].len()
    &&& rows[r][c] is Some
    &&& looks_like(rows[r][c].unwrap()) is Some
    &&& found.kind == looks_like(rows[r][c].unwrap()).unwrap().kind
    &&& found.confidence == looks_like(rows[r][c].unwrap()).unwrap().confidence
    &&& found.column == fields[c].name@
    &&& found.row == r
    &&& found.value_fingerprint == fingerprint_of(key, rows[r][c].unwrap())
}

/// Whether a cell looks like personal data.
pub open spec fn personal(rows: Seq<Seq<Option<Seq<char>>>>, r: int, c: int) -> bool {
    &&& 0 <= r < rows.len()
    &&& 0 <= c < rows[r].len()
    &&& rows[r][c] is Some
    &&& looks_like(rows[r][c].unwrap()) is Some
}

/// Whether some cell is what a detection stands for.
pub open spec fn stands_for_some(
    found: FindingView,
    fields: Seq<Field>,
    rows: Seq<Seq<Option<Seq<char>>>>,
    key: Seq<u8>,
) -> bool {
    exists|r: int, c: int| #[trigger] stands_for_cell(found, fields, rows, key, r, c)
}

/// Whether some detection stands for a cell.
pub open spec fn is_found(
    list: Seq<FindingView>,
    fields: Seq<Field>,
    rows: Seq<Seq<Option<Seq<char>>>>,
    key: Seq<u8>,
    r: int,
    c: int,
) -> bool {
    exists|k: int|
        0 <= k < list.len() && #[trigger] stands_for_cell(list[k], fields, rows, key, r, c)
}

proof fn row_is_searched(
    fields: Seq<Field>,
    rows: Seq<Seq<Option<Seq<char>>>>,
    r: int,
    n: nat,
    key: Seq<u8>,
)
    requires
        0 <= r < rows.len(),
        n <= rows[r].len(),
    ensures
        ({
            let list = row_hits(fields, rows[r], n, r, key);
            &&& forall|c: int|
                0 <= c < n && #[trigger] personal(rows, r, c) ==> is_found(
                    list,
                    fields,
                    rows,
                    key,
                    r,
                    c,
                )
            &&& forall|k: int|
                0 <= k < list.len() ==> stands_for_some(#[trigger] list[k], fields, rows, key)
        }),
    decreases n,
{
    if n > 0 {
        let m = (n - 1) as nat;
        row_is_searched(fields, rows, r, m, key);
        let before = row_hits(fields, rows[r], m, r, key);
        let here = cell_hits(fields[n - 1], rows[r][n - 1], r, key);
        let list = row_hits(fields, rows[r], n, r, key);
        assert(list == before + here);
        assert forall|c: int| 0 <= c < n && #[trigger] personal(rows, r, c) implies is_found(
            list,
            fields,
            rows,
            key,
            r,
            c,
        ) by {
            if c < m {
                let k = choose|k: int|
                    0 <= k < before.len() && #[trigger] stands_for_cell(
                        before[k],
                        fields,
                        rows,
                        key,
                        r,
                        c,
                    );
                assert(stands_for_cell(list[k], fields, rows, key, r, c));
            } else {
                assert(list[before.len() as int] == here[0]);
                assert(stands_for_cell(list[before.len() as int], fields, rows, key, r, c));
            }
        }
        assert forall|k: int| 0 <= k < list.len() implies stands_for_some(
            #[trigger] list[k],
            fields,
            rows,
            key,
        ) by {
            if k < before.len() {
                assert(list[k] == before[k]);
            } else {
                assert(list[k] == here[0]);
                assert(stands_for_cell(list[k], fields, rows, key, r, n - 1));
            }
        }
    }
}

/// Every cell that looks like personal data is detected, at its row and under the name of its
/// column, and nothing else is.
pub proof fn every_cell_is_searched(
    fields: Seq<Field>,
    rows: Seq<Seq<Option<Seq<char>>>>,
    key: Seq<u8>,
    n: nat,
)
    requires
        n <= rows.len(),
    ensures
        ({
            let list = hits(fields, rows.take(n as int), key);
            &&& forall|r: int, c: int|
                r < n && #[trigger] personal(rows, r, c) ==> is_found(
                    list,
                    fields,
                    rows,
                    key,
                    r,
                    c,
                )
            &&& forall|k: int|
                0 <= k < list.len() ==> stands_for_some(#[trigger] list[k], fields, rows, key)
        }),
    decreases n,
{
    if n > 0 {
        let m = (n - 1) as nat;
        every_cell_is_searched(fields, rows, key, m);
        row_is_searched(fields, rows, n - 1, rows[n - 1].len(), key);
        assert(rows.take(n as int).drop_last() =~= rows.take(n - 1));
        assert(rows.take(n as int).last() == rows[n - 1]);
        let before = hits(fields, rows.take(n - 1), key);
        let here = row_hits(fields, rows[n - 1], rows[n - 1].len(), n - 1, key);
        let list = hits(fields, rows.take(n as int), key);
        assert(list == before + here);
        assert forall|r: int, c: int| r < n && #[trigger] personal(rows, r, c) implies is_found(
            list,
            fields,
            rows,
            key,
            r,
            c,
        ) by {
            if r < m {
                let k = choose|k: int|
                    0 <= k < before.len() && #[trigger] stands_for_cell(
                        before[k],
                        fields,
                        rows,
                        key,
                        r,
                        c,
                    );
                assert(stands_for_cell(list[k], fields, rows, key, r, c));
            } else {
                let k = choose|k: int|
                    0 <= k < here.len() && #[trigger] stands_for_cell(
                        here[k],
                        fields,
                        rows,
                        key,
                        r,
                        c,
                    );
                assert(list[before.len() + k] == here[k]);
                assert(stands_for_cell(list[before.len() + k], fields, rows, key, r, c));
            }
        }
        assert forall|k: int| 0 <= k < list.len() implies stands_for_some(
            #[trigger] list[k],
            fields,
            rows,
            key,
        ) by {
            if k < before.len() {
                assert(list[k] == before[k]);
            } else {
                assert(list[k] == here[k - before.len()]);
            }
        }
    } else {
        assert(rows.take(0) =~= Seq::empty());
    }
}

/// The detections of a kind are counted one by one.
pub proof fn kinds_are_counted(found: Seq<FindingView>, kind: Seq<char>)
    ensures
        kind_count(found, kind) == found.filter(|f: FindingView| f.kind == kind).len(),
    decreases found.len(),
{
    reveal(Seq::filter);
    if found.len() > 0 {
        kinds_are_counted(found.drop_last(), kind);
    }
}

/// A text is searched as it stands, and every other value by its display text; nulls are not.
pub proof fn texts_are_searched_as_they_stand(cell: Cell, shown: Seq<char>)
    ensures
        scanned_text(cell, shown) is None <==> cell is Null,
        cell matches Cell::Utf8(s) ==> scanned_text(cell, shown) == Some(s@),
        cell matches Cell::LargeUtf8(s) ==> scanned_text(cell, shown) == Some(s@),
        !(cell is Null) && !(cell is Utf8) && !(cell is LargeUtf8) ==> scanned_text(cell, shown)
            == Some(shown),
{
}

/// Under one key different values have different fingerprints, up to a collision of the keyed
/// digest.
pub proof fn fingerprints_tell_values_apart(key: Seq<u8>, a: Seq<char>, b: Seq<char>)
    requires
        a != b,
        fingerprint_of(key, a) == fingerprint_of(key, b),
    ensures
        exists|x: Seq<u8>, y: Seq<u8>|
            x != y && #[trigger] blake3_keyed(key, x) == #[trigger] blake3_keyed(key, y),
{
    let lead = "pf-pii-v2:"@;
    let domain = utf8("proofframe:privacy:v2\0"@);
    let (x, y) = (domain + utf8(a), domain + utf8(b));
    let (p, q) = (blake3_keyed(key, x), blake3_keyed(key, y));
    assert((lead + hex(p)).skip(lead.len() as int) =~= hex(p));
    assert((lead + hex(q)).skip(lead.len() as int) =~= hex(q));
    hex_injective(p, q);
    utf8_injective(a, b);
    assert(x.skip(domain.len() as int) =~= utf8(a));
    assert(y.skip(domain.len() as int) =~= utf8(b));
}

} // verus!
