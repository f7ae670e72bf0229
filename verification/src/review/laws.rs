//! What holds of every escaped text.

use crate::review::escape::{backslashed, html_char, html_escaped, markdown_special};
use vstd::prelude::*;

verus! {

/// Whether a text begins with another.
pub open spec fn begins(s: Seq<char>, with: Seq<char>) -> bool {
    s.len() >= with.len() && s.take(with.len() as int) == with
}

/// The character that an entity stands for, if a text begins with one of the five that
/// escapes are made of.
pub open spec fn entity(s: Seq<char>) -> Option<char> {
    if begins(s, "&amp;"@) {
        Some('&')
    } else if begins(s, "&lt;"@) {
        Some('<')
    } else if begins(s, "&gt;"@) {
        Some('>')
    } else if begins(s, "&quot;"@) {
        Some('"')
    } else if begins(s, "&#x27;"@) {
        Some('\'')
    } else {
        None
    }
}

/// The text that an HTML text shows, with its entities read as characters.
pub open spec fn html_shown(s: Seq<char>) -> Seq<char>
    decreases s.len(),
{
    if s.len() == 0 {
        Seq::empty()
    } else {
        match entity(s) {
            Some(c) => if html_char(c).len() <= s.len() && html_char(c).len() > 0 {
                seq![c] + html_shown(s.skip(html_char(c).len() as int))
            } else {
                Seq::empty()
            },
            None => seq![s[0]] + html_shown(s.skip(1)),
        }
    }
}

/// The escape of two texts that stand side by side is that of the one and that of the other.
pub proof fn html_escapes_side_by_side(a: Seq<char>, b: Seq<char>)
    ensures
        html_escaped(a + b) == html_escaped(a) + html_escaped(b),
    decreases b.len(),
{
    if b.len() == 0 {
        assert(a + b =~= a);
        assert(html_escaped(a) + html_escaped(b) =~= html_escaped(a));
    } else {
        html_escapes_side_by_side(a, b.drop_last());
        assert((a + b).drop_last() =~= a + b.drop_last());
        assert((a + b).last() == b.last());
        assert(html_escaped(a + b) =~= html_escaped(a) + html_escaped(b));
    }
}

proof fn escape_of_one(c: char)
    ensures
        html_escaped(seq![c]) == html_char(c),
{
    reveal_with_fuel(html_escaped, 2);
    assert(seq![c].drop_last() =~= Seq::empty());
    assert(html_escaped(seq![c]) =~= html_char(c));
}

proof fn entity_texts()
    ensures
        "&amp;"@ == seq!['&', 'a', 'm', 'p', ';'],
        "&lt;"@ == seq!['&', 'l', 't', ';'],
        "&gt;"@ == seq!['&', 'g', 't', ';'],
        "&quot;"@ == seq!['&', 'q', 'u', 'o', 't', ';'],
        "&#x27;"@ == seq!['&', '#', 'x', '2', '7', ';'],
{
    reveal_strlit("&amp;");
    reveal_strlit("&lt;");
    reveal_strlit("&gt;");
    reveal_strlit("&quot;");
    reveal_strlit("&#x27;");
    assert("&amp;"@ =~= seq!['&', 'a', 'm', 'p', ';']);
    assert("&lt;"@ =~= seq!['&', 'l', 't', ';']);
    assert("&gt;"@ =~= seq!['&', 'g', 't', ';']);
    assert("&quot;"@ =~= seq!['&', 'q', 'u', 'o', 't', ';']);
    assert("&#x27;"@ =~= seq!['&', '#', 'x', '2', '7', ';']);
}

proof fn beginning(s: Seq<char>, with: Seq<char>, i: int)
    requires
        begins(s, with),
        0 <= i < with.len(),
    ensures
        s[i] == with[i],
{
    assert(s.take(with.len() as int)[i] == s[i]);
}

/// An escaped character, whatever stands behind it, begins with the entity of that character,
/// or with none.
proof fn escape_shows(c: char, rest: Seq<char>)
    ensures
        html_shown(html_char(c) + rest) == seq![c] + html_shown(rest),
{
    entity_texts();
    let s = html_char(c) + rest;
    let own = html_char(c);
    assert(s.take(own.len() as int) =~= own);
    assert(s.skip(own.len() as int) =~= rest);
    let special = c == '&' || c == '<' || c == '>' || c == '"' || c == '\'';
    if begins(s, "&amp;"@) {
        beginning(s, "&amp;"@, 0);
        beginning(s, "&amp;"@, 1);
    }
    if begins(s, "&lt;"@) {
        beginning(s, "&lt;"@, 0);
        beginning(s, "&lt;"@, 1);
    }
    if begins(s, "&gt;"@) {
        beginning(s, "&gt;"@, 0);
        beginning(s, "&gt;"@, 1);
    }
    if begins(s, "&quot;"@) {
        beginning(s, "&quot;"@, 0);
        beginning(s, "&quot;"@, 1);
    }
    if begins(s, "&#x27;"@) {
        beginning(s, "&#x27;"@, 0);
        beginning(s, "&#x27;"@, 1);
    }
    if special {
        assert(own[0] == '&' && s[0] == own[0] && s[1] == own[1]);
        assert(begins(s, own));
        assert(entity(s) == Some(c));
    } else {
        assert(own =~= seq![c]);
        assert(s[0] == c);
        assert(entity(s) is None);
    }
}

/// What an escaped text shows in HTML is the text itself.
pub proof fn escaped_html_shows_the_text(value: Seq<char>)
    ensures
        html_shown(html_escaped(value)) == value,
    decreases value.len(),
{
    if value.len() == 0 {
        assert(html_escaped(value) =~= Seq::empty());
        assert(html_shown(html_escaped(value)) =~= value);
    } else {
        let c = value[0];
        let rest = value.skip(1);
        assert(value =~= seq![c] + rest);
        html_escapes_side_by_side(seq![c], rest);
        escape_of_one(c);
        escape_shows(c, html_escaped(rest));
        escaped_html_shows_the_text(rest);
        assert(seq![c] + rest =~= value);
    }
}

/// An escaped text holds no mark that opens or closes a tag or a quoted value, and each
/// ampersand in it begins one of the five entities.
pub proof fn escaped_html_has_no_markup(value: Seq<char>, i: int)
    requires
        0 <= i < html_escaped(value).len(),
    ensures
        html_escaped(value)[i] != '<',
        html_escaped(value)[i] != '>',
        html_escaped(value)[i] != '"',
        html_escaped(value)[i] != '\'',
        html_escaped(value)[i] == '&' ==> entity(html_escaped(value).skip(i)) is Some,
    decreases value.len(),
{
    if value.len() > 0 {
        entity_texts();
        let s = html_escaped(value);
        let before = html_escaped(value.drop_last());
        let own = html_char(value.last());
        if i < before.len() {
            escaped_html_has_no_markup(value.drop_last(), i);
            assert(s[i] == before[i]);
            if s[i] == '&' {
                begins_in_longer(before.skip(i), own);
                assert(s.skip(i) =~= before.skip(i) + own);
            }
        } else {
            assert(s[i] == own[i - before.len()]);
            if s[i] == '&' {
                assert(i == before.len());
                assert(s.skip(i) =~= own);
                assert(own.take(own.len() as int) =~= own);
            }
        }
    }
}

proof fn begins_in_longer(s: Seq<char>, more: Seq<char>)
    requires
        entity(s) is Some,
    ensures
        entity(s + more) is Some,
{
    let t = s + more;
    assert(begins(s, "&amp;"@) ==> t.take("&amp;"@.len() as int) =~= s.take("&amp;"@.len() as int));
    assert(begins(s, "&lt;"@) ==> t.take("&lt;"@.len() as int) =~= s.take("&lt;"@.len() as int));
    assert(begins(s, "&gt;"@) ==> t.take("&gt;"@.len() as int) =~= s.take("&gt;"@.len() as int));
    assert(begins(s, "&quot;"@) ==> t.take("&quot;"@.len() as int) =~= s.take(
        "&quot;"@.len() as int,
    ));
    assert(begins(s, "&#x27;"@) ==> t.take("&#x27;"@.len() as int) =~= s.take(
        "&#x27;"@.len() as int,
    ));
}

/// The text that a text with backslashes stands for.
pub open spec fn plain(s: Seq<char>) -> Seq<char>
    decreases s.len(),
{
    if s.len() == 0 {
        Seq::empty()
    } else if s[0] == '\\' && s.len() > 1 {
        seq![s[1]] + plain(s.skip(2))
    } else {
        seq![s[0]] + plain(s.skip(1))
    }
}

/// The backslashes of two texts that stand side by side are those of the one and the other.
pub proof fn backslashes_side_by_side(a: Seq<char>, b: Seq<char>)
    ensures
        backslashed(a + b) == backslashed(a) + backslashed(b),
    decreases b.len(),
{
    if b.len() == 0 {
        assert(a + b =~= a);
        assert(backslashed(a) + backslashed(b) =~= backslashed(a));
    } else {
        backslashes_side_by_side(a, b.drop_last());
        assert((a + b).drop_last() =~= a + b.drop_last());
        assert((a + b).last() == b.last());
        assert(backslashed(a + b) =~= backslashed(a) + backslashed(b));
    }
}

/// A text with backslashes stands for the text without them: none of its marks is read as
/// markup, and none is lost.
pub proof fn backslashes_read_back(value: Seq<char>)
    ensures
        plain(backslashed(value)) == value,
    decreases value.len(),
{
    if value.len() == 0 {
        assert(plain(backslashed(value)) =~= value);
    } else {
        let c = value[0];
        let rest = value.skip(1);
        assert(value =~= seq![c] + rest);
        backslashes_side_by_side(seq![c], rest);
        reveal_with_fuel(backslashed, 2);
        assert(seq![c].drop_last() =~= Seq::empty());
        let s = backslashed(value);
        if markdown_special(c) {
            assert(backslashed(seq![c]) =~= seq!['\\', c]);
            assert(s[0] == '\\' && s[1] == c);
            assert(s.skip(2) =~= backslashed(rest));
        } else {
            assert(backslashed(seq![c]) =~= seq![c]);
            assert(s[0] == c);
            assert(s.skip(1) =~= backslashed(rest));
        }
        backslashes_read_back(rest);
    }
}

} // verus!
