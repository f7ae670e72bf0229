//! Texts of the data in a view: bounded, and escaped for HTML and Markdown.

use crate::canonical::{json_text, render};
use crate::contract::json::Json;
use crate::error::{ErrorView, ProofFrameError};
use crate::numbers::{is_space, is_whitespace};
use crate::text::{cat2, cat3, chars_of, text};
use vstd::prelude::*;
use vstd::string::*;

verus! {

/// The most characters of one value that a view shows.
pub const MAX_DISPLAY_CHARS: usize = 1000;

/// The error of an input without a part that the view needs.
pub open spec fn missing_part(what: Seq<char>) -> ErrorView {
    ErrorView::Review("Review input is missing `"@ + what + "`"@)
}

pub(crate) fn missing(what: &str) -> (r: ProofFrameError)
    ensures
        r@ == missing_part(what@),
{
    ProofFrameError::Review(cat3("Review input is missing `", what, "`"))
}

/// A value as a plain text.
pub open spec fn scalar_text(value: Json) -> Seq<char> {
    match value {
        Json::Text(s) => s@,
        Json::Number(n) => n.text@,
        Json::Bool(true) => "True"@,
        Json::Bool(false) => "False"@,
        Json::Null => "None"@,
        _ => json_text(value),
    }
}

/// A value as a plain text.
pub fn scalar(value: &Json) -> (r: String)
    ensures
        r@ == scalar_text(*value),
{
    match value {
        Json::Text(s) => s.clone(),
        Json::Number(n) => n.text.clone(),
        Json::Bool(b) => if *b {
            text("True")
        } else {
            text("False")
        },
        Json::Null => text("None"),
        _ => render(value),
    }
}

/// A text cut to the length that is shown.
pub open spec fn bounded(value: Seq<char>) -> Seq<char> {
    if value.len() <= MAX_DISPLAY_CHARS {
        value
    } else {
        value.take(MAX_DISPLAY_CHARS as int) + "… (see JSON)"@
    }
}

/// Bounds the length that is shown.
pub fn bound(value: &str) -> (r: String)
    ensures
        r@ == bounded(value@),
{
    let chars = chars_of(value);
    if chars.len() <= MAX_DISPLAY_CHARS {
        return text(value);
    }
    let mut head = String::new();
    let mut i: usize = 0;
    while i < MAX_DISPLAY_CHARS
        invariant
            i <= MAX_DISPLAY_CHARS < chars@.len(),
            chars@ == value@,
            head@ == value@.take(i as int),
        decreases MAX_DISPLAY_CHARS - i,
    {
        head.push(chars[i]);
        assert(value@.take(i + 1) =~= value@.take(i as int).push(value@[i as int]));
        i = i + 1;
    }
    cat2(head.as_str(), "… (see JSON)")
}

/// A value as it is shown, before it is escaped.
pub open spec fn shown(value: Json) -> Seq<char> {
    bounded(scalar_text(value))
}

pub(crate) fn shown_of(value: &Json) -> (r: String)
    ensures
        r@ == shown(*value),
{
    let plain = scalar(value);
    bound(plain.as_str())
}

/// How a character stands in HTML, within and without quotes.
pub open spec fn html_char(c: char) -> Seq<char> {
    if c == '&' {
        "&amp;"@
    } else if c == '<' {
        "&lt;"@
    } else if c == '>' {
        "&gt;"@
    } else if c == '"' {
        "&quot;"@
    } else if c == '\'' {
        "&#x27;"@
    } else {
        seq![c]
    }
}

/// A text escaped for HTML.
pub open spec fn html_escaped(value: Seq<char>) -> Seq<char>
    decreases value.len(),
{
    if value.len() == 0 {
        Seq::empty()
    } else {
        html_escaped(value.drop_last()) + html_char(value.last())
    }
}

/// Escapes a text for HTML.
pub fn escape_str(value: &str) -> (r: String)
    ensures
        r@ == html_escaped(value@),
{
    let chars = chars_of(value);
    let mut out = String::new();
    let mut i: usize = 0;
    while i < chars.len()
        invariant
            i <= chars@.len(),
            chars@ == value@,
            out@ == html_escaped(value@.take(i as int)),
        decreases chars@.len() - i,
    {
        let c: char = chars[i];
        assert(value@.take(i + 1).drop_last() =~= value@.take(i as int));
        if c == '&' {
            out.append("&amp;");
        } else if c == '<' {
            out.append("&lt;");
        } else if c == '>' {
            out.append("&gt;");
        } else if c == '"' {
            out.append("&quot;");
        } else if c == '\'' {
            out.append("&#x27;");
        } else {
            out.push(c);
            assert(out@ =~= html_escaped(value@.take(i as int)) + seq![c]);
        }
        i = i + 1;
    }
    assert(value@.take(value@.len() as int) =~= value@);
    out
}

/// A text with each run of white space as one blank, and none at its ends.
pub open spec fn squeezed(value: Seq<char>) -> Seq<char>
    decreases value.len(),
{
    if value.len() == 0 {
        Seq::empty()
    } else {
        let rest = value.drop_last();
        let before = squeezed(rest);
        if is_space(value.last()) {
            before
        } else if before.len() > 0 && is_space(rest.last()) {
            before.push(' ').push(value.last())
        } else {
            before.push(value.last())
        }
    }
}

fn squeeze(value: &str) -> (r: String)
    ensures
        r@ == squeezed(value@),
{
    let chars = chars_of(value);
    let mut out = String::new();
    let mut started = false;
    let mut i: usize = 0;
    while i < chars.len()
        invariant
            i <= chars@.len(),
            chars@ == value@,
            out@ == squeezed(value@.take(i as int)),
            started == (out@.len() > 0),
        decreases chars@.len() - i,
    {
        let c: char = chars[i];
        proof {
            assert(value@.take(i + 1).drop_last() =~= value@.take(i as int));
            if i > 0 {
                assert(value@.take(i as int).last() == value@[i - 1]);
            }
        }
        if !is_whitespace(c) {
            if started && is_whitespace(chars[i - 1]) {
                out.push(' ');
            }
            out.push(c);
            started = true;
        }
        i = i + 1;
    }
    assert(value@.take(value@.len() as int) =~= value@);
    out
}

/// Whether a character carries meaning in Markdown, at any place in a line.
pub open spec fn markdown_special(c: char) -> bool {
    c == '\\' || c == '`' || c == '*' || c == '_' || c == '{' || c == '}' || c == '[' || c == ']'
        || c == '(' || c == ')' || c == '#' || c == '+' || c == '!' || c == '|' || c == '>' || c
        == '~'
}

/// A text with a backslash before each character that carries meaning.
pub open spec fn backslashed(value: Seq<char>) -> Seq<char>
    decreases value.len(),
{
    if value.len() == 0 {
        Seq::empty()
    } else {
        backslashed(value.drop_last()) + (if markdown_special(value.last()) {
            seq!['\\', value.last()]
        } else {
            seq![value.last()]
        })
    }
}

/// A text escaped for Markdown: on one line, bounded, and without markup of either kind.
pub open spec fn markdown_escaped(value: Seq<char>) -> Seq<char> {
    backslashed(html_escaped(bounded(squeezed(value))))
}

/// Neutralises markup in a value that came from the data or the contract. A dot and a
/// dash stay: they carry meaning only at the start of a line, and no value reaches one.
pub fn markdown_escape_str(value: &str) -> (r: String)
    ensures
        r@ == markdown_escaped(value@),
{
    let collapsed = squeeze(value);
    let cut = bound(collapsed.as_str());
    let escaped = escape_str(cut.as_str());
    let chars = chars_of(escaped.as_str());
    let mut out = String::new();
    let mut i: usize = 0;
    while i < chars.len()
        invariant
            i <= chars@.len(),
            chars@ == escaped@,
            out@ == backslashed(escaped@.take(i as int)),
        decreases chars@.len() - i,
    {
        let c: char = chars[i];
        let ghost before = out@;
        assert(escaped@.take(i + 1).drop_last() =~= escaped@.take(i as int));
        if c == '\\' || c == '`' || c == '*' || c == '_' || c == '{' || c == '}' || c == '[' || c
            == ']' || c == '(' || c == ')' || c == '#' || c == '+' || c == '!' || c == '|' || c
            == '>' || c == '~' {
            out.push('\\');
            out.push(c);
            assert(out@ =~= before + seq!['\\', c]);
        } else {
            out.push(c);
            assert(out@ =~= before + seq![c]);
        }
        i = i + 1;
    }
    assert(escaped@.take(escaped@.len() as int) =~= escaped@);
    out
}

/// A piece of a view: the tool's own words, or words of the data. Only the second kind is
/// escaped, so that a command stays runnable while a column name cannot introduce markup.
#[derive(Debug)]
pub enum Segment {
    Own(String),
    Data(String),
}

/// A piece of a view.
pub enum SegmentView {
    Own(Seq<char>),
    Data(Seq<char>),
}

impl View for Segment {
    type V = SegmentView;

    open spec fn view(&self) -> SegmentView {
        match *self {
            Segment::Own(s) => SegmentView::Own(s@),
            Segment::Data(s) => SegmentView::Data(s@),
        }
    }
}

/// Pieces of a view.
pub open spec fn segment_views(segments: Seq<Segment>) -> Seq<SegmentView> {
    Seq::new(segments.len(), |i: int| segments[i]@)
}

/// Pieces as HTML.
pub open spec fn html(segments: Seq<SegmentView>) -> Seq<char>
    decreases segments.len(),
{
    if segments.len() == 0 {
        Seq::empty()
    } else {
        html(segments.drop_last()) + (match segments.last() {
            SegmentView::Own(s) => s,
            SegmentView::Data(s) => html_escaped(s),
        })
    }
}

/// Pieces as Markdown.
pub open spec fn markdown(segments: Seq<SegmentView>) -> Seq<char>
    decreases segments.len(),
{
    if segments.len() == 0 {
        Seq::empty()
    } else {
        markdown(segments.drop_last()) + (match segments.last() {
            SegmentView::Own(s) => s,
            SegmentView::Data(s) => markdown_escaped(s),
        })
    }
}

/// Writes pieces as HTML.
pub fn render_html(segments: &Vec<Segment>) -> (r: String)
    ensures
        r@ == html(segment_views(segments@)),
{
    let ghost all = segment_views(segments@);
    let mut out = String::new();
    let mut i: usize = 0;
    while i < segments.len()
        invariant
            i <= segments@.len(),
            all == segment_views(segments@),
            out@ == html(all.take(i as int)),
        decreases segments@.len() - i,
    {
        assert(all.take(i + 1).drop_last() =~= all.take(i as int));
        match &segments[i] {
            Segment::Own(s) => {
                out.append(s.as_str());
            },
            Segment::Data(s) => {
                let escaped = escape_str(s.as_str());
                out.append(escaped.as_str());
            },
        }
        i = i + 1;
    }
    assert(all.take(all.len() as int) =~= all);
    out
}

/// Writes pieces as Markdown.
pub fn render_markdown(segments: &Vec<Segment>) -> (r: String)
    ensures
        r@ == markdown(segment_views(segments@)),
{
    let ghost all = segment_views(segments@);
    let mut out = String::new();
    let mut i: usize = 0;
    while i < segments.len()
        invariant
            i <= segments@.len(),
            all == segment_views(segments@),
            out@ == markdown(all.take(i as int)),
        decreases segments@.len() - i,
    {
        assert(all.take(i + 1).drop_last() =~= all.take(i as int));
        match &segments[i] {
            Segment::Own(s) => {
                out.append(s.as_str());
            },
            Segment::Data(s) => {
                let escaped = markdown_escape_str(s.as_str());
                out.append(escaped.as_str());
            },
        }
        i = i + 1;
    }
    assert(all.take(all.len() as int) =~= all);
    out
}

pub(crate) fn own(out: &mut Vec<Segment>, words: &str)
    ensures
        segment_views(final(out)@) == segment_views(old(out)@).push(SegmentView::Own(words@)),
{
    out.push(Segment::Own(text(words)));
    assert(segment_views(out@) =~= segment_views(old(out)@).push(SegmentView::Own(words@)));
}

pub(crate) fn data(out: &mut Vec<Segment>, words: String)
    ensures
        segment_views(final(out)@) == segment_views(old(out)@).push(SegmentView::Data(words@)),
{
    out.push(Segment::Data(words));
    assert(segment_views(out@) =~= segment_views(old(out)@).push(SegmentView::Data(words@)));
}

/// A text without a character that opens markup or ends a quoted value.
pub open spec fn inert(value: Seq<char>) -> bool {
    forall|i: int|
        0 <= i < value.len() ==> (#[trigger] value[i]) != '<' && value[i] != '>' && value[i] != '"'
            && value[i] != '\''
}

/// Escaped text introduces no markup: it holds no angle bracket and no quote.
pub proof fn escaped_text_is_inert(value: Seq<char>)
    ensures
        inert(html_escaped(value)),
    decreases value.len(),
{
    reveal_strlit("&amp;");
    reveal_strlit("&lt;");
    reveal_strlit("&gt;");
    reveal_strlit("&quot;");
    reveal_strlit("&#x27;");
    if value.len() > 0 {
        escaped_text_is_inert(value.drop_last());
        assert(inert(html_char(value.last())));
        let before = html_escaped(value.drop_last());
        assert forall|i: int| 0 <= i < html_escaped(value).len() implies (
        #[trigger] html_escaped(value)[i]) != '<' && html_escaped(value)[i] != '>'
            && html_escaped(value)[i] != '"' && html_escaped(value)[i] != '\'' by {
            if i < before.len() {
                assert(html_escaped(value)[i] == before[i]);
            } else {
                assert(html_escaped(value)[i] == html_char(value.last())[i - before.len()]);
            }
        }
    }
}

/// A text whose only white space is the blank, so that it stays on one line.
pub open spec fn one_line(value: Seq<char>) -> bool {
    forall|i: int| 0 <= i < value.len() ==> (#[trigger] value[i]) == ' ' || !is_space(value[i])
}

/// A text in which each character that carries meaning in Markdown follows a backslash of
/// its own.
pub open spec fn guarded(value: Seq<char>) -> bool
    decreases value.len(),
{
    ||| value.len() == 0
    ||| !markdown_special(value.last()) && guarded(value.drop_last())
    ||| value.len() >= 2 && markdown_special(value.last()) && value[value.len() - 2] == '\\'
        && guarded(value.take(value.len() - 2))
}

proof fn backslashed_is_guarded(value: Seq<char>)
    requires
        one_line(value),
    ensures
        guarded(backslashed(value)),
        one_line(backslashed(value)),
    decreases value.len(),
{
    if value.len() > 0 {
        let rest = value.drop_last();
        backslashed_is_guarded(rest);
        let before = backslashed(rest);
        let now = backslashed(value);
        assert(value.last() == value[value.len() - 1]);
        if markdown_special(value.last()) {
            assert(now.take(now.len() - 2) =~= before);
        } else {
            assert(now.drop_last() =~= before);
        }
        assert forall|i: int| 0 <= i < now.len() implies (#[trigger] now[i]) == ' ' || !is_space(
            now[i],
        ) by {
            if i < before.len() {
                assert(now[i] == before[i]);
            }
        }
    }
}

proof fn squeezed_is_one_line(value: Seq<char>)
    ensures
        one_line(squeezed(value)),
    decreases value.len(),
{
    if value.len() > 0 {
        squeezed_is_one_line(value.drop_last());
    }
}

proof fn html_keeps_one_line(value: Seq<char>)
    requires
        one_line(value),
    ensures
        one_line(html_escaped(value)),
    decreases value.len(),
{
    if value.len() > 0 {
        let rest = value.drop_last();
        html_keeps_one_line(rest);
        reveal_strlit("&amp;");
        reveal_strlit("&lt;");
        reveal_strlit("&gt;");
        reveal_strlit("&quot;");
        reveal_strlit("&#x27;");
        assert(value.last() == value[value.len() - 1]);
        assert(one_line(html_char(value.last())));
        let before = html_escaped(rest);
        let now = html_escaped(value);
        assert forall|i: int| 0 <= i < now.len() implies (#[trigger] now[i]) == ' ' || !is_space(
            now[i],
        ) by {
            if i < before.len() {
                assert(now[i] == before[i]);
            } else {
                assert(now[i] == html_char(value.last())[i - before.len()]);
            }
        }
    }
}

/// A value escaped for Markdown cannot leave its line, and introduces no markup: every
/// character that carries meaning follows a backslash of its own.
pub proof fn markdown_text_is_inert(value: Seq<char>)
    ensures
        one_line(markdown_escaped(value)),
        guarded(markdown_escaped(value)),
{
    reveal_strlit("… (see JSON)");
    squeezed_is_one_line(value);
    let line = bounded(squeezed(value));
    assert(one_line(line)) by {
        assert forall|i: int| 0 <= i < line.len() implies (#[trigger] line[i]) == ' ' || !is_space(
            line[i],
        ) by {
            if squeezed(value).len() <= MAX_DISPLAY_CHARS {
            } else if i < MAX_DISPLAY_CHARS {
                assert(line[i] == squeezed(value)[i]);
            } else {
                assert(line[i] == "… (see JSON)"@[i - MAX_DISPLAY_CHARS]);
            }
        }
    }
    html_keeps_one_line(line);
    backslashed_is_guarded(html_escaped(line));
}

} // verus!
