//! Bounded samples of keys: the smallest ones, in order.

use crate::text::{lex_less, lex_total, lex_transitive, str_less, texts, utf8};
use vstd::prelude::*;
use vstd::seq_lib::to_multiset_insert;

verus! {

/// A row that is in both datasets with other values.
#[derive(Debug)]
pub struct ChangedRow {
    /// The text of the key.
    pub key: String,
    /// The names of the columns whose values differ.
    pub columns: Vec<String>,
}

/// A row that is in both datasets with other values.
#[verifier::ext_equal]
pub struct ChangedView {
    pub key: Seq<char>,
    pub columns: Seq<Seq<char>>,
}

impl View for ChangedRow {
    type V = ChangedView;

    open spec fn view(&self) -> ChangedView {
        ChangedView { key: self.key@, columns: texts(self.columns@) }
    }
}

/// Changed rows.
pub open spec fn changed_views(rows: Seq<ChangedRow>) -> Seq<ChangedView> {
    Seq::new(rows.len(), |i: int| rows[i]@)
}

/// Whether one text stands before another.
pub open spec fn text_less(a: Seq<char>, b: Seq<char>) -> bool {
    lex_less(utf8(a), utf8(b))
}

/// How many texts, from the first on, stand before a text.
pub open spec fn place_of(samples: Seq<Seq<char>>, value: Seq<char>) -> int
    decreases samples.len(),
{
    if samples.len() == 0 || !text_less(samples[0], value) {
        0
    } else {
        1 + place_of(samples.drop_first(), value)
    }
}

/// Samples with one more text, at its place.
pub open spec fn placed(samples: Seq<Seq<char>>, value: Seq<char>) -> Seq<Seq<char>> {
    samples.insert(place_of(samples, value), value)
}

/// The first `limit` of samples.
pub open spec fn cut<T>(samples: Seq<T>, limit: nat) -> Seq<T> {
    if samples.len() > limit {
        samples.take(limit as int)
    } else {
        samples
    }
}

/// Samples that keep one more text, if it is among the smallest.
pub open spec fn retained(samples: Seq<Seq<char>>, value: Seq<char>, limit: nat) -> Seq<Seq<char>> {
    cut(placed(samples, value), limit)
}

/// The texts of changed rows.
pub open spec fn changed_keys(samples: Seq<ChangedView>) -> Seq<Seq<char>> {
    Seq::new(samples.len(), |i: int| samples[i].key)
}

/// Samples that keep one more changed row, if its text is among the smallest.
pub open spec fn retained_changed(samples: Seq<ChangedView>, value: ChangedView, limit: nat) -> Seq<
    ChangedView,
> {
    cut(samples.insert(place_of(changed_keys(samples), value.key), value), limit)
}

proof fn place_bounds(samples: Seq<Seq<char>>, value: Seq<char>)
    ensures
        0 <= place_of(samples, value) <= samples.len(),
        forall|i: int| 0 <= i < place_of(samples, value) ==> text_less(#[trigger] samples[i], value),
        place_of(samples, value) < samples.len() ==> !text_less(
            samples[place_of(samples, value)],
            value,
        ),
    decreases samples.len(),
{
    if samples.len() > 0 && text_less(samples[0], value) {
        let rest = samples.drop_first();
        place_bounds(rest, value);
        assert forall|i: int| 0 <= i < place_of(samples, value) implies text_less(
            #[trigger] samples[i],
            value,
        ) by {
            if i > 0 {
                assert(samples[i] == rest[i - 1]);
            }
        }
    }
}

proof fn place_is(samples: Seq<Seq<char>>, value: Seq<char>, n: int)
    requires
        0 <= n <= samples.len(),
        forall|i: int| 0 <= i < n ==> text_less(#[trigger] samples[i], value),
        n < samples.len() ==> !text_less(samples[n], value),
    ensures
        place_of(samples, value) == n,
{
    place_bounds(samples, value);
    let p = place_of(samples, value);
    if p < n {
        assert(text_less(samples[p], value));
    }
    if n < p {
        assert(text_less(samples[n], value));
    }
}

/// Keeps a text among samples.
pub fn retain_string(samples: &mut Vec<String>, value: String, limit: usize)
    ensures
        texts(final(samples)@) == if limit == 0 {
            texts(old(samples)@)
        } else {
            retained(texts(old(samples)@), value@, limit as nat)
        },
        old(samples)@.len() <= limit ==> final(samples)@.len() <= limit,
        final(samples)@.len() <= old(samples)@.len() + 1,
{
    if limit == 0 {
        return;
    }
    let ghost given = texts(samples@);
    let mut at: usize = 0;
    while at < samples.len() && str_less(samples[at].as_str(), value.as_str())
        invariant
            at <= samples@.len(),
            given == texts(samples@),
            forall|i: int| 0 <= i < at ==> text_less(#[trigger] given[i], value@),
        decreases samples@.len() - at,
    {
        assert(given[at as int] == samples@[at as int]@);
        at = at + 1;
    }
    proof {
        if at < samples@.len() {
            assert(given[at as int] == samples@[at as int]@);
        }
        place_is(given, value@, at as int);
    }
    samples.insert(at, value);
    assert(texts(samples@) =~= given.insert(at as int, value@));
    if samples.len() > limit {
        shorten(samples, limit);
    }
}

fn shorten(samples: &mut Vec<String>, limit: usize)
    requires
        old(samples)@.len() >= limit,
    ensures
        texts(final(samples)@) == texts(old(samples)@).take(limit as int),
        final(samples)@.len() == limit,
{
    let ghost whole = texts(samples@);
    assert(whole.take(whole.len() as int) =~= whole);
    while samples.len() > limit
        invariant
            limit <= samples@.len() <= whole.len(),
            texts(samples@) == whole.take(samples@.len() as int),
        decreases samples@.len(),
    {
        let ghost before = samples@;
        let last = samples.pop();
        assert(texts(samples@) =~= texts(before).take(samples@.len() as int));
        assert(whole.take(before.len() as int).take(samples@.len() as int) =~= whole.take(
            samples@.len() as int,
        ));
    }
}

/// Keeps a changed row among samples.
pub fn retain_changed(samples: &mut Vec<ChangedRow>, value: ChangedRow, limit: usize)
    ensures
        changed_views(final(samples)@) == if limit == 0 {
            changed_views(old(samples)@)
        } else {
            retained_changed(changed_views(old(samples)@), value@, limit as nat)
        },
        old(samples)@.len() <= limit ==> final(samples)@.len() <= limit,
        final(samples)@.len() <= old(samples)@.len() + 1,
{
    if limit == 0 {
        return;
    }
    let ghost given = changed_views(samples@);
    let ghost keys = changed_keys(given);
    let mut at: usize = 0;
    while at < samples.len() && str_less(samples[at].key.as_str(), value.key.as_str())
        invariant
            at <= samples@.len(),
            given == changed_views(samples@),
            keys == changed_keys(given),
            forall|i: int| 0 <= i < at ==> text_less(#[trigger] keys[i], value.key@),
        decreases samples@.len() - at,
    {
        assert(keys[at as int] == samples@[at as int].key@);
        at = at + 1;
    }
    proof {
        if at < samples@.len() {
            assert(keys[at as int] == samples@[at as int].key@);
        }
        place_is(keys, value.key@, at as int);
    }
    samples.insert(at, value);
    assert(changed_views(samples@) =~= given.insert(at as int, value@));
    if samples.len() > limit {
        shorten_changed(samples, limit);
    }
}

fn shorten_changed(samples: &mut Vec<ChangedRow>, limit: usize)
    requires
        old(samples)@.len() >= limit,
    ensures
        changed_views(final(samples)@) == changed_views(old(samples)@).take(limit as int),
        final(samples)@.len() == limit,
{
    let ghost whole = changed_views(samples@);
    assert(whole.take(whole.len() as int) =~= whole);
    while samples.len() > limit
        invariant
            limit <= samples@.len() <= whole.len(),
            changed_views(samples@) == whole.take(samples@.len() as int),
        decreases samples@.len(),
    {
        let ghost before = samples@;
        let last = samples.pop();
        assert(changed_views(samples@) =~= changed_views(before).take(samples@.len() as int));
        assert(whole.take(before.len() as int).take(samples@.len() as int) =~= whole.take(
            samples@.len() as int,
        ));
    }
}

/// All texts of a list, sorted.
pub open spec fn sorted_texts(all: Seq<Seq<char>>) -> Seq<Seq<char>>
    decreases all.len(),
{
    if all.len() == 0 {
        Seq::empty()
    } else {
        placed(sorted_texts(all.drop_last()), all.last())
    }
}

/// The samples that are kept of a list of texts.
pub open spec fn sampled(all: Seq<Seq<char>>, limit: nat) -> Seq<Seq<char>>
    decreases all.len(),
{
    if all.len() == 0 {
        Seq::empty()
    } else {
        retained(sampled(all.drop_last(), limit), all.last(), limit)
    }
}

/// Whether texts are in order.
pub open spec fn in_order(samples: Seq<Seq<char>>) -> bool {
    forall|i: int, j: int|
        0 <= i < j < samples.len() ==> !text_less(#[trigger] samples[j], #[trigger] samples[i])
}

proof fn placed_in_order(samples: Seq<Seq<char>>, value: Seq<char>)
    requires
        in_order(samples),
    ensures
        in_order(placed(samples, value)),
{
    place_bounds(samples, value);
    let p = place_of(samples, value);
    let now = placed(samples, value);
    assert forall|i: int, j: int| 0 <= i < j < now.len() implies !text_less(
        #[trigger] now[j],
        #[trigger] now[i],
    ) by {
        let a = now[i];
        let b = now[j];
        if i < p && j == p {
            assert(a == samples[i]);
            lex_total(utf8(a), utf8(value));
        } else if i == p && j > p {
            assert(b == samples[j - 1]);
            if text_less(b, value) {
                if j - 1 > p {
                    assert(!text_less(samples[j - 1], samples[p]));
                    lex_total(utf8(samples[p]), utf8(samples[j - 1]));
                    if utf8(samples[p]) == utf8(samples[j - 1]) {
                    } else {
                        lex_transitive(utf8(samples[p]), utf8(samples[j - 1]), utf8(value));
                    }
                }
            }
        } else {
            let x = if i < p {
                i
            } else {
                i - 1
            };
            let y = if j < p {
                j
            } else {
                j - 1
            };
            assert(a == samples[x]);
            assert(b == samples[y]);
        }
    }
}

proof fn cut_then_placed(samples: Seq<Seq<char>>, value: Seq<char>, limit: nat)
    ensures
        cut(placed(cut(samples, limit), value), limit) == cut(placed(samples, value), limit),
{
    place_bounds(samples, value);
    let p = place_of(samples, value);
    if samples.len() > limit {
        let short = samples.take(limit as int);
        place_bounds(short, value);
        if p <= limit {
            assert forall|i: int| 0 <= i < p implies text_less(#[trigger] short[i], value) by {
                assert(short[i] == samples[i]);
            }
            place_is(short, value, p);
            assert(cut(placed(short, value), limit) =~= cut(placed(samples, value), limit));
        } else {
            assert forall|i: int| 0 <= i < limit implies text_less(#[trigger] short[i], value) by {
                assert(short[i] == samples[i]);
            }
            place_is(short, value, limit as int);
            assert(cut(placed(short, value), limit) =~= short);
            assert(cut(placed(samples, value), limit) =~= short);
        }
    }
}

/// The samples of a list are its smallest texts in order, as many as the limit allows.
pub proof fn samples_are_the_smallest(all: Seq<Seq<char>>, limit: nat)
    ensures
        sampled(all, limit) == cut(sorted_texts(all), limit),
        in_order(sorted_texts(all)),
        sorted_texts(all).to_multiset() == all.to_multiset(),
    decreases all.len(),
{
    if all.len() > 0 {
        let rest = all.drop_last();
        samples_are_the_smallest(rest, limit);
        cut_then_placed(sorted_texts(rest), all.last(), limit);
        placed_in_order(sorted_texts(rest), all.last());
        place_bounds(sorted_texts(rest), all.last());
        to_multiset_insert(
            sorted_texts(rest),
            place_of(sorted_texts(rest), all.last()),
            all.last(),
        );
        to_multiset_insert(rest, rest.len() as int, all.last());
        assert(all =~= rest.insert(rest.len() as int, all.last()));
    } else {
        assert(cut(sorted_texts(all), limit) =~= sampled(all, limit));
        assert(sorted_texts(all) =~= all);
    }
}

/// The place of a text lies among its samples or behind them.
pub proof fn place_in_bounds(samples: Seq<Seq<char>>, value: Seq<char>)
    ensures
        0 <= place_of(samples, value) <= samples.len(),
{
    place_bounds(samples, value);
}

} // verus!
