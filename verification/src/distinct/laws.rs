//! What holds of every exact state, whether it spilled or not.

use crate::distinct::order::{
    entry_le, key_less, key_total, keys, sorted, sorted_list_is_unique, tally,
    tally_counts_every_entry, tally_of_sorted_is_exact, Entry, Key,
};
use crate::execution::meaning::texts_order_at_their_first_difference;
use vstd::multiset::Multiset;
use vstd::prelude::*;

verus! {

/// Whether contents follow one another by insertions, from nothing.
pub open spec fn fed(contents: Seq<Multiset<Entry>>, entries: Seq<Entry>) -> bool {
    &&& contents.len() == entries.len() + 1
    &&& contents[0] == Multiset::<Entry>::empty()
    &&& forall|i: int|
        #![trigger entries[i]]
        0 <= i < entries.len() ==> contents[i + 1] == contents[i].insert(entries[i])
}

proof fn fed_holds_all(contents: Seq<Multiset<Entry>>, entries: Seq<Entry>)
    requires
        fed(contents, entries),
    ensures
        contents.last() == entries.to_multiset(),
    decreases entries.len(),
{
    broadcast use vstd::seq_lib::group_to_multiset_ensures;

    if entries.len() == 0 {
        assert(entries.to_multiset() =~= Multiset::empty());
    } else {
        let rest = entries.drop_last();
        let few = contents.drop_last();
        assert forall|i: int| #![trigger rest[i]] 0 <= i < rest.len() implies few[i + 1]
            == few[i].insert(rest[i]) by {
            assert(rest[i] == entries[i]);
        }
        fed_holds_all(few, rest);
        assert(entries =~= rest.push(entries.last()));
        assert(contents.last() == few.last().insert(entries[entries.len() - 1]));
    }
}

/// A state that was fed entries one by one holds all of them, and the tally of what it holds
/// in sorted order is exact: as many distinct values as there are, and every other entry a
/// repeat. Neither the order of the entries nor runs in between change it, since one multiset
/// has one sorted order.
pub proof fn summaries_are_those_of_the_entries(
    contents: Seq<Multiset<Entry>>,
    entries: Seq<Entry>,
    list: Seq<Entry>,
    other: Seq<Entry>,
    max_samples: nat,
)
    requires
        fed(contents, entries),
        sorted(list),
        list.to_multiset() == contents.last(),
        sorted(other),
        other.to_multiset() == entries.to_multiset(),
    ensures
        list == other,
        tally(list, max_samples) == tally(other, max_samples),
        keys(entries).finite(),
        tally(list, max_samples).distinct == keys(entries).len(),
        tally(list, max_samples).distinct + tally(list, max_samples).duplicates == entries.len(),
        tally(list, max_samples).samples.len() == if tally(list, max_samples).duplicates
            < max_samples {
            tally(list, max_samples).duplicates
        } else {
            max_samples
        },
{
    fed_holds_all(contents, entries);
    sorted_list_is_unique(list, other);
    tally_of_sorted_is_exact(list, max_samples);
    tally_counts_every_entry(list, max_samples);
    same_members(list, entries);
    assert(keys(list) =~= keys(entries)) by {
        assert forall|k: Key| keys(list).contains(k) == keys(
            entries,
        ).contains(k) by {
            if keys(list).contains(k) {
                let i = choose|i: int| 0 <= i < list.len() && (#[trigger] list[i]).0 == k;
                assert(list.contains(list[i]) && entries.contains(list[i]));
                let j = choose|j: int| 0 <= j < entries.len() && entries[j] == list[i];
                assert(entries[j].0 == k);
            }
            if keys(entries).contains(k) {
                let i = choose|i: int| 0 <= i < entries.len() && (#[trigger] entries[i]).0 == k;
                assert(entries.contains(entries[i]));
                let j = choose|j: int| 0 <= j < list.len() && list[j] == entries[i];
                assert(list[j].0 == k);
            }
        }
    }
}

proof fn same_members(a: Seq<Entry>, b: Seq<Entry>)
    requires
        a.to_multiset() == b.to_multiset(),
    ensures
        a.len() == b.len(),
        forall|e: Entry| a.contains(e) == #[trigger] b.contains(e),
{
    broadcast use vstd::seq_lib::group_to_multiset_ensures;

    assert forall|e: Entry| a.contains(e) == #[trigger] b.contains(e) by {
        assert(a.contains(e) <==> a.to_multiset().count(e) > 0);
        assert(b.contains(e) <==> b.to_multiset().count(e) > 0);
    }
    assert(a.to_multiset().len() == a.len());
    assert(b.to_multiset().len() == b.len());
}

/// Whether a sample joins two entries of one value, the first being the one of the smallest
/// row that the value has.
pub open spec fn joins(s: Seq<Entry>, a: int, b: int, sample: (u64, u64)) -> bool {
    &&& 0 <= a < b < s.len()
    &&& s[a].0 == s[b].0
    &&& sample == (s[a].1, s[b].1)
    &&& forall|c: int| #![trigger s[c]] 0 <= c < s.len() && s[c].0 == s[a].0 ==> s[a].1 <= s[c].1
}

proof fn sorted_head(s: Seq<Entry>)
    requires
        sorted(s),
        s.len() > 0,
    ensures
        sorted(s.drop_last()),
{
    let rest = s.drop_last();
    assert forall|i: int, j: int| 0 <= i < j < rest.len() implies entry_le(
        #[trigger] rest[i],
        #[trigger] rest[j],
    ) by {
        assert(entry_le(s[i], s[j]));
    }
}

/// Where the last value of a sorted list begins.
proof fn last_value_begins(s: Seq<Entry>, max_samples: nat) -> (at: int)
    requires
        sorted(s),
        s.len() > 0,
    ensures
        0 <= at < s.len(),
        tally(s, max_samples).first == Some(s[at]),
        s[at].0 == s.last().0,
        forall|c: int| #![trigger s[c]] 0 <= c < s.len() && s[c].0 == s[at].0 ==> at <= c,
    decreases s.len(),
{
    let rest = s.drop_last();
    let e = s.last();
    if rest.len() == 0 {
        assert(tally(rest, max_samples).first is None);
        0
    } else {
        sorted_head(s);
        let before = last_value_begins(rest, max_samples);
        assert(rest[before] == s[before]);
        let k = rest.last().0;
        assert(rest.last() == s[s.len() - 2]);
        if k == e.0 {
            assert forall|c: int| #![trigger s[c]] 0 <= c < s.len() && s[c].0
                == s[before].0 implies before <= c by {
                if c < rest.len() {
                    assert(rest[c] == s[c]);
                }
            }
            before
        } else {
            assert forall|c: int| #![trigger s[c]] 0 <= c < s.len() && s[c].0
                == e.0 implies s.len() - 1 <= c by {
                if c < s.len() - 1 {
                    assert(entry_le(s[s.len() - 2], s[s.len() - 1]));
                    if c < s.len() - 2 {
                        assert(entry_le(s[c], s[s.len() - 2]));
                    }
                    key_total(e.0, k);
                    key_total(k, e.0);
                }
            }
            s.len() - 1
        }
    }
}

/// Every sample of a tally in sorted order joins two entries of one value: the one of its
/// smallest row, and another.
pub proof fn samples_join_entries_of_one_value(s: Seq<Entry>, max_samples: nat, i: int) -> (at: (
    int,
    int,
))
    requires
        sorted(s),
        0 <= i < tally(s, max_samples).samples.len(),
    ensures
        joins(s, at.0, at.1, tally(s, max_samples).samples[i]),
    decreases s.len(),
{
    let rest = s.drop_last();
    let e = s.last();
    sorted_head(s);
    let before = tally(rest, max_samples);
    if i < before.samples.len() {
        let at = samples_join_entries_of_one_value(rest, max_samples, i);
        assert(rest[at.0] == s[at.0] && rest[at.1] == s[at.1]);
        assert forall|c: int| #![trigger s[c]] 0 <= c < s.len() && s[c].0
            == s[at.0].0 implies s[at.0].1 <= s[c].1 by {
            if c < rest.len() {
                assert(rest[c] == s[c]);
            } else {
                assert(entry_le(s[at.0], s[c]));
                key_total(s[at.0].0, s[c].0);
            }
        }
        at
    } else {
        let a = last_value_begins(rest, max_samples);
        let b = s.len() - 1;
        assert(rest[a] == s[a]);
        assert forall|c: int| #![trigger s[c]] 0 <= c < s.len() && s[c].0
            == s[a].0 implies s[a].1 <= s[c].1 by {
            if c < rest.len() {
                assert(rest[c] == s[c]);
            }
            if a < c {
                assert(entry_le(s[a], s[c]));
                key_total(s[a].0, s[c].0);
            }
        }
        (a, b)
    }
}

/// Values of one kind stand in the order of their numbers, or of their bytes at the first place
/// where they differ; a byte string stands before those that it begins.
pub proof fn values_stand_in_order(a: int, b: int, x: Seq<u8>, y: Seq<u8>)
    ensures
        key_less(Key::I64(a), Key::I64(b)) <==> a < b,
        key_less(Key::U64(a), Key::U64(b)) <==> a < b,
        key_less(Key::F64(a), Key::F64(b)) <==> a < b,
        key_less(Key::Bytes(x), Key::Bytes(y)) <==> exists|k: int|
            #![trigger x.take(k), y.take(k)]
            0 <= k <= x.len() && k < y.len() && x.take(k) == y.take(k) && (k == x.len() || x[k]
                < y[k]),
{
    texts_order_at_their_first_difference(x, y);
}

} // verus!
