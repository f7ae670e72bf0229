//! What a diff reports of the rows that it compares.

use crate::diff::accumulate::{EventView, Tally};
use crate::diff::compare::{
    after_events, common_width, differing, event_of, first_repeat, listed, removed_events,
};
use crate::diff::partition::Keyed;
use crate::diff::record::RowView;
use crate::diff::rows::{cell_value, key_display, row_stream, row_stream_is_injective, short_values};
use crate::diff::samples::{changed_keys, cut, place_of, sampled};
use crate::diff::table::row_map;
use crate::digest::blake3_digest;
use crate::encoding::{encoding_is_injective, item_of, items_tell_values_apart, proper, same_value};
use crate::value::{Batch, Cell};
use vstd::prelude::*;

verus! {

/// The columns, by their places, whose values differ between two rows.
pub open spec fn changed_places(
    before: Seq<Option<Seq<u8>>>,
    after: Seq<Option<Seq<u8>>>,
    width: nat,
) -> Seq<int> {
    Seq::new(width, |i: int| i).filter(|i: int| before[i] != after[i])
}

proof fn differing_by_places(
    before: Seq<Option<Seq<u8>>>,
    after: Seq<Option<Seq<u8>>>,
    names: Seq<Seq<char>>,
    n: nat,
)
    requires
        n <= before.len(),
        n <= after.len(),
        n <= names.len(),
    ensures
        differing(before, after, names, n) == changed_places(before, after, n).map_values(
            |i: int| names[i],
        ),
    decreases n,
{
    reveal(Seq::filter);
    let name = |i: int| names[i];
    let places = Seq::new(n, |i: int| i);
    if n == 0 {
        assert(changed_places(before, after, n) =~= Seq::empty());
        assert(differing(before, after, names, n) =~= changed_places(before, after, n).map_values(
            name,
        ));
    } else {
        let m = (n - 1) as nat;
        differing_by_places(before, after, names, m);
        assert(places.drop_last() =~= Seq::new(m, |i: int| i));
        assert(places.last() == m);
        let (a, b) = (changed_places(before, after, m), changed_places(before, after, n));
        assert(b == if before[n - 1] != after[n - 1] {
            a.push(n - 1)
        } else {
            a
        });
        assert(differing(before, after, names, n) =~= b.map_values(name));
    }
}

/// Whether a name is that of a column, among the first `n`, whose values differ.
pub open spec fn names_a_change(
    before: Seq<Option<Seq<u8>>>,
    after: Seq<Option<Seq<u8>>>,
    names: Seq<Seq<char>>,
    n: nat,
    name: Seq<char>,
) -> bool {
    exists|i: int| 0 <= i < n && before[i] != after[i] && name == #[trigger] names[i]
}

/// The columns that are named as changed are those whose values differ, in the order of the
/// columns: a null and a value differ, and two values do where their bytes do.
pub proof fn changed_columns_are_those_that_differ(
    before: Seq<Option<Seq<u8>>>,
    after: Seq<Option<Seq<u8>>>,
    names: Seq<Seq<char>>,
)
    ensures
        ({
            let width = common_width(before, after, names);
            let named = differing(before, after, names, width);
            &&& width <= before.len() && width <= after.len() && width <= names.len()
            &&& width == before.len() || width == after.len() || width == names.len()
            &&& named == changed_places(before, after, width).map_values(|i: int| names[i])
            &&& forall|i: int|
                0 <= i < width && before[i] != after[i] ==> named.contains(#[trigger] names[i])
            &&& forall|k: int|
                0 <= k < named.len() ==> names_a_change(
                    before,
                    after,
                    names,
                    width,
                    #[trigger] named[k],
                )
            &&& named.len() == 0 <==> forall|i: int|
                0 <= i < width ==> #[trigger] before[i] == after[i]
        }),
{
    let width = common_width(before, after, names);
    let named = differing(before, after, names, width);
    differing_by_places(before, after, names, width);
    named_exactly(before, after, names, width);
}

proof fn named_exactly(
    before: Seq<Option<Seq<u8>>>,
    after: Seq<Option<Seq<u8>>>,
    names: Seq<Seq<char>>,
    n: nat,
)
    requires
        n <= before.len(),
        n <= after.len(),
        n <= names.len(),
    ensures
        forall|i: int|
            0 <= i < n && before[i] != after[i] ==> differing(before, after, names, n).contains(
                #[trigger] names[i],
            ),
        forall|k: int|
            0 <= k < differing(before, after, names, n).len() ==> names_a_change(
                before,
                after,
                names,
                n,
                #[trigger] differing(before, after, names, n)[k],
            ),
        differing(before, after, names, n).len() == 0 <==> forall|i: int|
            0 <= i < n ==> #[trigger] before[i] == after[i],
    decreases n,
{
    if n > 0 {
        let m = (n - 1) as nat;
        named_exactly(before, after, names, m);
        let (a, b) = (differing(before, after, names, m), differing(before, after, names, n));
        assert forall|i: int| 0 <= i < n && before[i] != after[i] implies b.contains(
            #[trigger] names[i],
        ) by {
            if i < m {
                let k = choose|k: int| 0 <= k < a.len() && a[k] == names[i];
                assert(b[k] == names[i]);
            } else {
                assert(b[b.len() - 1] == names[i]);
            }
        }
        assert forall|k: int| 0 <= k < b.len() implies names_a_change(
            before,
            after,
            names,
            n,
            #[trigger] b[k],
        ) by {
            if k < a.len() {
                assert(b[k] == a[k]);
                let i = choose|i: int|
                    0 <= i < m && before[i] != after[i] && a[k] == #[trigger] names[i];
                assert(b[k] == names[i]);
            } else {
                assert(b[k] == names[m as int]);
            }
        }
        if b.len() > 0 && a.len() == 0 {
            assert(before[n - 1] != after[n - 1]);
        }
    }
}

/// Whether a row has the hash of its values.
pub open spec fn hashed(row: RowView) -> bool {
    &&& short_values(row.values)
    &&& row.hash == blake3_digest(row_stream(row.values))
}

/// A row with the key and the values of a row before gives no event. One with the key and other
/// values is reported as changed, up to a collision of the hash, and with detail it names a
/// column. One whose key was not there is reported as added.
pub proof fn rows_are_told_by_key_and_values(
    before: Map<Seq<u8>, RowView>,
    row: Keyed,
    names: Seq<Seq<char>>,
    detail: bool,
)
    requires
        hashed(row.1),
        before.contains_key(row.0) ==> hashed(before[row.0]) && before[row.0].values.len()
            == row.1.values.len() == names.len(),
    ensures
        ({
            let event = event_of(before, row, names, detail);
            &&& event is None ==> before.contains_key(row.0)
            &&& !before.contains_key(row.0) <==> event == Some(EventView::Added(row.1.display))
            &&& !(event matches Some(e) && e is Removed)
            &&& before.contains_key(row.0) && before[row.0].values == row.1.values ==> event is None
            &&& before.contains_key(row.0) && before[row.0].values != row.1.values ==> {
                ||| event matches Some(e) && e matches EventView::Changed(c) && c.key
                    == row.1.display && (detail ==> c.columns.len() > 0)
                ||| exists|x: Seq<u8>, y: Seq<u8>|
                    x != y && #[trigger] blake3_digest(x) == #[trigger] blake3_digest(y)
            }
        }),
{
    if before.contains_key(row.0) {
        let old_row = before[row.0];
        changed_columns_are_those_that_differ(old_row.values, row.1.values, names);
        if old_row.values != row.1.values {
            let (x, y) = (row_stream(old_row.values), row_stream(row.1.values));
            if x == y {
                row_stream_is_injective(old_row.values, row.1.values);
            }
            if old_row.hash != row.1.hash {
                let width = common_width(old_row.values, row.1.values, names);
                if forall|i: int| 0 <= i < width ==> #[trigger] old_row.values[i] == row.1.values[i] {
                    assert(old_row.values =~= row.1.values);
                }
            }
        }
    }
}

/// The value of a cell in a row: two cells have the same exactly where both are null, or they are
/// of one kind and hold the same.
pub proof fn row_values_tell_cells_apart(a: Cell, b: Cell)
    requires
        proper(item_of(a)),
        proper(item_of(b)),
    ensures
        cell_value(a) is None <==> a is Null,
        cell_value(a) == cell_value(b) <==> same_value(a, b),
{
    items_tell_values_apart(a, b);
    if cell_value(a) == cell_value(b) && !(a is Null) {
        encoding_is_injective(item_of(a), item_of(b));
    }
}

/// Whether an event says what became of a row after.
pub open spec fn tells_of(before: Map<Seq<u8>, RowView>, row: Keyed, event: EventView) -> bool {
    &&& event.key() == row.1.display
    &&& match event {
        EventView::Added(_) => !before.contains_key(row.0),
        EventView::Changed(_) => before.contains_key(row.0) && before[row.0].hash != row.1.hash,
        EventView::Removed(_) => false,
    }
}

/// Whether an event says what became of one of several rows after.
pub open spec fn tells_of_one(
    before: Map<Seq<u8>, RowView>,
    rows: Seq<Keyed>,
    event: EventView,
) -> bool {
    exists|i: int| 0 <= i < rows.len() && tells_of(before, #[trigger] rows[i], event)
}

/// Whether a change under a key is among events.
pub open spec fn has_change(events: Seq<EventView>, key: Seq<char>) -> bool {
    exists|k: int|
        0 <= k < events.len() && (#[trigger] events[k] matches EventView::Changed(c) && c.key
            == key)
}

/// A diff reports a key as added exactly where a row after has it and none before does; as
/// changed only where both sides have it.
pub proof fn additions_and_changes_are_reported(
    before: Map<Seq<u8>, RowView>,
    rows: Seq<Keyed>,
    names: Seq<Seq<char>>,
    detail: bool,
)
    ensures
        ({
            let events = after_events(before, rows, names, detail);
            &&& forall|i: int|
                0 <= i < rows.len() && !before.contains_key((#[trigger] rows[i]).0)
                    ==> events.contains(EventView::Added(rows[i].1.display))
            &&& forall|i: int|
                0 <= i < rows.len() && before.contains_key((#[trigger] rows[i]).0)
                    && before[rows[i].0].hash != rows[i].1.hash ==> has_change(
                    events,
                    rows[i].1.display,
                )
            &&& forall|k: int|
                0 <= k < events.len() ==> tells_of_one(before, rows, #[trigger] events[k])
            &&& events.len() <= rows.len()
        }),
    decreases rows.len(),
{
    if rows.len() > 0 {
        let rest = rows.drop_last();
        let last = rows.last();
        additions_and_changes_are_reported(before, rest, names, detail);
        let old_events = after_events(before, rest, names, detail);
        let events = after_events(before, rows, names, detail);
        let here = listed(event_of(before, last, names, detail));
        assert(events == old_events + here);
        assert forall|i: int|
            0 <= i < rows.len() && !before.contains_key((#[trigger] rows[i]).0) implies events.contains(
            EventView::Added(rows[i].1.display)) by {
            if i < rest.len() {
                assert(rest[i] == rows[i]);
                let k = choose|k: int|
                    0 <= k < old_events.len() && old_events[k] == EventView::Added(
                        rows[i].1.display,
                    );
                assert(events[k] == old_events[k]);
            } else {
                assert(events[old_events.len() as int] == here[0]);
            }
        }
        assert forall|i: int|
            0 <= i < rows.len() && before.contains_key((#[trigger] rows[i]).0)
                && before[rows[i].0].hash != rows[i].1.hash implies has_change(
            events,
            rows[i].1.display,
        ) by {
            if i < rest.len() {
                assert(rest[i] == rows[i]);
                let k = choose|k: int|
                    0 <= k < old_events.len() && (#[trigger] old_events[k] matches EventView::Changed(
                        c,
                    ) && c.key == rows[i].1.display);
                assert(events[k] == old_events[k]);
            } else {
                assert(events[old_events.len() as int] == here[0]);
            }
        }
        assert forall|k: int| 0 <= k < events.len() implies tells_of_one(
            before,
            rows,
            #[trigger] events[k],
        ) by {
            if k < old_events.len() {
                assert(events[k] == old_events[k]);
                let i = choose|i: int|
                    0 <= i < rest.len() && tells_of(before, #[trigger] rest[i], old_events[k]);
                assert(tells_of(before, rows[i], events[k]));
            } else {
                assert(events[k] == here[0]);
                assert(tells_of(before, rows[rows.len() - 1], events[k]));
            }
        }
    }
}

/// Whether an event says that one of several rows before is gone.
pub open spec fn tells_of_gone(rows: Seq<Keyed>, after: Set<Seq<u8>>, event: EventView) -> bool {
    exists|i: int|
        0 <= i < rows.len() && !after.contains((#[trigger] rows[i]).0) && event
            == EventView::Removed(rows[i].1.display)
}

/// A diff reports a key as removed exactly where a row before has it and none after does.
pub proof fn removals_are_reported(rows: Seq<Keyed>, after: Set<Seq<u8>>)
    ensures
        ({
            let events = removed_events(rows, after);
            &&& forall|i: int|
                0 <= i < rows.len() && !after.contains((#[trigger] rows[i]).0) ==> events.contains(
                    EventView::Removed(rows[i].1.display),
                )
            &&& forall|k: int|
                0 <= k < events.len() ==> tells_of_gone(rows, after, #[trigger] events[k])
        }),
    decreases rows.len(),
{
    if rows.len() > 0 {
        let rest = rows.drop_last();
        removals_are_reported(rest, after);
        let old_events = removed_events(rest, after);
        let events = removed_events(rows, after);
        assert forall|i: int|
            0 <= i < rows.len() && !after.contains((#[trigger] rows[i]).0) implies events.contains(
            EventView::Removed(rows[i].1.display)) by {
            if i < rest.len() {
                assert(rest[i] == rows[i]);
                let k = choose|k: int|
                    0 <= k < old_events.len() && old_events[k] == EventView::Removed(
                        rows[i].1.display,
                    );
                assert(events[k] == old_events[k]);
            } else {
                assert(events[events.len() - 1] == EventView::Removed(rows[i].1.display));
            }
        }
        assert forall|k: int| 0 <= k < events.len() implies tells_of_gone(
            rows,
            after,
            #[trigger] events[k],
        ) by {
            if k < old_events.len() {
                assert(events[k] == old_events[k]);
                let i = choose|i: int|
                    0 <= i < rest.len() && !after.contains((#[trigger] rest[i]).0) && old_events[k]
                        == EventView::Removed(rest[i].1.display);
                assert(rows[i] == rest[i]);
            } else {
                assert(rows[rows.len() - 1] == rows.last());
            }
        }
    }
}

/// The keys of the events of one kind, in their order.
pub open spec fn keys_of(events: Seq<EventView>, kind: Seq<char>) -> Seq<Seq<char>>
    decreases events.len(),
{
    if events.len() == 0 {
        Seq::empty()
    } else {
        let rest = keys_of(events.drop_last(), kind);
        if events.last().kind() == kind {
            rest.push(events.last().key())
        } else {
            rest
        }
    }
}

proof fn kinds_differ()
    ensures
        "added"@ != "removed"@,
        "added"@ != "changed"@,
        "removed"@ != "changed"@,
{
    reveal_strlit("added");
    reveal_strlit("removed");
    reveal_strlit("changed");
    assert("added"@.len() == 5 && "removed"@.len() == 7 && "changed"@.len() == 7);
    assert("removed"@[0] == 'r' && "changed"@[0] == 'c');
}

/// A report keeps samples of each kind of its own: of the added keys the smallest ones, of the
/// removed keys and of the changed rows likewise, as many as the limit allows.
pub proof fn samples_are_kept_by_kind(events: Seq<EventView>, limit: nat)
    requires
        limit > 0,
    ensures
        ({
            let none = Tally {
                added_count: 0,
                removed_count: 0,
                changed_count: 0,
                added: Seq::empty(),
                removed: Seq::empty(),
                changed: Seq::empty(),
            };
            let t = none.with_all(events, limit);
            &&& t.added == sampled(keys_of(events, "added"@), limit)
            &&& t.removed == sampled(keys_of(events, "removed"@), limit)
            &&& changed_keys(t.changed) == sampled(keys_of(events, "changed"@), limit)
            &&& t.added_count == keys_of(events, "added"@).len()
            &&& t.removed_count == keys_of(events, "removed"@).len()
            &&& t.changed_count == keys_of(events, "changed"@).len()
            &&& forall|i: int|
                0 <= i < t.changed.len() ==> events.contains(
                    EventView::Changed(#[trigger] t.changed[i]),
                )
        }),
    decreases events.len(),
{
    kinds_differ();
    let none = Tally {
        added_count: 0,
        removed_count: 0,
        changed_count: 0,
        added: Seq::empty(),
        removed: Seq::empty(),
        changed: Seq::empty(),
    };
    if events.len() == 0 {
        assert(changed_keys(none.changed) =~= Seq::empty());
    } else {
        let rest = events.drop_last();
        samples_are_kept_by_kind(rest, limit);
        let s = none.with_all(rest, limit);
        let t = none.with_all(events, limit);
        let kind = events.last().kind();
        assert(keys_of(rest, kind).push(events.last().key()).drop_last() =~= keys_of(rest, kind));
        assert forall|i: int| 0 <= i < s.changed.len() implies events.contains(
            EventView::Changed(#[trigger] s.changed[i]),
        ) by {
            let k = choose|k: int|
                0 <= k < rest.len() && rest[k] == EventView::Changed(s.changed[i]);
            assert(events[k] == rest[k]);
        }
        if let EventView::Changed(row) = events.last() {
            let p = place_of(changed_keys(s.changed), row.key);
            crate::diff::samples::place_in_bounds(changed_keys(s.changed), row.key);
            let grown = s.changed.insert(p, row);
            assert(changed_keys(grown) =~= changed_keys(s.changed).insert(p, row.key));
            assert(changed_keys(cut(grown, limit)) =~= cut(changed_keys(grown), limit));
            assert forall|i: int| 0 <= i < t.changed.len() implies events.contains(
                EventView::Changed(#[trigger] t.changed[i]),
            ) by {
                if i < p {
                    assert(t.changed[i] == s.changed[i]);
                } else if i == p {
                    assert(events[events.len() - 1] == EventView::Changed(row));
                } else {
                    assert(t.changed[i] == s.changed[i - 1]);
                }
            }
        }
    }
}

/// The text of a key of one column is the text of its cell, and that of a null says so; the
/// texts of more columns stand in their order with a separator between them.
pub proof fn keys_are_shown_by_their_cells(
    batch: Batch,
    row: int,
    indexes: Seq<usize>,
    shown: Seq<Vec<String>>,
)
    requires
        indexes.len() > 0,
        shown.len() == indexes.len(),
    ensures
        ({
            let last = indexes.len() - 1;
            let text = if batch.columns@[indexes[last] as int]@[row] is Null {
                "<null>"@
            } else {
                shown[last]@[row]@
            };
            &&& indexes.len() == 1 ==> key_display(batch, row, indexes, shown) == text
            &&& indexes.len() > 1 ==> key_display(batch, row, indexes, shown) == key_display(
                batch,
                row,
                indexes.drop_last(),
                shown.drop_last(),
            ) + "\u{1f}"@ + text
        }),
{
    let all = crate::diff::rows::key_texts(batch, row, indexes, shown);
    let rest = crate::diff::rows::key_texts(batch, row, indexes.drop_last(), shown.drop_last());
    assert(all.drop_last() =~= rest);
}

proof fn mapped_keys(rows: Seq<Keyed>, key: Seq<u8>)
    ensures
        row_map(rows).contains_key(key) <==> exists|i: int|
            0 <= i < rows.len() && (#[trigger] rows[i]).0 == key,
    decreases rows.len(),
{
    if rows.len() > 0 {
        let rest = rows.drop_last();
        mapped_keys(rest, key);
        if row_map(rest).contains_key(key) {
            let i = choose|i: int| 0 <= i < rest.len() && (#[trigger] rest[i]).0 == key;
            assert(rows[i].0 == key);
        }
        if exists|i: int| 0 <= i < rows.len() && (#[trigger] rows[i]).0 == key {
            let i = choose|i: int| 0 <= i < rows.len() && (#[trigger] rows[i]).0 == key;
            if i < rest.len() {
                assert(rest[i].0 == key);
            }
        }
        if rows.last().0 == key {
            assert(rows[rows.len() - 1].0 == key);
        }
    }
}

/// Whether a key stands in a list before a place.
pub open spec fn stands_before(rows: Seq<Keyed>, i: int, key: Seq<u8>) -> bool {
    exists|j: int| 0 <= j < i && (#[trigger] rows[j]).0 == key
}

/// A repeated key is found at the first row that repeats one; nothing is found exactly where every
/// row has a key of its own.
pub proof fn repeated_keys_are_found(rows: Seq<Keyed>)
    ensures
        match first_repeat(rows) {
            Some(i) => 0 <= i < rows.len() && stands_before(rows, i, rows[i].0) && forall|j: int|
                0 <= j < i ==> !stands_before(rows, j, (#[trigger] rows[j]).0),
            None => forall|j: int|
                0 <= j < rows.len() ==> !stands_before(rows, j, (#[trigger] rows[j]).0),
        },
    decreases rows.len(),
{
    if rows.len() > 0 {
        let rest = rows.drop_last();
        let n = rows.len() - 1;
        repeated_keys_are_found(rest);
        mapped_keys(rest, rows.last().0);
        assert forall|j: int| 0 <= j < n implies (stands_before(rows, j, (#[trigger] rows[j]).0)
            <==> stands_before(rest, j, rest[j].0)) by {
            if stands_before(rest, j, rest[j].0) {
                let i = choose|i: int| 0 <= i < j && (#[trigger] rest[i]).0 == rest[j].0;
                assert(rows[i].0 == rows[j].0);
            }
            if stands_before(rows, j, rows[j].0) {
                let i = choose|i: int| 0 <= i < j && (#[trigger] rows[i]).0 == rows[j].0;
                assert(rest[i].0 == rest[j].0);
            }
        }
        if stands_before(rows, n, rows[n].0) {
            let i = choose|i: int| 0 <= i < n && (#[trigger] rows[i]).0 == rows[n].0;
            assert(rest[i].0 == rows[n].0);
        }
        if row_map(rest).contains_key(rows.last().0) {
            let i = choose|i: int| 0 <= i < rest.len() && (#[trigger] rest[i]).0 == rows.last().0;
            assert(rows[i].0 == rows[n].0);
            assert(stands_before(rows, n, rows[n].0));
        }
        match first_repeat(rest) {
            Some(i) => {
                assert(stands_before(rows, i, rows[i].0));
                assert forall|j: int| 0 <= j < i implies !stands_before(
                    rows,
                    j,
                    (#[trigger] rows[j]).0,
                ) by {
                    assert(!stands_before(rest, j, rest[j].0));
                }
            },
            None => {
                assert forall|j: int| 0 <= j < n implies !stands_before(
                    rows,
                    j,
                    (#[trigger] rows[j]).0,
                ) by {
                    assert(!stands_before(rest, j, rest[j].0));
                }
            },
        }
    }
}

} // verus!
