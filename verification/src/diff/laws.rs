//! What holds of every diff.

use crate::diff::accumulate::{EventView, Tally};
use crate::diff::compare::{
    after_events, event_of, listed, partition_events, removed_events,
};
use crate::diff::partition::Keyed;
use crate::diff::partitioner::rows_in;
use crate::diff::record::{RowView, PARTITIONS};
use crate::diff::rows::partition_of;
use crate::diff::table::{distinct, ordered, row_map, row_map_holds_rows, row_place};
use vstd::prelude::*;

verus! {

/// How many events are additions.
pub open spec fn additions(events: Seq<EventView>) -> nat
    decreases events.len(),
{
    if events.len() == 0 {
        0
    } else {
        additions(events.drop_last()) + (if events.last() is Added {
            1nat
        } else {
            0
        })
    }
}

/// How many events are removals.
pub open spec fn removals(events: Seq<EventView>) -> nat
    decreases events.len(),
{
    if events.len() == 0 {
        0
    } else {
        removals(events.drop_last()) + (if events.last() is Removed {
            1nat
        } else {
            0
        })
    }
}

/// How many events are changes.
pub open spec fn changes(events: Seq<EventView>) -> nat
    decreases events.len(),
{
    if events.len() == 0 {
        0
    } else {
        changes(events.drop_last()) + (if events.last() is Changed {
            1nat
        } else {
            0
        })
    }
}

/// The counts of a diff are exact, whatever the limit on its samples.
pub proof fn counts_are_exact(tally: Tally, events: Seq<EventView>, limit: nat)
    ensures
        tally.with_all(events, limit).added_count == tally.added_count + additions(events),
        tally.with_all(events, limit).removed_count == tally.removed_count + removals(events),
        tally.with_all(events, limit).changed_count == tally.changed_count + changes(events),
    decreases events.len(),
{
    if events.len() > 0 {
        counts_are_exact(tally, events.drop_last(), limit);
    }
}

/// How many rows have a key outside a set.
pub open spec fn outside(rows: Seq<Keyed>, keys: Set<Seq<u8>>) -> nat
    decreases rows.len(),
{
    if rows.len() == 0 {
        0
    } else {
        outside(rows.drop_last(), keys) + (if keys.contains(rows.last().0) {
            0nat
        } else {
            1
        })
    }
}

proof fn sums_join(a: Seq<EventView>, b: Seq<EventView>)
    ensures
        additions(a + b) == additions(a) + additions(b),
        removals(a + b) == removals(a) + removals(b),
    decreases b.len(),
{
    if b.len() == 0 {
        assert(a + b =~= a);
    } else {
        sums_join(a, b.drop_last());
        assert((a + b).drop_last() =~= a + b.drop_last());
    }
}

proof fn after_counts(
    before: Map<Seq<u8>, RowView>,
    rows: Seq<Keyed>,
    names: Seq<Seq<char>>,
    detail: bool,
)
    ensures
        additions(after_events(before, rows, names, detail)) == outside(rows, before.dom()),
        removals(after_events(before, rows, names, detail)) == 0,
    decreases rows.len(),
{
    reveal_with_fuel(additions, 2);
    reveal_with_fuel(removals, 2);
    if rows.len() > 0 {
        after_counts(before, rows.drop_last(), names, detail);
        let event = event_of(before, rows.last(), names, detail);
        sums_join(after_events(before, rows.drop_last(), names, detail), listed(event));
        match event {
            Some(e) => {
                assert(listed(event).drop_last() =~= Seq::empty());
            },
            None => {},
        }
    }
}

proof fn removed_counts(rows: Seq<Keyed>, keys: Set<Seq<u8>>)
    ensures
        additions(removed_events(rows, keys)) == 0,
        removals(removed_events(rows, keys)) == outside(rows, keys),
    decreases rows.len(),
{
    if rows.len() > 0 {
        removed_counts(rows.drop_last(), keys);
        let rest = removed_events(rows.drop_last(), keys);
        if !keys.contains(rows.last().0) {
            assert(removed_events(rows, keys).drop_last() =~= rest);
        }
    }
}

proof fn outside_insert(rows: Seq<Keyed>, at: int, row: Keyed, keys: Set<Seq<u8>>)
    requires
        0 <= at <= rows.len(),
    ensures
        outside(rows.insert(at, row), keys) == outside(rows, keys) + (if keys.contains(row.0) {
            0nat
        } else {
            1
        }),
    decreases rows.len(),
{
    let more = rows.insert(at, row);
    if at == rows.len() {
        assert(more.drop_last() =~= rows);
    } else {
        outside_insert(rows.drop_last(), at, row, keys);
        assert(more.drop_last() =~= rows.drop_last().insert(at, row));
        assert(more.last() == rows.last());
    }
}

proof fn row_place_bounds(rows: Seq<Keyed>, key: Seq<u8>)
    ensures
        0 <= row_place(rows, key) <= rows.len(),
    decreases rows.len(),
{
    if rows.len() > 0 {
        row_place_bounds(rows.drop_first(), key);
    }
}

proof fn outside_ordered(rows: Seq<Keyed>, keys: Set<Seq<u8>>)
    ensures
        outside(ordered(rows), keys) == outside(rows, keys),
    decreases rows.len(),
{
    if rows.len() > 0 {
        let rest = ordered(rows.drop_last());
        outside_ordered(rows.drop_last(), keys);
        row_place_bounds(rest, rows.last().0);
        outside_insert(rest, row_place(rest, rows.last().0), rows.last(), keys);
    }
}

/// A diff counts as added the rows whose keys are only after, and as removed the rows
/// whose keys are only before.
pub proof fn diff_counts_keys_of_one_side(
    before: Seq<Keyed>,
    after: Seq<Keyed>,
    names: Seq<Seq<char>>,
    detail: bool,
)
    ensures
        additions(partition_events(before, after, names, detail)) == outside(
            after,
            row_map(before).dom(),
        ),
        removals(partition_events(before, after, names, detail)) == outside(
            before,
            row_map(after).dom(),
        ),
{
    after_counts(row_map(before), after, names, detail);
    removed_counts(ordered(before), row_map(after).dom());
    outside_ordered(before, row_map(after).dom());
    sums_join(
        after_events(row_map(before), after, names, detail),
        removed_events(ordered(before), row_map(after).dom()),
    );
}

proof fn inside_is_common(rows: Seq<Keyed>, keys: Set<Seq<u8>>)
    requires
        distinct(rows),
    ensures
        row_map(rows).dom().finite(),
        outside(rows, keys) + row_map(rows).dom().intersect(keys).len() == rows.len(),
    decreases rows.len(),
{
    let all = row_map(rows).dom();
    if rows.len() == 0 {
        assert(all.intersect(keys) =~= Set::empty());
    } else {
        let rest = rows.drop_last();
        assert(distinct(rest)) by {
            assert forall|i: int, j: int| 0 <= i < j < rest.len() implies (#[trigger] rest[i]).0 != (
            #[trigger] rest[j]).0 by {
                assert(rows[i] == rest[i]);
                assert(rows[j] == rest[j]);
            }
        }
        inside_is_common(rest, keys);
        row_map_holds_rows(rest);
        let key = rows.last().0;
        let few = row_map(rest).dom();
        if few.contains(key) {
            let i = choose|i: int| 0 <= i < rest.len() && (#[trigger] rest[i]).0 == key;
            assert(rows[i].0 == rows[rows.len() - 1].0);
        }
        assert(all =~= few.insert(key));
        if keys.contains(key) {
            assert(all.intersect(keys) =~= few.intersect(keys).insert(key));
        } else {
            assert(all.intersect(keys) =~= few.intersect(keys));
        }
    }
}

/// Additions and removals account for the difference in rows: the rows before and the
/// additions are as many as the rows after and the removals.
pub proof fn diff_counts_balance(
    before: Seq<Keyed>,
    after: Seq<Keyed>,
    names: Seq<Seq<char>>,
    detail: bool,
)
    requires
        distinct(before),
        distinct(after),
    ensures
        before.len() + additions(partition_events(before, after, names, detail)) == after.len()
            + removals(partition_events(before, after, names, detail)),
{
    diff_counts_keys_of_one_side(before, after, names, detail);
    inside_is_common(after, row_map(before).dom());
    inside_is_common(before, row_map(after).dom());
    assert(row_map(after).dom().intersect(row_map(before).dom()) =~= row_map(
        before,
    ).dom().intersect(row_map(after).dom()));
}

/// To swap the two sides of a diff swaps what it counts as added and as removed.
pub proof fn swapped_diff_swaps_counts(
    before: Seq<Keyed>,
    after: Seq<Keyed>,
    names: Seq<Seq<char>>,
    detail: bool,
)
    ensures
        additions(partition_events(before, after, names, detail)) == removals(
            partition_events(after, before, names, detail),
        ),
        removals(partition_events(before, after, names, detail)) == additions(
            partition_events(after, before, names, detail),
        ),
{
    diff_counts_keys_of_one_side(before, after, names, detail);
    diff_counts_keys_of_one_side(after, before, names, detail);
}

proof fn same_rows_have_no_events(
    before: Map<Seq<u8>, RowView>,
    rows: Seq<Keyed>,
    names: Seq<Seq<char>>,
    detail: bool,
)
    requires
        forall|i: int|
            0 <= i < rows.len() ==> before.contains_key((#[trigger] rows[i]).0) && before[rows[i].0]
                == rows[i].1,
    ensures
        after_events(before, rows, names, detail) == Seq::<EventView>::empty(),
    decreases rows.len(),
{
    if rows.len() > 0 {
        let rest = rows.drop_last();
        assert forall|i: int| 0 <= i < rest.len() implies before.contains_key(
            (#[trigger] rest[i]).0,
        ) && before[rest[i].0] == rest[i].1 by {
            assert(rest[i] == rows[i]);
        }
        same_rows_have_no_events(before, rest, names, detail);
        assert(rows.last() == rows[rows.len() - 1]);
        assert(after_events(before, rows, names, detail) =~= Seq::empty());
    }
}

proof fn kept_keys_are_not_removed(rows: Seq<Keyed>, keys: Set<Seq<u8>>)
    requires
        outside(rows, keys) == 0,
    ensures
        removed_events(rows, keys) == Seq::<EventView>::empty(),
    decreases rows.len(),
{
    if rows.len() > 0 {
        kept_keys_are_not_removed(rows.drop_last(), keys);
    }
}

proof fn all_inside(rows: Seq<Keyed>, keys: Set<Seq<u8>>)
    requires
        forall|i: int| 0 <= i < rows.len() ==> keys.contains((#[trigger] rows[i]).0),
    ensures
        outside(rows, keys) == 0,
    decreases rows.len(),
{
    if rows.len() > 0 {
        let rest = rows.drop_last();
        assert forall|i: int| 0 <= i < rest.len() implies keys.contains((#[trigger] rest[i]).0) by {
            assert(rest[i] == rows[i]);
        }
        all_inside(rest, keys);
        assert(rows.last() == rows[rows.len() - 1]);
    }
}

/// Two datasets with the same rows, in whatever order, have an empty diff.
pub proof fn equal_datasets_have_an_empty_diff(
    before: Seq<Keyed>,
    after: Seq<Keyed>,
    names: Seq<Seq<char>>,
    detail: bool,
)
    requires
        distinct(before),
        distinct(after),
        row_map(before) == row_map(after),
    ensures
        partition_events(before, after, names, detail) == Seq::<EventView>::empty(),
{
    row_map_holds_rows(before);
    row_map_holds_rows(after);
    same_rows_have_no_events(row_map(before), after, names, detail);
    all_inside(before, row_map(after).dom());
    outside_ordered(before, row_map(after).dom());
    kept_keys_are_not_removed(ordered(before), row_map(after).dom());
    assert(partition_events(before, after, names, detail) =~= Seq::empty());
}

/// A partition holds every row whose key belongs to it and no other: to compare the two
/// sides of each partition is to compare the datasets.
pub proof fn partitions_keep_their_keys(partition: int, rows: Seq<Keyed>, key: Seq<u8>)
    ensures
        row_map(rows_in(partition, rows)).contains_key(key) <==> partition_of(key) == partition
            && row_map(rows).contains_key(key),
        row_map(rows_in(partition, rows)).contains_key(key) ==> row_map(
            rows_in(partition, rows),
        )[key] == row_map(rows)[key],
    decreases rows.len(),
{
    if rows.len() > 0 {
        let rest = rows.drop_last();
        partitions_keep_their_keys(partition, rest, key);
        if partition_of(rows.last().0) == partition {
            let mine = rows_in(partition, rest);
            assert(mine.push(rows.last()).drop_last() =~= mine);
            assert(mine.push(rows.last()).last() == rows.last());
        }
    }
}

/// The events of the first `n` partitions of two datasets, partition by partition.
pub open spec fn events_by_partition(
    before: Seq<Keyed>,
    after: Seq<Keyed>,
    names: Seq<Seq<char>>,
    detail: bool,
    n: nat,
) -> Seq<EventView>
    decreases n,
{
    if n == 0 {
        Seq::empty()
    } else {
        events_by_partition(before, after, names, detail, (n - 1) as nat) + partition_events(
            rows_in(n - 1, before),
            rows_in(n - 1, after),
            names,
            detail,
        )
    }
}

/// How many rows have a key that stands in other rows under another hash.
pub open spec fn rehashed(rows: Seq<Keyed>, others: Map<Seq<u8>, RowView>) -> nat
    decreases rows.len(),
{
    if rows.len() == 0 {
        0
    } else {
        rehashed(rows.drop_last(), others) + (if others.contains_key(rows.last().0)
            && others[rows.last().0].hash != rows.last().1.hash {
            1nat
        } else {
            0
        })
    }
}

proof fn changes_join(a: Seq<EventView>, b: Seq<EventView>)
    ensures
        changes(a + b) == changes(a) + changes(b),
    decreases b.len(),
{
    if b.len() == 0 {
        assert(a + b =~= a);
    } else {
        changes_join(a, b.drop_last());
        assert((a + b).drop_last() =~= a + b.drop_last());
    }
}

proof fn after_changes(
    before: Map<Seq<u8>, RowView>,
    rows: Seq<Keyed>,
    names: Seq<Seq<char>>,
    detail: bool,
)
    ensures
        changes(after_events(before, rows, names, detail)) == rehashed(rows, before),
    decreases rows.len(),
{
    reveal_with_fuel(changes, 2);
    if rows.len() > 0 {
        after_changes(before, rows.drop_last(), names, detail);
        let event = event_of(before, rows.last(), names, detail);
        changes_join(after_events(before, rows.drop_last(), names, detail), listed(event));
        match event {
            Some(e) => {
                assert(listed(event).drop_last() =~= Seq::empty());
            },
            None => {},
        }
    }
}

proof fn removals_change_nothing(rows: Seq<Keyed>, keys: Set<Seq<u8>>)
    ensures
        changes(removed_events(rows, keys)) == 0,
    decreases rows.len(),
{
    reveal_with_fuel(changes, 2);
    if rows.len() > 0 {
        removals_change_nothing(rows.drop_last(), keys);
        let rest = removed_events(rows.drop_last(), keys);
        let own = seq![EventView::Removed(rows.last().1.display)];
        changes_join(rest, own);
        assert(own.drop_last() =~= Seq::empty());
        assert(rest.push(own[0]) =~= rest + own);
    }
}

/// A diff counts as changed the rows whose keys stand before under another hash.
pub proof fn diff_counts_rehashed_rows(
    before: Seq<Keyed>,
    after: Seq<Keyed>,
    names: Seq<Seq<char>>,
    detail: bool,
)
    ensures
        changes(partition_events(before, after, names, detail)) == rehashed(after, row_map(before)),
{
    after_changes(row_map(before), after, names, detail);
    removals_change_nothing(ordered(before), row_map(after).dom());
    changes_join(
        after_events(row_map(before), after, names, detail),
        removed_events(ordered(before), row_map(after).dom()),
    );
}

/// The rows of the first `n` partitions.
spec fn rows_below(n: int, rows: Seq<Keyed>) -> Seq<Keyed>
    decreases rows.len(),
{
    if rows.len() == 0 {
        Seq::empty()
    } else if partition_of(rows.last().0) < n {
        rows_below(n, rows.drop_last()).push(rows.last())
    } else {
        rows_below(n, rows.drop_last())
    }
}

proof fn one_more_partition(n: int, rows: Seq<Keyed>, others: Seq<Keyed>)
    ensures
        outside(rows_below(n + 1, rows), row_map(others).dom()) == outside(
            rows_below(n, rows),
            row_map(others).dom(),
        ) + outside(rows_in(n, rows), row_map(rows_in(n, others)).dom()),
        rehashed(rows_below(n + 1, rows), row_map(others)) == rehashed(
            rows_below(n, rows),
            row_map(others),
        ) + rehashed(rows_in(n, rows), row_map(rows_in(n, others))),
    decreases rows.len(),
{
    if rows.len() > 0 {
        let rest = rows.drop_last();
        let row = rows.last();
        one_more_partition(n, rest, others);
        partitions_keep_their_keys(n, others, row.0);
        assert(rows_below(n + 1, rest).push(row).drop_last() =~= rows_below(n + 1, rest));
        assert(rows_below(n, rest).push(row).drop_last() =~= rows_below(n, rest));
        assert(rows_in(n, rest).push(row).drop_last() =~= rows_in(n, rest));
    }
}

proof fn all_below(rows: Seq<Keyed>)
    ensures
        rows_below(64, rows) == rows,
        rows_below(0, rows) == Seq::<Keyed>::empty(),
    decreases rows.len(),
{
    if rows.len() > 0 {
        all_below(rows.drop_last());
        assert(0 <= partition_of(rows.last().0) < 64);
        assert(rows.drop_last().push(rows.last()) =~= rows);
    }
}

proof fn counts_below(
    before: Seq<Keyed>,
    after: Seq<Keyed>,
    names: Seq<Seq<char>>,
    detail: bool,
    n: nat,
)
    ensures
        additions(events_by_partition(before, after, names, detail, n)) == outside(
            rows_below(n as int, after),
            row_map(before).dom(),
        ),
        removals(events_by_partition(before, after, names, detail, n)) == outside(
            rows_below(n as int, before),
            row_map(after).dom(),
        ),
        changes(events_by_partition(before, after, names, detail, n)) == rehashed(
            rows_below(n as int, after),
            row_map(before),
        ),
    decreases n,
{
    if n == 0 {
        all_below(before);
        all_below(after);
    } else {
        let p = n - 1;
        counts_below(before, after, names, detail, p as nat);
        diff_counts_keys_of_one_side(rows_in(p, before), rows_in(p, after), names, detail);
        diff_counts_rehashed_rows(rows_in(p, before), rows_in(p, after), names, detail);
        sums_join(
            events_by_partition(before, after, names, detail, p as nat),
            partition_events(rows_in(p, before), rows_in(p, after), names, detail),
        );
        changes_join(
            events_by_partition(before, after, names, detail, p as nat),
            partition_events(rows_in(p, before), rows_in(p, after), names, detail),
        );
        one_more_partition(p, after, before);
        one_more_partition(p, before, after);
    }
}

/// Over all partitions, a diff of two datasets counts as added the rows whose keys are only
/// after, as removed those whose keys are only before, and as changed those whose keys stand
/// on both sides under different hashes.
pub proof fn diff_counts_whole_datasets(
    before: Seq<Keyed>,
    after: Seq<Keyed>,
    names: Seq<Seq<char>>,
    detail: bool,
)
    ensures
        additions(events_by_partition(before, after, names, detail, PARTITIONS as nat)) == outside(
            after,
            row_map(before).dom(),
        ),
        removals(events_by_partition(before, after, names, detail, PARTITIONS as nat)) == outside(
            before,
            row_map(after).dom(),
        ),
        changes(events_by_partition(before, after, names, detail, PARTITIONS as nat)) == rehashed(
            after,
            row_map(before),
        ),
{
    counts_below(before, after, names, detail, 64);
    all_below(before);
    all_below(after);
}

} // verus!
