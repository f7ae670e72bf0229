//! What became of the rows of a partition.

use crate::bytes::from_le;
use crate::contract::ast::outcome;
use crate::diff::accumulate::{
    same_below, Accumulator, DiffEvent, EventView, Tally,
};
use crate::diff::budget::{
    ample, costs_front, memory_closed, memory_outcome, memory_taken, output_cost, output_room,
    room_for_event, tied,
};
use crate::diff::ledger::{sole, MemoryLedger, TempLedger, LEDGER_CHUNK_BYTES};
use crate::diff::partition::{all_rows, file_error, next_row, Keyed, PartitionReader};
use crate::diff::record::{PartitionLimits, RowEntry, RowView};
use crate::diff::samples::{ChangedRow, ChangedView};
use crate::diff::table::{distinct, ordered, row_map, row_map_holds_rows, KeySet, RowTable};
use crate::error::{ErrorView, ProofFrameError};
use crate::resource::{stop_when, ResourceAccount, ResourceKind};
use crate::text::{bytes_eq, text, texts, utf8};
use vstd::prelude::*;
use vstd::string::*;

verus! {

/// The bytes of values.
pub open spec fn value_bytes(values: Seq<Option<Seq<u8>>>) -> nat
    decreases values.len(),
{
    if values.len() == 0 {
        0
    } else {
        value_bytes(values.drop_last()) + (match values.last() {
            Some(b) => b.len(),
            None => 0,
        })
    }
}

/// The memory that a row takes while its partition is compared.
pub open spec fn row_cost(row: Keyed) -> nat {
    row.0.len() + utf8(row.1.display).len() + value_bytes(row.1.values) + row.1.values.len() * 24
        + 192
}

/// The memory that rows take.
pub open spec fn rows_cost(rows: Seq<Keyed>) -> nat
    decreases rows.len(),
{
    if rows.len() == 0 {
        0
    } else {
        rows_cost(rows.drop_last()) + row_cost(rows.last())
    }
}

/// The memory that the keys of rows take.
pub open spec fn keys_cost(rows: Seq<Keyed>) -> nat
    decreases rows.len(),
{
    if rows.len() == 0 {
        0
    } else {
        keys_cost(rows.drop_last()) + rows.last().0.len() + 64
    }
}

/// The memory that a row takes, as far as it can be counted.
pub fn estimated_entry_bytes(key: &[u8], entry: &RowEntry) -> (r: u64)
    ensures
        r == if row_cost((key@, entry@)) <= u64::MAX {
            row_cost((key@, entry@)) as int
        } else {
            u64::MAX as int
        },
{
    let mut values: u64 = 0;
    let ghost all = entry@.values;
    let mut i: usize = 0;
    assert(all.take(0) =~= Seq::empty());
    while i < entry.values.len()
        invariant
            i <= entry.values@.len(),
            all == entry@.values,
            values == if value_bytes(all.take(i as int)) <= u64::MAX {
                value_bytes(all.take(i as int)) as int
            } else {
                u64::MAX as int
            },
        decreases entry.values@.len() - i,
    {
        proof {
            assert(all.take(i + 1).drop_last() =~= all.take(i as int));
            assert(all.take(i + 1).last() == all[i as int]);
        }
        match &entry.values[i] {
            Some(b) => {
                values = values.saturating_add(b.len() as u64);
            },
            None => {},
        }
        i = i + 1;
    }
    assert(all.take(all.len() as int) =~= all);
    let display: u64 = entry.display_key.as_str().as_bytes().len() as u64;
    let slots: u64 = if entry.values.len() as u64 <= 768614336404564650 {
        entry.values.len() as u64 * 24
    } else {
        u64::MAX
    };
    (key.len() as u64).saturating_add(display).saturating_add(values).saturating_add(
        slots,
    ).saturating_add(192)
}

/// The names of the columns, among the first `n`, whose values differ.
pub open spec fn differing(
    before: Seq<Option<Seq<u8>>>,
    after: Seq<Option<Seq<u8>>>,
    names: Seq<Seq<char>>,
    n: nat,
) -> Seq<Seq<char>>
    decreases n,
{
    if n == 0 || n > before.len() || n > after.len() || n > names.len() {
        Seq::empty()
    } else {
        let rest = differing(before, after, names, (n - 1) as nat);
        if before[n - 1] != after[n - 1] {
            rest.push(names[n - 1])
        } else {
            rest
        }
    }
}

/// The number of columns that two rows and a list of names have in common.
pub open spec fn common_width(
    before: Seq<Option<Seq<u8>>>,
    after: Seq<Option<Seq<u8>>>,
    names: Seq<Seq<char>>,
) -> nat {
    let pair = if before.len() < after.len() {
        before.len()
    } else {
        after.len()
    };
    if pair < names.len() {
        pair
    } else {
        names.len()
    }
}

/// What became of a row after.
pub open spec fn event_of(
    before: Map<Seq<u8>, RowView>,
    row: Keyed,
    names: Seq<Seq<char>>,
    detail: bool,
) -> Option<EventView> {
    if !before.contains_key(row.0) {
        Some(EventView::Added(row.1.display))
    } else if before[row.0].hash != row.1.hash {
        Some(
            EventView::Changed(
                ChangedView {
                    key: row.1.display,
                    columns: if detail {
                        differing(
                            before[row.0].values,
                            row.1.values,
                            names,
                            common_width(before[row.0].values, row.1.values, names),
                        )
                    } else {
                        Seq::empty()
                    },
                },
            ),
        )
    } else {
        None
    }
}

/// What may have become of a row, as a list.
pub open spec fn listed(event: Option<EventView>) -> Seq<EventView> {
    match event {
        Some(e) => seq![e],
        None => Seq::empty(),
    }
}

/// What became of the rows after.
pub open spec fn after_events(
    before: Map<Seq<u8>, RowView>,
    rows: Seq<Keyed>,
    names: Seq<Seq<char>>,
    detail: bool,
) -> Seq<EventView>
    decreases rows.len(),
{
    if rows.len() == 0 {
        Seq::empty()
    } else {
        after_events(before, rows.drop_last(), names, detail) + listed(
            event_of(before, rows.last(), names, detail),
        )
    }
}

/// What became of the rows before: those whose keys are gone.
pub open spec fn removed_events(rows: Seq<Keyed>, after: Set<Seq<u8>>) -> Seq<EventView>
    decreases rows.len(),
{
    if rows.len() == 0 {
        Seq::empty()
    } else {
        let rest = removed_events(rows.drop_last(), after);
        if after.contains(rows.last().0) {
            rest
        } else {
            rest.push(EventView::Removed(rows.last().1.display))
        }
    }
}

/// What became of the rows of a partition: those after in their order, and the keys that
/// are gone in the order of the keys.
pub open spec fn partition_events(
    before: Seq<Keyed>,
    after: Seq<Keyed>,
    names: Seq<Seq<char>>,
    detail: bool,
) -> Seq<EventView> {
    after_events(row_map(before), after, names, detail) + removed_events(
        ordered(before),
        row_map(after).dom(),
    )
}

/// The rows of a payload with `n` records, up to the first that cannot be read.
pub open spec fn leading_rows(p: Seq<u8>, n: nat, limits: PartitionLimits) -> Seq<Keyed>
    decreases n,
{
    match next_row(p, n, limits) {
        Ok(Some((row, rest))) => if n == 0 {
            Seq::empty()
        } else {
            seq![row] + leading_rows(rest, (n - 1) as nat, limits)
        },
        _ => Seq::empty(),
    }
}

/// Why the first row of a payload that cannot be read cannot be, if there is one.
pub open spec fn read_failure(p: Seq<u8>, n: nat, limits: PartitionLimits) -> Option<Seq<char>>
    decreases n,
{
    match next_row(p, n, limits) {
        Err(m) => Some(m),
        Ok(None) => None,
        Ok(Some((row, rest))) => if n == 0 {
            None
        } else {
            read_failure(rest, (n - 1) as nat, limits)
        },
    }
}

/// A payload that can be read has no other rows than those that are read one by one.
proof fn rows_are_read(p: Seq<u8>, n: nat, limits: PartitionLimits)
    ensures
        match all_rows(p, n, limits) {
            Ok(rows) => read_failure(p, n, limits) is None && leading_rows(p, n, limits) == rows,
            Err(m) => read_failure(p, n, limits) == Some(m),
        },
    decreases n,
{
    match next_row(p, n, limits) {
        Ok(Some((row, rest))) => {
            if n > 0 {
                rows_are_read(rest, (n - 1) as nat, limits);
            }
        },
        _ => {},
    }
}

/// The place of the first row whose key stands in a row before it.
pub open spec fn first_repeat(rows: Seq<Keyed>) -> Option<int>
    decreases rows.len(),
{
    if rows.len() == 0 {
        None
    } else {
        match first_repeat(rows.drop_last()) {
            Some(i) => Some(i),
            None => if row_map(rows.drop_last()).contains_key(rows.last().0) {
                Some(rows.len() - 1)
            } else {
                None
            },
        }
    }
}

/// The rows up to the first that repeats a key, that one with them.
pub open spec fn reached(rows: Seq<Keyed>) -> Seq<Keyed> {
    match first_repeat(rows) {
        Some(i) => rows.take(i + 1),
        None => rows,
    }
}

/// What is wrong with rows that are read one by one: a key that repeats, or what follows them.
pub open spec fn rows_error(rows: Seq<Keyed>, failure: Option<Seq<char>>) -> Option<ErrorView> {
    match first_repeat(rows) {
        Some(i) => Some(ErrorView::DuplicateKey(rows[i].1.display)),
        None => match failure {
            Some(m) => Some(ErrorView::CorruptData(m)),
            None => None,
        },
    }
}

/// Rows without a repeat have distinct keys.
proof fn no_repeat_is_distinct(rows: Seq<Keyed>)
    ensures
        first_repeat(rows) is None <==> distinct(rows),
        first_repeat(rows) matches Some(i) ==> 0 <= i < rows.len(),
    decreases rows.len(),
{
    if rows.len() > 0 {
        let rest = rows.drop_last();
        no_repeat_is_distinct(rest);
        assert(rest.push(rows.last()) =~= rows);
        if distinct(rest) {
            distinct_push(rest, rows.last());
        } else if distinct(rows) {
            distinct_prefix(rows, rows.len() - 1);
            assert(rows.take(rows.len() - 1) =~= rest);
        }
    }
}

/// After rows with distinct keys the next one is reached, and it is the first to repeat a key
/// where it repeats one.
proof fn next_is_reached(rows: Seq<Keyed>, n: int)
    requires
        0 <= n < rows.len(),
        distinct(rows.take(n)),
    ensures
        n < reached(rows).len(),
        reached(rows)[n] == rows[n],
        row_map(rows.take(n)).contains_key(rows[n].0) ==> first_repeat(rows) == Some(n),
    decreases rows.len(),
{
    let rest = rows.drop_last();
    no_repeat_is_distinct(rows);
    no_repeat_is_distinct(rest);
    if n < rest.len() {
        assert(rest.take(n) =~= rows.take(n));
        next_is_reached(rest, n);
    } else {
        assert(rows.take(n) =~= rest);
    }
}

/// What is left of a partition after a row of it.
proof fn rows_step(
    done: Seq<Keyed>,
    p: Seq<u8>,
    n: nat,
    limits: PartitionLimits,
    lead: Seq<Keyed>,
    failure: Option<Seq<char>>,
)
    requires
        lead == done + leading_rows(p, n, limits),
        failure == read_failure(p, n, limits),
        distinct(done),
    ensures
        lead.take(done.len() as int) == done,
        match next_row(p, n, limits) {
            Err(m) => lead == done && failure == Some(m) && first_repeat(lead) is None,
            Ok(None) => lead == done && failure is None && first_repeat(lead) is None,
            Ok(Some((row, rest))) => {
                &&& n > 0
                &&& lead == done.push(row) + leading_rows(rest, (n - 1) as nat, limits)
                &&& failure == read_failure(rest, (n - 1) as nat, limits)
                &&& done.len() < lead.len()
                &&& lead[done.len() as int] == row
                &&& done.len() < reached(lead).len()
                &&& reached(lead)[done.len() as int] == row
                &&& row_map(done).contains_key(row.0) ==> first_repeat(lead) == Some(
                    done.len() as int,
                )
            },
        },
{
    assert(lead.take(done.len() as int) =~= done);
    no_repeat_is_distinct(done);
    match next_row(p, n, limits) {
        Ok(Some((row, rest))) => {
            let more = leading_rows(rest, (n - 1) as nat, limits);
            assert(done + (seq![row] + more) =~= done.push(row) + more);
            next_is_reached(lead, done.len() as int);
        },
        _ => {
            assert(done + Seq::<Keyed>::empty() =~= done);
        },
    }
}

proof fn distinct_prefix(rows: Seq<Keyed>, n: int)
    requires
        distinct(rows),
        0 <= n <= rows.len(),
    ensures
        distinct(rows.take(n)),
{
    let short = rows.take(n);
    assert forall|i: int, j: int| 0 <= i < j < short.len() implies (#[trigger] short[i]).0 != (
    #[trigger] short[j]).0 by {
        assert(short[i] == rows[i]);
        assert(short[j] == rows[j]);
    }
}

/// A row whose key is among rows before it makes them repeat a key; one whose key is not
/// does not.
proof fn distinct_push(rows: Seq<Keyed>, row: Keyed)
    requires
        distinct(rows),
    ensures
        distinct(rows.push(row)) <==> !row_map(rows).contains_key(row.0),
{
    row_map_holds_rows(rows);
    let more = rows.push(row);
    if row_map(rows).contains_key(row.0) {
        let i = choose|i: int| 0 <= i < rows.len() && (#[trigger] rows[i]).0 == row.0;
        assert(more[i].0 == more[rows.len() as int].0);
    } else {
        assert forall|i: int, j: int| 0 <= i < j < more.len() implies (#[trigger] more[i]).0 != (
        #[trigger] more[j]).0 by {
            assert(more[i] == rows[i]);
            if j < rows.len() {
                assert(more[j] == rows[j]);
            }
        }
    }
}

proof fn rows_cost_split(rows: Seq<Keyed>, n: int)
    requires
        0 <= n < rows.len(),
    ensures
        rows_cost(rows.skip(n)) == row_cost(rows[n]) + rows_cost(rows.skip(n + 1)),
        keys_cost(rows.skip(n)) == rows[n].0.len() + 64 + keys_cost(rows.skip(n + 1)),
    decreases rows.len(),
{
    let s = rows.skip(n);
    if n == rows.len() - 1 {
        assert(s.drop_last() =~= Seq::empty());
        assert(rows.skip(n + 1) =~= Seq::empty());
    } else {
        let short = rows.drop_last();
        rows_cost_split(short, n);
        assert(s.drop_last() =~= short.skip(n));
        assert(rows.skip(n + 1).drop_last() =~= short.skip(n + 1));
        assert(rows.skip(n + 1).last() == rows.last());
        assert(s.last() == rows.last());
    }
}

/// Reads the rows before into a table.
#[verifier::spinoff_prover]
#[verifier::rlimit(80)]
fn load_before(
    reader: PartitionReader,
    account: &mut ResourceAccount,
    temp: &TempLedger,
    memory: &mut MemoryLedger,
    Ghost(spare): Ghost<nat>,
    Ghost(cost): Ghost<nat>,
) -> (r: Result<RowTable, ProofFrameError>)
    requires
        reader.wf(),
        sole(*old(account), *temp),
        tied(*old(account), *old(memory)),
    ensures
        sole(*final(account), *temp),
        tied(*final(account), *final(memory)),
        final(memory).at() == old(memory).at(),
        final(account).spec_limits() == old(account).spec_limits(),
        final(account).nodes().len() == old(account).nodes().len(),
        final(account).nodes()[0].used(ResourceKind::Memory) - final(memory).taken() == old(
            account,
        ).nodes()[0].used(ResourceKind::Memory) - old(memory).taken(),
        ({
            let lead = leading_rows(reader.rest(), reader.left() as nat, reader.spec_limits());
            let error = rows_error(
                lead,
                read_failure(reader.rest(), reader.left() as nat, reader.spec_limits()),
            );
            &&& r matches Ok(table) ==> error is None && table.wf() && distinct(lead)
                && table.rows() == ordered(lead) && row_map(table.rows()) == row_map(lead)
            &&& r matches Err(e) ==> error == Some(e@) || e@ is ResourceLimit
            &&& ample(
                *old(account),
                *old(memory),
                rows_cost(reached(lead)) + spare,
                cost,
            ) ==> outcome(r, error) && (r is Ok ==> ample(
                *final(account),
                *final(memory),
                spare,
                cost,
            ))
        }),
{
    let mut cursor = reader;
    let ghost limits = reader.spec_limits();
    let ghost lead = leading_rows(reader.rest(), reader.left() as nat, limits);
    let ghost failure = read_failure(reader.rest(), reader.left() as nat, limits);
    let ghost rows = reached(lead);
    let ghost ready = ample(*account, *memory, rows_cost(rows) + spare, cost);
    let mut table = RowTable::new();
    let ghost mut done: Seq<Keyed> = Seq::empty();
    proof {
        assert(done + lead =~= lead);
        assert(rows.skip(0) =~= rows);
    }
    loop
        invariant
            limits == reader.spec_limits(),
            lead == leading_rows(reader.rest(), reader.left() as nat, limits),
            failure == read_failure(reader.rest(), reader.left() as nat, limits),
            rows == reached(lead),
            ready == ample(*old(account), *old(memory), rows_cost(rows) + spare, cost),
            cursor.wf(),
            cursor.spec_limits() == limits,
            sole(*account, *temp),
            tied(*account, *memory),
            memory.at() == old(memory).at(),
            account.spec_limits() == old(account).spec_limits(),
            account.nodes().len() == old(account).nodes().len(),
            account.nodes()[0].used(ResourceKind::Memory) - memory.taken() == old(
                account,
            ).nodes()[0].used(ResourceKind::Memory) - old(memory).taken(),
            lead == done + leading_rows(cursor.rest(), cursor.left() as nat, limits),
            failure == read_failure(cursor.rest(), cursor.left() as nat, limits),
            distinct(done),
            table.wf(),
            table.rows() == ordered(done),
            row_map(table.rows()) == row_map(done),
            ready ==> ample(
                *account,
                *memory,
                rows_cost(rows.skip(done.len() as int)) + spare,
                cost,
            ),
        decreases cursor.left(),
    {
        let ghost p = cursor.rest();
        let ghost n = cursor.left() as nat;
        proof {
            rows_step(done, p, n, limits, lead, failure);
        }
        match cursor.next()? {
            None => {
                proof {
                    assert(rows.skip(done.len() as int) =~= Seq::empty());
                }
                return Ok(table);
            },
            Some((key, entry)) => {
                let ghost row = (key@, entry@);
                let ghost more = done.push(row);
                proof {
                    distinct_push(done, row);
                    assert(more.drop_last() =~= done);
                    rows_cost_split(rows, done.len() as int);
                }
                let bytes: u64 = estimated_entry_bytes(key.as_slice(), &entry);
                let ghost before_account = *account;
                let ghost before_memory = *memory;
                let taken = memory.reserve_additional(account, bytes);
                proof {
                    memory_taken(
                        before_account,
                        *account,
                        before_memory,
                        *memory,
                        bytes,
                        taken,
                    );
                    if ready {
                        let need = rows_cost(rows.skip(done.len() as int)) + spare;
                        assert(ample(before_account, before_memory, need, cost));
                        assert(row_cost(row) <= u64::MAX);
                        assert(need >= bytes);
                        assert(need - bytes == rows_cost(rows.skip(more.len() as int)) + spare);
                    }
                }
                taken?;
                let display = entry.display_key.clone();
                if !table.insert(key, entry) {
                    return Err(ProofFrameError::DuplicateKey(display));
                }
                proof {
                    done = more;
                }
            },
        }
    }
}

/// Events are those of the first row and those of the rest.
proof fn after_events_split(
    before: Map<Seq<u8>, RowView>,
    rows: Seq<Keyed>,
    names: Seq<Seq<char>>,
    detail: bool,
    n: int,
)
    requires
        0 <= n < rows.len(),
    ensures
        after_events(before, rows.skip(n), names, detail) == listed(
            event_of(before, rows[n], names, detail),
        ) + after_events(before, rows.skip(n + 1), names, detail),
    decreases rows.len(),
{
    let s = rows.skip(n);
    let first = listed(event_of(before, rows[n], names, detail));
    if n == rows.len() - 1 {
        assert(s.drop_last() =~= Seq::empty());
        assert(rows.skip(n + 1) =~= Seq::empty());
        assert(after_events(before, s, names, detail) =~= first + after_events(
            before,
            rows.skip(n + 1),
            names,
            detail,
        ));
    } else {
        let short = rows.drop_last();
        after_events_split(before, short, names, detail, n);
        assert(s.drop_last() =~= short.skip(n));
        assert(rows.skip(n + 1).drop_last() =~= short.skip(n + 1));
        assert(rows.skip(n + 1).last() == rows.last());
        assert(s.last() == rows.last());
        assert(after_events(before, s, names, detail) =~= first + after_events(
            before,
            rows.skip(n + 1),
            names,
            detail,
        ));
    }
}

/// The events of an accumulator with an output, or none.
pub open spec fn for_output(acc: Accumulator, events: Seq<EventView>) -> Seq<EventView> {
    if acc.output() is Some {
        events
    } else {
        Seq::empty()
    }
}

/// What a diff has after more events.
pub open spec fn grown(before: Accumulator, after: Accumulator, events: Seq<EventView>) -> bool {
    &&& after.wf()
    &&& after.limit() == before.limit()
    &&& after.subject() == before.subject()
    &&& after.output() is Some <==> before.output() is Some
    &&& after.tally() == before.tally().with_all(events, before.limit())
    &&& after.events() == before.events() + for_output(before, events)
}

proof fn grown_more(
    start: Accumulator,
    before: Accumulator,
    after: Accumulator,
    events: Seq<EventView>,
    event: EventView,
)
    requires
        grown(start, before, events),
        after.wf(),
        after.limit() == before.limit(),
        after.subject() == before.subject(),
        after.output() is Some <==> before.output() is Some,
        after.tally() == before.tally().with(event, before.limit()),
        after.events() == if before.output() is Some {
            before.events().push(event)
        } else {
            before.events()
        },
    ensures
        grown(start, after, events.push(event)),
{
    let more = events.push(event);
    assert(more.drop_last() =~= events);
    if start.output() is Some {
        assert(after.events() =~= start.events() + more);
    }
}

/// Memory and output that were enough for an event and more are enough for the rest once
/// it is recorded.
proof fn room_after_event(
    acc: Accumulator,
    later: Accumulator,
    account: ResourceAccount,
    after: ResourceAccount,
    temp: TempLedger,
    late: TempLedger,
    memory: MemoryLedger,
    events: Seq<EventView>,
    need: nat,
)
    requires
        events.len() > 0,
        tied(account, memory),
        after.wf(),
        after.spec_limits() == account.spec_limits(),
        same_below(account.nodes(), after.nodes()),
        after.nodes()[0].used(ResourceKind::Memory) == account.nodes()[0].used(
            ResourceKind::Memory,
        ) + acc.growth(events[0]),
        later.written().1 == acc.written().1,
        later.written().0 == acc.written().0 + (if acc.output() is Some {
            1int
        } else {
            0
        }),
        match (acc.output(), later.output()) {
            (Some(a), Some(b)) => b.is_arrow() == a.is_arrow() && late.in_use() == temp.in_use()
                + events[0].cost(a.is_arrow()),
            (None, None) => true,
            _ => false,
        },
    ensures
        tied(after, memory),
        ample(account, memory, need, output_cost(acc, events)) ==> ample(
            after,
            memory,
            need,
            output_cost(later, events.drop_first()),
        ),
        output_room(acc, account, temp, events) ==> output_room(
            later,
            after,
            late,
            events.drop_first(),
        ),
{
    match acc.output() {
        Some(sink) => {
            costs_front(events, sink.is_arrow());
            assert(sink.growth(events[0]) <= events[0].cost(sink.is_arrow()));
        },
        None => {},
    }
}

/// The names of the columns whose values differ between two rows.
fn changed_columns(before: &RowEntry, after: &RowEntry, names: &Vec<String>) -> (r: Vec<String>)
    ensures
        texts(r@) == differing(
            before@.values,
            after@.values,
            texts(names@),
            common_width(before@.values, after@.values, texts(names@)),
        ),
{
    let pair: usize = if before.values.len() < after.values.len() {
        before.values.len()
    } else {
        after.values.len()
    };
    let width: usize = if pair < names.len() {
        pair
    } else {
        names.len()
    };
    let mut out: Vec<String> = Vec::new();
    assert(texts(out@) =~= Seq::empty());
    let mut i: usize = 0;
    while i < width
        invariant
            i <= width,
            width == common_width(before@.values, after@.values, texts(names@)),
            texts(out@) == differing(before@.values, after@.values, texts(names@), i as nat),
        decreases width - i,
    {
        let same = match (&before.values[i], &after.values[i]) {
            (Some(a), Some(b)) => bytes_eq(a.as_slice(), b.as_slice()),
            (None, None) => true,
            _ => false,
        };
        assert(same == (before@.values[i as int] == after@.values[i as int]));
        if !same {
            let ghost named = out@;
            out.push(names[i].clone());
            assert(texts(out@) =~= texts(named).push(texts(names@)[i as int]));
        }
        i = i + 1;
    }
    out
}

/// What became of one row after.
fn compare_row(
    table: &RowTable,
    key: &[u8],
    entry: RowEntry,
    names: &Vec<String>,
    detail: bool,
) -> (r: Option<DiffEvent>)
    requires
        table.wf(),
    ensures
        match event_of(row_map(table.rows()), (key@, entry@), texts(names@), detail) {
            Some(e) => r matches Some(x) && x@ == e,
            None => r is None,
        },
{
    match table.get(key) {
        None => Some(DiffEvent::Added(entry.display_key)),
        Some(before) => {
            if bytes_eq(before.hash.as_slice(), entry.hash.as_slice()) {
                None
            } else {
                let columns = if detail {
                    changed_columns(before, &entry, names)
                } else {
                    Vec::new()
                };
                proof {
                    if !detail {
                        assert(texts(columns@) =~= Seq::empty());
                    }
                }
                let row = ChangedRow { key: entry.display_key, columns };
                Some(DiffEvent::Changed(row))
            }
        },
    }
}

/// Why an event may not be recorded: a limit, or a number that leaves those of the machine.
pub open spec fn unnoted(e: ErrorView) -> bool {
    ||| e is ResourceLimit
    ||| e == ErrorView::CorruptData("Diff row count overflowed"@)
    ||| e == ErrorView::CorruptData("Arrow diff event is too large"@)
    ||| e == ErrorView::CorruptData("Diff output record is too large"@)
}

/// Records the first of some events.
fn note(
    acc: &mut Accumulator,
    event: DiffEvent,
    account: &mut ResourceAccount,
    temp: &mut TempLedger,
    memory: &MemoryLedger,
    Ghost(events): Ghost<Seq<EventView>>,
    Ghost(need): Ghost<nat>,
) -> (r: Result<(), ProofFrameError>)
    requires
        old(acc).wf(),
        sole(*old(account), *old(temp)),
        tied(*old(account), *memory),
        events.len() > 0,
        events[0] == event@,
    ensures
        sole(*final(account), *final(temp)),
        tied(*final(account), *memory),
        final(account).spec_limits() == old(account).spec_limits(),
        final(account).nodes().len() == old(account).nodes().len(),
        final(acc).subject() == old(acc).subject(),
        r is Ok ==> {
            &&& final(acc).wf()
            &&& final(acc).limit() == old(acc).limit()
            &&& final(acc).output() is Some <==> old(acc).output() is Some
            &&& final(acc).tally() == old(acc).tally().with(event@, old(acc).limit())
            &&& final(acc).events() == if old(acc).output() is Some {
                old(acc).events().push(event@)
            } else {
                old(acc).events()
            }
        },
        output_room(*old(acc), *old(account), *old(temp), events) && ample(
            *old(account),
            *memory,
            need,
            output_cost(*old(acc), events),
        ) && old(acc).tally().total() < usize::MAX ==> r is Ok && output_room(
            *final(acc),
            *final(account),
            *final(temp),
            events.drop_first(),
        ) && ample(*final(account), *memory, need, output_cost(*final(acc), events.drop_first())),
        r matches Err(e) ==> unnoted(e@),
{
    if !acc.has_room() {
        return Err(ProofFrameError::CorruptData(text("Diff row count overflowed")));
    }
    let ghost start = *acc;
    let ghost before = *account;
    let ghost early = *temp;
    proof {
        if output_room(start, before, early, events) && ample(
            before,
            *memory,
            need,
            output_cost(start, events),
        ) {
            room_for_event(start, before, early, *memory, events, need);
        }
    }
    let done = acc.record(event, account, temp);
    proof {
        assert(tied(*account, *memory));
        if done is Ok {
            room_after_event(
                start,
                *acc,
                before,
                *account,
                early,
                *temp,
                *memory,
                events,
                need,
            );
        }
    }
    done
}

/// Whether there is room for events, and for `need` more bytes of rows.
pub open spec fn ready_for(
    acc: Accumulator,
    account: ResourceAccount,
    temp: TempLedger,
    memory: MemoryLedger,
    events: Seq<EventView>,
    need: nat,
) -> bool {
    &&& output_room(acc, account, temp, events)
    &&& ample(account, memory, need, output_cost(acc, events))
    &&& acc.tally().total() + events.len() <= usize::MAX
}

/// Taking memory changes nothing that an output has room for.
proof fn ready_after_memory(
    acc: Accumulator,
    before: ResourceAccount,
    after: ResourceAccount,
    temp: TempLedger,
    early: MemoryLedger,
    late: MemoryLedger,
    events: Seq<EventView>,
    need: nat,
    bytes: u64,
    r: Result<(), ProofFrameError>,
)
    requires
        sole(before, temp),
        tied(before, early),
        late.wf(),
        late.at() == early.at(),
        outcome(r, crate::diff::budget::memory_refusal(before, early, bytes)),
        memory_outcome(before, after, early, late, bytes, r),
        need >= bytes,
    ensures
        sole(after, temp),
        tied(after, late),
        after.nodes().len() == before.nodes().len(),
        r matches Err(e) ==> e@ is ResourceLimit,
        ready_for(acc, before, temp, early, events, need) ==> r is Ok && ready_for(
            acc,
            after,
            temp,
            late,
            events,
            (need - bytes) as nat,
        ),
{
    memory_taken(before, after, early, late, bytes, r);
    let cost = output_cost(acc, events);
    assert(ample(before, early, need, cost) ==> r is Ok && ample(
        after,
        late,
        (need - bytes) as nat,
        cost,
    ));
}

/// What became of one row after, and what the diff has of it.
fn scan_row(
    table: &RowTable,
    key: Vec<u8>,
    entry: RowEntry,
    names: &Vec<String>,
    acc: &mut Accumulator,
    account: &mut ResourceAccount,
    temp: &mut TempLedger,
    memory: &mut MemoryLedger,
    Ghost(later): Ghost<Seq<EventView>>,
    Ghost(need): Ghost<nat>,
) -> (r: Result<(), ProofFrameError>)
    requires
        table.wf(),
        old(acc).wf(),
        sole(*old(account), *old(temp)),
        tied(*old(account), *old(memory)),
    ensures
        sole(*final(account), *final(temp)),
        tied(*final(account), *final(memory)),
        final(memory).at() == old(memory).at(),
        final(account).spec_limits() == old(account).spec_limits(),
        final(account).nodes().len() == old(account).nodes().len(),
        final(acc).subject() == old(acc).subject(),
        ({
            let event = event_of(
                row_map(table.rows()),
                (key@, entry@),
                texts(names@),
                old(acc).wants_detail(),
            );
            &&& r is Ok ==> grown(*old(acc), *final(acc), listed(event))
            &&& ready_for(
                *old(acc),
                *old(account),
                *old(temp),
                *old(memory),
                listed(event) + later,
                key@.len() + 64 + need,
            ) ==> r is Ok && ready_for(
                *final(acc),
                *final(account),
                *final(temp),
                *final(memory),
                later,
                need,
            )
        }),
        r matches Err(e) ==> unnoted(e@),
{
    let ghost row = (key@, entry@);
    let detail = acc.needs_changed_detail();
    let ghost event = event_of(row_map(table.rows()), row, texts(names@), detail);
    let ghost events = listed(event) + later;
    let bytes: u64 = (key.len() as u64).saturating_add(64);
    let ghost before = *account;
    let ghost early = *memory;
    let taken = memory.reserve_additional(account, bytes);
    proof {
        ready_after_memory(
            *acc,
            before,
            *account,
            *temp,
            early,
            *memory,
            events,
            key@.len() + 64 + need,
            bytes,
            taken,
        );
        if ready_for(*old(acc), before, *temp, early, events, key@.len() + 64 + need) {
            assert(bytes == key@.len() + 64);
        }
    }
    taken?;
    let found = compare_row(table, key.as_slice(), entry, names, detail);
    match found {
        None => {
            proof {
                assert(events =~= later);
                assert(acc.events() + for_output(*acc, listed(event)) =~= acc.events());
            }
            Ok(())
        },
        Some(what) => {
            let ghost start = *acc;
            let done = note(acc, what, account, temp, memory, Ghost(events), Ghost(need));
            proof {
                assert(events.drop_first() =~= later);
                if done is Ok {
                    let none: Seq<EventView> = Seq::empty();
                    assert(start.events() + for_output(start, none) =~= start.events());
                    assert(grown(start, start, none));
                    grown_more(start, start, *acc, none, what@);
                    assert(none.push(what@) =~= listed(event));
                    assert(acc.tally().total() == start.tally().total() + 1);
                }
            }
            done
        },
    }
}

proof fn with_all_joins(tally: Tally, a: Seq<EventView>, b: Seq<EventView>, limit: nat)
    ensures
        tally.with_all(a + b, limit) == tally.with_all(a, limit).with_all(b, limit),
    decreases b.len(),
{
    if b.len() == 0 {
        assert(a + b =~= a);
    } else {
        with_all_joins(tally, a, b.drop_last(), limit);
        assert((a + b).drop_last() =~= a + b.drop_last());
    }
}

proof fn grown_twice(
    start: Accumulator,
    middle: Accumulator,
    end: Accumulator,
    a: Seq<EventView>,
    b: Seq<EventView>,
)
    requires
        grown(start, middle, a),
        grown(middle, end, b),
    ensures
        grown(start, end, a + b),
{
    with_all_joins(start.tally(), a, b, start.limit());
    assert(end.events() =~= start.events() + for_output(start, a + b));
}

/// Reads the rows after, and notes what became of each.
#[verifier::spinoff_prover]
#[verifier::rlimit(80)]
fn scan_after(
    reader: PartitionReader,
    table: &RowTable,
    names: &Vec<String>,
    acc: &mut Accumulator,
    account: &mut ResourceAccount,
    temp: &mut TempLedger,
    memory: &mut MemoryLedger,
    Ghost(later): Ghost<spec_fn(Seq<Keyed>) -> Seq<EventView>>,
) -> (r: Result<KeySet, ProofFrameError>)
    requires
        reader.wf(),
        table.wf(),
        old(acc).wf(),
        sole(*old(account), *old(temp)),
        tied(*old(account), *old(memory)),
    ensures
        sole(*final(account), *final(temp)),
        tied(*final(account), *final(memory)),
        final(memory).at() == old(memory).at(),
        final(account).spec_limits() == old(account).spec_limits(),
        final(account).nodes().len() == old(account).nodes().len(),
        final(acc).subject() == old(acc).subject(),
        ({
            let lead = leading_rows(reader.rest(), reader.left() as nat, reader.spec_limits());
            let error = rows_error(
                lead,
                read_failure(reader.rest(), reader.left() as nat, reader.spec_limits()),
            );
            let rows = reached(lead);
            let events = after_events(
                row_map(table.rows()),
                rows,
                texts(names@),
                old(acc).wants_detail(),
            );
            &&& r matches Ok(seen) ==> error is None && rows == lead && distinct(rows) && seen.wf()
                && seen@ == row_map(rows).dom() && grown(*old(acc), *final(acc), events)
            &&& r matches Err(e) ==> error == Some(e@) || unnoted(e@)
            &&& ready_for(
                *old(acc),
                *old(account),
                *old(temp),
                *old(memory),
                events + later(rows),
                keys_cost(rows),
            ) ==> outcome(r, error) && (r is Ok ==> ready_for(
                *final(acc),
                *final(account),
                *final(temp),
                *final(memory),
                later(rows),
                0,
            ))
        }),
{
    let mut cursor = reader;
    let ghost limits = reader.spec_limits();
    let ghost lead = leading_rows(reader.rest(), reader.left() as nat, limits);
    let ghost failure = read_failure(reader.rest(), reader.left() as nat, limits);
    let ghost rows = reached(lead);
    let ghost map = row_map(table.rows());
    let ghost labels = texts(names@);
    let ghost detail = acc.wants_detail();
    let ghost ready = ready_for(
        *acc,
        *account,
        *temp,
        *memory,
        after_events(map, rows, labels, detail) + later(rows),
        keys_cost(rows),
    );
    let mut seen = KeySet::new();
    let ghost mut done: Seq<Keyed> = Seq::empty();
    proof {
        assert(done + lead =~= lead);
        assert(rows.skip(0) =~= rows);
        assert(seen@ =~= row_map(done).dom());
        assert(acc.events() + for_output(*acc, Seq::empty()) =~= acc.events());
        assert(grown(*old(acc), *acc, after_events(map, done, labels, detail)));
    }
    loop
        invariant
            table.wf(),
            limits == reader.spec_limits(),
            lead == leading_rows(reader.rest(), reader.left() as nat, limits),
            failure == read_failure(reader.rest(), reader.left() as nat, limits),
            rows == reached(lead),
            map == row_map(table.rows()),
            labels == texts(names@),
            detail == old(acc).wants_detail(),
            ready == ready_for(
                *old(acc),
                *old(account),
                *old(temp),
                *old(memory),
                after_events(map, rows, labels, detail) + later(rows),
                keys_cost(rows),
            ),
            cursor.wf(),
            cursor.spec_limits() == limits,
            sole(*account, *temp),
            tied(*account, *memory),
            memory.at() == old(memory).at(),
            account.spec_limits() == old(account).spec_limits(),
            account.nodes().len() == old(account).nodes().len(),
            lead == done + leading_rows(cursor.rest(), cursor.left() as nat, limits),
            failure == read_failure(cursor.rest(), cursor.left() as nat, limits),
            distinct(done),
            seen.wf(),
            seen@ == row_map(done).dom(),
            grown(*old(acc), *acc, after_events(map, done, labels, detail)),
            ready ==> ready_for(
                *acc,
                *account,
                *temp,
                *memory,
                after_events(map, rows.skip(done.len() as int), labels, detail) + later(rows),
                keys_cost(rows.skip(done.len() as int)),
            ),
        decreases cursor.left(),
    {
        proof {
            rows_step(done, cursor.rest(), cursor.left() as nat, limits, lead, failure);
        }
        match cursor.next()? {
            None => {
                proof {
                    if ready {
                        assert(rows.skip(done.len() as int) =~= Seq::empty());
                        assert(after_events(
                            map,
                            rows.skip(done.len() as int),
                            labels,
                            detail,
                        ) + later(rows) =~= later(rows));
                    }
                }
                return Ok(seen);
            },
            Some((key, entry)) => {
                let ghost row = (key@, entry@);
                let ghost more = done.push(row);
                let ghost rest_events = after_events(
                    map,
                    rows.skip(more.len() as int),
                    labels,
                    detail,
                ) + later(rows);
                let ghost event = event_of(map, row, labels, detail);
                proof {
                    distinct_push(done, row);
                    assert(more.drop_last() =~= done);
                    rows_cost_split(rows, done.len() as int);
                    after_events_split(map, rows, labels, detail, done.len() as int);
                    assert(after_events(
                        map,
                        rows.skip(done.len() as int),
                        labels,
                        detail,
                    ) + later(rows) =~= listed(event) + rest_events);
                }
                if !seen.insert(key.as_slice()) {
                    return Err(ProofFrameError::DuplicateKey(entry.display_key));
                }
                let ghost middle = *acc;
                scan_row(
                    table,
                    key,
                    entry,
                    names,
                    acc,
                    account,
                    temp,
                    memory,
                    Ghost(rest_events),
                    Ghost(keys_cost(rows.skip(more.len() as int))),
                )?;
                proof {
                    grown_twice(
                        *old(acc),
                        middle,
                        *acc,
                        after_events(map, done, labels, detail),
                        listed(event),
                    );
                    assert(seen@ =~= row_map(more).dom());
                    done = more;
                }
            },
        }
    }
}

proof fn removed_events_split(rows: Seq<Keyed>, after: Set<Seq<u8>>, n: int)
    requires
        0 <= n < rows.len(),
    ensures
        removed_events(rows.skip(n), after) == listed(
            if after.contains(rows[n].0) {
                None
            } else {
                Some(EventView::Removed(rows[n].1.display))
            },
        ) + removed_events(rows.skip(n + 1), after),
    decreases rows.len(),
{
    let s = rows.skip(n);
    let first = listed(
        if after.contains(rows[n].0) {
            None
        } else {
            Some(EventView::Removed(rows[n].1.display))
        },
    );
    if n == rows.len() - 1 {
        assert(s.drop_last() =~= Seq::empty());
        assert(rows.skip(n + 1) =~= Seq::empty());
        assert(removed_events(s, after) =~= first + removed_events(rows.skip(n + 1), after));
    } else {
        let short = rows.drop_last();
        removed_events_split(short, after, n);
        assert(s.drop_last() =~= short.skip(n));
        assert(rows.skip(n + 1).drop_last() =~= short.skip(n + 1));
        assert(rows.skip(n + 1).last() == rows.last());
        assert(s.last() == rows.last());
        assert(removed_events(s, after) =~= first + removed_events(rows.skip(n + 1), after));
    }
}

/// Notes the rows before whose keys are gone.
#[verifier::spinoff_prover]
#[verifier::rlimit(60)]
fn list_removed(
    table: &RowTable,
    seen: &KeySet,
    acc: &mut Accumulator,
    account: &mut ResourceAccount,
    temp: &mut TempLedger,
    memory: &MemoryLedger,
    cancelled: bool,
) -> (r: Result<(), ProofFrameError>)
    requires
        table.wf(),
        seen.wf(),
        old(acc).wf(),
        sole(*old(account), *old(temp)),
        tied(*old(account), *memory),
    ensures
        sole(*final(account), *final(temp)),
        tied(*final(account), *memory),
        final(account).spec_limits() == old(account).spec_limits(),
        final(account).nodes().len() == old(account).nodes().len(),
        final(acc).subject() == old(acc).subject(),
        r is Ok ==> grown(*old(acc), *final(acc), removed_events(table.rows(), seen@)),
        r is Ok && table.rows().len() > 0 ==> !cancelled,
        !cancelled && ready_for(
            *old(acc),
            *old(account),
            *old(temp),
            *memory,
            removed_events(table.rows(), seen@),
            0,
        ) ==> r is Ok,
        cancelled && table.rows().len() > 0 ==> (r matches Err(e) && e@ == ErrorView::Cancelled),
        table.rows().len() == 0 ==> r is Ok,
        r matches Err(e) ==> unnoted(e@) || (e@ == ErrorView::Cancelled && cancelled),
{
    let ghost rows = table.rows();
    let ghost ready = ready_for(
        *acc,
        *account,
        *temp,
        *memory,
        removed_events(rows, seen@),
        0,
    );
    let mut i: usize = 0;
    proof {
        assert(rows.skip(0) =~= rows);
        assert(rows.take(0) =~= Seq::empty());
        assert(acc.events() + for_output(*acc, Seq::empty()) =~= acc.events());
        assert(grown(*old(acc), *acc, removed_events(rows.take(0), seen@)));
    }
    while i < table.keys.len()
        invariant
            i <= table.keys@.len(),
            table.wf(),
            seen.wf(),
            rows == table.rows(),
            ready == ready_for(
                *old(acc),
                *old(account),
                *old(temp),
                *memory,
                removed_events(rows, seen@),
                0,
            ),
            sole(*account, *temp),
            tied(*account, *memory),
            account.spec_limits() == old(account).spec_limits(),
            account.nodes().len() == old(account).nodes().len(),
            i > 0 ==> !cancelled,
            grown(*old(acc), *acc, removed_events(rows.take(i as int), seen@)),
            ready ==> ready_for(
                *acc,
                *account,
                *temp,
                *memory,
                removed_events(rows.skip(i as int), seen@),
                0,
            ),
        decreases table.keys@.len() - i,
    {
        stop_when(cancelled)?;
        proof {
            removed_events_split(rows, seen@, i as int);
            assert(rows.take(i + 1).drop_last() =~= rows.take(i as int));
            assert(rows.take(i + 1).last() == rows[i as int]);
        }
        if !seen.contains(table.keys[i].as_slice()) {
            let ghost middle = *acc;
            let ghost rest = removed_events(rows.skip(i + 1), seen@);
            let event = DiffEvent::Removed(table.entries[i].display_key.clone());
            let ghost events = seq![event@] + rest;
            proof {
                assert(removed_events(rows.skip(i as int), seen@) =~= events);
                assert(events.drop_first() =~= rest);
            }
            let ghost what = event@;
            note(acc, event, account, temp, memory, Ghost(events), Ghost(0))?;
            proof {
                grown_more(
                    *old(acc),
                    middle,
                    *acc,
                    removed_events(rows.take(i as int), seen@),
                    what,
                );
                assert(acc.tally().total() == middle.tally().total() + 1);
            }
        } else {
            proof {
                assert(removed_events(rows.skip(i as int), seen@) =~= removed_events(
                    rows.skip(i + 1),
                    seen@,
                ));
            }
        }
        i = i + 1;
    }
    assert(rows.take(rows.len() as int) =~= rows);
    Ok(())
}

/// The rows of the bytes of a partition, as far as they are read: up to one that cannot be, or
/// that repeats a key.
pub open spec fn side_rows(bytes: Seq<u8>, schema: Seq<u8>, limits: PartitionLimits) -> Seq<Keyed> {
    if file_error(bytes, schema) is Some {
        Seq::empty()
    } else {
        reached(leading_rows(bytes.skip(92), from_le(bytes.subrange(44, 52)), limits))
    }
}

/// What is wrong with the bytes of a partition: with its header or its payload as a whole, with
/// a row, or with a key that repeats.
pub open spec fn side_error(bytes: Seq<u8>, schema: Seq<u8>, limits: PartitionLimits) -> Option<
    ErrorView,
> {
    let n = from_le(bytes.subrange(44, 52));
    match file_error(bytes, schema) {
        Some(m) => Some(ErrorView::CorruptData(m)),
        None => rows_error(
            leading_rows(bytes.skip(92), n, limits),
            read_failure(bytes.skip(92), n, limits),
        ),
    }
}

/// What is wrong with the two sides of a partition, with the one before first.
pub open spec fn sides_error(
    before: Seq<u8>,
    after: Seq<u8>,
    schema: Seq<u8>,
    limits: PartitionLimits,
) -> Option<ErrorView> {
    match side_error(before, schema, limits) {
        Some(e) => Some(e),
        None => side_error(after, schema, limits),
    }
}

/// Nothing is wrong with a side whose rows can all be read and have distinct keys, and with no
/// other; these are its rows.
pub proof fn whole_sides_have_no_error(bytes: Seq<u8>, schema: Seq<u8>, limits: PartitionLimits)
    ensures
        side_error(bytes, schema, limits) is None <==> file_error(bytes, schema) is None && ({
            let rows = all_rows(bytes.skip(92), from_le(bytes.subrange(44, 52)), limits);
            rows is Ok && distinct(rows->Ok_0)
        }),
        side_error(bytes, schema, limits) is None ==> distinct(side_rows(bytes, schema, limits))
            && all_rows(bytes.skip(92), from_le(bytes.subrange(44, 52)), limits) == Ok::<
            Seq<Keyed>,
            Seq<char>,
        >(side_rows(bytes, schema, limits)),
{
    let n = from_le(bytes.subrange(44, 52));
    rows_are_read(bytes.skip(92), n, limits);
    no_repeat_is_distinct(leading_rows(bytes.skip(92), n, limits));
}

/// Whether the account of a diff has room to compare a partition.
pub open spec fn partition_room(
    acc: Accumulator,
    account: ResourceAccount,
    temp: TempLedger,
    before: Seq<Keyed>,
    after: Seq<Keyed>,
    names: Seq<Seq<char>>,
) -> bool {
    let events = partition_events(before, after, names, acc.wants_detail());
    &&& output_room(acc, account, temp, events)
    &&& account.nodes()[0].used(ResourceKind::Memory) + rows_cost(before) + keys_cost(after)
        + LEDGER_CHUNK_BYTES + output_cost(acc, events) <= account.spec_limits().max_memory_bytes
    &&& acc.tally().total() + events.len() <= usize::MAX
}

/// Compares the two sides of a partition.
fn compare_sides(
    before_bytes: &[u8],
    after_bytes: &[u8],
    schema_digest: &[u8; 32],
    limits: PartitionLimits,
    names: &Vec<String>,
    acc: &mut Accumulator,
    account: &mut ResourceAccount,
    temp: &mut TempLedger,
    memory: &mut MemoryLedger,
    cancelled: bool,
) -> (r: Result<(), ProofFrameError>)
    requires
        old(acc).wf(),
        sole(*old(account), *old(temp)),
        tied(*old(account), *old(memory)),
    ensures
        sole(*final(account), *final(temp)),
        tied(*final(account), *final(memory)),
        final(memory).at() == old(memory).at(),
        final(account).spec_limits() == old(account).spec_limits(),
        final(account).nodes().len() == old(account).nodes().len(),
        final(acc).subject() == old(acc).subject(),
        ({
            let before = side_rows(before_bytes@, schema_digest@, limits);
            let after = side_rows(after_bytes@, schema_digest@, limits);
            let events = partition_events(before, after, texts(names@), old(acc).wants_detail());
            let error = sides_error(before_bytes@, after_bytes@, schema_digest@, limits);
            &&& r is Ok ==> error is None && grown(*old(acc), *final(acc), events)
            &&& r matches Err(e) ==> error == Some(e@) || unnoted(e@) || (error is None && cancelled
                && e@ == ErrorView::Cancelled)
            &&& file_error(before_bytes@, schema_digest@) is Some ==> outcome(r, error)
            &&& ready_for(
                *old(acc),
                *old(account),
                *old(temp),
                *old(memory),
                events,
                rows_cost(before) + keys_cost(after),
            ) ==> outcome(
                r,
                if error is None && cancelled && before.len() > 0 {
                    Some(ErrorView::Cancelled)
                } else {
                    error
                },
            )
        }),
{
    let ghost b = side_rows(before_bytes@, schema_digest@, limits);
    let ghost a = side_rows(after_bytes@, schema_digest@, limits);
    let ghost detail = acc.wants_detail();
    let ghost labels = texts(names@);
    let ghost first = after_events(row_map(b), a, labels, detail);
    let ghost second = removed_events(ordered(b), row_map(a).dom());
    proof {
        whole_sides_have_no_error(before_bytes@, schema_digest@, limits);
        whole_sides_have_no_error(after_bytes@, schema_digest@, limits);
    }
    let reader = PartitionReader::open(before_bytes, schema_digest, limits)?;
    let ghost start = *acc;
    let table = load_before(
        reader,
        account,
        temp,
        memory,
        Ghost(keys_cost(a)),
        Ghost(output_cost(*acc, first + second)),
    )?;
    let reader = PartitionReader::open(after_bytes, schema_digest, limits)?;
    let ghost later = |rows: Seq<Keyed>| removed_events(ordered(b), row_map(rows).dom());
    let seen = scan_after(reader, &table, names, acc, account, temp, memory, Ghost(later))?;
    let ghost middle = *acc;
    list_removed(&table, &seen, acc, account, temp, memory, cancelled)?;
    proof {
        grown_twice(start, middle, *acc, first, second);
    }
    Ok(())
}

/// Compares the two sides of a partition, given the stored bytes of each, and notes what
/// became of its rows. The memory that this takes is given back.
pub fn process_partition(
    before_bytes: &[u8],
    after_bytes: &[u8],
    schema_digest: &[u8; 32],
    limits: PartitionLimits,
    names: &Vec<String>,
    acc: &mut Accumulator,
    account: &mut ResourceAccount,
    temp: &mut TempLedger,
    cancelled: bool,
) -> (r: Result<(), ProofFrameError>)
    requires
        old(acc).wf(),
        sole(*old(account), *old(temp)),
        old(account).nodes()[0].cap(ResourceKind::Memory)
            == old(account).spec_limits().max_memory_bytes,
    ensures
        sole(*final(account), *final(temp)),
        final(account).spec_limits() == old(account).spec_limits(),
        final(account).nodes()[0].cap(ResourceKind::Memory) == old(account).nodes()[0].cap(
            ResourceKind::Memory,
        ),
        final(acc).subject() == old(acc).subject(),
        ({
            let before = side_rows(before_bytes@, schema_digest@, limits);
            let after = side_rows(after_bytes@, schema_digest@, limits);
            let events = partition_events(before, after, texts(names@), old(acc).wants_detail());
            let error = sides_error(before_bytes@, after_bytes@, schema_digest@, limits);
            &&& r is Ok ==> error is None && grown(*old(acc), *final(acc), events)
            &&& r matches Err(e) ==> error == Some(e@) || unnoted(e@) || (error is None && cancelled
                && e@ == ErrorView::Cancelled)
            &&& file_error(before_bytes@, schema_digest@) is Some ==> outcome(r, error)
            &&& partition_room(
                *old(acc),
                *old(account),
                *old(temp),
                before,
                after,
                texts(names@),
            ) ==> outcome(
                r,
                if error is None && cancelled && before.len() > 0 {
                    Some(ErrorView::Cancelled)
                } else {
                    error
                },
            )
        }),
{
    let cap: u64 = account.limits().max_memory_bytes;
    let ghost start = *account;
    let node: usize = account.child(0, cap, 0);
    let mut memory = MemoryLedger::new(node);
    proof {
        assert(account.nodes()[0] == account.nodes().drop_last()[0]);
        assert(account.nodes()[0] == start.nodes()[0]);
        assert(tied(*account, memory));
    }
    let done = compare_sides(
        before_bytes,
        after_bytes,
        schema_digest,
        limits,
        names,
        acc,
        account,
        temp,
        &mut memory,
        cancelled,
    );
    let ghost open = *account;
    let ghost held = memory;
    memory.close(account);
    proof {
        memory_closed(open, *account, held);
    }
    done
}

} // verus!
