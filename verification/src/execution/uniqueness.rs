//! Which rows rules of uniqueness and reference look at, and under what keys.

use crate::contract::ast::CompositeNullPolicyAst;
use crate::contract::compile::ColumnPlan;
use crate::distinct::merge::{missing, past, past_is_shorter, past_removes_one_value};
use crate::distinct::order::{entry_le, key_less, key_total, keys, sorted, Entry, Key};
use crate::distinct::state::ExactSummary;
use crate::encoding::{
    encodable, encoding_is_injective, item_of, items_tell_values_apart, proper, same_value,
};
use crate::execution::dataset_finish::{duplicate_findings, with_duplicates};
use crate::execution::exact_rules::{column_key, fed_column, fed_keys, KeyRule};
use crate::execution::keys::{composite_bytes, exact_key, key_has_null, keyable, scalar_key};
use crate::execution::reference_state::{fed_reference, key_stop, positional, ReferenceFeed};
use crate::execution::report::{unique_findings, with_unique};
use crate::execution::validation::{recorded_all, FindingView, Found};
use crate::execution::verdicts::{found_at, found_below};
use crate::value::{Cell, Schema};
use vstd::prelude::*;

verus! {

/// Whether every entry stands at a row below another.
pub open spec fn fed_below(entries: Seq<Entry>, row: int) -> bool {
    forall|k: int| 0 <= k < entries.len() ==> (#[trigger] entries[k]).1 < row
}

proof fn fed_more(before: Seq<Entry>, entry: Entry, other: Entry)
    ensures
        before.push(entry).contains(other) <==> before.contains(other) || entry == other,
{
    let after = before.push(entry);
    if before.contains(other) {
        let k = choose|k: int| 0 <= k < before.len() && before[k] == other;
        assert(after[k] == other);
    }
    assert(after[before.len() as int] == entry);
    if after.contains(other) {
        let k = choose|k: int| 0 <= k < after.len() && after[k] == other;
        if k < before.len() {
            assert(before[k] == other);
        }
    }
}

/// A counted column is counted by every value that is not null: each stands under the number of
/// its row with its own key, and no other does. Whether there was a null is kept.
pub proof fn columns_are_counted_by_their_values(
    cells: Seq<Cell>,
    shown: Seq<char>,
    nested: bool,
    row_offset: int,
    n: nat,
)
    requires
        n <= cells.len(),
        0 <= row_offset,
        row_offset + n <= u64::MAX,
        fed_column(cells, shown, nested, row_offset, n).error is None,
    ensures
        ({
            let f = fed_column(cells, shown, nested, row_offset, n);
            &&& forall|i: int, k: Key|
                #![trigger f.entries.contains((k, (row_offset + i) as u64))]
                0 <= i < n ==> (f.entries.contains((k, (row_offset + i) as u64)) <==> !(
                cells[i] is Null) && column_key(cells[i], nested) == Some(k))
            &&& fed_below(f.entries, row_offset + n)
            &&& f.saw_null <==> exists|i: int| 0 <= i < n && #[trigger] cells[i] is Null
            &&& f.entries.len() == cells.take(n as int).filter(|c: Cell| !(c is Null)).len()
        }),
    decreases n,
{
    reveal(Seq::filter);
    let f = fed_column(cells, shown, nested, row_offset, n);
    if n == 0 {
        assert(cells.take(0) =~= Seq::empty());
    } else {
        let m = (n - 1) as nat;
        columns_are_counted_by_their_values(cells, shown, nested, row_offset, m);
        let b = fed_column(cells, shown, nested, row_offset, m);
        assert(cells.take(n as int).drop_last() =~= cells.take(n - 1));
        assert(cells.take(n as int).last() == cells[n - 1]);
        assert forall|i: int, k: Key|
            #![trigger f.entries.contains((k, (row_offset + i) as u64))]
            0 <= i < n implies (f.entries.contains((k, (row_offset + i) as u64)) <==> !(
        cells[i] is Null) && column_key(cells[i], nested) == Some(k)) by {
            let other = (k, (row_offset + i) as u64);
            assert(i < m ==> (b.entries.contains(other) <==> !(cells[i] is Null) && column_key(
                cells[i],
                nested,
            ) == Some(k)));
            if !(cells[n - 1] is Null) {
                let entry = (column_key(cells[n - 1], nested).unwrap(), (row_offset + n - 1) as u64);
                fed_more(b.entries, entry, other);
            }
            if i == m && b.entries.contains(other) {
                let p = choose|p: int| 0 <= p < b.entries.len() && b.entries[p] == other;
                assert(b.entries[p].1 < row_offset + m);
            }
        }
        if cells[n - 1] is Null {
            assert(f.saw_null);
        } else if f.saw_null {
            let i = choose|i: int| 0 <= i < m && #[trigger] cells[i] is Null;
            assert(cells[i] is Null);
        }
    }
}

/// Nested values of one type have the same key exactly where they are the same value, and every
/// value that can be encoded has a key.
pub proof fn keys_tell_values_apart(a: Cell, b: Cell)
    requires
        scalar_key(a) is None,
        scalar_key(b) is None,
        !(a is Null),
        !(b is Null),
        proper(item_of(a)),
        proper(item_of(b)),
        encodable(item_of(a)),
        encodable(item_of(b)),
    ensures
        exact_key(a) is Some,
        exact_key(a) == exact_key(b) <==> same_value(a, b),
{
    items_tell_values_apart(a, b);
    if exact_key(a) == exact_key(b) {
        encoding_is_injective(item_of(a), item_of(b));
    }
}

/// Whether a row is held to a key: it is selected, and has no null in the key where nulls are
/// rejected.
pub open spec fn held_to_key(
    rule: KeyRule,
    columns: Seq<Vec<Cell>>,
    selected: Seq<bool>,
    i: int,
) -> bool {
    selected[i] && !(key_has_null(rule.key, columns, i) && rule.nulls
        == CompositeNullPolicyAst::Reject)
}

/// A rule on a key of several columns looks at every row that is selected: each stands under the
/// bytes of its key, or is reported where a null in the key is rejected. Other rows are passed
/// over.
pub proof fn keys_are_taken_of_selected_rows(
    rule: KeyRule,
    schema: Schema,
    columns: Seq<Vec<Cell>>,
    selected: Seq<bool>,
    row_offset: int,
    n: nat,
)
    requires
        n <= selected.len(),
        0 <= row_offset,
        row_offset + n <= u64::MAX,
        fed_keys(rule, schema, columns, selected, row_offset, n).error is None,
    ensures
        ({
            let f = fed_keys(rule, schema, columns, selected, row_offset, n);
            &&& forall|i: int, k: Key|
                #![trigger f.entries.contains((k, (row_offset + i) as u64))]
                0 <= i < n ==> (f.entries.contains((k, (row_offset + i) as u64)) <==> held_to_key(
                    rule,
                    columns,
                    selected,
                    i,
                ) && k == Key::Bytes(composite_bytes(rule.key, columns, i, rule.key.len())))
            &&& fed_below(f.entries, row_offset + n)
            &&& forall|i: int|
                #![trigger selected[i]]
                0 <= i < n ==> (found_at(f.findings, (row_offset + i) as u64) <==> selected[i]
                    && !held_to_key(rule, columns, selected, i))
            &&& found_below(f.findings, row_offset + n)
        }),
    decreases n,
{
    let f = fed_keys(rule, schema, columns, selected, row_offset, n);
    if n > 0 {
        let m = (n - 1) as nat;
        keys_are_taken_of_selected_rows(rule, schema, columns, selected, row_offset, m);
        let b = fed_keys(rule, schema, columns, selected, row_offset, m);
        let here = (row_offset + n - 1) as u64;
        let entry = (
            Key::Bytes(composite_bytes(rule.key, columns, n - 1, rule.key.len())),
            here,
        );
        assert forall|i: int, k: Key|
            #![trigger f.entries.contains((k, (row_offset + i) as u64))]
            0 <= i < n implies (f.entries.contains((k, (row_offset + i) as u64)) <==> held_to_key(
            rule,
            columns,
            selected,
            i,
        ) && k == Key::Bytes(composite_bytes(rule.key, columns, i, rule.key.len()))) by {
            let other = (k, (row_offset + i) as u64);
            assert(i < m ==> (b.entries.contains(other) <==> held_to_key(rule, columns, selected, i)
                && k == Key::Bytes(composite_bytes(rule.key, columns, i, rule.key.len()))));
            if held_to_key(rule, columns, selected, n - 1) {
                fed_more(b.entries, entry, other);
            }
            if i == m && b.entries.contains(other) {
                let p = choose|p: int| 0 <= p < b.entries.len() && b.entries[p] == other;
                assert(b.entries[p].1 < row_offset + m);
            }
        }
        assert forall|i: int| #![trigger selected[i]] 0 <= i < n implies (found_at(
            f.findings,
            (row_offset + i) as u64,
        ) <==> selected[i] && !held_to_key(rule, columns, selected, i)) by {
            let row = (row_offset + i) as u64;
            if found_at(b.findings, row) {
                let k = choose|k: int|
                    0 <= k < b.findings.len() && (#[trigger] b.findings[k]).row == Some(row);
                assert(f.findings[k] == b.findings[k]);
            }
            if found_at(f.findings, row) {
                let k = choose|k: int|
                    0 <= k < f.findings.len() && (#[trigger] f.findings[k]).row == Some(row);
                if k < b.findings.len() {
                    assert(b.findings[k].row == Some(row));
                }
            }
            if selected[n - 1] && !held_to_key(rule, columns, selected, n - 1) {
                assert(f.findings[b.findings.len() as int].row == Some(here));
            }
        }
    }
}

/// Whether a row has a key for a reference: none of its key columns is null.
pub open spec fn has_reference_key(indexes: Seq<usize>, columns: Seq<Vec<Cell>>, i: int) -> bool {
    forall|j: int|
        0 <= j < indexes.len() ==> !(columns[#[trigger] indexes[j] as int]@[i] is Null)
}

proof fn stops_where_it_must(indexes: Seq<usize>, columns: Seq<Vec<Cell>>, row: int, n: nat)
    requires
        n <= indexes.len(),
    ensures
        key_stop(indexes, columns, row, n) matches Some(j) ==> 0 <= j < n && !keyable(
            columns[indexes[j] as int]@[row],
        ),
        key_stop(indexes, columns, row, n) is None ==> forall|j: int|
            0 <= j < n ==> keyable(columns[#[trigger] indexes[j] as int]@[row]),
    decreases n,
{
    if n > 0 {
        stops_where_it_must(indexes, columns, row, (n - 1) as nat);
    }
}

/// A reference looks at every row whose key has no null: each stands under the bytes of its key.
/// A row with a null in its key is reported where the rule rejects nulls, and passed over where
/// it does not.
pub proof fn references_are_taken_of_every_key(
    rule: ReferenceFeed,
    schema: Schema,
    columns: Seq<Vec<Cell>>,
    row_offset: int,
    n: nat,
)
    requires
        0 <= row_offset,
        row_offset + n <= u64::MAX,
        fed_reference(rule, schema, columns, row_offset, n).error is None,
        forall|i: int, j: int|
            #![trigger columns[rule.indexes[j] as int]@[i]]
            0 <= i < n && 0 <= j < rule.indexes.len() ==> columns[rule.indexes[j] as int]@[i] is Null
                || keyable(columns[rule.indexes[j] as int]@[i]),
    ensures
        ({
            let f = fed_reference(rule, schema, columns, row_offset, n);
            &&& forall|i: int, k: Key|
                #![trigger f.entries.contains((k, (row_offset + i) as u64))]
                0 <= i < n ==> (f.entries.contains((k, (row_offset + i) as u64))
                    <==> has_reference_key(rule.indexes, columns, i) && k == Key::Bytes(
                    positional(rule.indexes, columns, i, rule.indexes.len()),
                ))
            &&& fed_below(f.entries, row_offset + n)
            &&& forall|i: int|
                0 <= i < n ==> (#[trigger] found_at(f.findings, (row_offset + i) as u64)
                    <==> rule.reject && !has_reference_key(rule.indexes, columns, i))
            &&& found_below(f.findings, row_offset + n)
        }),
    decreases n,
{
    let f = fed_reference(rule, schema, columns, row_offset, n);
    if n > 0 {
        let m = (n - 1) as nat;
        references_are_taken_of_every_key(rule, schema, columns, row_offset, m);
        let b = fed_reference(rule, schema, columns, row_offset, m);
        let here = (row_offset + n - 1) as u64;
        stops_where_it_must(rule.indexes, columns, n - 1, rule.indexes.len());
        let stop = key_stop(rule.indexes, columns, n - 1, rule.indexes.len());
        if stop is Some {
            assert(columns[rule.indexes[stop.unwrap()] as int]@[n - 1] is Null);
            assert(!has_reference_key(rule.indexes, columns, n - 1));
        } else {
            assert forall|j: int| 0 <= j < rule.indexes.len() implies !(
            columns[#[trigger] rule.indexes[j] as int]@[n - 1] is Null) by {
                assert(keyable(columns[rule.indexes[j] as int]@[n - 1]));
            }
            assert(has_reference_key(rule.indexes, columns, n - 1));
        }
        let entry = (
            Key::Bytes(positional(rule.indexes, columns, n - 1, rule.indexes.len())),
            here,
        );
        assert forall|i: int, k: Key|
            #![trigger f.entries.contains((k, (row_offset + i) as u64))]
            0 <= i < n implies (f.entries.contains((k, (row_offset + i) as u64))
            <==> has_reference_key(rule.indexes, columns, i) && k == Key::Bytes(
            positional(rule.indexes, columns, i, rule.indexes.len()),
        )) by {
            let other = (k, (row_offset + i) as u64);
            assert(i < m ==> (b.entries.contains(other) <==> has_reference_key(
                rule.indexes,
                columns,
                i,
            ) && k == Key::Bytes(positional(rule.indexes, columns, i, rule.indexes.len()))));
            if stop is None {
                fed_more(b.entries, entry, other);
            }
            if i == m && b.entries.contains(other) {
                let p = choose|p: int| 0 <= p < b.entries.len() && b.entries[p] == other;
                assert(b.entries[p].1 < row_offset + m);
            }
        }
        assert forall|i: int| 0 <= i < n implies (#[trigger] found_at(
            f.findings,
            (row_offset + i) as u64,
        ) <==> rule.reject && !has_reference_key(rule.indexes, columns, i)) by {
            let row = (row_offset + i) as u64;
            if i < m {
                assert(found_at(b.findings, row) <==> rule.reject && !has_reference_key(
                    rule.indexes,
                    columns,
                    i,
                ));
            }
            if found_at(b.findings, row) {
                let k = choose|k: int|
                    0 <= k < b.findings.len() && (#[trigger] b.findings[k]).row == Some(row);
                assert(f.findings[k] == b.findings[k]);
            }
            if found_at(f.findings, row) {
                let k = choose|k: int|
                    0 <= k < f.findings.len() && (#[trigger] f.findings[k]).row == Some(row);
                if k < b.findings.len() {
                    assert(b.findings[k].row == Some(row));
                }
            }
            if stop is Some && rule.reject {
                assert(f.findings[b.findings.len() as int].row == Some(here));
            }
        }
    }
}

/// The values that one side lacks are given by entries of the first side, each the one of the
/// smallest row that its value has there, and no value twice.
pub proof fn missing_values_are_given_by_their_first_row(a: Seq<Entry>, b: Seq<Entry>)
    requires
        sorted(a),
        sorted(b),
    ensures
        forall|i: int|
            0 <= i < missing(a, b).len() ==> a.contains(#[trigger] missing(a, b)[i]) && forall|j: int|
                0 <= j < a.len() && (#[trigger] a[j]).0 == missing(a, b)[i].0 ==> missing(a, b)[i].1
                    <= a[j].1,
    decreases a.len() + b.len(),
{
    if a.len() > 0 {
        let x = a[0].0;
        past_is_shorter(a, x);
        past_removes_one_value(a);
        let rest = past(a, x);
        if b.len() > 0 {
            past_is_shorter(b, b[0].0);
        }
        let list = missing(a, b);
        if b.len() == 0 || key_less(x, b[0].0) {
            missing_values_are_given_by_their_first_row(rest, b);
            let more = missing(rest, b);
            assert(list == seq![a[0]] + more);
            assert forall|i: int| 0 <= i < list.len() implies a.contains(#[trigger] list[i])
                && forall|j: int|
                0 <= j < a.len() && (#[trigger] a[j]).0 == list[i].0 ==> list[i].1 <= a[j].1 by {
                if i == 0 {
                    assert(list[0] == a[0]);
                    assert forall|j: int| 0 <= j < a.len() && (#[trigger] a[j]).0
                        == list[i].0 implies list[i].1 <= a[j].1 by {
                        if j > 0 {
                            assert(entry_le(a[0], a[j]));
                            key_total(a[0].0, a[j].0);
                        }
                    }
                } else {
                    assert(list[i] == more[i - 1]);
                    first_row_of_rest(a, x, more[i - 1]);
                }
            }
        } else if x == b[0].0 {
            missing_values_are_given_by_their_first_row(rest, past(b, b[0].0));
            let more = missing(rest, past(b, b[0].0));
            assert(list == more);
            assert forall|i: int| 0 <= i < list.len() implies a.contains(#[trigger] list[i])
                && forall|j: int|
                0 <= j < a.len() && (#[trigger] a[j]).0 == list[i].0 ==> list[i].1 <= a[j].1 by {
                assert(list[i] == more[i]);
                first_row_of_rest(a, x, more[i]);
            }
        } else {
            missing_values_are_given_by_their_first_row(a, past(b, b[0].0));
            assert(list == missing(a, past(b, b[0].0)));
        }
    } else {
        assert(missing(a, b).len() == 0);
    }
}

proof fn first_row_of_rest(a: Seq<Entry>, x: Key, e: Entry)
    requires
        sorted(a),
        a.len() > 0,
        x == a[0].0,
        past(a, x).contains(e),
        forall|j: int|
            0 <= j < past(a, x).len() && (#[trigger] past(a, x)[j]).0 == e.0 ==> e.1 <= past(
                a,
                x,
            )[j].1,
    ensures
        a.contains(e),
        forall|j: int| 0 <= j < a.len() && (#[trigger] a[j]).0 == e.0 ==> e.1 <= a[j].1,
{
    past_is_shorter(a, x);
    past_removes_one_value(a);
    let rest = past(a, x);
    let cut = a.len() - rest.len();
    let k = choose|k: int| 0 <= k < rest.len() && rest[k] == e;
    assert(a[cut + k] == e);
    assert(keys(rest).contains(e.0));
    key_total(x, e.0);
    assert forall|j: int| 0 <= j < a.len() && (#[trigger] a[j]).0 == e.0 implies e.1 <= a[j].1 by {
        if j >= cut {
            assert(rest[j - cut] == a[j]);
        }
    }
}

/// Every repeat of a key is counted as a violation, the sampled ones and the others.
pub proof fn duplicates_are_all_counted(
    f: Found,
    rule: Seq<char>,
    message: Seq<char>,
    summary: ExactSummary,
)
    requires
        summary.duplicate_samples@.len() <= summary.duplicate_count,
        f.count + summary.duplicate_count <= u64::MAX,
    ensures
        with_duplicates(f, rule, message, summary).count == f.count + summary.duplicate_count,
        forall|i: int|
            0 <= i < summary.duplicate_samples@.len() ==> (#[trigger] duplicate_findings(
                rule,
                message,
                summary.duplicate_samples@,
            )[i]).row == Some(summary.duplicate_samples@[i].duplicate_row),
{
    let list = duplicate_findings(rule, message, summary.duplicate_samples@);
    each_is_counted(f, list);
}

proof fn each_is_counted(f: Found, list: Seq<FindingView>)
    requires
        f.count + list.len() <= u64::MAX,
    ensures
        recorded_all(f, list).count == f.count + list.len(),
    decreases list.len(),
{
    if list.len() > 0 {
        each_is_counted(f, list.drop_last());
    }
}

/// The repeats that the first summaries count.
pub open spec fn all_repeats(summaries: Seq<Option<ExactSummary>>, n: nat) -> nat
    decreases n,
{
    if n == 0 {
        0
    } else {
        all_repeats(summaries, (n - 1) as nat) + match summaries[n - 1] {
            Some(s) => s.duplicate_count as nat,
            None => 0,
        }
    }
}

/// Every repeat in every unique column is counted as a violation, and the sampled ones are found
/// in their own column, at the row that repeats.
pub proof fn unique_columns_are_all_counted(
    f: Found,
    columns: Seq<ColumnPlan>,
    summaries: Seq<Option<ExactSummary>>,
    n: nat,
)
    requires
        n <= summaries.len(),
        n <= columns.len(),
        f.count + all_repeats(summaries, n) <= u64::MAX,
        forall|i: int|
            0 <= i < n ==> (#[trigger] summaries[i] matches Some(s) ==> s.duplicate_samples@.len()
                <= s.duplicate_count),
    ensures
        with_unique(f, columns, summaries, n).count == f.count + all_repeats(summaries, n),
        forall|i: int, k: int|
            #![trigger unique_findings(
                columns[i].field@,
                summaries[i].unwrap().duplicate_samples@,
            )[k]]
            0 <= i < n && summaries[i] is Some && 0 <= k
                < summaries[i].unwrap().duplicate_samples@.len() ==> {
                let found = unique_findings(
                    columns[i].field@,
                    summaries[i].unwrap().duplicate_samples@,
                )[k];
                &&& found.rule == "unique"@
                &&& found.column == columns[i].field@
                &&& found.row == Some(
                    summaries[i].unwrap().duplicate_samples@[k].duplicate_row,
                )
            },
    decreases n,
{
    if n > 0 {
        let m = (n - 1) as nat;
        unique_columns_are_all_counted(f, columns, summaries, m);
        if let Some(s) = summaries[n - 1] {
            let before = with_unique(f, columns, summaries, m);
            each_is_counted(before, unique_findings(columns[n - 1].field@, s.duplicate_samples@));
        }
    }
}

} // verus!
