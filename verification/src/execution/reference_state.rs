//! The keys of both sides of reference rules.

use crate::bytes::{le, le_len, push_le};
use crate::contract::ast::{outcome, ReferenceNullPolicyAst};
use crate::contract::dataset::{ReferencePlan, RowCountDeltaPlan};
use crate::distinct::budget::{
    ample_for, drawn_none, draws, draws_more, leaves, leaves_all, leaves_less, next_has_room,
    last_runs, last_runs_grow, spare, spare_once_stored, spill_stores,
};
use crate::distinct::merge::{distinct_count, entry_rows, merged, missing, MissingValues};
use crate::distinct::run::RunMeta;
use crate::distinct::order::{Entry, Key, ValueKind, ValueRef};
use crate::distinct::sets::{
    anti_join_exact_states, can_compare, comparison_failed, failed_as_before, kept_account,
    merge_bytes, sealed,
};
use crate::distinct::state::{
    damaged, held_bounds, in_sorted_order, kept, not_inserted, plenty_accepts, plenty_stays, spilled_to,
    ExactState,
};
use crate::encoding::{encoded, item_of, proper};
use crate::error::{ErrorCode, ErrorView, ProofFrameError};
use crate::execution::dataset_finish::DatasetMetrics;
use crate::execution::dataset_state::{
    all_of, batch_fits, can_open, earliest, earliest_stays, exact_at, exact_empty, keys_wf,
    not_opened, open_state, open_states, sample_bytes,
};
use crate::execution::exact_rules::{
    fed_none, fed_one_more, fed_state, insert_is_step, nothing, same_account, same_exact, Fed,
};
use crate::execution::keys::{append_scalar, encoded_splits, keyable};
use crate::execution::references::{
    key_error, reference_fits, resolve_reference_key, ReferenceBindings,
};
use crate::execution::total::{float_outside, measured_outside, Measured};
use crate::execution::validation::{
    capped, counted_more, recorded_all, recorded_in_parts, Finding, FindingView, Found, ValidationState,
};
use crate::fingerprint::{
    FingerprintOptions, FingerprintVersion, V2FingerprintState, readable,
};
use crate::resource::{
    as_before, as_before_twice, refusal, room, room_as_before, stop_when, ResourceAccount,
    ResourceKind,
};
use crate::text::{cat3, cat5, cat7, decimal, decimal_u64, str_eq, text, texts};
use crate::value::{same_schema, schema_eq, Batch, Cell, Schema};
use vstd::prelude::*;

verus! {

/// The first `n` columns of a positional key: the place of each, and its canonical bytes.
pub open spec fn positional(indexes: Seq<usize>, columns: Seq<Vec<Cell>>, row: int, n: nat) -> Seq<
    u8,
>
    decreases n,
{
    if n == 0 {
        Seq::empty()
    } else {
        positional(indexes, columns, row, (n - 1) as nat) + (le((n - 1) as nat, 8) + encoded(
            item_of(columns[indexes[n - 1] as int]@[row]),
        ))
    }
}

/// The first of the first `n` columns of a key that is null or cannot be in a key.
pub open spec fn key_stop(
    indexes: Seq<usize>,
    columns: Seq<Vec<Cell>>,
    row: int,
    n: nat,
) -> Option<int>
    decreases n,
{
    if n == 0 {
        None
    } else {
        match key_stop(indexes, columns, row, (n - 1) as nat) {
            Some(j) => Some(j),
            None => if keyable(columns[indexes[n - 1] as int]@[row]) {
                None
            } else {
                Some(n - 1)
            },
        }
    }
}

proof fn key_stop_stays(indexes: Seq<usize>, columns: Seq<Vec<Cell>>, row: int, i: nat, n: nat)
    requires
        i <= n,
        key_stop(indexes, columns, row, i) is Some,
    ensures
        key_stop(indexes, columns, row, n) == key_stop(indexes, columns, row, i),
    decreases n,
{
    if i < n {
        key_stop_stays(indexes, columns, row, i, (n - 1) as nat);
    }
}

/// Whether the columns of a key stand in a schema.
pub open spec fn indexes_fit(indexes: Seq<usize>, columns: int) -> bool {
    forall|j: int| 0 <= j < indexes.len() ==> (#[trigger] indexes[j]) < columns
}

/// The key of a row, or nothing where one of its columns is null. Keys are positional: the
/// two sides of a rule name their columns as they please.
pub fn encode_key(batch: &Batch, schema: &Schema, indexes: &Vec<usize>, row: usize) -> (r: Result<
    Option<Vec<u8>>,
    ProofFrameError,
>)
    requires
        batch.wf(),
        row < batch.rows,
        schema.fields@.len() == batch.columns@.len(),
        indexes_fit(indexes@, batch.columns@.len() as int),
    ensures
        match key_stop(indexes@, batch.columns@, row as int, indexes@.len()) {
            None => r matches Ok(Some(b)) && b@ == positional(
                indexes@,
                batch.columns@,
                row as int,
                indexes@.len(),
            ),
            Some(j) => if batch.columns@[indexes@[j] as int]@[row as int] is Null {
                r matches Ok(None)
            } else {
                r matches Err(e) && e@ == ErrorView::UnsupportedType(
                    "composite uniqueness for "@ + schema.fields@[indexes@[j] as int].type_text@,
                )
            },
        },
{
    let mut out: Vec<u8> = Vec::new();
    let mut j: usize = 0;
    while j < indexes.len()
        invariant
            j <= indexes@.len(),
            batch.wf(),
            row < batch.rows,
            schema.fields@.len() == batch.columns@.len(),
            indexes_fit(indexes@, batch.columns@.len() as int),
            key_stop(indexes@, batch.columns@, row as int, j as nat) is None,
            out@ == positional(indexes@, batch.columns@, row as int, j as nat),
        decreases indexes@.len() - j,
    {
        let index: usize = indexes[j];
        assert(indexes@[j as int] < batch.columns@.len());
        let column = &batch.columns[index];
        let cell = &column[row];
        let null = match cell {
            Cell::Null => true,
            _ => false,
        };
        if null {
            proof {
                assert(!keyable(*cell));
                key_stop_stays(
                    indexes@,
                    batch.columns@,
                    row as int,
                    (j + 1) as nat,
                    indexes@.len(),
                );
            }
            return Ok(None);
        }
        let ghost so_far = out@;
        push_le(&mut out, j as u128, 8);
        match append_scalar(cell, schema.fields[index].type_text.as_str(), &mut out) {
            Ok(()) => {
                assert(out@ =~= so_far + (le(j as nat, 8) + encoded(item_of(*cell))));
            },
            Err(e) => {
                proof {
                    key_stop_stays(
                        indexes@,
                        batch.columns@,
                        row as int,
                        (j + 1) as nat,
                        indexes@.len(),
                    );
                }
                return Err(e);
            },
        }
        j = j + 1;
    }
    Ok(Some(out))
}

/// The columns of a positional key from one place on.
spec fn positional_from(
    indexes: Seq<usize>,
    columns: Seq<Vec<Cell>>,
    row: int,
    from: nat,
    n: nat,
) -> Seq<u8>
    decreases n - from,
{
    if from >= n {
        Seq::empty()
    } else {
        (le(from, 8) + encoded(item_of(columns[indexes[from as int] as int]@[row])))
            + positional_from(indexes, columns, row, from + 1, n)
    }
}

proof fn positional_push(
    indexes: Seq<usize>,
    columns: Seq<Vec<Cell>>,
    row: int,
    from: nat,
    n: nat,
)
    requires
        from <= n,
    ensures
        positional_from(indexes, columns, row, from, n + 1) == positional_from(
            indexes,
            columns,
            row,
            from,
            n,
        ) + (le(n, 8) + encoded(item_of(columns[indexes[n as int] as int]@[row]))),
    decreases n - from,
{
    let p = le(n, 8) + encoded(item_of(columns[indexes[n as int] as int]@[row]));
    if from < n {
        positional_push(indexes, columns, row, from + 1, n);
        assert(positional_from(indexes, columns, row, from, n + 1) =~= positional_from(
            indexes,
            columns,
            row,
            from,
            n,
        ) + p);
    } else {
        assert(positional_from(indexes, columns, row, n + 1, n + 1) =~= Seq::empty());
        assert(p + Seq::<u8>::empty() =~= Seq::<u8>::empty() + p);
    }
}

proof fn positional_is_from(indexes: Seq<usize>, columns: Seq<Vec<Cell>>, row: int, n: nat)
    ensures
        positional(indexes, columns, row, n) == positional_from(indexes, columns, row, 0, n),
    decreases n,
{
    if n > 0 {
        positional_is_from(indexes, columns, row, (n - 1) as nat);
        positional_push(indexes, columns, row, 0, (n - 1) as nat);
    }
}

proof fn positional_suffix(
    here: Seq<usize>,
    a: Seq<Vec<Cell>>,
    i: int,
    there: Seq<usize>,
    b: Seq<Vec<Cell>>,
    k: int,
    from: nat,
    n: nat,
    x: Seq<u8>,
    y: Seq<u8>,
)
    requires
        key_stop(here, a, i, n) is None,
        key_stop(there, b, k, n) is None,
        forall|j: int|
            0 <= j < n ==> proper(item_of(a[#[trigger] here[j] as int]@[i])) && proper(
                item_of(b[#[trigger] there[j] as int]@[k]),
            ),
    ensures
        positional_from(here, a, i, from, n) + x == positional_from(there, b, k, from, n) + y ==> (x
            == y && forall|j: int|
            from <= j < n ==> item_of(a[#[trigger] here[j] as int]@[i]) == item_of(
                b[#[trigger] there[j] as int]@[k],
            )),
    decreases n - from,
{
    if positional_from(here, a, i, from, n) + x == positional_from(there, b, k, from, n) + y {
        if from >= n {
            assert(Seq::<u8>::empty() + x =~= x);
            assert(Seq::<u8>::empty() + y =~= y);
        } else {
            let p = a[here[from as int] as int]@[i];
            let q = b[there[from as int] as int]@[k];
            no_stop_before(here, a, i, from as int, n);
            no_stop_before(there, b, k, from as int, n);
            let ra = positional_from(here, a, i, from + 1, n) + x;
            let rb = positional_from(there, b, k, from + 1, n) + y;
            let l = positional_from(here, a, i, from, n) + x;
            let r = positional_from(there, b, k, from, n) + y;
            le_len(from, 8);
            assert(l =~= le(from, 8) + (encoded(item_of(p)) + ra));
            assert(r =~= le(from, 8) + (encoded(item_of(q)) + rb));
            assert(l.skip(8) =~= encoded(item_of(p)) + ra);
            assert(r.skip(8) =~= encoded(item_of(q)) + rb);
            encoded_splits(item_of(p), ra, item_of(q), rb);
            positional_suffix(here, a, i, there, b, k, from + 1, n, x, y);
        }
    }
}

proof fn no_stop_before(indexes: Seq<usize>, columns: Seq<Vec<Cell>>, row: int, j: int, n: nat)
    requires
        key_stop(indexes, columns, row, n) is None,
        0 <= j < n,
    ensures
        keyable(columns[indexes[j] as int]@[row]),
    decreases n,
{
    if j < n - 1 {
        no_stop_before(indexes, columns, row, j, (n - 1) as nat);
    }
}

/// Two rows, on whichever sides of a rule, have the same key exactly where the key columns
/// hold the same values place by place.
pub proof fn reference_key_is_injective(
    here: Seq<usize>,
    a: Seq<Vec<Cell>>,
    i: int,
    there: Seq<usize>,
    b: Seq<Vec<Cell>>,
    k: int,
    n: nat,
)
    requires
        n <= here.len(),
        n <= there.len(),
        key_stop(here, a, i, n) is None,
        key_stop(there, b, k, n) is None,
        forall|j: int|
            0 <= j < n ==> proper(item_of(a[#[trigger] here[j] as int]@[i])) && proper(
                item_of(b[#[trigger] there[j] as int]@[k]),
            ),
    ensures
        positional(here, a, i, n) == positional(there, b, k, n) <==> forall|j: int|
            0 <= j < n ==> item_of(a[#[trigger] here[j] as int]@[i]) == item_of(
                b[#[trigger] there[j] as int]@[k],
            ),
{
    positional_is_from(here, a, i, n);
    positional_is_from(there, b, k, n);
    let e = Seq::<u8>::empty();
    positional_suffix(here, a, i, there, b, k, 0, n, e, e);
    assert(positional(here, a, i, n) + e =~= positional(here, a, i, n));
    assert(positional(there, b, k, n) + e =~= positional(there, b, k, n));
    if forall|j: int|
        0 <= j < n ==> item_of(a[#[trigger] here[j] as int]@[i]) == item_of(
            b[#[trigger] there[j] as int]@[k],
        ) {
        same_positional(here, a, i, there, b, k, n);
    }
}

proof fn same_positional(
    here: Seq<usize>,
    a: Seq<Vec<Cell>>,
    i: int,
    there: Seq<usize>,
    b: Seq<Vec<Cell>>,
    k: int,
    n: nat,
)
    requires
        forall|j: int|
            0 <= j < n ==> item_of(a[#[trigger] here[j] as int]@[i]) == item_of(
                b[#[trigger] there[j] as int]@[k],
            ),
    ensures
        positional(here, a, i, n) == positional(there, b, k, n),
    decreases n,
{
    if n > 0 {
        same_positional(here, a, i, there, b, k, (n - 1) as nat);
        assert(item_of(a[here[n - 1] as int]@[i]) == item_of(b[there[n - 1] as int]@[k]));
    }
}

/// A key that is fed, and what its nulls mean: where they are rejected, a finding under the
/// name of the rule.
pub struct ReferenceFeed {
    pub indexes: Seq<usize>,
    pub reject: bool,
    pub name: Seq<char>,
}

/// The first `n` rows of a key, fed.
pub open spec fn fed_reference(
    rule: ReferenceFeed,
    schema: Schema,
    columns: Seq<Vec<Cell>>,
    row_offset: int,
    n: nat,
) -> Fed
    decreases n,
{
    if n == 0 {
        nothing()
    } else {
        let f = fed_reference(rule, schema, columns, row_offset, (n - 1) as nat);
        let row = n - 1;
        if f.error is Some {
            f
        } else {
            match key_stop(rule.indexes, columns, row, rule.indexes.len()) {
                None => Fed {
                    entries: f.entries.push(
                        (
                            Key::Bytes(
                                positional(rule.indexes, columns, row, rule.indexes.len()),
                            ),
                            (row_offset + row) as u64,
                        ),
                    ),
                    ..f
                },
                Some(j) => if columns[rule.indexes[j] as int]@[row] is Null {
                    Fed {
                        findings: if rule.reject {
                            f.findings.push(
                                FindingView {
                                    rule: "references"@,
                                    column: "$dataset"@,
                                    row: Some((row_offset + row) as u64),
                                    message: "Reference rule `"@ + rule.name
                                        + "` rejects null keys"@,
                                },
                            )
                        } else {
                            f.findings
                        },
                        saw_null: true,
                        ..f
                    }
                } else {
                    Fed {
                        error: Some(
                            ErrorView::UnsupportedType(
                                "composite uniqueness for "@
                                    + schema.fields@[rule.indexes[j] as int].type_text@,
                            ),
                        ),
                        ..f
                    }
                },
            }
        }
    }
}

proof fn reference_error_stays(
    rule: ReferenceFeed,
    schema: Schema,
    columns: Seq<Vec<Cell>>,
    row_offset: int,
    i: nat,
    n: nat,
)
    requires
        i <= n,
        fed_reference(rule, schema, columns, row_offset, i).error is Some,
    ensures
        fed_reference(rule, schema, columns, row_offset, n) == fed_reference(
            rule,
            schema,
            columns,
            row_offset,
            i,
        ),
    decreases n,
{
    if i < n {
        reference_error_stays(rule, schema, columns, row_offset, i, (n - 1) as nat);
    }
}

proof fn reference_entries_grow(
    rule: ReferenceFeed,
    schema: Schema,
    columns: Seq<Vec<Cell>>,
    row_offset: int,
    i: nat,
    n: nat,
)
    requires
        i <= n,
    ensures
        fed_reference(rule, schema, columns, row_offset, i).entries.len() <= fed_reference(
            rule,
            schema,
            columns,
            row_offset,
            n,
        ).entries.len(),
        fed_reference(rule, schema, columns, row_offset, i).entries == fed_reference(
            rule,
            schema,
            columns,
            row_offset,
            n,
        ).entries.take(
            fed_reference(rule, schema, columns, row_offset, i).entries.len() as int,
        ),
    decreases n,
{
    let a = fed_reference(rule, schema, columns, row_offset, i).entries;
    if i < n {
        reference_entries_grow(rule, schema, columns, row_offset, i, (n - 1) as nat);
        let m = fed_reference(rule, schema, columns, row_offset, (n - 1) as nat).entries;
        let b = fed_reference(rule, schema, columns, row_offset, n).entries;
        assert(b.take(a.len() as int) =~= m.take(a.len() as int));
    } else {
        assert(a.take(a.len() as int) =~= a);
    }
}

/// Feeds the keys of a batch to exact state. The runs that were written are returned.
#[verifier::rlimit(60)]
pub fn feed_reference(
    exact: &mut ExactState,
    account: &mut ResourceAccount,
    indexes: &Vec<usize>,
    reject: bool,
    name: &str,
    schema: &Schema,
    batch: &Batch,
    row_offset: u64,
    validation: &mut ValidationState,
) -> (r: Result<Vec<Vec<u8>>, ProofFrameError>)
    requires
        old(exact).wf(),
        old(account).wf(),
        old(exact).spec_node() < old(account).nodes().len(),
        old(validation).wf(),
        batch_fits(*schema, *batch, row_offset as int),
        indexes_fit(indexes@, batch.columns@.len() as int),
    ensures
        same_exact(*old(exact), *final(exact)),
        same_account(*old(account), *final(account)),
        final(validation).wf(),
        final(validation).offered() == old(validation).offered(),
        ({
            let f = fed_reference(
                ReferenceFeed { indexes: indexes@, reject, name: name@ },
                *schema,
                batch.columns@,
                row_offset as int,
                batch.rows as nat,
            );
            &&& r matches Ok(runs) ==> f.error is None && fed_state(
                *old(exact),
                *final(exact),
                f.entries,
                runs@,
            ) && final(validation)@ == recorded_all(old(validation)@, f.findings) && draws(
                old(account).nodes(),
                final(account).nodes(),
                *old(exact),
                *final(exact),
                f.entries,
            )
            &&& r matches Err(e) ==> f.error == Some(e@) || not_inserted(e@)
            &&& f.entries.len() == 0 ==> outcome(r, f.error)
            &&& old(exact).plenty(old(account), f.entries) ==> outcome(r, f.error)
        }),
{
    let mut runs: Vec<Vec<u8>> = Vec::new();
    let mut i: usize = 0;
    let ghost rule = ReferenceFeed { indexes: indexes@, reject, name: name@ };
    let ghost all = fed_reference(
        rule,
        *schema,
        batch.columns@,
        row_offset as int,
        batch.rows as nat,
    ).entries;
    let ghost roomy = old(exact).plenty(old(account), all);
    proof {
        fed_none(*exact);
        drawn_none(account.nodes(), *exact);
        assert(all.skip(0) =~= all);
    }
    while i < batch.rows
        invariant
            i <= batch.rows,
            batch_fits(*schema, *batch, row_offset as int),
            indexes_fit(indexes@, batch.columns@.len() as int),
            same_exact(*old(exact), *exact),
            same_account(*old(account), *account),
            exact.spec_node() < account.nodes().len(),
            validation.wf(),
            validation.offered() == old(validation).offered(),
            rule == (ReferenceFeed { indexes: indexes@, reject, name: name@ }),
            all == fed_reference(
                rule,
                *schema,
                batch.columns@,
                row_offset as int,
                batch.rows as nat,
            ).entries,
            roomy == old(exact).plenty(old(account), all),
            ({
                let f = fed_reference(
                    rule,
                    *schema,
                    batch.columns@,
                    row_offset as int,
                    i as nat,
                );
                &&& f.error is None
                &&& fed_state(*old(exact), *exact, f.entries, runs@)
                &&& draws(
                    old(account).nodes(),
                    account.nodes(),
                    *old(exact),
                    *exact,
                    f.entries,
                )
                &&& validation@ == recorded_all(old(validation)@, f.findings)
                &&& roomy ==> exact.plenty(account, all.skip(f.entries.len() as int))
            }),
        decreases batch.rows - i,
    {
        let ghost f = fed_reference(rule, *schema, batch.columns@, row_offset as int, i as nat);
        let ghost g = fed_reference(
            rule,
            *schema,
            batch.columns@,
            row_offset as int,
            (i + 1) as nat,
        );
        let row: u64 = row_offset + i as u64;
        match encode_key(batch, schema, indexes, i) {
            Err(e) => {
                proof {
                    reference_error_stays(
                        rule,
                        *schema,
                        batch.columns@,
                        row_offset as int,
                        (i + 1) as nat,
                        batch.rows as nat,
                    );
                }
                return Err(e);
            },
            Ok(None) => {
                if reject {
                    assert(g.findings.drop_last() =~= f.findings);
                    validation.record(
                        Finding {
                            rule: "references",
                            column: text("$dataset"),
                            row: Some(row),
                            message: cat3("Reference rule `", name, "` rejects null keys"),
                        },
                    );
                }
            },
            Ok(Some(bytes)) => {
                let ghost b4 = *exact;
                let ghost a4 = *account;
                let ghost rest = all.skip(f.entries.len() as int);
                let ghost had = runs@;
                let ghost entry = (Key::Bytes(bytes@), row);
                proof {
                    reference_entries_grow(
                        rule,
                        *schema,
                        batch.columns@,
                        row_offset as int,
                        (i + 1) as nat,
                        batch.rows as nat,
                    );
                    assert(g.entries.last() == entry);
                    assert(all.take(g.entries.len() as int).last() == entry);
                    assert(rest[0] == entry);
                    if roomy {
                        plenty_accepts(exact, account, rest);
                    }
                }
                match exact.insert(account, ValueRef::Bytes(bytes.as_slice()), row) {
                    Ok(written) => {
                        proof {
                            insert_is_step(b4, a4, *exact, *account, entry, written);
                            if roomy {
                                plenty_stays(&b4, &a4, rest, exact, account, written);
                                assert(rest.drop_first() =~= all.skip(g.entries.len() as int));
                            }
                        }
                        let ghost given = written;
                        match written {
                            Some(b) => runs.push(b),
                            None => {},
                        }
                        proof {
                            draws_more(
                                old(account).nodes(),
                                a4.nodes(),
                                account.nodes(),
                                *old(exact),
                                b4,
                                *exact,
                                f.entries,
                                entry,
                            );
                            assert(g.entries =~= f.entries.push(entry));
                            fed_one_more(
                                *old(exact),
                                b4,
                                *exact,
                                f.entries,
                                entry,
                                had,
                                given,
                                runs@,
                            );
                        }
                    },
                    Err(e) => {
                        return Err(e);
                    },
                }
            },
        }
        i = i + 1;
    }
    Ok(runs)
}

/// A dataset of reference keys while it is scanned.
pub struct ReferenceScan {
    pub indexes: Vec<usize>,
    pub exact: ExactState,
    pub fingerprint: V2FingerprintState,
    pub rows: u64,
}

/// A scanned dataset of reference keys: all its keys in runs, its fingerprint, its rows.
pub struct ScannedReference {
    pub exact: ExactState,
    pub fingerprint: String,
    pub rows: u64,
}

impl ReferenceScan {
    /// Whether the scan stands at a node of the account and fits a schema.
    pub open spec fn wf(&self, account: ResourceAccount, columns: int) -> bool {
        &&& exact_at(self.exact, account)
        &&& self.exact.spec_kind() == ValueKind::Bytes
        &&& indexes_fit(self.indexes@, columns)
        &&& self.fingerprint.streams().len() == columns
        &&& self.fingerprint.count() == self.rows
    }

    /// Starts a scan: the key columns are found and held to the local types first.
    pub fn new(
        plan: &ReferencePlan,
        local: &Schema,
        remote: &Schema,
        account: &mut ResourceAccount,
        node: usize,
    ) -> (r: Result<Self, ProofFrameError>)
        requires
            reference_fits(*plan, local.fields@.len() as int),
            old(account).wf(),
            node < old(account).nodes().len(),
        ensures
            final(account).wf(),
            final(account).spec_limits() == old(account).spec_limits(),
            final(account).nodes().len() >= old(account).nodes().len(),
            match key_error(*plan, *local, *remote, plan.reference_columns@.len()) {
                Some(e) => r matches Err(x) && x@ == e,
                None => {
                    &&& !can_open(
                        *old(account),
                        node as int,
                        old(account).spec_limits().max_memory_bytes,
                        1,
                    ) ==> (r matches Err(e) && not_opened(*old(account), e@))
                    &&& can_open(
                        *old(account),
                        node as int,
                        old(account).spec_limits().max_memory_bytes,
                        1,
                    ) ==> match crate::fingerprint::unencodable_field(
                        remote.fields@,
                        remote.fields@.len(),
                    ) {
                        Some(t) => r matches Err(e) && e@ == ErrorView::UnsupportedType(t),
                        None => match crate::fingerprint::schema_v2(
                            *remote,
                            Seq::<Seq<char>>::empty(),
                        ) {
                            Err(t) => r matches Err(e) && e@ == ErrorView::UnsupportedType(t),
                            Ok(b) => r is Ok,
                        },
                    }
                    &&& r matches Ok(s) ==> s.wf(*final(account), remote.fields@.len() as int)
                        && exact_empty(s.exact, ValueKind::Bytes, true) && s.rows == 0
                        && s.indexes@.len() == plan.reference_columns@.len() && forall|j: int|
                        #![trigger s.indexes@[j]]
                        0 <= j < s.indexes@.len() ==> crate::value::first_named(
                            remote.fields@,
                            plan.reference_columns@[j]@,
                        ) == Some(s.indexes@[j] as int)
                },
            },
    {
        let indexes = match resolve_reference_key(plan, local, remote) {
            Ok(v) => v,
            Err(e) => return Err(e),
        };
        let share: u64 = account.limits().max_memory_bytes;
        let ghost start = *account;
        proof {
            assert(0 * sample_bytes(start) == 0) by (nonlinear_arith);
        }
        let exact = match open_state(
            ValueKind::Bytes,
            account,
            node,
            share,
            true,
            None,
            Ghost(start),
            Ghost(0),
        ) {
            Ok(e) => e,
            Err(e) => return Err(e),
        };
        let options = FingerprintOptions::new(FingerprintVersion::V2);
        assert(options.keys() =~= Seq::<Seq<char>>::empty());
        let fingerprint = match V2FingerprintState::new(remote, &options) {
            Ok(f) => f,
            Err(e) => return Err(e),
        };
        let s = ReferenceScan { indexes, exact, fingerprint, rows: 0 };
        assert(indexes_fit(s.indexes@, remote.fields@.len() as int));
        Ok(s)
    }

    /// The feed of a scan: nulls are passed over.
    pub open spec fn feed(&self, schema: Schema, batch: Batch) -> Fed {
        fed_reference(
            ReferenceFeed { indexes: self.indexes@, reject: false, name: Seq::empty() },
            schema,
            batch.columns@,
            self.rows as int,
            batch.rows as nat,
        )
    }

    /// Scans a batch. A null is no identity that anything could match, so a key with a null
    /// never enters the set. The runs that had to be written are returned.
    pub fn update(
        &mut self,
        reference: &str,
        schema: &Schema,
        batch_schema: &Schema,
        batch: &Batch,
        account: &mut ResourceAccount,
        cancelled: bool,
    ) -> (r: Result<Vec<Vec<u8>>, ProofFrameError>)
        requires
            old(account).wf(),
            old(self).wf(*old(account), schema.fields@.len() as int),
            readable(*batch, schema.fields@.len()),
            old(self).rows + batch.rows <= u64::MAX,
        ensures
            same_account(*old(account), *final(account)),
            cancelled ==> (r matches Err(e) && e@ == ErrorView::Cancelled),
            !cancelled && !same_schema(*batch_schema, *schema) ==> (r matches Err(e)
                && e@ == ErrorView::SchemaMismatch(
                "reference dataset `"@ + reference@ + "` changed schema while it was scanned"@,
            )),
            r is Ok ==> !cancelled && same_schema(*batch_schema, *schema),
            !cancelled && same_schema(*batch_schema, *schema) ==> ({
                let f = old(self).feed(*schema, *batch);
                &&& r matches Ok(runs) ==> f.error is None && fed_state(
                    old(self).exact,
                    final(self).exact,
                    f.entries,
                    runs@,
                ) && final(self).wf(*final(account), schema.fields@.len() as int)
                    && final(self).indexes == old(self).indexes && final(self).rows == old(
                    self,
                ).rows + batch.rows && final(self).fingerprint.schema_bytes() == old(
                    self,
                ).fingerprint.schema_bytes() && forall|c: int|
                    0 <= c < schema.fields@.len()
                        ==> #[trigger] final(self).fingerprint.streams()[c] == old(
                        self,
                    ).fingerprint.streams()[c] + crate::fingerprint::cells_v2(
                        crate::fingerprint::column_of(
                            crate::fingerprint::rows_of(*batch),
                            c,
                        ),
                    )
                &&& r matches Err(e) ==> f.error == Some(e@) || not_inserted(e@)
                &&& f.entries.len() == 0 ==> outcome(r, f.error)
                &&& old(self).exact.plenty(old(account), f.entries) ==> outcome(r, f.error)
            }),
    {
        match stop_when(cancelled) {
            Ok(()) => {},
            Err(e) => return Err(e),
        }
        if !schema_eq(batch_schema, schema) {
            return Err(
                ProofFrameError::SchemaMismatch(
                    cat3(
                        "reference dataset `",
                        reference,
                        "` changed schema while it was scanned",
                    ),
                ),
            );
        }
        self.fingerprint.update(batch);
        let mut silent = ValidationState::new(0);
        let none = String::new();
        let row_offset: u64 = self.rows;
        assert(none@ =~= Seq::empty());
        let fed = feed_reference(
            &mut self.exact,
            account,
            &self.indexes,
            false,
            none.as_str(),
            schema,
            batch,
            row_offset,
            &mut silent,
        );
        match fed {
            Ok(runs) => {
                self.rows = row_offset + batch.rows as u64;
                Ok(runs)
            },
            Err(e) => Err(e),
        }
    }

    /// Ends the scan: what is still in memory becomes the last run.
    pub fn seal(self, account: &mut ResourceAccount) -> (r: Result<
        (ScannedReference, Option<Vec<u8>>),
        ProofFrameError,
    >)
        requires
            old(account).wf(),
            exact_at(self.exact, *old(account)),
        ensures
            same_account(*old(account), *final(account)),
            r is Ok <==> self.exact.in_memory().len() == 0 || room(
                old(account).nodes(),
                self.exact.spec_node(),
                ResourceKind::Temp,
                0,
                (60 + crate::distinct::run::payload(
                    in_sorted_order(self.exact.in_memory()),
                ).len()) as int,
            ),
            r matches Err(e) ==> e@ == refusal(
                old(account).nodes(),
                self.exact.spec_node(),
                ResourceKind::Temp,
                (60 + crate::distinct::run::payload(
                    in_sorted_order(self.exact.in_memory()),
                ).len()) as u64,
            ),
            r matches Ok(x) ==> x.0.exact.wf() && x.0.exact.in_memory().len() == 0
                && x.0.exact.spec_node() == self.exact.spec_node() && x.0.exact.spec_kind()
                == self.exact.spec_kind() && spilled_to(self.exact, x.0.exact, x.1) && x.0.rows
                == self.rows && x.0.fingerprint@ == "pf-fp-v2:"@ + crate::digest::hex(
                crate::digest::blake3_digest(
                    crate::fingerprint::root_v2(
                        self.fingerprint.schema_bytes(),
                        self.fingerprint.count() as nat,
                        self.fingerprint.streams(),
                    ),
                ),
            ),
    {
        let mut exact = self.exact;
        match exact.spill(account) {
            Ok(bytes) => {
                let fingerprint = self.fingerprint.finish();
                let shown = fingerprint.to_tagged_string();
                Ok((ScannedReference { exact, fingerprint: shown, rows: self.rows }, bytes))
            },
            Err(e) => Err(e),
        }
    }
}

/// The local keys of every reference rule.
pub struct ReferenceState {
    pub local: Vec<ExactState>,
}

/// What the first rules find in a batch, each by itself.
pub open spec fn local_feed(
    plan: ReferencePlan,
    schema: Schema,
    batch: Batch,
    row_offset: int,
) -> Fed {
    fed_reference(
        ReferenceFeed {
            indexes: plan.columns@,
            reject: plan.nulls == ReferenceNullPolicyAst::Reject,
            name: plan.name@,
        },
        schema,
        batch.columns@,
        row_offset,
        batch.rows as nat,
    )
}

/// The error of each rule.
pub open spec fn local_errors(
    plans: Seq<ReferencePlan>,
    schema: Schema,
    batch: Batch,
    row_offset: int,
) -> Seq<Option<ErrorView>> {
    Seq::new(plans.len(), |i: int| local_feed(plans[i], schema, batch, row_offset).error)
}

/// What each rule feeds to its exact state.
pub open spec fn local_entries(
    plans: Seq<ReferencePlan>,
    schema: Schema,
    batch: Batch,
    row_offset: int,
) -> Seq<Seq<Entry>> {
    Seq::new(plans.len(), |i: int| local_feed(plans[i], schema, batch, row_offset).entries)
}

/// The findings of each rule.
pub open spec fn local_findings(
    plans: Seq<ReferencePlan>,
    schema: Schema,
    batch: Batch,
    row_offset: int,
) -> Seq<Seq<FindingView>> {
    Seq::new(plans.len(), |i: int| local_feed(plans[i], schema, batch, row_offset).findings)
}

impl ReferenceState {
    /// Opens one exact state for each rule.
    pub fn new(
        plans: &Vec<ReferencePlan>,
        account: &mut ResourceAccount,
        node: usize,
        row_count_hint: Option<u64>,
    ) -> (r: Result<Self, ProofFrameError>)
        requires
            old(account).wf(),
            node < old(account).nodes().len(),
        ensures
            final(account).wf(),
            final(account).spec_limits() == old(account).spec_limits(),
            final(account).nodes().len() >= old(account).nodes().len(),
            r is Ok <==> can_open(
                *old(account),
                node as int,
                old(account).spec_limits().max_memory_bytes,
                plans@.len(),
            ),
            r matches Err(e) ==> not_opened(*old(account), e@),
            r matches Ok(s) ==> s.local@.len() == plans@.len() && keys_wf(s.local@, *final(account))
                && forall|i: int|
                #![trigger s.local@[i]]
                0 <= i < s.local@.len() ==> exact_empty(s.local@[i], ValueKind::Bytes, true),
    {
        let share: u64 = account.limits().max_memory_bytes;
        let ghost start = *account;
        proof {
            assert(0 * sample_bytes(start) == 0) by (nonlinear_arith);
        }
        match open_states(
            plans.len(),
            account,
            node,
            share,
            true,
            row_count_hint,
            Ghost(start),
            Ghost(0),
        ) {
            Ok(local) => Ok(ReferenceState { local }),
            Err(e) => Err(e),
        }
    }

    /// Feeds the local keys of a batch. The runs that had to be written are returned.
    pub fn update(
        &mut self,
        plans: &Vec<ReferencePlan>,
        schema: &Schema,
        batch: &Batch,
        row_offset: u64,
        account: &mut ResourceAccount,
        validation: &mut ValidationState,
    ) -> (r: Result<Vec<Vec<Vec<u8>>>, ProofFrameError>)
        requires
            old(account).wf(),
            old(validation).wf(),
            old(self).local@.len() == plans@.len(),
            keys_wf(old(self).local@, *old(account)),
            batch_fits(*schema, *batch, row_offset as int),
            forall|i: int|
                #![trigger plans@[i]]
                0 <= i < plans@.len() ==> indexes_fit(
                    plans@[i].columns@,
                    batch.columns@.len() as int,
                ),
        ensures
            same_account(*old(account), *final(account)),
            final(validation).wf(),
            final(validation).offered() == old(validation).offered(),
            final(self).local@.len() == old(self).local@.len(),
            keys_wf(final(self).local@, *final(account)),
            plans@.len() == 0 ==> r is Ok && *final(account) == *old(account),
            ({
                let errors = local_errors(plans@, *schema, *batch, row_offset as int);
                &&& r matches Err(e) ==> earliest(errors, plans@.len()) == Some(e@)
                    || not_inserted(e@)
                &&& r matches Ok(runs) ==> earliest(errors, plans@.len()) is None && runs@.len()
                    == plans@.len() && (forall|i: int|
                    #![trigger final(self).local@[i]]
                    0 <= i < plans@.len() ==> fed_state(
                        old(self).local@[i],
                        final(self).local@[i],
                        local_feed(plans@[i], *schema, *batch, row_offset as int).entries,
                        runs@[i]@,
                    )) && final(validation)@ == recorded_all(
                    old(validation)@,
                    all_of(
                        local_findings(plans@, *schema, *batch, row_offset as int),
                        plans@.len(),
                    ),
                ) && leaves(
                    old(account).nodes(),
                    final(account).nodes(),
                    old(self).local@,
                    local_entries(plans@, *schema, *batch, row_offset as int),
                    plans@.len(),
                )
                &&& ample_for(
                    old(account).nodes(),
                    old(self).local@,
                    local_entries(plans@, *schema, *batch, row_offset as int),
                ) ==> outcome(r, earliest(errors, plans@.len()))
            }),
    {
        let ghost given = self.local@;
        let ghost errors = local_errors(plans@, *schema, *batch, row_offset as int);
        let ghost lists = local_findings(plans@, *schema, *batch, row_offset as int);
        let ghost fed_lists = local_entries(plans@, *schema, *batch, row_offset as int);
        let ghost owed = ample_for(account.nodes(), given, fed_lists);
        proof {
            leaves_all(account.nodes(), given, fed_lists);
        }
        let mut out: Vec<Vec<Vec<u8>>> = Vec::new();
        let mut i: usize = 0;
        while i < plans.len()
            invariant
                i <= plans@.len(),
                out@.len() == i,
                given == old(self).local@,
                self.local@.len() == given.len(),
                given.len() == plans@.len(),
                errors == local_errors(plans@, *schema, *batch, row_offset as int),
                lists == local_findings(plans@, *schema, *batch, row_offset as int),
                earliest(errors, i as nat) is None,
                fed_lists == local_entries(plans@, *schema, *batch, row_offset as int),
                owed == ample_for(old(account).nodes(), given, fed_lists),
                keys_wf(given, *old(account)),
                leaves(old(account).nodes(), account.nodes(), given, fed_lists, i as nat),
                plans@.len() == 0 ==> *account == *old(account),
                same_account(*old(account), *account),
                keys_wf(self.local@, *account),
                validation.wf(),
                validation.offered() == old(validation).offered(),
                validation@ == recorded_all(old(validation)@, all_of(lists, i as nat)),
                batch_fits(*schema, *batch, row_offset as int),
                forall|k: int|
                    #![trigger plans@[k]]
                    0 <= k < plans@.len() ==> indexes_fit(
                        plans@[k].columns@,
                        batch.columns@.len() as int,
                    ),
                forall|k: int| i <= k < given.len() ==> #[trigger] self.local@[k] == given[k],
                forall|k: int|
                    #![trigger self.local@[k]]
                    0 <= k < i ==> fed_state(
                        given[k],
                        self.local@[k],
                        local_feed(plans@[k], *schema, *batch, row_offset as int).entries,
                        out@[k]@,
                    ),
            decreases plans@.len() - i,
        {
            let plan = &plans[i];
            assert(self.local@[i as int] == given[i as int]);
            let ghost before = self.local@;
            let ghost middle = account.nodes();
            proof {
                assert forall|k: int| 0 <= k < given.len() implies (#[trigger] given[k]).wf() by {
                    assert(exact_at(given[k], *old(account)));
                }
                if owed {
                    next_has_room(old(account).nodes(), account, given, fed_lists, i as nat);
                }
            }
            let reject = plan.nulls == ReferenceNullPolicyAst::Reject;
            let fed = feed_reference(
                &mut self.local[i],
                account,
                &plan.columns,
                reject,
                plan.name.as_str(),
                schema,
                batch,
                row_offset,
                validation,
            );
            assert forall|k: int|
                #![trigger self.local@[k]]
                0 <= k < self.local@.len() && k != i implies self.local@[k] == before[k] by {}
            match fed {
                Ok(runs) => {
                    proof {
                        assert(errors[i as int] is None);
                        leaves_less(
                            old(account).nodes(),
                            middle,
                            account.nodes(),
                            given,
                            fed_lists,
                            i as nat,
                            self.local@[i as int],
                        );
                        recorded_in_parts(
                            old(validation)@,
                            all_of(lists, i as nat),
                            lists[i as int],
                        );
                    }
                    out.push(runs);
                },
                Err(e) => {
                    proof {
                        if errors[i as int] == Some(e@) {
                            assert(earliest(errors, (i + 1) as nat) == Some(e@));
                            earliest_stays(errors, (i + 1) as nat, plans@.len());
                        }
                    }
                    return Err(e);
                },
            }
            i = i + 1;
        }
        Ok(out)
    }

    /// Ends the local keys: what is still in memory becomes the last run of each rule.
    pub fn seal(&mut self, account: &mut ResourceAccount) -> (r: Result<
        Vec<Option<Vec<u8>>>,
        ProofFrameError,
    >)
        requires
            old(account).wf(),
            keys_wf(old(self).local@, *old(account)),
        ensures
            same_account(*old(account), *final(account)),
            final(self).local@.len() == old(self).local@.len(),
            keys_wf(final(self).local@, *final(account)),
            r matches Err(e) ==> e@ is ResourceLimit,
            r matches Ok(runs) ==> runs@.len() == old(self).local@.len() && forall|i: int|
                #![trigger final(self).local@[i]]
                0 <= i < runs@.len() ==> final(self).local@[i].in_memory().len() == 0
                    && spilled_to(old(self).local@[i], final(self).local@[i], runs@[i]),
            (forall|i: int|
                #![trigger old(self).local@[i]]
                0 <= i < old(self).local@.len() ==> old(self).local@[i].in_memory().len() == 0)
                ==> r is Ok,
            forall|m: int, t: int|
                #![trigger spare(old(account).nodes(), m, t)]
                spare(old(account).nodes(), m, t) && t >= last_runs(
                    old(self).local@,
                    old(self).local@.len(),
                ) ==> r is Ok && spare(
                    final(account).nodes(),
                    m,
                    t - last_runs(old(self).local@, old(self).local@.len()),
                ),
    {
        let ghost given = self.local@;
        let mut out: Vec<Option<Vec<u8>>> = Vec::new();
        let mut i: usize = 0;
        while i < self.local.len()
            invariant
                i <= self.local@.len(),
                out@.len() == i,
                given == old(self).local@,
                self.local@.len() == given.len(),
                same_account(*old(account), *account),
                keys_wf(self.local@, *account),
                forall|k: int| i <= k < given.len() ==> #[trigger] self.local@[k] == given[k],
                forall|k: int|
                    #![trigger self.local@[k]]
                    0 <= k < i ==> self.local@[k].in_memory().len() == 0 && spilled_to(
                        given[k],
                        self.local@[k],
                        out@[k],
                    ),
                forall|m: int, t: int|
                    #![trigger spare(old(account).nodes(), m, t)]
                    spare(old(account).nodes(), m, t) ==> spare(
                        account.nodes(),
                        m,
                        t - last_runs(given, i as nat),
                    ),
            decreases self.local@.len() - i,
        {
            assert(self.local@[i as int] == given[i as int]);
            let ghost before = self.local@;
            let ghost middle = account.nodes();
            proof {
                last_runs_grow(given, (i + 1) as nat, given.len());
                assert forall|m: int, t: int|
                    #![trigger spare(old(account).nodes(), m, t)]
                    spare(old(account).nodes(), m, t) && t >= last_runs(
                        given,
                        given.len(),
                    ) implies given[i as int].in_memory().len() == 0 || room(
                    middle,
                    given[i as int].spec_node(),
                    ResourceKind::Temp,
                    0,
                    given[i as int].last_run_bytes() as int,
                ) by {
                    assert(spare(middle, m, t - last_runs(given, i as nat)));
                }
            }
            let done = self.local[i].spill(account);
            proof {
                if done is Ok {
                    spill_stores(
                        middle,
                        account.nodes(),
                        given[i as int],
                        self.local@[i as int],
                        done->Ok_0,
                    );
                    assert forall|m: int, t: int|
                        #![trigger spare(old(account).nodes(), m, t)]
                        spare(old(account).nodes(), m, t) implies spare(
                        account.nodes(),
                        m,
                        t - last_runs(given, (i + 1) as nat),
                    ) by {
                        spare_once_stored(
                            middle,
                            account.nodes(),
                            m,
                            t - last_runs(given, i as nat),
                            given[i as int].last_run_bytes() as int,
                        );
                    }
                }
            }
            assert forall|k: int|
                #![trigger self.local@[k]]
                0 <= k < self.local@.len() && k != i implies self.local@[k] == before[k] by {}
            match done {
                Ok(bytes) => out.push(bytes),
                Err(e) => return Err(e),
            }
            i = i + 1;
        }
        Ok(out)
    }
}

/// What a single reference rule was checked against.
#[derive(Debug)]
pub struct ReferenceOutcome {
    pub name: String,
    pub reference: String,
    pub reference_fingerprint: String,
    pub reference_rows: u64,
    pub reference_distinct_keys: u64,
    pub checked_distinct_keys: u64,
    pub missing_distinct_keys: u64,
}

/// A reference outcome with its texts as character sequences.
pub struct OutcomeView {
    pub name: Seq<char>,
    pub reference: Seq<char>,
    pub reference_fingerprint: Seq<char>,
    pub reference_rows: u64,
    pub reference_distinct_keys: u64,
    pub checked_distinct_keys: u64,
    pub missing_distinct_keys: u64,
}

impl View for ReferenceOutcome {
    type V = OutcomeView;

    open spec fn view(&self) -> OutcomeView {
        OutcomeView {
            name: self.name@,
            reference: self.reference@,
            reference_fingerprint: self.reference_fingerprint@,
            reference_rows: self.reference_rows,
            reference_distinct_keys: self.reference_distinct_keys,
            checked_distinct_keys: self.checked_distinct_keys,
            missing_distinct_keys: self.missing_distinct_keys,
        }
    }
}

/// What the keys of one rule lack, where the stored runs of both sides are those that were
/// written: the local keys that the other dataset never held, in ascending order, with the
/// first row of each.
pub open spec fn lacking(
    local: ExactState,
    local_stored: Seq<&[u8]>,
    remote: ExactState,
    remote_stored: Seq<&[u8]>,
    max_samples: nat,
    found: MissingValues,
) -> bool {
    kept(&local, local_stored) && kept(&remote, remote_stored) ==> {
        let a = merged(local.written());
        let b = merged(remote.written());
        let absent = missing(a, b);
        &&& found.left_distinct == distinct_count(a)
        &&& found.right_distinct == distinct_count(b)
        &&& found.missing == absent.len()
        &&& found.rows@ == entry_rows(absent).take(
            if absent.len() < max_samples {
                absent.len() as int
            } else {
                max_samples as int
            },
        )
    }
}

/// Whether both sides of a rule stand in runs.
pub open spec fn joinable(
    state: ReferenceState,
    sources: Seq<usize>,
    scans: Seq<ScannedReference>,
    local_stored: Seq<Vec<&[u8]>>,
    scan_stored: Seq<Vec<&[u8]>>,
    account: ResourceAccount,
    i: int,
) -> bool {
    &&& sources[i] < scans.len()
    &&& sealed(&state.local@[i], &account, local_stored[i]@)
    &&& sealed(&scans[sources[i] as int].exact, &account, scan_stored[sources[i] as int]@)
}

/// Whether the runs of a rule's keys, or of the keys of its dataset, are damaged.
pub open spec fn join_damaged(
    state: ReferenceState,
    sources: Seq<usize>,
    scans: Seq<ScannedReference>,
    local_stored: Seq<Vec<&[u8]>>,
    scan_stored: Seq<Vec<&[u8]>>,
    i: int,
) -> bool {
    ||| damaged(state.local@[i].metas(), local_stored[i]@)
    ||| damaged(scans[sources[i] as int].exact.metas(), scan_stored[sources[i] as int]@)
}

/// Whether a rule, before which no run is damaged, is the one that could not be compared.
pub open spec fn join_failed(
    state: ReferenceState,
    sources: Seq<usize>,
    scans: Seq<ScannedReference>,
    local_stored: Seq<Vec<&[u8]>>,
    scan_stored: Seq<Vec<&[u8]>>,
    account: ResourceAccount,
    i: int,
    e: ErrorView,
) -> bool {
    &&& 0 <= i < state.local@.len()
    &&& comparison_failed(
        &state.local@[i],
        local_stored[i]@,
        &scans[sources[i] as int].exact,
        scan_stored[sources[i] as int]@,
        &account,
        e,
    )
    &&& forall|k: int|
        0 <= k < i ==> !#[trigger] join_damaged(
            state,
            sources,
            scans,
            local_stored,
            scan_stored,
            k,
        )
}

/// Compares the local keys of every rule with the keys of its dataset.
#[verifier::spinoff_prover]
pub fn join_references(
    state: &ReferenceState,
    sources: &Vec<usize>,
    scans: &Vec<ScannedReference>,
    local_stored: &Vec<Vec<&[u8]>>,
    scan_stored: &Vec<Vec<&[u8]>>,
    max_samples: usize,
    cancelled: bool,
    account: &mut ResourceAccount,
) -> (r: Result<Vec<MissingValues>, ProofFrameError>)
    requires
        old(account).wf(),
        sources@.len() == state.local@.len(),
        local_stored@.len() == state.local@.len(),
        scan_stored@.len() == scans@.len(),
        forall|i: int|
            0 <= i < state.local@.len() ==> #[trigger] joinable(
                *state,
                sources@,
                scans@,
                local_stored@,
                scan_stored@,
                *old(account),
                i,
            ),
    ensures
        kept_account(old(account), final(account)),
        cancelled && state.local@.len() > 0 ==> (r matches Err(e) && e@
            == ErrorView::Cancelled),
        !cancelled && (forall|i: int|
            #![trigger state.local@[i]]
            0 <= i < state.local@.len() ==> kept(&state.local@[i], local_stored@[i]@) && kept(
                &scans@[sources@[i] as int].exact,
                scan_stored@[sources@[i] as int]@,
            ) && can_compare(
                &state.local@[i],
                &scans@[sources@[i] as int].exact,
                old(account),
                0,
            )) ==> r is Ok,
        !cancelled ==> (r matches Err(e) ==> exists|i: int| #[trigger]
            join_failed(
                *state,
                sources@,
                scans@,
                local_stored@,
                scan_stored@,
                *old(account),
                i,
                e@,
            )),
        r matches Ok(v) ==> v@.len() == state.local@.len() && forall|i: int|
            #![trigger v@[i]]
            0 <= i < v@.len() ==> lacking(
                state.local@[i],
                local_stored@[i]@,
                scans@[sources@[i] as int].exact,
                scan_stored@[sources@[i] as int]@,
                max_samples as nat,
                v@[i],
            ) && !damaged(state.local@[i].metas(), local_stored@[i]@) && !damaged(
                scans@[sources@[i] as int].exact.metas(),
                scan_stored@[sources@[i] as int]@,
            ),
{
    let mut out: Vec<MissingValues> = Vec::new();
    let mut i: usize = 0;
    while i < state.local.len()
        invariant
            i <= state.local@.len(),
            account.wf(),
            account.spec_limits() == old(account).spec_limits(),
            as_before(old(account).nodes(), account.nodes()),
            out@.len() == i,
            cancelled ==> i == 0,
            forall|k: int|
                0 <= k < i ==> !#[trigger] join_damaged(
                    *state,
                    sources@,
                    scans@,
                    local_stored@,
                    scan_stored@,
                    k,
                ),
            sources@.len() == state.local@.len(),
            local_stored@.len() == state.local@.len(),
            scan_stored@.len() == scans@.len(),
            forall|k: int|
                0 <= k < state.local@.len() ==> #[trigger] joinable(
                    *state,
                    sources@,
                    scans@,
                    local_stored@,
                    scan_stored@,
                    *old(account),
                    k,
                ),
            forall|k: int|
                #![trigger out@[k]]
                0 <= k < out@.len() ==> lacking(
                    state.local@[k],
                    local_stored@[k]@,
                    scans@[sources@[k] as int].exact,
                    scan_stored@[sources@[k] as int]@,
                    max_samples as nat,
                    out@[k],
                ) && !damaged(state.local@[k].metas(), local_stored@[k]@) && !damaged(
                    scans@[sources@[k] as int].exact.metas(),
                    scan_stored@[sources@[k] as int]@,
                ),
        decreases state.local@.len() - i,
    {
        let local = &state.local[i];
        assert(joinable(
            *state,
            sources@,
            scans@,
            local_stored@,
            scan_stored@,
            *old(account),
            i as int,
        ));
        let source: usize = sources[i];
        proof {
            let here = &state.local@[i as int];
            let there = &scans@[source as int].exact;
            let all = (merge_bytes(here) + merge_bytes(there)) as int;
            let (a, b) = (old(account).nodes(), account.nodes());
            room_as_before(a, b, here.spec_node(), ResourceKind::Memory, all);
            room_as_before(a, b, there.spec_node(), ResourceKind::Memory, all);
        }
        let ghost between = account.nodes();
        let ghost here = *account;
        match anti_join_exact_states(
            local,
            &local_stored[i],
            &scans[source].exact,
            &scan_stored[source],
            max_samples,
            cancelled,
            account,
        ) {
            Ok(found) => {
                proof {
                    as_before_twice(old(account).nodes(), between, account.nodes());
                }
                out.push(found);
            },
            Err(e) => {
                proof {
                    as_before_twice(old(account).nodes(), between, account.nodes());
                    if !cancelled {
                        held_bounds(local);
                        failed_as_before(
                            local,
                            local_stored@[i as int]@,
                            &scans@[source as int].exact,
                            scan_stored@[source as int]@,
                            old(account),
                            &here,
                            e@,
                        );
                        assert(join_failed(
                            *state,
                            sources@,
                            scans@,
                            local_stored@,
                            scan_stored@,
                            *old(account),
                            i as int,
                            e@,
                        ));
                    }
                }
                return Err(e);
            },
        }
        i = i + 1;
    }
    Ok(out)
}

/// The column under which a rule reports.
pub open spec fn reference_column(plan: ReferencePlan) -> Seq<char> {
    if plan.fields@.len() == 0 {
        "$dataset"@
    } else {
        plan.fields@[0]@
    }
}

/// The findings on the keys that one rule lacks.
pub open spec fn lacking_findings(plan: ReferencePlan, rows: Seq<u64>) -> Seq<FindingView> {
    Seq::new(
        rows.len(),
        |i: int|
            FindingView {
                rule: "references"@,
                column: reference_column(plan),
                row: Some(rows[i]),
                message: "Reference rule `"@ + plan.name@ + "` found a key absent from `"@
                    + plan.reference@ + "`"@,
            },
    )
}

/// What the keys that the first `n` rules lack add: a finding for each sample, and the rest
/// counted.
pub open spec fn with_lacking(
    f: Found,
    plans: Seq<ReferencePlan>,
    found: Seq<MissingValues>,
    n: nat,
) -> Found
    decreases n,
{
    if n == 0 {
        f
    } else {
        let m = found[n - 1];
        counted_more(
            recorded_all(
                with_lacking(f, plans, found, (n - 1) as nat),
                lacking_findings(plans[n - 1], m.rows@),
            ),
            if m.missing >= m.rows@.len() {
                (m.missing - m.rows@.len()) as nat
            } else {
                0
            },
        )
    }
}

/// What a rule was checked against.
pub open spec fn outcome_of(
    plan: ReferencePlan,
    scan: ScannedReference,
    found: MissingValues,
) -> OutcomeView {
    OutcomeView {
        name: plan.name@,
        reference: plan.reference@,
        reference_fingerprint: scan.fingerprint@,
        reference_rows: scan.rows,
        reference_distinct_keys: found.right_distinct,
        checked_distinct_keys: found.left_distinct,
        missing_distinct_keys: found.missing,
    }
}

/// The cost of the runs of the first `n` states.
pub open spec fn local_cost(states: Seq<ExactState>, n: nat) -> DatasetMetrics
    decreases n,
{
    if n == 0 {
        DatasetMetrics { spill_bytes: 0, exact_runs: 0 }
    } else {
        let c = local_cost(states, (n - 1) as nat);
        DatasetMetrics {
            spill_bytes: capped(
                c.spill_bytes as nat + capped(
                    run_lengths(states[n - 1].metas(), states[n - 1].metas().len()),
                ),
            ) as u64,
            exact_runs: capped(c.exact_runs as nat + states[n - 1].metas().len()) as u64,
        }
    }
}

/// The length of the first `n` of a list of runs.
pub open spec fn run_lengths(metas: Seq<RunMeta>, n: nat) -> nat
    decreases n,
{
    if n == 0 {
        0
    } else {
        run_lengths(metas, (n - 1) as nat) + 60 + metas[n - 1].payload_bytes as nat
    }
}

fn add_lengths(metas: &Vec<RunMeta>) -> (r: u64)
    ensures
        r == capped(run_lengths(metas@, metas@.len())),
{
    let mut total: u64 = 0;
    let mut i: usize = 0;
    while i < metas.len()
        invariant
            i <= metas@.len(),
            total == capped(run_lengths(metas@, i as nat)),
        decreases metas@.len() - i,
    {
        total = total.saturating_add(60).saturating_add(metas[i].payload_bytes);
        i = i + 1;
    }
    total
}

/// Reports what every rule lacks, and says what each was checked against and what the local
/// keys cost.
pub fn report_references(
    state: &ReferenceState,
    plans: &Vec<ReferencePlan>,
    sources: &Vec<usize>,
    scans: &Vec<ScannedReference>,
    found: &Vec<MissingValues>,
    validation: &mut ValidationState,
) -> (r: (Vec<ReferenceOutcome>, DatasetMetrics))
    requires
        old(validation).wf(),
        plans@.len() == found@.len(),
        sources@.len() == found@.len(),
        state.local@.len() == found@.len(),
        forall|i: int|
            #![trigger sources@[i]]
            0 <= i < sources@.len() ==> sources@[i] < scans@.len(),
    ensures
        final(validation).wf(),
        final(validation).offered() == old(validation).offered(),
        final(validation)@ == with_lacking(old(validation)@, plans@, found@, plans@.len()),
        r.0@.len() == plans@.len(),
        forall|i: int|
            #![trigger r.0@[i]]
            0 <= i < r.0@.len() ==> r.0@[i]@ == outcome_of(
                plans@[i],
                scans@[sources@[i] as int],
                found@[i],
            ),
        r.1 == local_cost(state.local@, plans@.len()),
{
    let mut outcomes: Vec<ReferenceOutcome> = Vec::new();
    let mut metrics = DatasetMetrics { spill_bytes: 0, exact_runs: 0 };
    let mut i: usize = 0;
    while i < plans.len()
        invariant
            i <= plans@.len(),
            outcomes@.len() == i,
            plans@.len() == found@.len(),
            sources@.len() == found@.len(),
            state.local@.len() == found@.len(),
            forall|k: int|
                #![trigger sources@[k]]
                0 <= k < sources@.len() ==> sources@[k] < scans@.len(),
            validation.wf(),
            validation.offered() == old(validation).offered(),
            validation@ == with_lacking(old(validation)@, plans@, found@, i as nat),
            metrics == local_cost(state.local@, i as nat),
            forall|k: int|
                #![trigger outcomes@[k]]
                0 <= k < outcomes@.len() ==> outcomes@[k]@ == outcome_of(
                    plans@[k],
                    scans@[sources@[k] as int],
                    found@[k],
                ),
        decreases plans@.len() - i,
    {
        let plan = &plans[i];
        let m = &found[i];
        let column = if plan.fields.len() == 0 {
            text("$dataset")
        } else {
            plan.fields[0].clone()
        };
        let ghost base = validation@;
        let ghost list = lacking_findings(*plan, m.rows@);
        let mut k: usize = 0;
        assert(list.take(0) =~= Seq::empty());
        while k < m.rows.len()
            invariant
                k <= m.rows@.len(),
                list == lacking_findings(*plan, m.rows@),
                column@ == reference_column(*plan),
                validation.wf(),
                validation.offered() == old(validation).offered(),
                validation@ == recorded_all(base, list.take(k as int)),
            decreases m.rows@.len() - k,
        {
            assert(list.take(k + 1).drop_last() =~= list.take(k as int));
            validation.record(
                Finding {
                    rule: "references",
                    column: column.clone(),
                    row: Some(m.rows[k]),
                    message: cat5(
                        "Reference rule `",
                        plan.name.as_str(),
                        "` found a key absent from `",
                        plan.reference.as_str(),
                        "`",
                    ),
                },
            );
            k = k + 1;
        }
        assert(list.take(list.len() as int) =~= list);
        let sampled: u64 = m.rows.len() as u64;
        validation.count_more(m.missing.saturating_sub(sampled));
        let runs = state.local[i].runs();
        metrics = DatasetMetrics {
            spill_bytes: metrics.spill_bytes.saturating_add(add_lengths(runs)),
            exact_runs: metrics.exact_runs.saturating_add(runs.len() as u64),
        };
        assert(sources@[i as int] < scans@.len());
        let scan = &scans[sources[i]];
        outcomes.push(
            ReferenceOutcome {
                name: plan.name.clone(),
                reference: plan.reference.clone(),
                reference_fingerprint: scan.fingerprint.clone(),
                reference_rows: scan.rows,
                reference_distinct_keys: m.right_distinct,
                checked_distinct_keys: m.left_distinct,
                missing_distinct_keys: m.missing,
            },
        );
        i = i + 1;
    }
    (outcomes, metrics)
}

/// The row counts of the datasets that row-count rules name, each dataset once.
#[derive(Debug)]
pub struct DeltaCounts {
    names: Vec<String>,
    rows: Vec<u64>,
}

/// The rows counted under a name.
pub open spec fn rows_under(names: Seq<Seq<char>>, rows: Seq<u64>, name: Seq<char>) -> Option<u64>
    decreases names.len(),
{
    if names.len() == 0 {
        None
    } else if names.last() == name {
        Some(rows[names.len() - 1])
    } else {
        rows_under(names.drop_last(), rows, name)
    }
}

impl DeltaCounts {
    /// The counted names.
    pub closed spec fn counted(&self) -> Seq<Seq<char>> {
        texts(self.names@)
    }

    /// Their rows.
    pub closed spec fn totals(&self) -> Seq<u64> {
        self.rows@
    }

    /// Whether every name has its rows.
    pub open spec fn wf(&self) -> bool {
        self.counted().len() == self.totals().len()
    }

    /// The rows counted under a name.
    pub open spec fn rows_of(&self, name: Seq<char>) -> Option<u64> {
        rows_under(self.counted(), self.totals(), name)
    }

    /// Nothing counted.
    pub fn new() -> (r: Self)
        ensures
            r.wf(),
            r.counted() == Seq::<Seq<char>>::empty(),
    {
        let r = DeltaCounts { names: Vec::new(), rows: Vec::new() };
        assert(r.counted() =~= Seq::empty());
        r
    }

    /// Whether the dataset of a rule is still to be counted. A rule whose dataset is not
    /// bound is an error: a comparison that never happened must not report as one that
    /// held.
    pub fn wants(
        &self,
        plan: &RowCountDeltaPlan,
        bindings: &mut ReferenceBindings,
    ) -> (r: Result<bool, ProofFrameError>)
        requires
            self.wf(),
            old(bindings).wf(),
        ensures
            final(bindings).wf(),
            if self.rows_of(plan.reference@) is Some {
                (r matches Ok(b) && !b) && final(bindings).bound() == old(bindings).bound()
            } else if old(bindings).bound().contains(plan.reference@) {
                (r matches Ok(b) && b) && !final(bindings).bound().contains(plan.reference@)
                    && forall|n: Seq<char>|
                    n != plan.reference@ ==> (#[trigger] final(bindings).bound().contains(n)
                        <==> old(bindings).bound().contains(n))
            } else {
                r matches Err(e) && e@ == crate::contract::ast::failure(
                    ErrorCode::ReferenceUnbound,
                    "Row count rule `"@ + plan.name@ + "` needs a dataset bound to `"@
                        + plan.reference@ + "`"@,
                    "$.dataset_rules.row_count_delta["@ + plan.name@ + "]"@,
                )
            },
    {
        match self.get(plan.reference.as_str()) {
            Some(_) => Ok(false),
            None => {
                if bindings.take(plan.reference.as_str()) {
                    Ok(true)
                } else {
                    Err(
                        crate::contract::ast::fail(
                            ErrorCode::ReferenceUnbound,
                            cat5(
                                "Row count rule `",
                                plan.name.as_str(),
                                "` needs a dataset bound to `",
                                plan.reference.as_str(),
                                "`",
                            ),
                            cat3("$.dataset_rules.row_count_delta[", plan.name.as_str(), "]"),
                        ),
                    )
                }
            },
        }
    }

    /// The rows counted under a name.
    pub fn get(&self, name: &str) -> (r: Option<u64>)
        requires
            self.wf(),
        ensures
            r == self.rows_of(name@),
    {
        let ghost all = self.counted();
        let mut i: usize = self.names.len();
        assert(all.take(i as int) =~= all);
        while i > 0
            invariant
                i <= self.names@.len(),
                self.wf(),
                all == self.counted(),
                rows_under(all.take(i as int), self.totals(), name@) == self.rows_of(name@),
            decreases i,
        {
            assert(all.take(i as int).drop_last() =~= all.take(i - 1));
            assert(all.take(i as int).last() == self.names@[i - 1]@);
            if str_eq(self.names[i - 1].as_str(), name) {
                return Some(self.rows[i - 1]);
            }
            i = i - 1;
        }
        None
    }

    /// Records the rows of a dataset.
    pub fn insert(&mut self, name: &str, rows: u64)
        requires
            old(self).wf(),
        ensures
            final(self).wf(),
            forall|n: Seq<char>|
                #![trigger final(self).rows_of(n)]
                final(self).rows_of(n) == if n == name@ {
                    Some(rows)
                } else {
                    old(self).rows_of(n)
                },
    {
        let ghost had = self.counted();
        let ghost before = self.totals();
        self.names.push(text(name));
        self.rows.push(rows);
        proof {
            assert(self.counted() =~= had.push(name@));
            assert(self.counted().drop_last() =~= had);
            assert forall|n: Seq<char>|
                #![trigger self.rows_of(n)]
                self.rows_of(n) == if n == name@ {
                    Some(rows)
                } else {
                    rows_under(had, before, n)
                } by {
                rows_under_prefix(had, before, self.totals(), n);
            }
        }
    }
}

proof fn rows_under_prefix(names: Seq<Seq<char>>, a: Seq<u64>, b: Seq<u64>, name: Seq<char>)
    requires
        names.len() <= a.len(),
        names.len() <= b.len(),
        forall|i: int| 0 <= i < names.len() ==> a[i] == b[i],
    ensures
        rows_under(names, a, name) == rows_under(names, b, name),
    decreases names.len(),
{
    if names.len() > 0 {
        rows_under_prefix(names.drop_last(), a, b, name);
    }
}

/// The finding of a row-count rule, given the rows on both sides and the change that the
/// caller worked out.
pub open spec fn delta_finding(
    plan: RowCountDeltaPlan,
    rows: u64,
    reference: Option<u64>,
    change: Measured,
) -> Seq<FindingView> {
    match reference {
        None => Seq::empty(),
        Some(n) => if n == 0 {
            seq![
                FindingView {
                    rule: "row_count_delta"@,
                    column: "$dataset"@,
                    row: None,
                    message: "Rule `"@ + plan.name@ + "` compares against `"@ + plan.reference@
                        + "`, which has no rows"@,
                },
            ]
        } else {
            match float_outside(change, plan.min_ratio, plan.max_ratio) {
                Some(reason) => seq![
                    FindingView {
                        rule: "row_count_delta"@,
                        column: "$dataset"@,
                        row: None,
                        message: "Rule `"@ + plan.name@ + "` moved "@ + change.shown@
                            + " against `"@ + plan.reference@ + "` ("@ + decimal(rows as nat)
                            + " rows against "@ + decimal(n as nat) + "), which is "@ + reason,
                    },
                ],
                None => Seq::empty(),
            }
        },
    }
}

/// The findings of the row-count rules.
pub open spec fn delta_lists(
    plans: Seq<RowCountDeltaPlan>,
    rows: u64,
    counted: DeltaCounts,
    changes: Seq<Measured>,
) -> Seq<Seq<FindingView>> {
    Seq::new(
        plans.len(),
        |i: int|
            delta_finding(plans[i], rows, counted.rows_of(plans[i].reference@), changes[i]),
    )
}

/// Compares the row count with those of the datasets that a contract names. A dataset
/// without rows has no ratio, and that is reported.
pub fn check_row_count_delta(
    plans: &Vec<RowCountDeltaPlan>,
    rows: u64,
    counted: &DeltaCounts,
    changes: &Vec<Measured>,
    validation: &mut ValidationState,
)
    requires
        old(validation).wf(),
        counted.wf(),
        changes@.len() == plans@.len(),
    ensures
        final(validation).wf(),
        final(validation).offered() == old(validation).offered(),
        final(validation)@ == recorded_all(
            old(validation)@,
            all_of(delta_lists(plans@, rows, *counted, changes@), plans@.len()),
        ),
{
    let ghost lists = delta_lists(plans@, rows, *counted, changes@);
    let mut i: usize = 0;
    while i < plans.len()
        invariant
            i <= plans@.len(),
            validation.wf(),
            validation.offered() == old(validation).offered(),
            counted.wf(),
            changes@.len() == plans@.len(),
            lists == delta_lists(plans@, rows, *counted, changes@),
            validation@ == recorded_all(old(validation)@, all_of(lists, i as nat)),
        decreases plans@.len() - i,
    {
        let plan = &plans[i];
        let change = &changes[i];
        let found = match counted.get(plan.reference.as_str()) {
            None => None,
            Some(n) => if n == 0 {
                Some(
                    cat5(
                        "Rule `",
                        plan.name.as_str(),
                        "` compares against `",
                        plan.reference.as_str(),
                        "`, which has no rows",
                    ),
                )
            } else {
                match measured_outside(change, plan.min_ratio, plan.max_ratio) {
                    Some(reason) => {
                        let here = decimal_u64(rows);
                        let there = decimal_u64(n);
                        let start = cat7(
                            "Rule `",
                            plan.name.as_str(),
                            "` moved ",
                            change.shown.as_str(),
                            " against `",
                            plan.reference.as_str(),
                            "` (",
                        );
                        let middle = cat5(
                            start.as_str(),
                            here.as_str(),
                            " rows against ",
                            there.as_str(),
                            "), which is ",
                        );
                        Some(crate::text::cat2(middle.as_str(), reason.as_str()))
                    },
                    None => None,
                }
            },
        };
        let ghost base = validation@;
        match found {
            Some(message) => {
                proof {
                    assert(lists[i as int].drop_last() =~= Seq::empty());
                    assert(recorded_all(base, lists[i as int].drop_last()) == base);
                }
                validation.record(
                    Finding {
                        rule: "row_count_delta",
                        column: text("$dataset"),
                        row: None,
                        message,
                    },
                );
            },
            None => {},
        }
        proof {
            assert(validation@ == recorded_all(base, lists[i as int]));
            recorded_in_parts(old(validation)@, all_of(lists, i as nat), lists[i as int]);
        }
        i = i + 1;
    }
}

} // verus!
