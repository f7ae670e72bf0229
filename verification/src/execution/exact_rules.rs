//! Exact state fed from the cells of a batch.

use crate::contract::ast::{outcome, CompositeNullPolicyAst};
use crate::contract::rules::KernelKind;
use crate::distinct::budget::{drawn_none, draws, draws_more};
use crate::distinct::order::{Entry, Key, ValueKind};
use crate::distinct::run::{payload, run_bytes};
use crate::distinct::state::{
    in_sorted_order, not_inserted, plenty_accepts, plenty_stays, run_cost, run_length, runs_with,
    same_room, ExactState,
};
use crate::error::{ErrorView, ProofFrameError};
use crate::execution::keys::{
    composite_bytes, composite_key, exact_key, exact_key_of, key_has_null, key_in_range, scalar_key,
    scalar_key_of, unkeyable,
};
use crate::execution::validation::{recorded_all, Finding, FindingView, ValidationState};
use crate::resource::ResourceAccount;
use crate::text::{cat2, cat3, text};
use crate::value::{Batch, Cell, Schema};
use vstd::multiset::Multiset;
use vstd::prelude::*;

verus! {

/// The kind of the exact keys of a column.
pub open spec fn key_kind(kernel: KernelKind) -> ValueKind {
    match kernel {
        KernelKind::I8 | KernelKind::I16 | KernelKind::I32 | KernelKind::I64 => ValueKind::I64,
        KernelKind::Date32 | KernelKind::Date64 | KernelKind::Timestamp(_) => ValueKind::I64,
        KernelKind::U8 | KernelKind::U16 | KernelKind::U32 | KernelKind::U64 => ValueKind::U64,
        KernelKind::Boolean => ValueKind::U64,
        KernelKind::F32 | KernelKind::F64 => ValueKind::F64,
        _ => ValueKind::Bytes,
    }
}

/// The kind of the exact keys of a column.
pub fn exact_kind(kernel: KernelKind) -> (r: ValueKind)
    ensures
        r == key_kind(kernel),
{
    match kernel {
        KernelKind::I8 | KernelKind::I16 | KernelKind::I32 | KernelKind::I64 => ValueKind::I64,
        KernelKind::Date32 | KernelKind::Date64 | KernelKind::Timestamp(_) => ValueKind::I64,
        KernelKind::U8 | KernelKind::U16 | KernelKind::U32 | KernelKind::U64 => ValueKind::U64,
        KernelKind::Boolean => ValueKind::U64,
        KernelKind::F32 | KernelKind::F64 => ValueKind::F64,
        _ => ValueKind::Bytes,
    }
}

/// What feeding a column or a key to exact state amounts to: the entries, the findings on
/// the way, whether a null was met, and the error that stops it.
pub struct Fed {
    pub entries: Seq<Entry>,
    pub findings: Seq<FindingView>,
    pub saw_null: bool,
    pub error: Option<ErrorView>,
}

/// Nothing fed.
pub open spec fn nothing() -> Fed {
    Fed { entries: Seq::empty(), findings: Seq::empty(), saw_null: false, error: None }
}

/// The views of written runs.
pub open spec fn run_views(runs: Seq<Vec<u8>>) -> Seq<Seq<u8>> {
    Seq::new(runs.len(), |i: int| runs[i]@)
}

/// The exact key of a cell: of single values only, or of nested ones too.
pub open spec fn column_key(cell: Cell, nested: bool) -> Option<Key> {
    if nested {
        exact_key(cell)
    } else {
        scalar_key(cell)
    }
}

/// The error of a cell without an exact key.
pub open spec fn keyless(shown: Seq<char>, nested: bool) -> ErrorView {
    if nested {
        ErrorView::UnsupportedType(shown)
    } else {
        ErrorView::UnsupportedType("exact distinct for "@ + shown)
    }
}

/// The first `n` cells of a column, fed.
pub open spec fn fed_column(
    cells: Seq<Cell>,
    shown: Seq<char>,
    nested: bool,
    row_offset: int,
    n: nat,
) -> Fed
    decreases n,
{
    if n == 0 {
        nothing()
    } else {
        let f = fed_column(cells, shown, nested, row_offset, (n - 1) as nat);
        let cell = cells[n - 1];
        if f.error is Some {
            f
        } else if cell is Null {
            Fed { saw_null: true, ..f }
        } else {
            match column_key(cell, nested) {
                Some(k) => Fed {
                    entries: f.entries.push((k, (row_offset + n - 1) as u64)),
                    ..f
                },
                None => Fed { error: Some(keyless(shown, nested)), ..f },
            }
        }
    }
}

/// The first `n` rows of a key, fed: the rows that are not selected are passed over, and
/// those with a null in the key are reported where nulls are rejected.
pub open spec fn fed_keys(
    rule: KeyRule,
    schema: Schema,
    columns: Seq<Vec<Cell>>,
    selected: Seq<bool>,
    row_offset: int,
    n: nat,
) -> Fed
    decreases n,
{
    if n == 0 {
        nothing()
    } else {
        let f = fed_keys(rule, schema, columns, selected, row_offset, (n - 1) as nat);
        let row = n - 1;
        if f.error is Some || !selected[row] {
            f
        } else {
            match unkeyable(rule.key, columns, row, rule.key.len()) {
                Some(j) => Fed {
                    error: Some(
                        ErrorView::UnsupportedType(
                            "composite uniqueness for "@
                                + schema.fields@[rule.key[j] as int].type_text@,
                        ),
                    ),
                    ..f
                },
                None => if key_has_null(rule.key, columns, row) && rule.nulls
                    == CompositeNullPolicyAst::Reject {
                    Fed {
                        findings: f.findings.push(
                            FindingView {
                                rule: rule.label,
                                column: "$dataset"@,
                                row: Some((row_offset + row) as u64),
                                message: rule.lead + rule.name + "` rejects null keys"@,
                            },
                        ),
                        saw_null: true,
                        ..f
                    }
                } else {
                    Fed {
                        entries: f.entries.push(
                            (
                                Key::Bytes(composite_bytes(rule.key, columns, row, rule.key.len())),
                                (row_offset + row) as u64,
                            ),
                        ),
                        ..f
                    }
                },
            }
        }
    }
}

/// A key of several columns, and how its findings are worded.
pub struct KeyRule {
    pub key: Seq<usize>,
    pub nulls: CompositeNullPolicyAst,
    pub name: Seq<char>,
    pub label: Seq<char>,
    pub lead: Seq<char>,
}

proof fn column_error_stays(
    cells: Seq<Cell>,
    shown: Seq<char>,
    nested: bool,
    row_offset: int,
    i: nat,
    n: nat,
)
    requires
        i <= n,
        fed_column(cells, shown, nested, row_offset, i).error is Some,
    ensures
        fed_column(cells, shown, nested, row_offset, n) == fed_column(
            cells,
            shown,
            nested,
            row_offset,
            i,
        ),
    decreases n,
{
    if i < n {
        column_error_stays(cells, shown, nested, row_offset, i, (n - 1) as nat);
    }
}

proof fn column_entries_grow(
    cells: Seq<Cell>,
    shown: Seq<char>,
    nested: bool,
    row_offset: int,
    i: nat,
    n: nat,
)
    requires
        i <= n,
    ensures
        fed_column(cells, shown, nested, row_offset, i).entries.len() <= fed_column(
            cells,
            shown,
            nested,
            row_offset,
            n,
        ).entries.len(),
        fed_column(cells, shown, nested, row_offset, i).entries == fed_column(
            cells,
            shown,
            nested,
            row_offset,
            n,
        ).entries.take(fed_column(cells, shown, nested, row_offset, i).entries.len() as int),
    decreases n,
{
    let a = fed_column(cells, shown, nested, row_offset, i).entries;
    if i < n {
        column_entries_grow(cells, shown, nested, row_offset, i, (n - 1) as nat);
        let m = fed_column(cells, shown, nested, row_offset, (n - 1) as nat).entries;
        let b = fed_column(cells, shown, nested, row_offset, n).entries;
        assert(b.take(a.len() as int) =~= m.take(a.len() as int));
    } else {
        assert(a.take(a.len() as int) =~= a);
    }
}

proof fn keys_error_stays(
    rule: KeyRule,
    schema: Schema,
    columns: Seq<Vec<Cell>>,
    selected: Seq<bool>,
    row_offset: int,
    i: nat,
    n: nat,
)
    requires
        i <= n,
        fed_keys(rule, schema, columns, selected, row_offset, i).error is Some,
    ensures
        fed_keys(rule, schema, columns, selected, row_offset, n) == fed_keys(
            rule,
            schema,
            columns,
            selected,
            row_offset,
            i,
        ),
    decreases n,
{
    if i < n {
        keys_error_stays(rule, schema, columns, selected, row_offset, i, (n - 1) as nat);
    }
}

proof fn keys_entries_grow(
    rule: KeyRule,
    schema: Schema,
    columns: Seq<Vec<Cell>>,
    selected: Seq<bool>,
    row_offset: int,
    i: nat,
    n: nat,
)
    requires
        i <= n,
    ensures
        fed_keys(rule, schema, columns, selected, row_offset, i).entries.len() <= fed_keys(
            rule,
            schema,
            columns,
            selected,
            row_offset,
            n,
        ).entries.len(),
        fed_keys(rule, schema, columns, selected, row_offset, i).entries == fed_keys(
            rule,
            schema,
            columns,
            selected,
            row_offset,
            n,
        ).entries.take(
            fed_keys(rule, schema, columns, selected, row_offset, i).entries.len() as int,
        ),
    decreases n,
{
    let a = fed_keys(rule, schema, columns, selected, row_offset, i).entries;
    if i < n {
        keys_entries_grow(rule, schema, columns, selected, row_offset, i, (n - 1) as nat);
        let m = fed_keys(rule, schema, columns, selected, row_offset, (n - 1) as nat).entries;
        let b = fed_keys(rule, schema, columns, selected, row_offset, n).entries;
        assert(b.take(a.len() as int) =~= m.take(a.len() as int));
    } else {
        assert(a.take(a.len() as int) =~= a);
    }
}

/// What a feed left of an exact state: all the entries more, and the runs that were
/// written behind those before.
pub open spec fn fed_state(
    before: ExactState,
    after: ExactState,
    list: Seq<Entry>,
    runs: Seq<Vec<u8>>,
) -> bool {
    &&& after.all() == before.all().add(list.to_multiset())
    &&& after.run_list() == before.run_list() + run_views(runs)
}

/// What every operation on an exact state keeps.
pub open spec fn same_exact(before: ExactState, after: ExactState) -> bool {
    &&& after.wf()
    &&& after.spec_kind() == before.spec_kind()
    &&& after.spec_node() == before.spec_node()
    &&& after.spills() == before.spills()
}

/// What every operation keeps of an account.
pub open spec fn same_account(before: ResourceAccount, after: ResourceAccount) -> bool {
    &&& after.wf()
    &&& after.spec_limits() == before.spec_limits()
    &&& after.nodes().len() == before.nodes().len()
}

/// Adds the exact key of a cell with one value. The bytes of a run that had to be written
/// are returned.
pub fn insert_exact_scalar(
    exact: &mut ExactState,
    account: &mut ResourceAccount,
    cell: &Cell,
    shown: &str,
    row: u64,
) -> (r: Result<Option<Vec<u8>>, ProofFrameError>)
    requires
        old(exact).wf(),
        old(account).wf(),
        old(exact).spec_node() < old(account).nodes().len(),
    ensures
        same_exact(*old(exact), *final(exact)),
        same_account(*old(account), *final(account)),
        match scalar_key(*cell) {
            None => (r matches Err(e) && e@ == keyless(shown@, false)) && *final(exact) == *old(
                exact,
            ),
            Some(k) => {
                &&& r is Ok <==> old(exact).accepts(old(account), k)
                &&& r matches Ok(bytes) ==> step_of(
                    *old(exact),
                    *old(account),
                    *final(exact),
                    *final(account),
                    (k, row),
                    bytes,
                )
                &&& r matches Err(e) ==> not_inserted(e@)
            },
        },
{
    match scalar_key_of(cell) {
        Some(key) => {
            let ghost b4 = *exact;
            let r = exact.insert(account, key.as_value(), row);
            proof {
                if r is Ok {
                    insert_is_step(
                        b4,
                        *old(account),
                        *exact,
                        *account,
                        (key@, row),
                        r->Ok_0,
                    );
                }
            }
            r
        },
        None => Err(
            ProofFrameError::UnsupportedType(cat2("exact distinct for ", shown)),
        ),
    }
}

/// One accepted entry: what it did to the state, to the runs and to the account.
pub open spec fn step_of(
    before: ExactState,
    account_before: ResourceAccount,
    after: ExactState,
    account_after: ResourceAccount,
    entry: Entry,
    bytes: Option<Vec<u8>>,
) -> bool {
    &&& after.all() == before.all().insert(entry)
    &&& after.run_list() == runs_with(before.run_list(), bytes)
    &&& same_room(
        account_before.nodes(),
        account_after.nodes(),
        before.spec_node(),
        before.held(),
        after.held(),
        run_cost(bytes),
    )
    &&& draws(account_before.nodes(), account_after.nodes(), before, after, seq![entry])
    &&& match bytes {
        None => after.in_memory() == before.in_memory().push(entry),
        Some(b) => after.in_memory() == seq![entry] && b@.len() == 60 + payload(
            in_sorted_order(before.in_memory()),
        ).len() && before.in_memory().len() > 0,
    }
}

/// An accepted insertion is one step of a feed.
pub proof fn insert_is_step(
    before: ExactState,
    account_before: ResourceAccount,
    after: ExactState,
    account_after: ResourceAccount,
    entry: Entry,
    bytes: Option<Vec<u8>>,
)
    requires
        after.wf(),
        after.all() == before.all().insert(entry),
        after.run_list() == runs_with(before.run_list(), bytes),
        same_room(
            account_before.nodes(),
            account_after.nodes(),
            before.spec_node(),
            before.held(),
            after.held(),
            run_cost(bytes),
        ),
        draws(account_before.nodes(), account_after.nodes(), before, after, seq![entry]),
        match bytes {
            None => after.in_memory() == before.in_memory().push(entry),
            Some(b) => after.in_memory() == seq![entry] && before.in_memory().len() > 0
                && after.metas().len() > 0 && b@ == run_bytes(
                before.spec_kind(),
                in_sorted_order(before.in_memory()),
                after.metas().last().checksum@,
            ),
        },
    ensures
        step_of(before, account_before, after, account_after, entry, bytes),
{
    if bytes is Some {
        crate::distinct::state::checksums_have_length(&after, after.metas().len() - 1);
        run_length(
            before.spec_kind(),
            in_sorted_order(before.in_memory()),
            after.metas().last().checksum@,
        );
    }
}

/// One step more of a feed.
pub proof fn fed_one_more(
    start: ExactState,
    before: ExactState,
    after: ExactState,
    list: Seq<Entry>,
    entry: Entry,
    runs: Seq<Vec<u8>>,
    bytes: Option<Vec<u8>>,
    more: Seq<Vec<u8>>,
)
    requires
        fed_state(start, before, list, runs),
        after.all() == before.all().insert(entry),
        after.run_list() == runs_with(before.run_list(), bytes),
        more == (match bytes {
            Some(b) => runs.push(b),
            None => runs,
        }),
    ensures
        fed_state(start, after, list.push(entry), more),
{
    broadcast use vstd::seq_lib::group_to_multiset_ensures;

    assert(list.push(entry).to_multiset() =~= list.to_multiset().insert(entry));
    assert(after.all() =~= start.all().add(list.push(entry).to_multiset()));
    assert(after.run_list() =~= start.run_list() + run_views(more));
}

/// A feed of nothing.
pub proof fn fed_none(start: ExactState)
    ensures
        fed_state(start, start, Seq::empty(), Seq::empty()),
{
    broadcast use vstd::seq_lib::group_to_multiset_ensures;

    assert(Seq::<Entry>::empty().to_multiset() =~= Multiset::empty());
    assert(start.all() =~= start.all().add(Seq::<Entry>::empty().to_multiset()));
    assert(start.run_list() =~= start.run_list() + run_views(Seq::empty()));
}

/// Feeds a column of a batch to exact state. The runs that were written are returned, and
/// whether a null was met.
#[verifier::rlimit(40)]
pub fn feed_column(
    exact: &mut ExactState,
    account: &mut ResourceAccount,
    cells: &Vec<Cell>,
    shown: &str,
    nested: bool,
    row_offset: u64,
) -> (r: Result<(Vec<Vec<u8>>, bool), ProofFrameError>)
    requires
        old(exact).wf(),
        old(account).wf(),
        old(exact).spec_node() < old(account).nodes().len(),
        row_offset + cells@.len() <= u64::MAX,
    ensures
        same_exact(*old(exact), *final(exact)),
        same_account(*old(account), *final(account)),
        ({
            let f = fed_column(cells@, shown@, nested, row_offset as int, cells@.len());
            &&& r matches Ok(x) ==> f.error is None && x.1 == f.saw_null && fed_state(
                *old(exact),
                *final(exact),
                f.entries,
                x.0@,
            ) && draws(
                old(account).nodes(),
                final(account).nodes(),
                *old(exact),
                *final(exact),
                f.entries,
            )
            &&& r matches Err(e) ==> f.error == Some(e@) || not_inserted(e@)
            &&& f.entries.len() == 0 ==> outcome(r, f.error)
            &&& old(exact).plenty(old(account), f.entries) ==> outcome(r, f.error)
        }),
{
    let mut runs: Vec<Vec<u8>> = Vec::new();
    let mut saw_null = false;
    let mut i: usize = 0;
    let ghost all = fed_column(cells@, shown@, nested, row_offset as int, cells@.len()).entries;
    let ghost roomy = old(exact).plenty(old(account), all);
    proof {
        fed_none(*exact);
        drawn_none(account.nodes(), *exact);
        assert(all.skip(0) =~= all);
    }
    while i < cells.len()
        invariant
            i <= cells@.len(),
            row_offset + cells@.len() <= u64::MAX,
            same_exact(*old(exact), *exact),
            same_account(*old(account), *account),
            exact.spec_node() < account.nodes().len(),
            all == fed_column(cells@, shown@, nested, row_offset as int, cells@.len()).entries,
            roomy == old(exact).plenty(old(account), all),
            ({
                let f = fed_column(cells@, shown@, nested, row_offset as int, i as nat);
                &&& f.error is None
                &&& saw_null == f.saw_null
                &&& fed_state(*old(exact), *exact, f.entries, runs@)
                &&& draws(
                    old(account).nodes(),
                    account.nodes(),
                    *old(exact),
                    *exact,
                    f.entries,
                )
                &&& roomy ==> exact.plenty(account, all.skip(f.entries.len() as int))
            }),
        decreases cells@.len() - i,
    {
        let ghost f = fed_column(cells@, shown@, nested, row_offset as int, i as nat);
        let ghost g = fed_column(cells@, shown@, nested, row_offset as int, (i + 1) as nat);
        let cell = &cells[i];
        let null = match cell {
            Cell::Null => true,
            _ => false,
        };
        if null {
            saw_null = true;
        } else {
            let key = if nested {
                exact_key_of(cell)
            } else {
                scalar_key_of(cell)
            };
            match key {
                None => {
                    proof {
                        column_error_stays(
                            cells@,
                            shown@,
                            nested,
                            row_offset as int,
                            (i + 1) as nat,
                            cells@.len(),
                        );
                    }
                    if nested {
                        return Err(ProofFrameError::UnsupportedType(text(shown)));
                    }
                    return Err(
                        ProofFrameError::UnsupportedType(cat2("exact distinct for ", shown)),
                    );
                },
                Some(k) => {
                    let row: u64 = row_offset + i as u64;
                    let ghost b4 = *exact;
                    let ghost a4 = *account;
                    let ghost rest = all.skip(f.entries.len() as int);
                    let ghost had = runs@;
                    proof {
                        column_entries_grow(
                            cells@,
                            shown@,
                            nested,
                            row_offset as int,
                            (i + 1) as nat,
                            cells@.len(),
                        );
                        assert(g.entries.last() == (k@, row));
                        assert(all.take(g.entries.len() as int).last() == (k@, row));
                        assert(rest[0] == (k@, row));
                        if roomy {
                            plenty_accepts(exact, account, rest);
                        }
                    }
                    let inserted = if nested {
                        let r = exact.insert(account, k.as_value(), row);
                        proof {
                            if r is Ok {
                                insert_is_step(b4, a4, *exact, *account, (k@, row), r->Ok_0);
                            }
                        }
                        r
                    } else {
                        insert_exact_scalar(exact, account, &cells[i], shown, row)
                    };
                    match inserted {
                        Ok(bytes) => {
                            proof {
                                if roomy {
                                    plenty_stays(&b4, &a4, rest, exact, account, bytes);
                                    assert(rest.drop_first() =~= all.skip(
                                        g.entries.len() as int,
                                    ));
                                }
                            }
                            let ghost given = bytes;
                            match bytes {
                                Some(b) => runs.push(b),
                                None => {},
                            }
                            proof {
                                draws_more(
                                    old(account).nodes(),
                                    a4.nodes(),
                                    account.nodes(),
                                    *old(exact),
                                    b4,
                                    *exact,
                                    f.entries,
                                    (k@, row),
                                );
                                assert(g.entries =~= f.entries.push((k@, row)));
                                fed_one_more(
                                    *old(exact),
                                    b4,
                                    *exact,
                                    f.entries,
                                    (k@, row),
                                    had,
                                    given,
                                    runs@,
                                );
                            }
                        },
                        Err(e) => {
                            return Err(e);
                        },
                    }
                },
            }
        }
        i = i + 1;
    }
    Ok((runs, saw_null))
}

/// Feeds a key of several columns to exact state, from the selected rows of a batch. The
/// runs that were written are returned.
#[verifier::rlimit(60)]
pub fn feed_keys(
    exact: &mut ExactState,
    account: &mut ResourceAccount,
    key: &Vec<usize>,
    nulls: CompositeNullPolicyAst,
    name: &str,
    label: &'static str,
    lead: &str,
    schema: &Schema,
    batch: &Batch,
    selected: &Vec<bool>,
    row_offset: u64,
    validation: &mut ValidationState,
) -> (r: Result<Vec<Vec<u8>>, ProofFrameError>)
    requires
        old(exact).wf(),
        old(account).wf(),
        old(exact).spec_node() < old(account).nodes().len(),
        old(validation).wf(),
        batch.wf(),
        selected@.len() == batch.rows,
        key_in_range(key@, *schema, batch.columns@.len() as int),
        row_offset + batch.rows <= u64::MAX,
    ensures
        same_exact(*old(exact), *final(exact)),
        same_account(*old(account), *final(account)),
        final(validation).wf(),
        final(validation).offered() == old(validation).offered(),
        ({
            let rule = KeyRule { key: key@, nulls, name: name@, label: label@, lead: lead@ };
            let f = fed_keys(
                rule,
                *schema,
                batch.columns@,
                selected@,
                row_offset as int,
                batch.rows as nat,
            );
            &&& r matches Ok(runs) ==> f.error is None && fed_state(
                *old(exact),
                *final(exact),
                f.entries,
                runs@,
            ) && final(validation)@ == recorded_all(old(validation)@, f.findings) && draws(
                old(account).nodes(),
                final(account).nodes(),
                *old(exact),
                *final(exact),
                f.entries,
            )
            &&& r matches Err(e) ==> f.error == Some(e@) || not_inserted(e@)
            &&& f.entries.len() == 0 ==> outcome(r, f.error)
            &&& old(exact).plenty(old(account), f.entries) ==> outcome(r, f.error)
        }),
{
    let mut runs: Vec<Vec<u8>> = Vec::new();
    let mut i: usize = 0;
    let ghost rule = KeyRule { key: key@, nulls, name: name@, label: label@, lead: lead@ };
    let ghost all = fed_keys(
        rule,
        *schema,
        batch.columns@,
        selected@,
        row_offset as int,
        batch.rows as nat,
    ).entries;
    let ghost roomy = old(exact).plenty(old(account), all);
    proof {
        fed_none(*exact);
        drawn_none(account.nodes(), *exact);
        assert(all.skip(0) =~= all);
    }
    while i < batch.rows
        invariant
            i <= batch.rows,
            batch.wf(),
            selected@.len() == batch.rows,
            key_in_range(key@, *schema, batch.columns@.len() as int),
            row_offset + batch.rows <= u64::MAX,
            same_exact(*old(exact), *exact),
            same_account(*old(account), *account),
            exact.spec_node() < account.nodes().len(),
            validation.wf(),
            validation.offered() == old(validation).offered(),
            rule == (KeyRule { key: key@, nulls, name: name@, label: label@, lead: lead@ }),
            all == fed_keys(
                rule,
                *schema,
                batch.columns@,
                selected@,
                row_offset as int,
                batch.rows as nat,
            ).entries,
            roomy == old(exact).plenty(old(account), all),
            ({
                let f = fed_keys(
                    rule,
                    *schema,
                    batch.columns@,
                    selected@,
                    row_offset as int,
                    i as nat,
                );
                &&& f.error is None
                &&& fed_state(*old(exact), *exact, f.entries, runs@)
                &&& draws(
                    old(account).nodes(),
                    account.nodes(),
                    *old(exact),
                    *exact,
                    f.entries,
                )
                &&& validation@ == recorded_all(old(validation)@, f.findings)
                &&& roomy ==> exact.plenty(account, all.skip(f.entries.len() as int))
            }),
        decreases batch.rows - i,
    {
        let ghost f = fed_keys(
            rule,
            *schema,
            batch.columns@,
            selected@,
            row_offset as int,
            i as nat,
        );
        let ghost g = fed_keys(
            rule,
            *schema,
            batch.columns@,
            selected@,
            row_offset as int,
            (i + 1) as nat,
        );
        if selected[i] {
            let row: u64 = row_offset + i as u64;
            let (bytes, null) = match composite_key(key, schema, batch, i) {
                Ok(k) => k,
                Err(e) => {
                    proof {
                        keys_error_stays(
                            rule,
                            *schema,
                            batch.columns@,
                            selected@,
                            row_offset as int,
                            (i + 1) as nat,
                            batch.rows as nat,
                        );
                    }
                    return Err(e);
                },
            };
            if null && nulls == CompositeNullPolicyAst::Reject {
                assert(g.findings.drop_last() =~= f.findings);
                validation.record(
                    Finding {
                        rule: label,
                        column: text("$dataset"),
                        row: Some(row),
                        message: cat3(lead, name, "` rejects null keys"),
                    },
                );
            } else {
                let ghost b4 = *exact;
                let ghost a4 = *account;
                let ghost rest = all.skip(f.entries.len() as int);
                let ghost had = runs@;
                let ghost entry = (Key::Bytes(bytes@), row);
                proof {
                    keys_entries_grow(
                        rule,
                        *schema,
                        batch.columns@,
                        selected@,
                        row_offset as int,
                        (i + 1) as nat,
                        batch.rows as nat,
                    );
                    assert(g.entries.last() == entry);
                    assert(all.take(g.entries.len() as int).last() == entry);
                    assert(rest[0] == entry);
                    if roomy {
                        plenty_accepts(exact, account, rest);
                    }
                }
                match exact.insert(
                    account,
                    crate::distinct::order::ValueRef::Bytes(bytes.as_slice()),
                    row,
                ) {
                    Ok(written) => {
                        proof {
                            insert_is_step(b4, a4, *exact, *account, entry, written);
                            if roomy {
                                plenty_stays(&b4, &a4, rest, exact, account, written);
                                assert(rest.drop_first() =~= all.skip(g.entries.len() as int));
                            }
                        }
                        let ghost given = written;
                        match written {
                            Some(b) => runs.push(b),
                            None => {},
                        }
                        proof {
                            draws_more(
                                old(account).nodes(),
                                a4.nodes(),
                                account.nodes(),
                                *old(exact),
                                b4,
                                *exact,
                                f.entries,
                                entry,
                            );
                            assert(g.entries =~= f.entries.push(entry));
                            fed_one_more(
                                *old(exact),
                                b4,
                                *exact,
                                f.entries,
                                entry,
                                had,
                                given,
                                runs@,
                            );
                        }
                    },
                    Err(e) => {
                        return Err(e);
                    },
                }
            }
        }
        i = i + 1;
    }
    Ok(runs)
}

} // verus!
