//! A compiled contract applied to a stream of batches.

use crate::contract::ast::outcome;
use crate::contract::compile::{ColumnPlan, CompiledContract};
use crate::error::{ErrorView, ProofFrameError};
use crate::distinct::budget::{
    all_suit, all_wf, ample_for, column_need, column_storage, columns_need, columns_need_grows,
    columns_storage, columns_suit, fed_within, memory_need, memory_needs, need_is_not_negative, needs_grow,
    plenty_of_spare, spare,    spare_after, spare_once_paid, suits, temp_need, temp_needs,
};
use crate::distinct::order::Entry;
use crate::distinct::state::{not_inserted, ExactState};
use crate::execution::dataset_state::{
    batch_fits, can_open, counted_columns, exacts_are_wf, keys_are_wf, earliest, earliest_stays, exact_at, exact_count, exact_empty, keys_wf,
    not_opened, null_count, nulls_in, open_state, or_else, sample_bytes, DatasetRuns,
    DatasetState,
};
use crate::execution::exact_rules::{
    exact_kind, fed_column, fed_state, feed_column, key_kind, same_account, same_exact, Fed,
};
use crate::execution::fits::contract_fits;
use crate::execution::kernels::{column_findings, scan_column};
use crate::execution::reference_state::{
    local_entries, local_errors, local_feed, local_findings, ReferenceState,
};
use crate::execution::row_kernels::{row_error, row_findings, scan_row_plan};
use crate::execution::validation::{
    capped, recorded_all, FindingView, Found, ValidationState,
};
use crate::fingerprint::{
    readable, schema_v2, unencodable_field, FingerprintOptions, FingerprintVersion,
    V2FingerprintState,
};
use crate::resource::{
    charge_above, on_path, room, stop_when, CancellationToken, ResourceAccount, ResourceKind,
    ResourceLimits,
};
use crate::text::text;
use crate::value::{same_schema, schema_eq, Batch, Schema};
use vstd::prelude::*;

verus! {

/// Whether exact state may write runs.
#[derive(Debug, Clone, Copy, PartialEq, Eq, Structural)]
pub enum SpillPolicy {
    Auto,
    Never,
}

/// Execution hints that do not alter what a contract means.
pub struct ExecutionOptions {
    pub row_count_hint: Option<u64>,
    pub resources: ResourceLimits,
    pub cancellation: CancellationToken,
    pub threads: Option<usize>,
    pub spill: SpillPolicy,
}

impl Default for ExecutionOptions {
    fn default() -> (r: Self)
        ensures
            r.row_count_hint is None,
            r.threads is None,
            r.spill == SpillPolicy::Auto,
    {
        ExecutionOptions {
            row_count_hint: None,
            resources: ResourceLimits::default(),
            cancellation: CancellationToken::new(),
            threads: None,
            spill: SpillPolicy::Auto,
        }
    }
}

/// What was found, with nothing left to pay for.
pub open spec fn settled(f: Found) -> Found {
    Found { owed: 0, ..f }
}

/// What was found after the first `n` stages, each paid for at its end.
pub open spec fn staged(f: Found, stages: Seq<Seq<FindingView>>, n: nat) -> Found
    decreases n,
{
    if n == 0 {
        f
    } else {
        settled(recorded_all(staged(f, stages, (n - 1) as nat), stages[n - 1]))
    }
}

/// What the first `n` stages cost in memory.
pub open spec fn owed_by(f: Found, stages: Seq<Seq<FindingView>>, n: nat) -> int
    decreases n,
{
    if n == 0 {
        0
    } else {
        owed_by(f, stages, (n - 1) as nat) + recorded_all(
            staged(f, stages, (n - 1) as nat),
            stages[n - 1],
        ).owed
    }
}

/// The findings of every column.
pub open spec fn column_stages(plan: CompiledContract, batch: Batch, row_offset: int) -> Seq<
    Seq<FindingView>,
> {
    Seq::new(
        plan.columns@.len(),
        |i: int|
            column_findings(
                plan.columns@[i].rules@,
                plan.columns@[i].field@,
                batch.columns@[plan.columns@[i].column_index as int]@,
                row_offset,
                batch.rows as nat,
            ),
    )
}

/// The findings of every row rule.
pub open spec fn row_stages(plan: CompiledContract, batch: Batch, row_offset: int) -> Seq<
    Seq<FindingView>,
> {
    Seq::new(
        plan.row_plans@.len(),
        |i: int|
            row_findings(plan.row_plans@[i]@, batch.columns@, row_offset, batch.rows as nat),
    )
}

/// The stages of a batch: every column, every row rule, the dataset rules, the reference
/// rules.
pub open spec fn batch_stages(
    plan: CompiledContract,
    dataset: DatasetState,
    batch: Batch,
    long: Seq<Vec<bool>>,
    row_offset: int,
) -> Seq<Seq<FindingView>> {
    column_stages(plan, batch, row_offset) + row_stages(plan, batch, row_offset) + seq![
        dataset.batch_findings(plan.dataset_plan, plan.schema, batch, long, row_offset),
    ] + seq![
        crate::execution::dataset_state::all_of(
            local_findings(plan.dataset_plan.references@, plan.schema, batch, row_offset),
            plan.dataset_plan.references@.len(),
        ),
    ]
}

proof fn staged_in_parts(
    f: Found,
    a: Seq<Seq<FindingView>>,
    b: Seq<Seq<FindingView>>,
    n: nat,
)
    requires
        n <= b.len(),
    ensures
        staged(f, a + b, a.len() + n) == staged(staged(f, a, a.len()), b, n),
        owed_by(f, a + b, a.len() + n) == owed_by(f, a, a.len()) + owed_by(
            staged(f, a, a.len()),
            b,
            n,
        ),
    decreases n,
{
    if n > 0 {
        staged_in_parts(f, a, b, (n - 1) as nat);
        assert((a + b)[a.len() + n - 1] == b[n - 1]);
        assert((a.len() + n - 1) as nat == a.len() + (n - 1) as nat);
    } else {
        staged_prefix(f, a, a + b, a.len());
    }
}

proof fn staged_prefix(
    f: Found,
    a: Seq<Seq<FindingView>>,
    b: Seq<Seq<FindingView>>,
    n: nat,
)
    requires
        forall|i: int| 0 <= i < n ==> a[i] == b[i],
    ensures
        staged(f, a, n) == staged(f, b, n),
        owed_by(f, a, n) == owed_by(f, b, n),
    decreases n,
{
    if n > 0 {
        staged_prefix(f, a, b, (n - 1) as nat);
    }
}

/// What a unique column feeds to its exact state.
pub open spec fn unique_feed(
    column: ColumnPlan,
    schema: Schema,
    batch: Batch,
    row_offset: int,
) -> Fed {
    fed_column(
        batch.columns@[column.column_index as int]@,
        schema.fields@[column.column_index as int].type_text@,
        true,
        row_offset,
        batch.rows as nat,
    )
}

/// The error of each unique column.
pub open spec fn unique_errors(plan: CompiledContract, batch: Batch, row_offset: int) -> Seq<
    Option<ErrorView>,
> {
    Seq::new(
        plan.columns@.len(),
        |i: int|
            if plan.columns@[i].rules@.unique {
                unique_feed(plan.columns@[i], plan.schema, batch, row_offset).error
            } else {
                None
            },
    )
}

/// The error of each row rule.
pub open spec fn row_errors(plan: CompiledContract, batch: Batch) -> Seq<Option<ErrorView>> {
    Seq::new(
        plan.row_plans@.len(),
        |i: int| row_error(plan.row_plans@[i]@, batch.columns@, batch.rows as int),
    )
}

/// The exact states of the unique columns, none for the others.
pub open spec fn unique_wf(
    columns: Seq<ColumnPlan>,
    states: Seq<Option<ExactState>>,
    account: ResourceAccount,
) -> bool {
    &&& states.len() == columns.len()
    &&& forall|i: int|
        #![trigger states[i]]
        0 <= i < states.len() ==> match states[i] {
            Some(s) => columns[i].rules@.unique && exact_at(s, account) && s.spec_kind()
                == key_kind(columns[i].kernel),
            None => !columns[i].rules@.unique,
        }
}

/// The number of unique columns among the first `n`.
pub open spec fn unique_count(columns: Seq<ColumnPlan>, n: nat) -> nat
    decreases n,
{
    if n == 0 {
        0
    } else {
        unique_count(columns, (n - 1) as nat) + if columns[n - 1].rules@.unique {
            1nat
        } else {
            0nat
        }
    }
}

proof fn unique_count_grows(columns: Seq<ColumnPlan>, i: nat, n: nat)
    requires
        i <= n,
    ensures
        unique_count(columns, i) <= unique_count(columns, n),
        unique_count(columns, n) == 0 ==> forall|k: int|
            0 <= k < n ==> !(#[trigger] columns[k]).rules@.unique,
    decreases n,
{
    if n > 0 {
        if i < n {
            unique_count_grows(columns, i, (n - 1) as nat);
        } else {
            unique_count_grows(columns, (n - 1) as nat, (n - 1) as nat);
        }
    }
}

/// Opens an exact state for every unique column, each with a node of its own.
pub fn initialize_unique_states(
    columns: &Vec<ColumnPlan>,
    account: &mut ResourceAccount,
    node: usize,
    row_count_hint: Option<u64>,
    spills: bool,
) -> (r: Result<Vec<Option<ExactState>>, ProofFrameError>)
    requires
        old(account).wf(),
        node < old(account).nodes().len(),
    ensures
        final(account).wf(),
        final(account).spec_limits() == old(account).spec_limits(),
        final(account).nodes().len() >= old(account).nodes().len(),
        r is Ok <==> can_open(
            *old(account),
            node as int,
            old(account).spec_limits().max_memory_bytes,
            unique_count(columns@, columns@.len()),
        ),
        r matches Err(e) ==> not_opened(*old(account), e@),
        r matches Ok(v) ==> unique_wf(columns@, v@, *final(account)) && forall|i: int|
            #![trigger v@[i]]
            0 <= i < v@.len() ==> (v@[i] matches Some(s) ==> exact_empty(
                s,
                key_kind(columns@[i].kernel),
                spills,
            )),
{
    let ghost start = *account;
    let share: u64 = account.limits().max_memory_bytes;
    let mut out: Vec<Option<ExactState>> = Vec::new();
    let mut i: usize = 0;
    proof {
        assert(0 * sample_bytes(start) == 0) by (nonlinear_arith);
    }
    while i < columns.len()
        invariant
            i <= columns@.len(),
            out@.len() == i,
            start == *old(account),
            share == start.spec_limits().max_memory_bytes,
            account.wf(),
            node < account.nodes().len(),
            account.spec_limits() == start.spec_limits(),
            account.nodes().len() >= start.nodes().len(),
            can_open(start, node as int, share, unique_count(columns@, i as nat)),
            forall|n: int| #[trigger]
                room(account.nodes(), node as int, ResourceKind::Memory, 0, n) == room(
                    start.nodes(),
                    node as int,
                    ResourceKind::Memory,
                    0,
                    n + unique_count(columns@, i as nat) * sample_bytes(start),
                ),
            forall|k: int|
                #![trigger out@[k]]
                0 <= k < out@.len() ==> match out@[k] {
                    Some(s) => columns@[k].rules@.unique && exact_at(s, *account) && exact_empty(
                        s,
                        key_kind(columns@[k].kernel),
                        spills,
                    ),
                    None => !columns@[k].rules@.unique,
                },
        decreases columns@.len() - i,
    {
        let column = &columns[i];
        if column.rules.unique() {
            match open_state(
                exact_kind(column.kernel),
                account,
                node,
                share,
                spills,
                row_count_hint,
                Ghost(start),
                Ghost(unique_count(columns@, i as nat)),
            ) {
                Ok(s) => {
                    out.push(Some(s));
                },
                Err(e) => {
                    proof {
                        let all = unique_count(columns@, columns@.len());
                        if can_open(start, node as int, share, all) {
                            unique_count_grows(columns@, (i + 1) as nat, columns@.len());
                            crate::execution::dataset_state::fewer_open(
                                start,
                                node as int,
                                share,
                                unique_count(columns@, (i + 1) as nat),
                                all,
                            );
                        }
                    }
                    return Err(e);
                },
            }
        } else {
            out.push(None);
        }
        i = i + 1;
    }
    Ok(out)
}

/// The schema of a stream must be that of the compiled contract.
pub fn validate_reader_schema(reader_schema: &Schema, plan: &CompiledContract) -> (r: Result<
    (),
    ProofFrameError,
>)
    ensures
        if same_schema(*reader_schema, plan.schema) {
            r is Ok
        } else {
            r matches Err(e) && e@ == ErrorView::SchemaMismatch(
                "reader schema differs from the schema used to compile the contract"@,
            )
        },
{
    if schema_eq(reader_schema, &plan.schema) {
        return Ok(());
    }
    Err(
        ProofFrameError::SchemaMismatch(
            text("reader schema differs from the schema used to compile the contract"),
        ),
    )
}

/// An execution between batches.
pub struct Execution {
    pub validation: ValidationState,
    pub fingerprint: Option<V2FingerprintState>,
    pub unique: Vec<Option<ExactState>>,
    pub dataset: DatasetState,
    pub references: ReferenceState,
    pub rows: u64,
}

/// The runs that a batch made exact states write.
pub struct BatchRuns {
    pub unique: Vec<Vec<Vec<u8>>>,
    pub dataset: DatasetRuns,
    pub references: Vec<Vec<Vec<u8>>>,
}

/// What a batch feeds to the unique columns.
pub open spec fn unique_entries(plan: CompiledContract, batch: Batch, row_offset: int) -> Seq<
    Seq<Entry>,
> {
    Seq::new(
        plan.columns@.len(),
        |i: int| unique_feed(plan.columns@[i], plan.schema, batch, row_offset).entries,
    )
}

/// What one column adds: its values are offered, its rules applied, its keys fed, and the
/// findings paid for.
fn scan_one(
    plan: &CompiledContract,
    index: usize,
    batch: &Batch,
    row_offset: u64,
    state: &mut Option<ExactState>,
    account: &mut ResourceAccount,
    node: usize,
    validation: &mut ValidationState,
) -> (r: Result<Vec<Vec<u8>>, ProofFrameError>)
    requires
        contract_fits(*plan),
        index < plan.columns@.len(),
        batch_fits(plan.schema, *batch, row_offset as int),
        old(account).wf(),
        node < old(account).nodes().len(),
        old(validation).wf(),
        old(validation).offered().len() == plan.columns@.len(),
        match *old(state) {
            Some(s) => plan.columns@[index as int].rules@.unique && exact_at(s, *old(account))
                && s.spec_kind() == key_kind(plan.columns@[index as int].kernel),
            None => !plan.columns@[index as int].rules@.unique,
        },
    ensures
        same_account(*old(account), *final(account)),
        final(validation).wf(),
        ({
            let column = plan.columns@[index as int];
            let cells = batch.columns@[column.column_index as int]@;
            let list = column_findings(
                column.rules@,
                column.field@,
                cells,
                row_offset as int,
                batch.rows as nat,
            );
            let f = unique_feed(column, plan.schema, *batch, row_offset as int);
            &&& final(validation).offered() == old(validation).offered().update(
                index as int,
                capped(
                    (old(validation).offered()[index as int] + (batch.rows - nulls_in(
                        cells,
                        batch.rows as nat,
                    ))) as nat,
                ) as u64,
            )
            &&& r matches Ok(runs) ==> final(validation)@ == settled(
                recorded_all(old(validation)@, list),
            ) && match *old(state) {
                Some(s) => *final(state) is Some && f.error is None && same_exact(
                    s,
                    final(state)->0,
                ) && fed_state(s, final(state)->0, f.entries, runs@),
                None => *final(state) is None && runs@.len() == 0,
            }
            &&& r matches Err(e) ==> e@ is ResourceLimit || (column.rules@.unique && (f.error
                == Some(e@) || not_inserted(e@)))
            &&& !column.rules@.unique ==> (r is Ok <==> room(
                old(account).nodes(),
                node as int,
                ResourceKind::Memory,
                0,
                recorded_all(old(validation)@, list).owed as int,
            ))
            &&& !column.rules@.unique && r is Ok ==> crate::resource::charged(
                old(account).nodes(),
                final(account).nodes(),
                node as int,
                ResourceKind::Memory,
                recorded_all(old(validation)@, list).owed as int,
            )
            &&& (*old(state) matches Some(s) ==> suits(s, f.entries)) ==> forall|m: int, t: int|
                #![trigger spare(old(account).nodes(), m, t)]
                spare(old(account).nodes(), m, t) && m >= recorded_all(
                    old(validation)@,
                    list,
                ).owed + column_need(*old(state), f.entries) && t >= column_storage(
                    *old(state),
                    f.entries,
                ) ==> outcome(
                    r,
                    if *old(state) is Some {
                        f.error
                    } else {
                        None
                    },
                ) && (r is Ok ==> spare(
                    final(account).nodes(),
                    m - recorded_all(old(validation)@, list).owed - column_need(
                        *old(state),
                        f.entries,
                    ),
                    t - column_storage(*old(state), f.entries),
                ))
        }),
{
    let column = &plan.columns[index];
    let cells = &batch.columns[column.column_index];
    let nulls: usize = null_count(cells);
    validation.record_evaluated(index, (batch.rows - nulls) as u64);
    scan_column(column, cells, row_offset, validation);
    let ghost f = unique_feed(*column, plan.schema, *batch, row_offset as int);
    let ghost was = *state;
    let ghost start = account.nodes();
    proof {
        if was is Some && suits(was->0, f.entries) && f.entries.len() > 0 && exists|m: int, t: int|
            #![trigger spare(start, m, t)]
            spare(start, m, t) && m >= memory_need(was->0, f.entries) && t >= temp_need(
                was->0,
                f.entries,
            ) {
            let (m, t) = choose|m: int, t: int|
                #![trigger spare(start, m, t)]
                spare(start, m, t) && m >= memory_need(was->0, f.entries) && t >= temp_need(
                    was->0,
                    f.entries,
                );
            plenty_of_spare(&was->0, account, f.entries, m, t);
        }
    }
    let mut runs: Vec<Vec<u8>> = Vec::new();
    let mut taken: Option<ExactState> = None;
    core::mem::swap(&mut taken, state);
    match taken {
        Some(s) => {
            let mut exact = s;
            let shown = plan.schema.fields[column.column_index].type_text.as_str();
            match feed_column(&mut exact, account, cells, shown, true, row_offset) {
                Ok((written, _)) => {
                    runs = written;
                    *state = Some(exact);
                },
                Err(e) => return Err(e),
            }
        },
        None => {},
    }
    let ghost middle = account.nodes();
    let ghost owed = validation@.owed as int;
    proof {
        if was is Some {
            need_is_not_negative(was->0, f.entries);
        }
        assert forall|m: int, t: int|
            #![trigger spare(start, m, t)]
            spare(start, m, t) && (was matches Some(s) ==> suits(s, f.entries)) implies spare(
            middle,
            m - column_need(was, f.entries),
            t - column_storage(was, f.entries),
        ) by {
            if was is Some {
                spare_after(start, middle, was->0, state->0, f.entries, m, t);
            }
        }
        assert forall|m: int, t: int|
            #![trigger spare(middle, m, t)]
            spare(middle, m, t) && m >= owed implies room(
            middle,
            node as int,
            ResourceKind::Memory,
            0,
            owed,
        ) by {}
    }
    match validation.check_resources(account, node) {
        Ok(()) => {
            proof {
                assert forall|m: int, t: int|
                    #![trigger spare(start, m, t)]
                    spare(start, m, t) && (was matches Some(s) ==> suits(s, f.entries)) implies spare(
                    account.nodes(),
                    m - owed - column_need(was, f.entries),
                    t - column_storage(was, f.entries),
                ) by {
                    spare_once_paid(
                        middle,
                        account.nodes(),
                        node as int,
                        m - column_need(was, f.entries),
                        t - column_storage(was, f.entries),
                        owed,
                    );
                }
            }
            Ok(runs)
        },
        Err(e) => Err(e),
    }
}

/// The number of values that a column offers after a batch.
pub open spec fn offered_after(plan: CompiledContract, batch: Batch, before: Seq<u64>) -> Seq<u64> {
    Seq::new(
        plan.columns@.len(),
        |i: int|
            capped(
                (before[i] + (batch.rows - nulls_in(
                    batch.columns@[plan.columns@[i].column_index as int]@,
                    batch.rows as nat,
                ))) as nat,
            ) as u64,
    )
}

/// A contract without any exact rule.
pub open spec fn plain(plan: CompiledContract, dataset: DatasetState) -> bool {
    &&& unique_count(plan.columns@, plan.columns@.len()) == 0
    &&& exact_count(plan.dataset_plan, dataset.distinct@.len()) == 0
    &&& plan.dataset_plan.references@.len() == 0
}

/// The account after stages that were paid for: as much less room.
pub open spec fn paid(
    start: ResourceAccount,
    now: ResourceAccount,
    node: int,
    bytes: int,
) -> bool {
    forall|n: int| #[trigger]
        room(now.nodes(), node, ResourceKind::Memory, 0, n) == room(
            start.nodes(),
            node,
            ResourceKind::Memory,
            0,
            n + bytes,
        )
}

proof fn paid_more(
    start: ResourceAccount,
    before: ResourceAccount,
    after: ResourceAccount,
    node: int,
    so_far: int,
    more: int,
)
    requires
        0 <= node < before.nodes().len(),
        paid(start, before, node, so_far),
        crate::resource::charged(
            before.nodes(),
            after.nodes(),
            node,
            ResourceKind::Memory,
            more,
        ),
        more >= 0,
    ensures
        paid(start, after, node, so_far + more),
{
    assert forall|n: int| #[trigger]
        room(after.nodes(), node, ResourceKind::Memory, 0, n) == room(
            start.nodes(),
            node,
            ResourceKind::Memory,
            0,
            n + (so_far + more),
        ) by {
        assert(on_path(before.nodes(), node, node));
        charge_above(
            before.nodes(),
            after.nodes(),
            node,
            node,
            ResourceKind::Memory,
            more,
            n,
        );
        assert(n + more + so_far == n + (so_far + more));
    }
}

proof fn owed_grows(f: Found, stages: Seq<Seq<FindingView>>, i: nat, n: nat)
    requires
        i <= n,
    ensures
        0 <= owed_by(f, stages, i) <= owed_by(f, stages, n),
    decreases n,
{
    if i < n {
        owed_grows(f, stages, i, (n - 1) as nat);
    } else if n > 0 {
        owed_grows(f, stages, (n - 1) as nat, (n - 1) as nat);
    }
}

proof fn smaller_room(nodes: Seq<crate::resource::Counters>, node: int, small: int, large: int)
    requires
        small <= large,
        room(nodes, node, ResourceKind::Memory, 0, large),
    ensures
        room(nodes, node, ResourceKind::Memory, 0, small),
{
}

/// The error of a schema that cannot be fingerprinted, where a fingerprint is asked for.
pub open spec fn begin_error(schema: Schema, fingerprinted: bool) -> Option<ErrorView> {
    if !fingerprinted {
        None
    } else {
        match unencodable_field(schema.fields@, schema.fields@.len()) {
            Some(t) => Some(ErrorView::UnsupportedType(t)),
            None => match schema_v2(schema, Seq::empty()) {
                Err(t) => Some(ErrorView::UnsupportedType(t)),
                Ok(_) => None,
            },
        }
    }
}

/// So many exact states can be opened as one number, or as two one after the other.
proof fn opens_in_parts(
    start: ResourceAccount,
    now: ResourceAccount,
    node: int,
    first: nat,
    second: nat,
)
    requires
        now.spec_limits() == start.spec_limits(),
        can_open(start, node, start.spec_limits().max_memory_bytes, first),
        forall|n: int| #[trigger]
            room(now.nodes(), node, ResourceKind::Memory, 0, n) == room(
                start.nodes(),
                node,
                ResourceKind::Memory,
                0,
                n + first * sample_bytes(start),
            ),
    ensures
        can_open(now, node, start.spec_limits().max_memory_bytes, second) <==> can_open(
            start,
            node,
            start.spec_limits().max_memory_bytes,
            first + second,
        ),
{
    let one = sample_bytes(start);
    assert(second * one + first * one == (first + second) * one) by (nonlinear_arith);
    assert(room(now.nodes(), node, ResourceKind::Memory, 0, second * one) == room(
        start.nodes(),
        node,
        ResourceKind::Memory,
        0,
        second * one + first * one,
    ));
}

impl Execution {
    /// Whether the execution is that of a contract, at a node of an account.
    pub open spec fn wf(&self, plan: CompiledContract, account: ResourceAccount) -> bool {
        &&& self.validation.wf()
        &&& self.validation.offered().len() == plan.columns@.len()
        &&& unique_wf(plan.columns@, self.unique@, account)
        &&& self.dataset.matches(plan.dataset_plan)
        &&& self.dataset.wf(account)
        &&& self.fingerprint matches Some(f) ==> f.streams().len() == plan.schema.fields@.len()
            && f.count() == self.rows
    }

    /// Whether the local keys of every reference rule have their exact state.
    pub open spec fn bound(&self, plan: CompiledContract, account: ResourceAccount) -> bool {
        &&& self.references.local@.len() == plan.dataset_plan.references@.len()
        &&& keys_wf(self.references.local@, account)
    }

    /// The error that a batch gives whatever room there is.
    pub open spec fn batch_error(
        &self,
        plan: CompiledContract,
        batch_schema: Schema,
        batch: Batch,
        long: Seq<Vec<bool>>,
        cancelled: bool,
    ) -> Option<ErrorView> {
        if cancelled {
            Some(ErrorView::Cancelled)
        } else if !same_schema(batch_schema, plan.schema) {
            Some(
                ErrorView::SchemaMismatch(
                    "record batch schema changed after contract compilation"@,
                ),
            )
        } else {
            or_else(
                earliest(unique_errors(plan, batch, self.rows as int), plan.columns@.len()),
                or_else(
                    earliest(row_errors(plan, batch), plan.row_plans@.len()),
                    or_else(
                        self.dataset.batch_error(
                            plan.dataset_plan,
                            plan.schema,
                            batch,
                            long,
                            self.rows as int,
                        ),
                        earliest(
                            local_errors(
                                plan.dataset_plan.references@,
                                plan.schema,
                                batch,
                                self.rows as int,
                            ),
                            plan.dataset_plan.references@.len(),
                        ),
                    ),
                ),
            )
        }
    }

    /// Whether the keys of a batch can be fed to every exact state.
    pub open spec fn batch_suits(&self, plan: CompiledContract, batch: Batch) -> bool {
        let off = self.rows as int;
        &&& columns_suit(self.unique@, unique_entries(plan, batch, off))
        &&& all_suit(
            self.dataset.exacts(),
            self.dataset.batch_entries(plan.dataset_plan, plan.schema, batch, off),
        )
        &&& all_suit(
            self.references.local@,
            local_entries(plan.dataset_plan.references@, plan.schema, batch, off),
        )
    }

    /// The memory that a batch takes at most: for the findings of every stage, and for the
    /// exact states.
    pub open spec fn batch_need(
        &self,
        plan: CompiledContract,
        batch: Batch,
        long: Seq<Vec<bool>>,
    ) -> int {
        let off = self.rows as int;
        let stages = batch_stages(plan, self.dataset, batch, long, off);
        let ds = self.dataset.exacts();
        let ls = self.references.local@;
        owed_by(self.validation@, stages, stages.len()) + columns_need(
            self.unique@,
            unique_entries(plan, batch, off),
            plan.columns@.len(),
        ) + memory_needs(
            ds,
            self.dataset.batch_entries(plan.dataset_plan, plan.schema, batch, off),
            ds.len(),
        ) + memory_needs(
            ls,
            local_entries(plan.dataset_plan.references@, plan.schema, batch, off),
            ls.len(),
        )
    }

    /// The temporary storage that a batch takes at most.
    pub open spec fn batch_storage(&self, plan: CompiledContract, batch: Batch) -> int {
        let off = self.rows as int;
        let ds = self.dataset.exacts();
        let ls = self.references.local@;
        columns_storage(
            self.unique@,
            unique_entries(plan, batch, off),
            plan.columns@.len(),
        ) + temp_needs(
            ds,
            self.dataset.batch_entries(plan.dataset_plan, plan.schema, batch, off),
            ds.len(),
        ) + temp_needs(
            ls,
            local_entries(plan.dataset_plan.references@, plan.schema, batch, off),
            ls.len(),
        )
    }

    /// Every exact state of an execution is in order.
    proof fn states_are_wf(self, plan: CompiledContract, account: ResourceAccount)
        requires
            self.wf(plan, account),
            self.bound(plan, account),
        ensures
            all_wf(self.dataset.exacts()),
            all_wf(self.references.local@),
            self.unique@.len() == plan.columns@.len(),
            forall|i: int|
                #![trigger self.unique@[i]]
                0 <= i < self.unique@.len() ==> (self.unique@[i] matches Some(s) ==> s.wf()),
    {
        exacts_are_wf(self.dataset.distinct@, account);
        keys_are_wf(self.dataset.conditional@, account);
        keys_are_wf(self.dataset.composites@, account);
        keys_are_wf(self.references.local@, account);
        assert forall|i: int|
            #![trigger self.unique@[i]]
            0 <= i < self.unique@.len() implies (self.unique@[i] matches Some(s) ==> s.wf()) by {
            if self.unique@[i] is Some {
                assert(exact_at(self.unique@[i]->0, account));
            }
        }
    }

    /// What a batch changes beside the findings.
    pub open spec fn advanced(
        &self,
        after: Execution,
        plan: CompiledContract,
        batch: Batch,
        long: Seq<Vec<bool>>,
        runs: BatchRuns,
    ) -> bool {
        &&& after.rows == self.rows + batch.rows
        &&& after.validation.offered() == offered_after(plan, batch, self.validation.offered())
        &&& runs.unique@.len() == self.unique@.len()
        &&& forall|i: int|
            #![trigger after.unique@[i]]
            0 <= i < after.unique@.len() ==> match self.unique@[i] {
                Some(s) => after.unique@[i] is Some && fed_state(
                    s,
                    after.unique@[i]->0,
                    unique_feed(plan.columns@[i], plan.schema, batch, self.rows as int).entries,
                    runs.unique@[i]@,
                ),
                None => after.unique@[i] is None && runs.unique@[i]@.len() == 0,
            }
        &&& self.dataset.advanced(
            after.dataset,
            plan.dataset_plan,
            plan.schema,
            batch,
            long,
            self.rows as int,
            runs.dataset,
        )
        &&& runs.references@.len() == plan.dataset_plan.references@.len()
        &&& forall|i: int|
            #![trigger after.references.local@[i]]
            0 <= i < after.references.local@.len() ==> fed_state(
                self.references.local@[i],
                after.references.local@[i],
                local_feed(
                    plan.dataset_plan.references@[i],
                    plan.schema,
                    batch,
                    self.rows as int,
                ).entries,
                runs.references@[i]@,
            )
        &&& match self.fingerprint {
            None => after.fingerprint is None,
            Some(f) => after.fingerprint is Some && after.fingerprint->0.schema_bytes()
                == f.schema_bytes() && forall|c: int|
                0 <= c < plan.schema.fields@.len()
                    ==> #[trigger] after.fingerprint->0.streams()[c] == f.streams()[c]
                    + crate::fingerprint::cells_v2(
                    crate::fingerprint::column_of(crate::fingerprint::rows_of(batch), c),
                ),
        }
    }

    /// Starts an execution: the schema of the stream is held to the contract, then the
    /// fingerprint, the dataset rules and the unique columns are prepared.
    pub fn begin(
        plan: &CompiledContract,
        reader_schema: &Schema,
        options: &ExecutionOptions,
        fingerprinted: bool,
        account: &mut ResourceAccount,
        node: usize,
    ) -> (r: Result<Self, ProofFrameError>)
        requires
            old(account).wf(),
            node < old(account).nodes().len(),
        ensures
            final(account).wf(),
            final(account).spec_limits() == old(account).spec_limits(),
            final(account).nodes().len() >= old(account).nodes().len(),
            !same_schema(*reader_schema, plan.schema) ==> (r matches Err(e) && e@
                == ErrorView::SchemaMismatch(
                "reader schema differs from the schema used to compile the contract"@,
            )),
            r matches Ok(x) ==> {
                &&& same_schema(*reader_schema, plan.schema)
                &&& x.wf(*plan, *final(account))
                &&& x.rows == 0
                &&& x.fingerprint is Some == fingerprinted
                &&& x.validation@ == (Found {
                    findings: Seq::empty(),
                    count: 0,
                    limit: if plan.max_findings < options.resources.max_samples {
                        plan.max_findings as nat
                    } else {
                        options.resources.max_samples as nat
                    },
                    places: 0,
                    owed: 0,
                })
                &&& x.validation.offered() == Seq::new(plan.columns@.len(), |i: int| 0u64)
                &&& x.dataset.fresh(options.spill == SpillPolicy::Auto)
                &&& forall|i: int|
                    #![trigger x.unique@[i]]
                    0 <= i < x.unique@.len() ==> (x.unique@[i] matches Some(s) ==> exact_empty(
                        s,
                        key_kind(plan.columns@[i].kernel),
                        options.spill == SpillPolicy::Auto,
                    ))
                &&& x.references.local@.len() == 0
            },
            same_schema(*reader_schema, plan.schema) ==> match begin_error(
                *reader_schema,
                fingerprinted,
            ) {
                Some(error) => r matches Err(e) && e@ == error,
                None => {
                    &&& r is Ok <==> can_open(
                        *old(account),
                        node as int,
                        old(account).spec_limits().max_memory_bytes,
                        exact_count(plan.dataset_plan, counted_columns(plan.dataset_plan))
                            + unique_count(plan.columns@, plan.columns@.len()),
                    )
                    &&& r matches Err(e) ==> not_opened(*old(account), e@)
                },
            },
    {
        match validate_reader_schema(reader_schema, plan) {
            Ok(()) => {},
            Err(e) => return Err(e),
        }
        let fingerprint = if fingerprinted {
            let key_options = FingerprintOptions::new(FingerprintVersion::V2);
            match V2FingerprintState::new(reader_schema, &key_options) {
                Ok(f) => Some(f),
                Err(e) => return Err(e),
            }
        } else {
            None
        };
        let limit: usize = if plan.max_findings < options.resources.max_samples {
            plan.max_findings
        } else {
            options.resources.max_samples
        };
        let mut validation = ValidationState::new(limit);
        validation.prepare_evaluated(plan.columns.len());
        let spills = options.spill == SpillPolicy::Auto;
        let dataset = match DatasetState::new(
            &plan.dataset_plan,
            account,
            node,
            options.row_count_hint,
            spills,
        ) {
            Ok(d) => d,
            Err(e) => {
                proof {
                    let c = exact_count(plan.dataset_plan, counted_columns(plan.dataset_plan));
                    let u = unique_count(plan.columns@, plan.columns@.len());
                    let share = old(account).spec_limits().max_memory_bytes;
                    if can_open(*old(account), node as int, share, c + u) {
                        crate::execution::dataset_state::fewer_open(
                            *old(account),
                            node as int,
                            share,
                            c,
                            c + u,
                        );
                    }
                }
                return Err(e);
            },
        };
        proof {
            opens_in_parts(
                *old(account),
                *account,
                node as int,
                exact_count(plan.dataset_plan, counted_columns(plan.dataset_plan)),
                unique_count(plan.columns@, plan.columns@.len()),
            );
        }
        let unique = match initialize_unique_states(
            &plan.columns,
            account,
            node,
            options.row_count_hint,
            spills,
        ) {
            Ok(u) => u,
            Err(e) => return Err(e),
        };
        Ok(
            Execution {
                validation,
                fingerprint,
                unique,
                dataset,
                references: ReferenceState { local: Vec::new() },
                rows: 0,
            },
        )
    }

    /// Opens the local keys of every reference rule, once the datasets were scanned.
    pub fn open_references(
        &mut self,
        plan: &CompiledContract,
        options: &ExecutionOptions,
        account: &mut ResourceAccount,
        node: usize,
    ) -> (r: Result<(), ProofFrameError>)
        requires
            old(account).wf(),
            node < old(account).nodes().len(),
            old(self).wf(*plan, *old(account)),
        ensures
            final(account).wf(),
            final(account).spec_limits() == old(account).spec_limits(),
            final(account).nodes().len() >= old(account).nodes().len(),
            final(self).wf(*plan, *final(account)),
            r is Ok ==> final(self).bound(*plan, *final(account)) && forall|i: int|
                #![trigger final(self).references.local@[i]]
                0 <= i < final(self).references.local@.len() ==> exact_empty(
                    final(self).references.local@[i],
                    crate::distinct::order::ValueKind::Bytes,
                    true,
                ),
            *final(self) == (Execution { references: final(self).references, ..*old(self) }),
            r is Ok <==> can_open(
                *old(account),
                node as int,
                old(account).spec_limits().max_memory_bytes,
                plan.dataset_plan.references@.len(),
            ),
            r matches Err(e) ==> not_opened(*old(account), e@),
    {
        match ReferenceState::new(
            &plan.dataset_plan.references,
            account,
            node,
            options.row_count_hint,
        ) {
            Ok(s) => {
                self.references = s;
                Ok(())
            },
            Err(e) => Err(e),
        }
    }

    /// Applies a contract to a batch. The runs that exact states had to write are returned
    /// for the caller to keep.
    #[verifier::rlimit(80)]
    #[verifier::spinoff_prover]
    pub fn update(
        &mut self,
        plan: &CompiledContract,
        batch_schema: &Schema,
        batch: &Batch,
        long: &Vec<Vec<bool>>,
        cancelled: bool,
        account: &mut ResourceAccount,
        node: usize,
    ) -> (r: Result<BatchRuns, ProofFrameError>)
        requires
            contract_fits(*plan),
            old(account).wf(),
            node < old(account).nodes().len(),
            old(self).wf(*plan, *old(account)),
            old(self).bound(*plan, *old(account)),
            batch_fits(plan.schema, *batch, old(self).rows as int),
            old(self).fingerprint is Some ==> readable(*batch, plan.schema.fields@.len()),
            long@.len() == plan.dataset_plan.gap_detection@.len(),
            forall|i: int| 0 <= i < long@.len() ==> (#[trigger] long@[i])@.len() == batch.rows,
        ensures
            same_account(*old(account), *final(account)),
            ({
                let stages = batch_stages(
                    *plan,
                    old(self).dataset,
                    *batch,
                    long@,
                    old(self).rows as int,
                );
                let error = old(self).batch_error(
                    *plan,
                    *batch_schema,
                    *batch,
                    long@,
                    cancelled,
                );
                &&& r matches Ok(runs) ==> error is None && final(self).wf(*plan, *final(account))
                    && final(self).bound(*plan, *final(account)) && old(self).advanced(
                    *final(self),
                    *plan,
                    *batch,
                    long@,
                    runs,
                ) && final(self).validation@ == staged(
                    old(self).validation@,
                    stages,
                    stages.len(),
                )
                &&& cancelled ==> (r matches Err(e) && e@ == ErrorView::Cancelled)
                &&& cancelled || !same_schema(*batch_schema, plan.schema) ==> outcome(r, error)
                &&& r matches Err(e) ==> error == Some(e@) || not_inserted(e@)
                &&& plain(*plan, old(self).dataset) ==> (r matches Err(e) ==> error == Some(e@)
                    || e@ is ResourceLimit)
                &&& plain(*plan, old(self).dataset) && room(
                    old(account).nodes(),
                    node as int,
                    ResourceKind::Memory,
                    0,
                    owed_by(old(self).validation@, stages, stages.len()),
                ) ==> outcome(r, error)
                &&& old(self).batch_suits(*plan, *batch) ==> forall|
                    m: int,
                    t: int,
                |
                    #![trigger spare(old(account).nodes(), m, t)]
                    spare(old(account).nodes(), m, t) && m >= old(self).batch_need(
                        *plan,
                        *batch,
                        long@,
                    ) && t >= old(self).batch_storage(*plan, *batch) ==> outcome(r, error) && (
                    r is Ok ==> spare(
                        final(account).nodes(),
                        m - old(self).batch_need(*plan, *batch, long@),
                        t - old(self).batch_storage(*plan, *batch),
                    ))
            }),
    {
        match stop_when(cancelled) {
            Ok(()) => {},
            Err(e) => return Err(e),
        }
        if !schema_eq(batch_schema, &plan.schema) {
            return Err(
                ProofFrameError::SchemaMismatch(
                    text("record batch schema changed after contract compilation"),
                ),
            );
        }
        let ghost given = *self;
        let ghost f0 = self.validation@;
        let row_offset: u64 = self.rows;
        let ghost off = row_offset as int;
        let ghost cs = column_stages(*plan, *batch, off);
        let ghost rs = row_stages(*plan, *batch, off);
        let ghost d = given.dataset.batch_findings(
            plan.dataset_plan,
            plan.schema,
            *batch,
            long@,
            off,
        );
        let ghost e = crate::execution::dataset_state::all_of(
            local_findings(plan.dataset_plan.references@, plan.schema, *batch, off),
            plan.dataset_plan.references@.len(),
        );
        let ghost stages = batch_stages(*plan, given.dataset, *batch, long@, off);
        proof {
            stages_split(f0, cs, rs, d, e);
        }
        let ghost ul = unique_entries(*plan, *batch, off);
        let ghost ds = given.dataset.exacts();
        let ghost dl = given.dataset.batch_entries(
            plan.dataset_plan,
            plan.schema,
            *batch,
            off,
        );
        let ghost ls = given.references.local@;
        let ghost ll = local_entries(plan.dataset_plan.references@, plan.schema, *batch, off);
        let ghost good = given.batch_suits(*plan, *batch);
        let ghost n0 = account.nodes();
        let ghost need = given.batch_need(*plan, *batch, long@);
        let ghost hold = given.batch_storage(*plan, *batch);
        let ghost dm = memory_needs(ds, dl, ds.len());
        let ghost dt = temp_needs(ds, dl, ds.len());
        let ghost lm = memory_needs(ls, ll, ls.len());
        let ghost lt = temp_needs(ls, ll, ls.len());
        let ghost c = plan.columns@.len();
        proof {
            given.states_are_wf(*plan, *account);
            columns_need_grows(given.unique@, ul, 0, c);
            needs_grow(ds, dl, 0, ds.len());
            needs_grow(ls, ll, 0, ls.len());
        }
        self.print(plan, batch);
        let unique = match scan_columns(
            plan,
            batch,
            row_offset,
            &mut self.unique,
            account,
            node,
            &mut self.validation,
        ) {
            Ok(runs) => runs,
            Err(e) => return Err(e),
        };
        let ghost a1 = *account;
        let ghost f1 = self.validation@;
        let ghost m1 = owed_by(f0, cs, c) + columns_need(given.unique@, ul, c);
        let ghost t1 = columns_storage(given.unique@, ul, c);
        proof {
            assert forall|m: int, t: int|
                #![trigger spare(n0, m, t)]
                good && spare(n0, m, t) && m >= need && t >= hold implies spare(
                a1.nodes(),
                m - m1,
                t - t1,
            ) by {
                assert(spare(
                    a1.nodes(),
                    m - owed_by(f0, cs, c) - columns_need(given.unique@, ul, c),
                    t - t1,
                ));
            }
        }
        match scan_rows(plan, batch, row_offset, account, node, &mut self.validation) {
            Ok(()) => {},
            Err(e) => return Err(e),
        }
        let ghost a2 = *account;
        let ghost f2 = self.validation@;
        let ghost m2 = m1 + owed_by(f1, rs, rs.len());
        proof {
            assert forall|m: int, t: int|
                #![trigger spare(n0, m, t)]
                good && spare(n0, m, t) && m >= need && t >= hold implies spare(
                a2.nodes(),
                m - m2,
                t - t1,
            ) && ample_for(a2.nodes(), ds, dl) by {
                assert(spare(a1.nodes(), m - m1, t - t1));
                assert(spare(a2.nodes(), m - m1 - owed_by(f1, rs, rs.len()), t - t1));
                fed_within(a2.nodes(), a2.nodes(), ds, dl, m - m2, t - t1);
            }
        }
        let dataset = match self.dataset.update(
            &plan.dataset_plan,
            &plan.schema,
            batch,
            long,
            row_offset,
            account,
            &mut self.validation,
        ) {
            Ok(runs) => runs,
            Err(e) => return Err(e),
        };
        let ghost fed = account.nodes();
        let ghost due = self.validation@.owed as int;
        proof {
            assert forall|m: int, t: int|
                #![trigger spare(n0, m, t)]
                good && spare(n0, m, t) && m >= need && t >= hold implies spare(
                fed,
                m - m2 - dm,
                t - t1 - dt,
            ) && room(fed, node as int, ResourceKind::Memory, 0, due) by {
                fed_within(a2.nodes(), fed, ds, dl, m - m2, t - t1);
            }
        }
        match self.validation.check_resources(account, node) {
            Ok(()) => {},
            Err(e) => return Err(e),
        }
        let ghost a3 = *account;
        let ghost f3 = self.validation@;
        proof {
            assert forall|m: int, t: int|
                #![trigger spare(n0, m, t)]
                good && spare(n0, m, t) && m >= need && t >= hold implies spare(
                a3.nodes(),
                m - m2 - dm - due,
                t - t1 - dt,
            ) && ample_for(a3.nodes(), ls, ll) by {
                spare_once_paid(fed, a3.nodes(), node as int, m - m2 - dm, t - t1 - dt, due);
                fed_within(
                    a3.nodes(),
                    a3.nodes(),
                    ls,
                    ll,
                    m - m2 - dm - due,
                    t - t1 - dt,
                );
            }
        }
        let references = match self.references.update(
            &plan.dataset_plan.references,
            &plan.schema,
            batch,
            row_offset,
            account,
            &mut self.validation,
        ) {
            Ok(runs) => runs,
            Err(e) => return Err(e),
        };
        let ghost fed = account.nodes();
        let ghost last = self.validation@.owed as int;
        proof {
            assert forall|m: int, t: int|
                #![trigger spare(n0, m, t)]
                good && spare(n0, m, t) && m >= need && t >= hold implies spare(
                fed,
                m - m2 - dm - due - lm,
                t - t1 - dt - lt,
            ) && room(fed, node as int, ResourceKind::Memory, 0, last) by {
                fed_within(a3.nodes(), fed, ls, ll, m - m2 - dm - due, t - t1 - dt);
            }
        }
        match self.validation.check_resources(account, node) {
            Ok(()) => {},
            Err(e) => return Err(e),
        }
        proof {
            assert forall|m: int, t: int|
                #![trigger spare(n0, m, t)]
                good && spare(n0, m, t) && m >= need && t >= hold implies spare(
                account.nodes(),
                m - need,
                t - hold,
            ) by {
                spare_once_paid(
                    fed,
                    account.nodes(),
                    node as int,
                    m - m2 - dm - due - lm,
                    t - t1 - dt - lt,
                    last,
                );
            }
        }
        self.rows = row_offset + batch.rows as u64;
        Ok(BatchRuns { unique, dataset, references })
    }

    /// Takes a batch into the fingerprint, where there is one.
    fn print(&mut self, plan: &CompiledContract, batch: &Batch)
        requires
            old(self).fingerprint matches Some(f) ==> f.streams().len() == plan.schema.fields@.len()
                && f.count() == old(self).rows,
            old(self).fingerprint is Some ==> readable(*batch, plan.schema.fields@.len()),
            old(self).rows + batch.rows <= u64::MAX,
        ensures
            *final(self) == (Execution { fingerprint: final(self).fingerprint, ..*old(self) }),
            match old(self).fingerprint {
                None => final(self).fingerprint is None,
                Some(f) => final(self).fingerprint is Some
                    && final(self).fingerprint->0.schema_bytes() == f.schema_bytes()
                    && final(self).fingerprint->0.count() == f.count() + batch.rows
                    && final(self).fingerprint->0.streams().len() == f.streams().len()
                    && forall|c: int|
                    0 <= c < plan.schema.fields@.len()
                        ==> #[trigger] final(self).fingerprint->0.streams()[c] == f.streams()[c]
                        + crate::fingerprint::cells_v2(
                        crate::fingerprint::column_of(crate::fingerprint::rows_of(*batch), c),
                    ),
            },
    {
        let mut fingerprint: Option<V2FingerprintState> = None;
        core::mem::swap(&mut fingerprint, &mut self.fingerprint);
        match fingerprint {
            Some(f) => {
                let mut state = f;
                state.update(batch);
                self.fingerprint = Some(state);
            },
            None => {},
        }
    }
}

/// Four kinds of stages one behind the other.
proof fn stages_split(
    f: Found,
    cs: Seq<Seq<FindingView>>,
    rs: Seq<Seq<FindingView>>,
    d: Seq<FindingView>,
    e: Seq<FindingView>,
)
    ensures
        ({
            let all = cs + rs + seq![d] + seq![e];
            let f1 = staged(f, cs, cs.len());
            let f2 = staged(f1, rs, rs.len());
            let f3 = settled(recorded_all(f2, d));
            &&& staged(f, all, all.len()) == settled(recorded_all(f3, e))
            &&& owed_by(f, all, all.len()) == owed_by(f, cs, cs.len()) + owed_by(f1, rs, rs.len())
                + recorded_all(f2, d).owed + recorded_all(f3, e).owed
            &&& owed_by(f, cs, cs.len()) >= 0
            &&& owed_by(f1, rs, rs.len()) >= 0
        }),
{
    let f1 = staged(f, cs, cs.len());
    let f2 = staged(f1, rs, rs.len());
    let f3 = settled(recorded_all(f2, d));
    staged_in_parts(f, cs, rs, rs.len());
    staged_in_parts(f, cs + rs, seq![d], 1);
    staged_in_parts(f, cs + rs + seq![d], seq![e], 1);
    reveal_with_fuel(staged, 2);
    reveal_with_fuel(owed_by, 2);
    owed_grows(f, cs, 0, cs.len());
    owed_grows(f1, rs, 0, rs.len());
    assert((cs + rs).len() == cs.len() + rs.len());
    assert((cs + rs + seq![d]).len() == cs.len() + rs.len() + 1);
}

/// Without a unique column none gives an error.
proof fn no_unique_errors(plan: CompiledContract, batch: Batch, row_offset: int, n: nat)
    requires
        n <= plan.columns@.len(),
        unique_count(plan.columns@, n) == 0,
    ensures
        earliest(unique_errors(plan, batch, row_offset), n) is None,
    decreases n,
{
    if n > 0 {
        no_unique_errors(plan, batch, row_offset, (n - 1) as nat);
    }
}

/// Applies every column's rules to a batch, feeds the unique columns, and pays for the
/// findings of each.
#[verifier::spinoff_prover]
#[verifier::rlimit(60)]
fn scan_columns(
    plan: &CompiledContract,
    batch: &Batch,
    row_offset: u64,
    states: &mut Vec<Option<ExactState>>,
    account: &mut ResourceAccount,
    node: usize,
    validation: &mut ValidationState,
) -> (r: Result<Vec<Vec<Vec<u8>>>, ProofFrameError>)
    requires
        contract_fits(*plan),
        batch_fits(plan.schema, *batch, row_offset as int),
        old(account).wf(),
        node < old(account).nodes().len(),
        unique_wf(plan.columns@, old(states)@, *old(account)),
        old(validation).wf(),
        old(validation).offered().len() == plan.columns@.len(),
    ensures
        same_account(*old(account), *final(account)),
        final(validation).wf(),
        ({
            let list = column_stages(*plan, *batch, row_offset as int);
            let errors = unique_errors(*plan, *batch, row_offset as int);
            let c = plan.columns@.len();
            let none = unique_count(plan.columns@, c) == 0;
            &&& r matches Ok(runs) ==> {
                &&& earliest(errors, c) is None
                &&& unique_wf(plan.columns@, final(states)@, *final(account))
                &&& final(validation).offered() == offered_after(*plan, *batch, old(validation).offered())
                &&& final(validation)@ == staged(old(validation)@, list, c)
                &&& runs@.len() == c
                &&& forall|k: int|
                    #![trigger final(states)@[k]]
                    0 <= k < final(states)@.len() ==> match old(states)@[k] {
                        Some(s) => final(states)@[k] is Some && fed_state(
                            s,
                            final(states)@[k]->0,
                            unique_feed(
                                plan.columns@[k],
                                plan.schema,
                                *batch,
                                row_offset as int,
                            ).entries,
                            runs@[k]@,
                        ),
                        None => final(states)@[k] is None && runs@[k]@.len() == 0,
                    }
            }
            &&& r matches Err(e) ==> earliest(errors, c) == Some(e@) || not_inserted(e@)
            &&& none ==> earliest(errors, c) is None && (r matches Err(e) ==> e@ is ResourceLimit)
            &&& none && room(
                old(account).nodes(),
                node as int,
                ResourceKind::Memory,
                0,
                owed_by(old(validation)@, list, c),
            ) ==> r is Ok
            &&& none && r is Ok ==> paid(
                *old(account),
                *final(account),
                node as int,
                owed_by(old(validation)@, list, c),
            )
            &&& columns_suit(
                old(states)@,
                unique_entries(*plan, *batch, row_offset as int),
            ) ==> forall|m: int, t: int|
                #![trigger spare(old(account).nodes(), m, t)]
                spare(old(account).nodes(), m, t) && m >= owed_by(old(validation)@, list, c)
                    + columns_need(
                    old(states)@,
                    unique_entries(*plan, *batch, row_offset as int),
                    c,
                ) && t >= columns_storage(
                    old(states)@,
                    unique_entries(*plan, *batch, row_offset as int),
                    c,
                ) ==> outcome(r, earliest(errors, c)) && (r is Ok ==> spare(
                    final(account).nodes(),
                    m - owed_by(old(validation)@, list, c) - columns_need(
                        old(states)@,
                        unique_entries(*plan, *batch, row_offset as int),
                        c,
                    ),
                    t - columns_storage(
                        old(states)@,
                        unique_entries(*plan, *batch, row_offset as int),
                        c,
                    ),
                ))
        }),
{
    let ghost off = row_offset as int;
    let ghost given = states@;
    let ghost f0 = validation@;
    let ghost offered = validation.offered();
    let ghost list = column_stages(*plan, *batch, off);
    let ghost errors = unique_errors(*plan, *batch, off);
    let ghost c = plan.columns@.len();
    let ghost none = unique_count(plan.columns@, c) == 0;
    let ghost easy = room(
        old(account).nodes(),
        node as int,
        ResourceKind::Memory,
        0,
        owed_by(f0, list, c),
    );
    let ghost fed = unique_entries(*plan, *batch, off);
    let ghost good = columns_suit(given, fed);
    let ghost start = account.nodes();
    proof {
        assert(forall|k: int|
            #![trigger given[k]]
            0 <= k < given.len() ==> (given[k] matches Some(s) ==> exact_at(s, *account)));
        if none {
            no_unique_errors(*plan, *batch, off, c);
        }
    }
    let mut out: Vec<Vec<Vec<u8>>> = Vec::new();
    let mut i: usize = 0;
    while i < plan.columns.len()
        invariant
            i <= plan.columns@.len(),
            c == plan.columns@.len(),
            contract_fits(*plan),
            batch_fits(plan.schema, *batch, off),
            off == row_offset,
            out@.len() == i,
            given == old(states)@,
            offered == old(validation).offered(),
            offered.len() == c,
            f0 == old(validation)@,
            list == column_stages(*plan, *batch, off),
            errors == unique_errors(*plan, *batch, off),
            none == (unique_count(plan.columns@, c) == 0),
            easy == room(
                old(account).nodes(),
                node as int,
                ResourceKind::Memory,
                0,
                owed_by(f0, list, c),
            ),
            same_account(*old(account), *account),
            node < account.nodes().len(),
            validation.wf(),
            validation.offered().len() == c,
            forall|k: int|
                #![trigger validation.offered()[k]]
                0 <= k < c ==> validation.offered()[k] == if k < i {
                    offered_after(*plan, *batch, offered)[k]
                } else {
                    offered[k]
                },
            validation@ == staged(f0, list, i as nat),
            earliest(errors, i as nat) is None,
            unique_wf(plan.columns@, states@, *account),
            given.len() == c,
            forall|k: int| i <= k < c ==> #[trigger] states@[k] == given[k],
            forall|k: int|
                #![trigger states@[k]]
                0 <= k < i ==> match given[k] {
                    Some(s) => states@[k] is Some && fed_state(
                        s,
                        states@[k]->0,
                        unique_feed(plan.columns@[k], plan.schema, *batch, off).entries,
                        out@[k]@,
                    ),
                    None => states@[k] is None && out@[k]@.len() == 0,
                },
            none ==> paid(*old(account), *account, node as int, owed_by(f0, list, i as nat)),
            fed == unique_entries(*plan, *batch, off),
            good == columns_suit(given, fed),
            none ==> earliest(errors, c) is None,
            start == old(account).nodes(),
            forall|k: int|
                #![trigger given[k]]
                0 <= k < given.len() ==> (given[k] matches Some(s) ==> exact_at(s, *old(account))),
            good ==> forall|m: int, t: int|
                #![trigger spare(start, m, t)]
                spare(start, m, t) && m >= owed_by(f0, list, c) + columns_need(given, fed, c) && t
                    >= columns_storage(given, fed, c) ==> spare(
                    account.nodes(),
                    m - owed_by(f0, list, i as nat) - columns_need(given, fed, i as nat),
                    t - columns_storage(given, fed, i as nat),
                ),
        decreases plan.columns@.len() - i,
    {
        assert(states@[i as int] == given[i as int]);
        let ghost a4 = *account;
        let ghost u4 = states@;
        let ghost v4 = validation@;
        proof {
            assert forall|k: int|
                #![trigger given[k]]
                0 <= k < given.len() implies (given[k] matches Some(s) ==> s.wf()) by {
                if given[k] is Some {
                    assert(exact_at(given[k]->0, *old(account)));
                }
            }
            columns_need_grows(given, fed, (i + 1) as nat, c);
            owed_grows(f0, list, (i + 1) as nat, c);
            if errors[i as int] is Some {
                assert(earliest(errors, (i + 1) as nat) == errors[i as int]);
                earliest_stays(errors, (i + 1) as nat, c);
            }
        }
        let mut one: Option<ExactState> = None;
        core::mem::swap(&mut one, &mut states[i]);
        let done = scan_one(plan, i, batch, row_offset, &mut one, account, node, validation);
        core::mem::swap(&mut one, &mut states[i]);
        proof {
            unique_count_grows(plan.columns@, 0, c);
            if none {
                one_stage(*old(account), a4, *account, node as int, f0, list, i as nat);
            }
            assert forall|k: int|
                #![trigger states@[k]]
                0 <= k < states@.len() && k != i implies states@[k] == u4[k] by {}
        }
        proof {
            let more = recorded_all(v4, list[i as int]).owed as int;
            assert forall|m: int, t: int|
                #![trigger spare(start, m, t)]
                good && spare(start, m, t) && m >= owed_by(f0, list, c) + columns_need(given, fed, c)
                    && t >= columns_storage(given, fed, c) implies outcome(done, errors[i as int])
                && (done is Ok ==> spare(
                account.nodes(),
                m - owed_by(f0, list, (i + 1) as nat) - columns_need(given, fed, (i + 1) as nat),
                t - columns_storage(given, fed, (i + 1) as nat),
            )) by {
                let m1 = m - owed_by(f0, list, i as nat) - columns_need(given, fed, i as nat);
                let t1 = t - columns_storage(given, fed, i as nat);
                assert(spare(a4.nodes(), m1, t1));
                assert(u4[i as int] == given[i as int]);
                assert(m1 >= more + column_need(given[i as int], fed[i as int]));
                assert(t1 >= column_storage(given[i as int], fed[i as int]));
            }
        }
        match done {
            Ok(runs) => {
                assert(errors[i as int] is None);
                out.push(runs);
            },
            Err(e) => {
                proof {
                    if errors[i as int] == Some(e@) {
                        assert(earliest(errors, (i + 1) as nat) == Some(e@));
                        earliest_stays(errors, (i + 1) as nat, c);
                    }
                }
                return Err(e);
            },
        }
        i = i + 1;
    }
    assert(validation.offered() =~= offered_after(*plan, *batch, offered));
    Ok(out)
}

/// Applies every row rule to a batch, and pays for the findings of each.
fn scan_rows(
    plan: &CompiledContract,
    batch: &Batch,
    row_offset: u64,
    account: &mut ResourceAccount,
    node: usize,
    validation: &mut ValidationState,
) -> (r: Result<(), ProofFrameError>)
    requires
        contract_fits(*plan),
        batch_fits(plan.schema, *batch, row_offset as int),
        old(account).wf(),
        node < old(account).nodes().len(),
        old(validation).wf(),
    ensures
        same_account(*old(account), *final(account)),
        final(validation).wf(),
        final(validation).offered() == old(validation).offered(),
        ({
            let list = row_stages(*plan, *batch, row_offset as int);
            let errors = row_errors(*plan, *batch);
            let w = plan.row_plans@.len();
            &&& r is Ok ==> earliest(errors, w) is None && final(validation)@ == staged(
                old(validation)@,
                list,
                w,
            ) && paid(*old(account), *final(account), node as int, owed_by(old(validation)@, list, w))
            &&& r matches Err(e) ==> earliest(errors, w) == Some(e@) || e@ is ResourceLimit
            &&& room(
                old(account).nodes(),
                node as int,
                ResourceKind::Memory,
                0,
                owed_by(old(validation)@, list, w),
            ) ==> outcome(r, earliest(errors, w))
            &&& forall|m: int, t: int|
                #![trigger spare(old(account).nodes(), m, t)]
                spare(old(account).nodes(), m, t) && m >= owed_by(old(validation)@, list, w)
                    ==> outcome(r, earliest(errors, w)) && (r is Ok ==> spare(
                    final(account).nodes(),
                    m - owed_by(old(validation)@, list, w),
                    t,
                ))
        }),
{
    let ghost off = row_offset as int;
    let ghost f0 = validation@;
    let ghost list = row_stages(*plan, *batch, off);
    let ghost errors = row_errors(*plan, *batch);
    let ghost w = plan.row_plans@.len();
    let ghost start = account.nodes();
    let mut k: usize = 0;
    while k < plan.row_plans.len()
        invariant
            k <= plan.row_plans@.len(),
            w == plan.row_plans@.len(),
            contract_fits(*plan),
            batch_fits(plan.schema, *batch, off),
            off == row_offset,
            f0 == old(validation)@,
            list == row_stages(*plan, *batch, off),
            errors == row_errors(*plan, *batch),
            same_account(*old(account), *account),
            node < account.nodes().len(),
            validation.wf(),
            validation.offered() == old(validation).offered(),
            validation@ == staged(f0, list, k as nat),
            earliest(errors, k as nat) is None,
            paid(*old(account), *account, node as int, owed_by(f0, list, k as nat)),
            start == old(account).nodes(),
            forall|m: int, t: int|
                #![trigger spare(start, m, t)]
                spare(start, m, t) ==> spare(
                    account.nodes(),
                    m - owed_by(f0, list, k as nat),
                    t,
                ),
        decreases plan.row_plans@.len() - k,
    {
        let ghost a4 = *account;
        match scan_row_plan(&plan.row_plans[k], batch, row_offset, validation) {
            Ok(()) => {
                assert(errors[k as int] is None);
            },
            Err(e) => {
                proof {
                    assert(errors[k as int] == Some(e@));
                    assert(earliest(errors, (k + 1) as nat) == Some(e@));
                    earliest_stays(errors, (k + 1) as nat, w);
                }
                return Err(e);
            },
        }
        let ghost more = validation@.owed as int;
        let done = validation.check_resources(account, node);
        proof {
            one_stage(*old(account), a4, *account, node as int, f0, list, k as nat);
            owed_grows(f0, list, (k + 1) as nat, w);
            assert forall|m: int, t: int|
                #![trigger spare(start, m, t)]
                spare(start, m, t) implies (m >= owed_by(f0, list, w) ==> done is Ok) && (done is Ok
                ==> spare(account.nodes(), m - owed_by(f0, list, (k + 1) as nat), t)) by {
                let m1 = m - owed_by(f0, list, k as nat);
                assert(spare(a4.nodes(), m1, t));
                if m >= owed_by(f0, list, w) {
                    assert(room(a4.nodes(), node as int, ResourceKind::Memory, 0, more));
                }
                if done is Ok {
                    spare_once_paid(a4.nodes(), account.nodes(), node as int, m1, t, more);
                }
            }
        }
        match done {
            Ok(()) => {},
            Err(e) => return Err(e),
        }
        k = k + 1;
    }
    Ok(())
}

/// One stage more: there is room for it where there is for all, and it is paid for.
proof fn one_stage(
    start: ResourceAccount,
    before: ResourceAccount,
    after: ResourceAccount,
    node: int,
    f: Found,
    stages: Seq<Seq<FindingView>>,
    n: nat,
)
    requires
        n < stages.len(),
        0 <= node < before.nodes().len(),
        paid(start, before, node, owed_by(f, stages, n)),
    ensures
        room(start.nodes(), node, ResourceKind::Memory, 0, owed_by(f, stages, stages.len()))
            ==> room(
            before.nodes(),
            node,
            ResourceKind::Memory,
            0,
            recorded_all(staged(f, stages, n), stages[n as int]).owed as int,
        ),
        crate::resource::charged(
            before.nodes(),
            after.nodes(),
            node,
            ResourceKind::Memory,
            recorded_all(staged(f, stages, n), stages[n as int]).owed as int,
        ) ==> paid(start, after, node, owed_by(f, stages, n + 1)),
{
    let more = recorded_all(staged(f, stages, n), stages[n as int]).owed as int;
    owed_grows(f, stages, n + 1, stages.len());
    if room(start.nodes(), node, ResourceKind::Memory, 0, owed_by(f, stages, stages.len())) {
        smaller_room(
            start.nodes(),
            node,
            owed_by(f, stages, n + 1),
            owed_by(f, stages, stages.len()),
        );
    }
    assert(room(before.nodes(), node, ResourceKind::Memory, 0, more) == room(
        start.nodes(),
        node,
        ResourceKind::Memory,
        0,
        more + owed_by(f, stages, n),
    ));
    assert(more + owed_by(f, stages, n) == owed_by(f, stages, n + 1));
    if crate::resource::charged(
        before.nodes(),
        after.nodes(),
        node,
        ResourceKind::Memory,
        more,
    ) {
        paid_more(start, before, after, node, owed_by(f, stages, n), more);
    }
}

} // verus!
