//! Rules over a whole dataset: what they hold between batches, and what a batch changes.

use crate::contract::ast::outcome;
use crate::contract::dataset::{
    CompositeUniquePlan, ConditionalUniquePlan, CountPlan, DatasetPlan, GapDetectionPlan,
    MonotonicityPlan, MutuallyExclusivePlan, RatioPlan, SumBounds, SumPlan,
};
use crate::contract::rules::KernelKind;
use crate::distinct::budget::{
    all_wf, ample_for, leaves, leaves_all, leaves_in_parts, leaves_less, memory_needs, next_has_room,
    room_in_parts, temp_needs,
};
use crate::distinct::order::{Entry, ValueKind};
use crate::distinct::state::{not_inserted, ExactState};
use crate::error::{ErrorView, ProofFrameError};
use crate::execution::exact_rules::{
    exact_kind, fed_column, fed_keys, fed_state, feed_column, feed_keys, key_kind, same_account,
    Fed, KeyRule,
};
use crate::execution::exclusive::{exclusive_findings, exclusive_in_range, scan_exclusive};
use crate::execution::ordering::{
    no_steps, opt_place, scan_gaps, scan_order, steps, trail, GapState, Ordered, Steps, Trail,
};
use crate::execution::row_kernels::{answer, executable, in_range, scan_predicate, unsupported_error};
use crate::execution::total::{accumulate, sum_of};
use crate::execution::validation::{
    capped, recorded_all, recorded_in_parts, FindingView, ValidationState,
};
use crate::resource::{charge_above, child_room, on_path, room, ResourceAccount, ResourceKind};
use crate::value::{Batch, Cell, Schema};
use vstd::prelude::*;

verus! {

/// A column with a rule on its number of different values: which of the count rules and of
/// the ratio rules are on it.
#[derive(Debug, Clone, Copy)]
pub struct DistinctSpec {
    pub column_index: usize,
    pub kernel: KernelKind,
    pub count_rule: Option<usize>,
    pub ratio_rule: Option<usize>,
}

/// The last of the first `n` count rules on a column.
pub open spec fn last_count(counts: Seq<CountPlan>, column: usize, n: nat) -> Option<usize>
    decreases n,
{
    if n == 0 {
        None
    } else if counts[n - 1].column_index == column {
        Some((n - 1) as usize)
    } else {
        last_count(counts, column, (n - 1) as nat)
    }
}

/// The last of the first `n` ratio rules on a column.
pub open spec fn last_ratio(ratios: Seq<RatioPlan>, column: usize, n: nat) -> Option<usize>
    decreases n,
{
    if n == 0 {
        None
    } else if ratios[n - 1].column_index == column {
        Some((n - 1) as usize)
    } else {
        last_ratio(ratios, column, (n - 1) as nat)
    }
}

/// The columns with such rules among the first so many of each list: in ascending order,
/// each once, with the last rule of each list on it.
pub open spec fn distinct_listed(
    specs: Seq<DistinctSpec>,
    counts: Seq<CountPlan>,
    n: nat,
    ratios: Seq<RatioPlan>,
    m: nat,
) -> bool {
    &&& forall|i: int, j: int|
        0 <= i < j < specs.len() ==> (#[trigger] specs[i]).column_index < (
        #[trigger] specs[j]).column_index
    &&& forall|i: int|
        #![trigger specs[i]]
        0 <= i < specs.len() ==> {
            &&& specs[i].count_rule == last_count(counts, specs[i].column_index, n)
            &&& specs[i].ratio_rule == last_ratio(ratios, specs[i].column_index, m)
            &&& specs[i].count_rule is Some || specs[i].ratio_rule is Some
            &&& specs[i].kernel == match specs[i].count_rule {
                Some(k) => counts[k as int].kernel,
                None => ratios[first_ratio(ratios, specs[i].column_index, m)].kernel,
            }
        }
    &&& forall|k: int| 0 <= k < n ==> holds_column(specs, (#[trigger] counts[k]).column_index)
    &&& forall|k: int| 0 <= k < m ==> holds_column(specs, (#[trigger] ratios[k]).column_index)
}

/// Whether a column is listed.
pub open spec fn holds_column(specs: Seq<DistinctSpec>, column: usize) -> bool {
    exists|i: int| 0 <= i < specs.len() && (#[trigger] specs[i]).column_index == column
}

/// The first of the ratio rules on a column.
pub open spec fn first_ratio(ratios: Seq<RatioPlan>, column: usize, n: nat) -> int
    decreases n,
{
    if n == 0 {
        0
    } else if last_ratio(ratios, column, (n - 1) as nat) is Some {
        first_ratio(ratios, column, (n - 1) as nat)
    } else {
        n - 1
    }
}

proof fn last_count_fits(counts: Seq<CountPlan>, column: usize, n: nat)
    requires
        n <= counts.len() <= usize::MAX,
    ensures
        last_count(counts, column, n) matches Some(k) ==> k < n && counts[k as int].column_index
            == column,
        last_count(counts, column, n) is None ==> forall|k: int|
            0 <= k < n ==> (#[trigger] counts[k]).column_index != column,
    decreases n,
{
    if n > 0 {
        last_count_fits(counts, column, (n - 1) as nat);
    }
}

proof fn last_ratio_fits(ratios: Seq<RatioPlan>, column: usize, n: nat)
    requires
        n <= ratios.len() <= usize::MAX,
    ensures
        last_ratio(ratios, column, n) matches Some(k) ==> k < n && ratios[k as int].column_index
            == column,
        last_ratio(ratios, column, n) is None ==> forall|k: int|
            0 <= k < n ==> (#[trigger] ratios[k]).column_index != column,
    decreases n,
{
    if n > 0 {
        last_ratio_fits(ratios, column, (n - 1) as nat);
    }
}

fn place_for(specs: &Vec<DistinctSpec>, column: usize) -> (r: usize)
    requires
        forall|i: int, j: int|
            0 <= i < j < specs@.len() ==> (#[trigger] specs@[i]).column_index < (
            #[trigger] specs@[j]).column_index,
    ensures
        r <= specs@.len(),
        forall|i: int| 0 <= i < r ==> (#[trigger] specs@[i]).column_index < column,
        forall|i: int| r <= i < specs@.len() ==> (#[trigger] specs@[i]).column_index >= column,
{
    let mut i: usize = 0;
    while i < specs.len() && specs[i].column_index < column
        invariant
            i <= specs@.len(),
            forall|k: int| 0 <= k < i ==> (#[trigger] specs@[k]).column_index < column,
        decreases specs@.len() - i,
    {
        i = i + 1;
    }
    i
}

proof fn placed_keeps_columns(
    had: Seq<DistinctSpec>,
    now: Seq<DistinctSpec>,
    at: int,
    one: DistinctSpec,
    column: usize,
)
    requires
        0 <= at <= had.len(),
        now == had.insert(at, one) || (at < had.len() && now == had.update(at, one)
            && had[at].column_index == one.column_index),
    ensures
        holds_column(had, column) ==> holds_column(now, column),
        holds_column(now, one.column_index),
{
    assert(now[at] == one);
    if holds_column(had, column) {
        let i = choose|i: int| 0 <= i < had.len() && (#[trigger] had[i]).column_index == column;
        if now == had.insert(at, one) {
            if i < at {
                assert(now[i] == had[i]);
            } else {
                assert(now[i + 1] == had[i]);
            }
        } else {
            assert(now[i].column_index == column);
        }
    }
}

/// Puts a count rule on its column.
fn add_count(specs: &mut Vec<DistinctSpec>, counts: &Vec<CountPlan>, k: usize, Ghost(ratios): Ghost<
    Seq<RatioPlan>,
>)
    requires
        k < counts@.len(),
        distinct_listed(old(specs)@, counts@, k as nat, ratios, 0),
    ensures
        distinct_listed(final(specs)@, counts@, (k + 1) as nat, ratios, 0),
{
    let ghost had = specs@;
    let column: usize = counts[k].column_index;
    let at: usize = place_for(specs, column);
    let one = DistinctSpec {
        column_index: column,
        kernel: counts[k].kernel,
        count_rule: Some(k),
        ratio_rule: None,
    };
    if at < specs.len() && specs[at].column_index == column {
        specs.set(at, one);
    } else {
        specs.insert(at, one);
    }
    proof {
        let now = specs@;
        assert forall|j: int| 0 <= j < k + 1 implies holds_column(
            now,
            (#[trigger] counts@[j]).column_index,
        ) by {
            placed_keeps_columns(had, now, at as int, one, counts@[j].column_index);
        }
        assert forall|i: int|
            #![trigger now[i]]
            0 <= i < now.len() && i != at implies now[i].column_index != column && exists|q: int|
            0 <= q < had.len() && now[i] == #[trigger] had[q] by {
            if now.len() == had.len() || i < at {
                assert(now[i] == had[i]);
                if i > at {
                    assert(had[at as int].column_index < had[i].column_index);
                }
            } else {
                assert(now[i] == had[i - 1]);
            }
        }
    }
}

/// Puts a ratio rule on its column.
#[verifier::rlimit(60)]
#[verifier::spinoff_prover]
fn add_ratio(
    specs: &mut Vec<DistinctSpec>,
    counts: &Vec<CountPlan>,
    ratios: &Vec<RatioPlan>,
    m: usize,
)
    requires
        m < ratios@.len(),
        distinct_listed(old(specs)@, counts@, counts@.len(), ratios@, m as nat),
    ensures
        distinct_listed(final(specs)@, counts@, counts@.len(), ratios@, (m + 1) as nat),
{
    let ghost had = specs@;
    let column: usize = ratios[m].column_index;
    let at: usize = place_for(specs, column);
    let found = at < specs.len() && specs[at].column_index == column;
    let one = if found {
        DistinctSpec { ratio_rule: Some(m), ..specs[at] }
    } else {
        DistinctSpec {
            column_index: column,
            kernel: ratios[m].kernel,
            count_rule: None,
            ratio_rule: Some(m),
        }
    };
    proof {
        assert(counts.len() == counts@.len() && ratios.len() == ratios@.len());
        last_count_fits(counts@, column, counts@.len());
        last_ratio_fits(ratios@, column, m as nat);
        if !found {
            assert(!holds_column(had, column));
            if last_count(counts@, column, counts@.len()) is Some {
                let c = last_count(counts@, column, counts@.len()).unwrap();
                assert(holds_column(had, counts@[c as int].column_index));
            }
            if last_ratio(ratios@, column, m as nat) is Some {
                let c = last_ratio(ratios@, column, m as nat).unwrap();
                assert(holds_column(had, ratios@[c as int].column_index));
            }
        }
    }
    if found {
        specs.set(at, one);
    } else {
        specs.insert(at, one);
    }
    proof {
        let now = specs@;
        assert forall|j: int| 0 <= j < counts@.len() implies holds_column(
            now,
            (#[trigger] counts@[j]).column_index,
        ) by {
            placed_keeps_columns(had, now, at as int, one, counts@[j].column_index);
        }
        assert forall|j: int| 0 <= j < m + 1 implies holds_column(
            now,
            (#[trigger] ratios@[j]).column_index,
        ) by {
            placed_keeps_columns(had, now, at as int, one, ratios@[j].column_index);
        }
        assert forall|i: int|
            #![trigger now[i]]
            0 <= i < now.len() && i != at implies now[i].column_index != column && exists|q: int|
            0 <= q < had.len() && now[i] == #[trigger] had[q] by {
            if now.len() == had.len() || i < at {
                assert(now[i] == had[i]);
                if i > at {
                    assert(had[at as int].column_index < had[i].column_index);
                }
            } else {
                assert(now[i] == had[i - 1]);
            }
        }
        assert(now[at as int] == one);
        assert forall|i: int, j: int| 0 <= i < j < now.len() implies (
        #[trigger] now[i]).column_index < (#[trigger] now[j]).column_index by {
            if now.len() == had.len() {
                assert(now[i].column_index == had[i].column_index);
                assert(now[j].column_index == had[j].column_index);
            }
        }
        assert forall|i: int|
            #![trigger now[i]]
            0 <= i < now.len() implies {
            &&& now[i].ratio_rule == last_ratio(ratios@, now[i].column_index, (m + 1) as nat)
            &&& now[i].kernel == match now[i].count_rule {
                Some(k) => counts@[k as int].kernel,
                None => ratios@[first_ratio(
                    ratios@,
                    now[i].column_index,
                    (m + 1) as nat,
                )].kernel,
            }
        } by {
            if i != at {
                let q = choose|q: int| 0 <= q < had.len() && now[i] == #[trigger] had[q];
                assert(had[q].ratio_rule == last_ratio(ratios@, had[q].column_index, m as nat));
                if now[i].count_rule is None {
                    assert(last_ratio(ratios@, had[q].column_index, m as nat) is Some);
                }
            }
        }
    }
}

/// The columns with a rule on their number of different values.
pub fn distinct_columns(counts: &Vec<CountPlan>, ratios: &Vec<RatioPlan>) -> (r: Vec<DistinctSpec>)
    ensures
        distinct_listed(r@, counts@, counts@.len(), ratios@, ratios@.len()),
{
    let mut specs: Vec<DistinctSpec> = Vec::new();
    let mut k: usize = 0;
    while k < counts.len()
        invariant
            k <= counts@.len(),
            distinct_listed(specs@, counts@, k as nat, ratios@, 0),
        decreases counts@.len() - k,
    {
        add_count(&mut specs, counts, k, Ghost(ratios@));
        k = k + 1;
    }
    let mut m: usize = 0;
    while m < ratios.len()
        invariant
            m <= ratios@.len(),
            distinct_listed(specs@, counts@, counts@.len(), ratios@, m as nat),
        decreases ratios@.len() - m,
    {
        add_ratio(&mut specs, counts, ratios, m);
        m = m + 1;
    }
    specs
}

/// A column whose different values are counted: its rules, its exact state, and whether a
/// null was met.
pub struct DistinctState {
    pub rules: DistinctSpec,
    pub exact: ExactState,
    pub saw_null: bool,
}

/// What the rules over a dataset hold between batches.
pub struct DatasetState {
    pub null_counts: Vec<u64>,
    pub distinct: Vec<DistinctState>,
    pub composites: Vec<ExactState>,
    pub conditional: Vec<ExactState>,
    pub ordering: Vec<Option<Ordered>>,
    pub gaps: Vec<GapState>,
    pub sums: Vec<i128>,
}

/// The runs that a batch made each exact state write.
#[derive(Debug)]
pub struct DatasetRuns {
    pub distinct: Vec<Vec<Vec<u8>>>,
    pub composites: Vec<Vec<Vec<u8>>>,
    pub conditional: Vec<Vec<Vec<u8>>>,
}

/// An exact state at a node of an account.
pub open spec fn exact_at(s: ExactState, account: ResourceAccount) -> bool {
    s.wf() && s.spec_node() < account.nodes().len()
}

/// A new exact state: nothing in it.
pub open spec fn exact_empty(s: ExactState, kind: ValueKind, spills: bool) -> bool {
    &&& s.spec_kind() == kind
    &&& s.spills() == spills
    &&& s.written() == Seq::<Seq<Entry>>::empty()
    &&& s.in_memory() == Seq::<Entry>::empty()
}

/// The memory that an exact state sets aside for samples.
pub open spec fn sample_bytes(account: ResourceAccount) -> int {
    account.spec_limits().max_samples * 16
}

/// Whether so many exact states can be opened below a node, each with a share.
pub open spec fn can_open(account: ResourceAccount, node: int, share: u64, n: nat) -> bool {
    n == 0 || (sample_bytes(account) <= usize::MAX && sample_bytes(account) <= share && room(
        account.nodes(),
        node,
        ResourceKind::Memory,
        0,
        n * sample_bytes(account),
    ))
}

/// The error of an exact state that cannot be opened with so many samples: they have no size at
/// all, or there is no memory for them.
pub open spec fn samples_refused(max_samples: usize, e: ErrorView) -> bool {
    if max_samples * 16 > usize::MAX {
        e == ErrorView::CorruptData("Exact sample size overflowed"@)
    } else {
        e matches ErrorView::ResourceLimit { resource, requested, .. } && resource
            == ResourceKind::Memory.label() && requested == max_samples * 16
    }
}

/// The error of exact states that could not be opened: their samples have no size at all, or
/// there is no room for them.
pub open spec fn not_opened(account: ResourceAccount, e: ErrorView) -> bool {
    samples_refused(account.spec_limits().max_samples, e)
}

/// Opens an exact state at a node of its own below another.
pub(crate) fn open_state(
    kind: ValueKind,
    account: &mut ResourceAccount,
    parent: usize,
    share: u64,
    spills: bool,
    row_count_hint: Option<u64>,
    Ghost(start): Ghost<ResourceAccount>,
    Ghost(opened): Ghost<nat>,
) -> (r: Result<ExactState, ProofFrameError>)
    requires
        old(account).wf(),
        parent < old(account).nodes().len(),
        old(account).spec_limits() == start.spec_limits(),
        can_open(start, parent as int, share, opened),
        forall|n: int| #[trigger]
            room(old(account).nodes(), parent as int, ResourceKind::Memory, 0, n) == room(
                start.nodes(),
                parent as int,
                ResourceKind::Memory,
                0,
                n + opened * sample_bytes(start),
            ),
    ensures
        final(account).wf(),
        final(account).spec_limits() == old(account).spec_limits(),
        final(account).nodes().len() == old(account).nodes().len() + 1,
        r is Ok <==> can_open(start, parent as int, share, opened + 1),
        r matches Err(e) ==> not_opened(start, e@),
        r matches Ok(s) ==> exact_at(s, *final(account)) && exact_empty(s, kind, spills)
            && s.spec_node() == old(account).nodes().len(),
        r is Ok ==> forall|n: int| #[trigger]
            room(final(account).nodes(), parent as int, ResourceKind::Memory, 0, n) == room(
                start.nodes(),
                parent as int,
                ResourceKind::Memory,
                0,
                n + (opened + 1) * sample_bytes(start),
            ),
{
    let limits = account.limits();
    let ghost before = account.nodes();
    let node = account.child(parent, share, limits.max_temp_bytes);
    let ghost between = account.nodes();
    let ghost one = sample_bytes(start);
    proof {
        child_room(before, between, parent as int, ResourceKind::Memory, one);
        assert(between.last() == between[node as int]);
        assert(one + opened * one == (opened + 1) * one) by (nonlinear_arith);
        if opened > 0 {
            assert(opened * one <= (opened + 1) * one) by (nonlinear_arith)
                requires
                    one >= 0,
            ;
        }
    }
    let r = ExactState::new(kind, account, node, spills, row_count_hint);
    proof {
        if r is Ok {
            assert forall|n: int| #[trigger]
                room(account.nodes(), parent as int, ResourceKind::Memory, 0, n) == room(
                    start.nodes(),
                    parent as int,
                    ResourceKind::Memory,
                    0,
                    n + (opened + 1) * one,
                ) by {
                assert(on_path(between, node as int, parent as int)) by {
                    assert(on_path(between, parent as int, parent as int));
                }
                charge_above(
                    between,
                    account.nodes(),
                    node as int,
                    parent as int,
                    ResourceKind::Memory,
                    one,
                    n,
                );
                child_room(before, between, parent as int, ResourceKind::Memory, n + one);
                assert(n + one + opened * one == n + (opened + 1) * one) by (nonlinear_arith);
            }
        }
    }
    r
}

/// Where more exact states can be opened, fewer can.
pub proof fn fewer_open(account: ResourceAccount, node: int, share: u64, n: nat, m: nat)
    requires
        n <= m,
        can_open(account, node, share, m),
    ensures
        can_open(account, node, share, n),
{
    let one = sample_bytes(account);
    assert(n * one <= m * one) by (nonlinear_arith)
        requires
            n <= m,
            one >= 0,
    ;
}

/// Opens so many exact states of composite keys.
pub(crate) fn open_states(
    count: usize,
    account: &mut ResourceAccount,
    parent: usize,
    share: u64,
    spills: bool,
    row_count_hint: Option<u64>,
    Ghost(start): Ghost<ResourceAccount>,
    Ghost(opened): Ghost<nat>,
) -> (r: Result<Vec<ExactState>, ProofFrameError>)
    requires
        old(account).wf(),
        parent < old(account).nodes().len(),
        old(account).spec_limits() == start.spec_limits(),
        can_open(start, parent as int, share, opened),
        forall|n: int| #[trigger]
            room(old(account).nodes(), parent as int, ResourceKind::Memory, 0, n) == room(
                start.nodes(),
                parent as int,
                ResourceKind::Memory,
                0,
                n + opened * sample_bytes(start),
            ),
    ensures
        final(account).wf(),
        final(account).spec_limits() == old(account).spec_limits(),
        final(account).nodes().len() >= old(account).nodes().len(),
        r is Ok <==> can_open(start, parent as int, share, opened + count as nat),
        r matches Err(e) ==> not_opened(start, e@),
        r matches Ok(v) ==> v@.len() == count && forall|i: int|
            #![trigger v@[i]]
            0 <= i < v@.len() ==> exact_at(v@[i], *final(account)) && exact_empty(
                v@[i],
                ValueKind::Bytes,
                spills,
            ),
        r is Ok ==> forall|n: int| #[trigger]
            room(final(account).nodes(), parent as int, ResourceKind::Memory, 0, n) == room(
                start.nodes(),
                parent as int,
                ResourceKind::Memory,
                0,
                n + (opened + count) * sample_bytes(start),
            ),
{
    let mut out: Vec<ExactState> = Vec::new();
    let mut i: usize = 0;
    while i < count
        invariant
            i <= count,
            out@.len() == i,
            account.wf(),
            parent < account.nodes().len(),
            account.spec_limits() == old(account).spec_limits(),
            account.spec_limits() == start.spec_limits(),
            account.nodes().len() >= old(account).nodes().len(),
            can_open(start, parent as int, share, opened + i as nat),
            forall|k: int|
                #![trigger out@[k]]
                0 <= k < out@.len() ==> exact_at(out@[k], *account) && exact_empty(
                    out@[k],
                    ValueKind::Bytes,
                    spills,
                ),
            forall|n: int| #[trigger]
                room(account.nodes(), parent as int, ResourceKind::Memory, 0, n) == room(
                    start.nodes(),
                    parent as int,
                    ResourceKind::Memory,
                    0,
                    n + (opened + i as nat) * sample_bytes(start),
                ),
        decreases count - i,
    {
        match open_state(
            ValueKind::Bytes,
            account,
            parent,
            share,
            spills,
            row_count_hint,
            Ghost(start),
            Ghost(opened + i as nat),
        ) {
            Ok(s) => {
                out.push(s);
                i = i + 1;
            },
            Err(e) => {
                proof {
                    if can_open(start, parent as int, share, opened + count as nat) {
                        fewer_open(
                            start,
                            parent as int,
                            share,
                            opened + i as nat + 1,
                            opened + count as nat,
                        );
                    }
                }
                return Err(e);
            },
        }
    }
    Ok(out)
}

/// The columns that the rules on different values name, one for each rule.
pub open spec fn named_columns(plan: DatasetPlan) -> Seq<usize> {
    plan.distinct_counts@.map_values(|c: CountPlan| c.column_index)
        + plan.distinct_ratios@.map_values(|r: RatioPlan| r.column_index)
}

/// How many columns have rules on their different values.
pub open spec fn counted_columns(plan: DatasetPlan) -> nat {
    named_columns(plan).to_set().len()
}

/// Every column that a rule names is listed once.
proof fn listed_once(plan: DatasetPlan, specs: Seq<DistinctSpec>)
    requires
        plan.distinct_counts@.len() <= usize::MAX,
        plan.distinct_ratios@.len() <= usize::MAX,
        distinct_listed(
            specs,
            plan.distinct_counts@,
            plan.distinct_counts@.len(),
            plan.distinct_ratios@,
            plan.distinct_ratios@.len(),
        ),
    ensures
        specs.len() == counted_columns(plan),
{
    let counts = plan.distinct_counts@;
    let ratios = plan.distinct_ratios@;
    let named = named_columns(plan);
    let listed = Seq::new(specs.len(), |i: int| specs[i].column_index);
    assert(listed.no_duplicates()) by {
        assert forall|i: int, j: int|
            0 <= i < listed.len() && 0 <= j < listed.len() && i != j implies listed[i]
            != listed[j] by {
            if i < j {
                assert(specs[i].column_index < specs[j].column_index);
            } else {
                assert(specs[j].column_index < specs[i].column_index);
            }
        }
    }
    assert forall|c: usize| listed.to_set().contains(c) implies named.to_set().contains(c) by {
        let i = choose|i: int| 0 <= i < listed.len() && listed[i] == c;
        last_count_fits(counts, specs[i].column_index, counts.len());
        last_ratio_fits(ratios, specs[i].column_index, ratios.len());
        match specs[i].count_rule {
            Some(k) => {
                assert(named[k as int] == c);
            },
            None => {
                let k = specs[i].ratio_rule.unwrap();
                assert(named[counts.len() + k] == c);
            },
        }
    }
    assert forall|c: usize| named.to_set().contains(c) implies listed.to_set().contains(c) by {
        let k = choose|k: int| 0 <= k < named.len() && named[k] == c;
        if k < counts.len() {
            assert(holds_column(specs, counts[k].column_index));
        } else {
            assert(holds_column(specs, ratios[k - counts.len()].column_index));
        }
        let i = choose|i: int| 0 <= i < specs.len() && (#[trigger] specs[i]).column_index == c;
        assert(listed[i] == c);
    }
    assert(listed.to_set() =~= named.to_set());
    listed.unique_seq_to_set();
}

/// The number of exact states of a plan.
pub open spec fn exact_count(plan: DatasetPlan, specs: nat) -> nat {
    specs + plan.composite_unique@.len() + plan.conditional_unique@.len()
}

impl DatasetState {
    /// Whether the state has a place for every rule of a plan.
    pub open spec fn matches(&self, plan: DatasetPlan) -> bool {
        &&& self.null_counts@.len() == plan.null_ratios@.len()
        &&& self.composites@.len() == plan.composite_unique@.len()
        &&& self.conditional@.len() == plan.conditional_unique@.len()
        &&& self.ordering@.len() == plan.monotonicity@.len()
        &&& self.gaps@.len() == plan.gap_detection@.len()
        &&& self.sums@.len() == plan.sums@.len()
        &&& distinct_listed(
            self.specs(),
            plan.distinct_counts@,
            plan.distinct_counts@.len(),
            plan.distinct_ratios@,
            plan.distinct_ratios@.len(),
        )
    }

    /// The columns whose different values are counted.
    pub open spec fn specs(&self) -> Seq<DistinctSpec> {
        Seq::new(self.distinct@.len(), |i: int| self.distinct@[i].rules)
    }

    /// Whether every exact state is sound and stands at a node of the account.
    pub open spec fn wf(&self, account: ResourceAccount) -> bool {
        &&& forall|i: int|
            #![trigger self.distinct@[i]]
            0 <= i < self.distinct@.len() ==> exact_at(self.distinct@[i].exact, account)
                && self.distinct@[i].exact.spec_kind() == key_kind(self.distinct@[i].rules.kernel)
        &&& forall|i: int|
            #![trigger self.composites@[i]]
            0 <= i < self.composites@.len() ==> exact_at(self.composites@[i], account)
                && self.composites@[i].spec_kind() == ValueKind::Bytes
        &&& forall|i: int|
            #![trigger self.conditional@[i]]
            0 <= i < self.conditional@.len() ==> exact_at(self.conditional@[i], account)
                && self.conditional@[i].spec_kind() == ValueKind::Bytes
    }

    /// Whether nothing has been seen yet.
    pub open spec fn fresh(&self, spills: bool) -> bool {
        &&& forall|i: int|
            0 <= i < self.null_counts@.len() ==> #[trigger] self.null_counts@[i] == 0
        &&& forall|i: int|
            #![trigger self.distinct@[i]]
            0 <= i < self.distinct@.len() ==> !self.distinct@[i].saw_null && exact_empty(
                self.distinct@[i].exact,
                key_kind(self.distinct@[i].rules.kernel),
                spills,
            )
        &&& forall|i: int|
            #![trigger self.composites@[i]]
            0 <= i < self.composites@.len() ==> exact_empty(
                self.composites@[i],
                ValueKind::Bytes,
                spills,
            )
        &&& forall|i: int|
            #![trigger self.conditional@[i]]
            0 <= i < self.conditional@.len() ==> exact_empty(
                self.conditional@[i],
                ValueKind::Bytes,
                spills,
            )
        &&& forall|i: int|
            #![trigger self.ordering@[i]]
            0 <= i < self.ordering@.len() ==> opt_place(self.ordering@[i]) is None
        &&& forall|i: int|
            #![trigger self.gaps@[i]]
            0 <= i < self.gaps@.len() ==> self.gaps@[i].so_far() == no_steps()
        &&& forall|i: int| 0 <= i < self.sums@.len() ==> #[trigger] self.sums@[i] == 0
    }

    /// Rules that have seen nothing. Every exact state gets a node of its own, with the
    /// whole memory limit as its share: the limit holds for all of them together at the
    /// node above.
    pub fn new(
        plan: &DatasetPlan,
        account: &mut ResourceAccount,
        node: usize,
        row_count_hint: Option<u64>,
        spills: bool,
    ) -> (r: Result<Self, ProofFrameError>)
        requires
            old(account).wf(),
            node < old(account).nodes().len(),
        ensures
            final(account).wf(),
            final(account).spec_limits() == old(account).spec_limits(),
            final(account).nodes().len() >= old(account).nodes().len(),
            r matches Ok(s) ==> s.matches(*plan) && s.wf(*final(account)) && s.fresh(spills)
                && can_open(
                *old(account),
                node as int,
                old(account).spec_limits().max_memory_bytes,
                exact_count(*plan, s.distinct@.len()),
            ) && s.distinct@.len() == counted_columns(*plan),
            r is Ok <==> can_open(
                *old(account),
                node as int,
                old(account).spec_limits().max_memory_bytes,
                exact_count(*plan, counted_columns(*plan)),
            ),
            r is Ok ==> forall|n: int| #[trigger]
                room(final(account).nodes(), node as int, ResourceKind::Memory, 0, n) == room(
                    old(account).nodes(),
                    node as int,
                    ResourceKind::Memory,
                    0,
                    n + exact_count(*plan, counted_columns(*plan)) * sample_bytes(*old(account)),
                ),
            r matches Err(e) ==> not_opened(*old(account), e@),
            can_open(
                *old(account),
                node as int,
                old(account).spec_limits().max_memory_bytes,
                plan.distinct_counts@.len() + plan.distinct_ratios@.len()
                    + plan.composite_unique@.len() + plan.conditional_unique@.len(),
            ) ==> r is Ok,
    {
        let ghost start = *account;
        let share: u64 = account.limits().max_memory_bytes;
        let specs = distinct_columns(&plan.distinct_counts, &plan.distinct_ratios);
        let ghost upper = plan.distinct_counts@.len() + plan.distinct_ratios@.len()
            + plan.composite_unique@.len() + plan.conditional_unique@.len();
        proof {
            assert(plan.distinct_counts.len() == plan.distinct_counts@.len());
            assert(plan.distinct_ratios.len() == plan.distinct_ratios@.len());
            listed_once(*plan, specs@);
            few_columns(
                specs@,
                plan.distinct_counts@,
                plan.distinct_counts@.len(),
                plan.distinct_ratios@,
                plan.distinct_ratios@.len(),
            );
            assert(0 * sample_bytes(start) == 0) by (nonlinear_arith);
        }
        let mut distinct: Vec<DistinctState> = Vec::new();
        let mut i: usize = 0;
        while i < specs.len()
            invariant
                i <= specs@.len(),
                specs@.len() <= plan.distinct_counts@.len() + plan.distinct_ratios@.len(),
                specs@.len() == counted_columns(*plan),
                upper == plan.distinct_counts@.len() + plan.distinct_ratios@.len()
                    + plan.composite_unique@.len() + plan.conditional_unique@.len(),
                distinct@.len() == i,
                account.wf(),
                node < account.nodes().len(),
                start == *old(account),
                share == start.spec_limits().max_memory_bytes,
                account.spec_limits() == start.spec_limits(),
                account.nodes().len() >= start.nodes().len(),
                can_open(start, node as int, share, i as nat),
                forall|k: int|
                    #![trigger distinct@[k]]
                    0 <= k < distinct@.len() ==> {
                        &&& distinct@[k].rules == specs@[k]
                        &&& !distinct@[k].saw_null
                        &&& exact_at(distinct@[k].exact, *account)
                        &&& exact_empty(
                            distinct@[k].exact,
                            key_kind(distinct@[k].rules.kernel),
                            spills,
                        )
                    },
                forall|n: int| #[trigger]
                    room(account.nodes(), node as int, ResourceKind::Memory, 0, n) == room(
                        start.nodes(),
                        node as int,
                        ResourceKind::Memory,
                        0,
                        n + i as nat * sample_bytes(start),
                    ),
            decreases specs@.len() - i,
        {
            let rules = specs[i];
            match open_state(
                exact_kind(rules.kernel),
                account,
                node,
                share,
                spills,
                row_count_hint,
                Ghost(start),
                Ghost(i as nat),
            ) {
                Ok(exact) => {
                    distinct.push(DistinctState { rules, exact, saw_null: false });
                    i = i + 1;
                },
                Err(e) => {
                    proof {
                        let all = exact_count(*plan, specs@.len());
                        if can_open(start, node as int, share, upper) {
                            fewer_open(start, node as int, share, (i + 1) as nat, upper);
                        }
                        if can_open(start, node as int, share, all) {
                            fewer_open(start, node as int, share, (i + 1) as nat, all);
                        }
                    }
                    return Err(e);
                },
            }
        }
        let composites = match open_states(
            plan.composite_unique.len(),
            account,
            node,
            share,
            spills,
            row_count_hint,
            Ghost(start),
            Ghost(specs@.len()),
        ) {
            Ok(v) => v,
            Err(e) => {
                proof {
                    if can_open(start, node as int, share, upper) {
                        fewer_open(
                            start,
                            node as int,
                            share,
                            specs@.len() + plan.composite_unique@.len(),
                            upper,
                        );
                    }
                    let all = exact_count(*plan, specs@.len());
                    if can_open(start, node as int, share, all) {
                        fewer_open(
                            start,
                            node as int,
                            share,
                            specs@.len() + plan.composite_unique@.len(),
                            all,
                        );
                    }
                }
                return Err(e);
            },
        };
        let conditional = match open_states(
            plan.conditional_unique.len(),
            account,
            node,
            share,
            spills,
            row_count_hint,
            Ghost(start),
            Ghost(specs@.len() + plan.composite_unique@.len()),
        ) {
            Ok(v) => v,
            Err(e) => {
                proof {
                    if can_open(start, node as int, share, upper) {
                        fewer_open(
                            start,
                            node as int,
                            share,
                            specs@.len() + plan.composite_unique@.len()
                                + plan.conditional_unique@.len(),
                            upper,
                        );
                    }
                }
                return Err(e);
            },
        };
        let null_counts = zeros(plan.null_ratios.len());
        let sums = zero_sums(plan.sums.len());
        let ordering = no_values(plan.monotonicity.len());
        let gaps = no_gaps(plan.gap_detection.len());
        let s = DatasetState { null_counts, distinct, composites, conditional, ordering, gaps, sums };
        assert(s.specs() =~= specs@);
        Ok(s)
    }
}

proof fn few_columns(
    specs: Seq<DistinctSpec>,
    counts: Seq<CountPlan>,
    n: nat,
    ratios: Seq<RatioPlan>,
    m: nat,
)
    requires
        n == counts.len() <= usize::MAX,
        m == ratios.len() <= usize::MAX,
        distinct_listed(specs, counts, n, ratios, m),
    ensures
        specs.len() <= n + m,
{
    let rule_of = Seq::new(
        specs.len(),
        |i: int|
            match specs[i].count_rule {
                Some(k) => k as int,
                None => n + specs[i].ratio_rule.unwrap() as int,
            },
    );
    assert forall|i: int| 0 <= i < rule_of.len() implies 0 <= #[trigger] rule_of[i] < n + m by {
        last_count_fits(counts, specs[i].column_index, n);
        last_ratio_fits(ratios, specs[i].column_index, m);
    }
    assert(rule_of.no_duplicates()) by {
        assert forall|i: int, j: int|
            0 <= i < rule_of.len() && 0 <= j < rule_of.len() && i != j implies rule_of[i]
            != rule_of[j] by {
            last_count_fits(counts, specs[i].column_index, n);
            last_ratio_fits(ratios, specs[i].column_index, m);
            last_count_fits(counts, specs[j].column_index, n);
            last_ratio_fits(ratios, specs[j].column_index, m);
            if i < j {
                assert(specs[i].column_index < specs[j].column_index);
            } else {
                assert(specs[j].column_index < specs[i].column_index);
            }
        }
    }
    rule_of.unique_seq_to_set();
    let all = vstd::set_lib::set_int_range(0, (n + m) as int);
    vstd::set_lib::lemma_int_range(0, (n + m) as int);
    assert(rule_of.to_set().subset_of(all)) by {
        assert forall|x: int| rule_of.to_set().contains(x) implies all.contains(x) by {
            let i = choose|i: int| 0 <= i < rule_of.len() && rule_of[i] == x;
            assert(0 <= rule_of[i] < n + m);
        }
    }
    vstd::set_lib::lemma_len_subset(rule_of.to_set(), all);
}

fn zeros(n: usize) -> (r: Vec<u64>)
    ensures
        r@.len() == n,
        forall|i: int| 0 <= i < r@.len() ==> #[trigger] r@[i] == 0,
{
    let mut out: Vec<u64> = Vec::new();
    while out.len() < n
        invariant
            out@.len() <= n,
            forall|i: int| 0 <= i < out@.len() ==> #[trigger] out@[i] == 0,
        decreases n - out@.len(),
    {
        out.push(0);
    }
    out
}

fn zero_sums(n: usize) -> (r: Vec<i128>)
    ensures
        r@.len() == n,
        forall|i: int| 0 <= i < r@.len() ==> #[trigger] r@[i] == 0,
{
    let mut out: Vec<i128> = Vec::new();
    while out.len() < n
        invariant
            out@.len() <= n,
            forall|i: int| 0 <= i < out@.len() ==> #[trigger] out@[i] == 0,
        decreases n - out@.len(),
    {
        out.push(0);
    }
    out
}

fn no_values(n: usize) -> (r: Vec<Option<Ordered>>)
    ensures
        r@.len() == n,
        forall|i: int| 0 <= i < r@.len() ==> #[trigger] r@[i] is None,
{
    let mut out: Vec<Option<Ordered>> = Vec::new();
    while out.len() < n
        invariant
            out@.len() <= n,
            forall|i: int| 0 <= i < out@.len() ==> #[trigger] out@[i] is None,
        decreases n - out@.len(),
    {
        out.push(None);
    }
    out
}

fn no_gaps(n: usize) -> (r: Vec<GapState>)
    ensures
        r@.len() == n,
        forall|i: int| 0 <= i < r@.len() ==> (#[trigger] r@[i]).so_far() == no_steps(),
{
    let mut out: Vec<GapState> = Vec::new();
    while out.len() < n
        invariant
            out@.len() <= n,
            forall|i: int| 0 <= i < out@.len() ==> (#[trigger] out@[i]).so_far() == no_steps(),
        decreases n - out@.len(),
    {
        out.push(GapState::new());
    }
    out
}

/// Lists one behind the other: the first `n` of them.
pub open spec fn all_of(lists: Seq<Seq<FindingView>>, n: nat) -> Seq<FindingView>
    decreases n,
{
    if n == 0 {
        Seq::empty()
    } else {
        all_of(lists, (n - 1) as nat) + lists[n - 1]
    }
}

/// The first error among the first `n`.
pub open spec fn earliest(errors: Seq<Option<ErrorView>>, n: nat) -> Option<ErrorView>
    decreases n,
{
    if n == 0 {
        None
    } else {
        match earliest(errors, (n - 1) as nat) {
            Some(e) => Some(e),
            None => errors[n - 1],
        }
    }
}

/// An error found stays the first.
pub proof fn earliest_stays(errors: Seq<Option<ErrorView>>, i: nat, n: nat)
    requires
        i <= n,
        earliest(errors, i) is Some,
    ensures
        earliest(errors, n) == earliest(errors, i),
    decreases n,
{
    if i < n {
        earliest_stays(errors, i, (n - 1) as nat);
    }
}

proof fn earliest_at(errors: Seq<Option<ErrorView>>, i: int, n: nat)
    requires
        0 <= i < n,
        earliest(errors, n) is None,
    ensures
        errors[i] is None,
    decreases n,
{
    if i < n - 1 {
        earliest_at(errors, i, (n - 1) as nat);
    }
}

/// The number of nulls among the first `n` cells.
pub open spec fn nulls_in(cells: Seq<Cell>, n: nat) -> nat
    decreases n,
{
    if n == 0 {
        0
    } else {
        nulls_in(cells, (n - 1) as nat) + if cells[n - 1] is Null {
            1nat
        } else {
            0nat
        }
    }
}

/// The number of nulls in a column.
pub fn null_count(cells: &Vec<Cell>) -> (r: usize)
    ensures
        r == nulls_in(cells@, cells@.len()),
        r <= cells@.len(),
{
    let mut n: usize = 0;
    let mut i: usize = 0;
    while i < cells.len()
        invariant
            i <= cells@.len(),
            n <= i,
            n == nulls_in(cells@, i as nat),
        decreases cells@.len() - i,
    {
        match &cells[i] {
            Cell::Null => {
                n = n + 1;
            },
            _ => {},
        }
        i = i + 1;
    }
    n
}

/// A batch beside its schema and the place of its first row in the dataset.
pub open spec fn batch_fits(schema: Schema, batch: Batch, row_offset: int) -> bool {
    &&& batch.wf()
    &&& schema.fields@.len() == batch.columns@.len()
    &&& row_offset + batch.rows <= u64::MAX
}

/// Whether every column of a plan stands in a schema of so many columns.
pub open spec fn plan_fits(plan: DatasetPlan, columns: int) -> bool {
    &&& forall|i: int|
        #![trigger plan.null_ratios@[i]]
        0 <= i < plan.null_ratios@.len() ==> plan.null_ratios@[i].column_index < columns
    &&& forall|i: int|
        #![trigger plan.distinct_counts@[i]]
        0 <= i < plan.distinct_counts@.len() ==> plan.distinct_counts@[i].column_index < columns
    &&& forall|i: int|
        #![trigger plan.distinct_ratios@[i]]
        0 <= i < plan.distinct_ratios@.len() ==> plan.distinct_ratios@[i].column_index < columns
    &&& forall|i: int|
        #![trigger plan.monotonicity@[i]]
        0 <= i < plan.monotonicity@.len() ==> plan.monotonicity@[i].column_index < columns
    &&& forall|i: int|
        #![trigger plan.gap_detection@[i]]
        0 <= i < plan.gap_detection@.len() ==> plan.gap_detection@[i].column_index < columns
    &&& forall|i: int|
        #![trigger plan.sums@[i]]
        0 <= i < plan.sums@.len() ==> plan.sums@[i].column_index < columns
    &&& forall|i: int|
        #![trigger plan.mutually_exclusive@[i]]
        0 <= i < plan.mutually_exclusive@.len() ==> exclusive_in_range(
            plan.mutually_exclusive@[i],
            columns,
        )
    &&& forall|i: int|
        #![trigger plan.composite_unique@[i]]
        0 <= i < plan.composite_unique@.len() ==> forall|j: int|
            0 <= j < plan.composite_unique@[i].columns@.len() ==> (
            #[trigger] plan.composite_unique@[i].columns@[j]) < columns
    &&& forall|i: int|
        #![trigger plan.conditional_unique@[i]]
        0 <= i < plan.conditional_unique@.len() ==> in_range(
            plan.conditional_unique@[i].predicate@,
            columns,
        ) && forall|j: int|
            0 <= j < plan.conditional_unique@[i].columns@.len() ==> (
            #[trigger] plan.conditional_unique@[i].columns@[j]) < columns
}

/// The trail of an ordering rule through a batch.
pub open spec fn order_trail(
    rules: Seq<MonotonicityPlan>,
    schema: Schema,
    batch: Batch,
    row_offset: int,
    last: Seq<Option<Ordered>>,
    i: int,
) -> Trail {
    trail(
        rules[i],
        schema.fields@[rules[i].column_index as int].type_text@,
        batch.columns@[rules[i].column_index as int]@,
        row_offset,
        opt_place(last[i]),
        batch.rows as nat,
    )
}

/// The findings of each ordering rule.
pub open spec fn order_findings(
    rules: Seq<MonotonicityPlan>,
    schema: Schema,
    batch: Batch,
    row_offset: int,
    last: Seq<Option<Ordered>>,
) -> Seq<Seq<FindingView>> {
    Seq::new(
        rules.len(),
        |i: int| order_trail(rules, schema, batch, row_offset, last, i).findings,
    )
}

/// The error of each ordering rule.
pub open spec fn order_errors(
    rules: Seq<MonotonicityPlan>,
    schema: Schema,
    batch: Batch,
    row_offset: int,
    last: Seq<Option<Ordered>>,
) -> Seq<Option<ErrorView>> {
    Seq::new(
        rules.len(),
        |i: int| order_trail(rules, schema, batch, row_offset, last, i).error,
    )
}

/// Applies the ordering rules to a batch.
fn update_ordering(
    rules: &Vec<MonotonicityPlan>,
    schema: &Schema,
    batch: &Batch,
    row_offset: u64,
    last: Vec<Option<Ordered>>,
    validation: &mut ValidationState,
) -> (r: Result<Vec<Option<Ordered>>, ProofFrameError>)
    requires
        old(validation).wf(),
        batch_fits(*schema, *batch, row_offset as int),
        last@.len() == rules@.len(),
        forall|i: int|
            #![trigger rules@[i]]
            0 <= i < rules@.len() ==> rules@[i].column_index < batch.columns@.len(),
    ensures
        final(validation).wf(),
        final(validation).offered() == old(validation).offered(),
        match earliest(
            order_errors(rules@, *schema, *batch, row_offset as int, last@),
            rules@.len(),
        ) {
            Some(e) => r matches Err(x) && x@ == e,
            None => {
                &&& r matches Ok(v) && v@.len() == rules@.len() && forall|i: int|
                    #![trigger v@[i]]
                    0 <= i < v@.len() ==> opt_place(v@[i]) == order_trail(
                        rules@,
                        *schema,
                        *batch,
                        row_offset as int,
                        last@,
                        i,
                    ).last
                &&& final(validation)@ == recorded_all(
                    old(validation)@,
                    all_of(
                        order_findings(rules@, *schema, *batch, row_offset as int, last@),
                        rules@.len(),
                    ),
                )
            },
        },
{
    let ghost given = last@;
    let ghost errors = order_errors(rules@, *schema, *batch, row_offset as int, given);
    let ghost lists = order_findings(rules@, *schema, *batch, row_offset as int, given);
    let mut rest = last;
    let mut out: Vec<Option<Ordered>> = Vec::new();
    let mut i: usize = 0;
    while i < rules.len()
        invariant
            i <= rules@.len(),
            out@.len() == i,
            rest@.len() == rules@.len(),
            given == last@,
            given.len() == rules@.len(),
            errors == order_errors(rules@, *schema, *batch, row_offset as int, given),
            lists == order_findings(rules@, *schema, *batch, row_offset as int, given),
            forall|k: int| i <= k < rest@.len() ==> #[trigger] rest@[k] == given[k],
            validation.wf(),
            validation.offered() == old(validation).offered(),
            batch_fits(*schema, *batch, row_offset as int),
            forall|k: int|
                #![trigger rules@[k]]
                0 <= k < rules@.len() ==> rules@[k].column_index < batch.columns@.len(),
            earliest(errors, i as nat) is None,
            validation@ == recorded_all(old(validation)@, all_of(lists, i as nat)),
            forall|k: int|
                #![trigger out@[k]]
                0 <= k < out@.len() ==> opt_place(out@[k]) == order_trail(
                    rules@,
                    *schema,
                    *batch,
                    row_offset as int,
                    given,
                    k,
                ).last,
        decreases rules@.len() - i,
    {
        let rule = &rules[i];
        let mut previous: Option<Ordered> = None;
        core::mem::swap(&mut previous, &mut rest[i]);
        let cells = &batch.columns[rule.column_index];
        let ghost so_far = validation@;
        match scan_order(
            rule,
            schema.fields[rule.column_index].type_text.as_str(),
            cells,
            row_offset,
            previous,
            validation,
        ) {
            Ok(v) => {
                proof {
                    recorded_in_parts(
                        old(validation)@,
                        all_of(lists, i as nat),
                        lists[i as int],
                    );
                }
                out.push(v);
            },
            Err(e) => {
                proof {
                    assert(errors[i as int] == Some(e@));
                    assert(earliest(errors, (i + 1) as nat) == Some(e@));
                    earliest_stays(errors, (i + 1) as nat, rules@.len());
                }
                return Err(e);
            },
        }
        i = i + 1;
    }
    Ok(out)
}

/// The steps of a step rule through a batch.
pub open spec fn gap_steps(
    rules: Seq<GapDetectionPlan>,
    schema: Schema,
    batch: Batch,
    long: Seq<Vec<bool>>,
    row_offset: int,
    states: Seq<GapState>,
    i: int,
) -> Steps {
    steps(
        states[i].so_far(),
        rules[i],
        schema.fields@[rules[i].column_index as int].type_text@,
        batch.columns@[rules[i].column_index as int]@,
        long[i]@,
        row_offset,
        batch.rows as nat,
    )
}

/// The findings of each step rule.
pub open spec fn gap_findings(
    rules: Seq<GapDetectionPlan>,
    schema: Schema,
    batch: Batch,
    long: Seq<Vec<bool>>,
    row_offset: int,
    states: Seq<GapState>,
) -> Seq<Seq<FindingView>> {
    Seq::new(
        rules.len(),
        |i: int| gap_steps(rules, schema, batch, long, row_offset, states, i).findings,
    )
}

/// The error of each step rule.
pub open spec fn gap_errors(
    rules: Seq<GapDetectionPlan>,
    schema: Schema,
    batch: Batch,
    long: Seq<Vec<bool>>,
    row_offset: int,
    states: Seq<GapState>,
) -> Seq<Option<ErrorView>> {
    Seq::new(
        rules.len(),
        |i: int| gap_steps(rules, schema, batch, long, row_offset, states, i).error,
    )
}

/// Applies the step rules to a batch.
fn update_gaps(
    rules: &Vec<GapDetectionPlan>,
    schema: &Schema,
    batch: &Batch,
    long: &Vec<Vec<bool>>,
    row_offset: u64,
    states: Vec<GapState>,
    validation: &mut ValidationState,
) -> (r: Result<Vec<GapState>, ProofFrameError>)
    requires
        old(validation).wf(),
        batch_fits(*schema, *batch, row_offset as int),
        states@.len() == rules@.len(),
        long@.len() == rules@.len(),
        forall|i: int| 0 <= i < long@.len() ==> (#[trigger] long@[i])@.len() == batch.rows,
        forall|i: int|
            #![trigger rules@[i]]
            0 <= i < rules@.len() ==> rules@[i].column_index < batch.columns@.len(),
    ensures
        final(validation).wf(),
        final(validation).offered() == old(validation).offered(),
        match earliest(
            gap_errors(rules@, *schema, *batch, long@, row_offset as int, states@),
            rules@.len(),
        ) {
            Some(e) => r matches Err(x) && x@ == e,
            None => {
                &&& r matches Ok(v) && v@.len() == rules@.len() && forall|i: int|
                    #![trigger v@[i]]
                    0 <= i < v@.len() ==> v@[i].so_far() == (Steps {
                        findings: Seq::empty(),
                        ..gap_steps(
                            rules@,
                            *schema,
                            *batch,
                            long@,
                            row_offset as int,
                            states@,
                            i,
                        )
                    })
                &&& final(validation)@ == recorded_all(
                    old(validation)@,
                    all_of(
                        gap_findings(rules@, *schema, *batch, long@, row_offset as int, states@),
                        rules@.len(),
                    ),
                )
            },
        },
{
    let ghost given = states@;
    let ghost errors = gap_errors(rules@, *schema, *batch, long@, row_offset as int, given);
    let ghost lists = gap_findings(rules@, *schema, *batch, long@, row_offset as int, given);
    let mut rest = states;
    let mut out: Vec<GapState> = Vec::new();
    let mut i: usize = 0;
    while i < rules.len()
        invariant
            i <= rules@.len(),
            out@.len() == i,
            rest@.len() == rules@.len(),
            given == states@,
            given.len() == rules@.len(),
            long@.len() == rules@.len(),
            forall|k: int| 0 <= k < long@.len() ==> (#[trigger] long@[k])@.len() == batch.rows,
            errors == gap_errors(rules@, *schema, *batch, long@, row_offset as int, given),
            lists == gap_findings(rules@, *schema, *batch, long@, row_offset as int, given),
            forall|k: int| i <= k < rest@.len() ==> #[trigger] rest@[k] == given[k],
            validation.wf(),
            validation.offered() == old(validation).offered(),
            batch_fits(*schema, *batch, row_offset as int),
            forall|k: int|
                #![trigger rules@[k]]
                0 <= k < rules@.len() ==> rules@[k].column_index < batch.columns@.len(),
            earliest(errors, i as nat) is None,
            validation@ == recorded_all(old(validation)@, all_of(lists, i as nat)),
            forall|k: int|
                #![trigger out@[k]]
                0 <= k < out@.len() ==> out@[k].so_far() == (Steps {
                    findings: Seq::empty(),
                    ..gap_steps(rules@, *schema, *batch, long@, row_offset as int, given, k)
                }),
        decreases rules@.len() - i,
    {
        let rule = &rules[i];
        let mut state = GapState::new();
        core::mem::swap(&mut state, &mut rest[i]);
        let cells = &batch.columns[rule.column_index];
        match scan_gaps(
            rule,
            schema.fields[rule.column_index].type_text.as_str(),
            cells,
            &long[i],
            row_offset,
            state,
            validation,
        ) {
            Ok(v) => {
                proof {
                    recorded_in_parts(
                        old(validation)@,
                        all_of(lists, i as nat),
                        lists[i as int],
                    );
                }
                out.push(v);
            },
            Err(e) => {
                proof {
                    assert(errors[i as int] == Some(e@));
                    assert(earliest(errors, (i + 1) as nat) == Some(e@));
                    earliest_stays(errors, (i + 1) as nat, rules@.len());
                }
                return Err(e);
            },
        }
        i = i + 1;
    }
    Ok(out)
}

/// Whether a total stays in the integers of 128 bits all through a column.
pub open spec fn total_stays(start: int, cells: Seq<Cell>) -> bool {
    forall|k: nat|
        k <= cells.len() ==> i128::MIN <= start + #[trigger] sum_of(cells, k) <= i128::MAX
}

/// The error of each total rule: only totals of integers are held here.
pub open spec fn sum_errors(rules: Seq<SumPlan>, batch: Batch, sums: Seq<i128>) -> Seq<
    Option<ErrorView>,
> {
    Seq::new(
        rules.len(),
        |i: int|
            if rules[i].bounds is Integer && !total_stays(
                sums[i] as int,
                batch.columns@[rules[i].column_index as int]@,
            ) {
                Some(ErrorView::CorruptData("Column total left the 128-bit integer range"@))
            } else {
                None
            },
    )
}

/// The total of a rule after a batch.
pub open spec fn sum_after(rules: Seq<SumPlan>, batch: Batch, sums: Seq<i128>, i: int) -> int {
    if rules[i].bounds is Integer {
        sums[i] + sum_of(
            batch.columns@[rules[i].column_index as int]@,
            batch.columns@[rules[i].column_index as int]@.len(),
        )
    } else {
        sums[i] as int
    }
}

/// Applies the total rules to a batch.
fn update_sums(rules: &Vec<SumPlan>, batch: &Batch, sums: &Vec<i128>) -> (r: Result<
    Vec<i128>,
    ProofFrameError,
>)
    requires
        batch.wf(),
        sums@.len() == rules@.len(),
        forall|i: int|
            #![trigger rules@[i]]
            0 <= i < rules@.len() ==> rules@[i].column_index < batch.columns@.len(),
    ensures
        match earliest(sum_errors(rules@, *batch, sums@), rules@.len()) {
            Some(e) => r matches Err(x) && x@ == e,
            None => r matches Ok(v) && v@.len() == rules@.len() && forall|i: int|
                #![trigger v@[i]]
                0 <= i < v@.len() ==> v@[i] == sum_after(rules@, *batch, sums@, i),
        },
{
    let ghost errors = sum_errors(rules@, *batch, sums@);
    let mut out: Vec<i128> = Vec::new();
    let mut i: usize = 0;
    while i < rules.len()
        invariant
            i <= rules@.len(),
            out@.len() == i,
            batch.wf(),
            sums@.len() == rules@.len(),
            errors == sum_errors(rules@, *batch, sums@),
            earliest(errors, i as nat) is None,
            forall|k: int|
                #![trigger rules@[k]]
                0 <= k < rules@.len() ==> rules@[k].column_index < batch.columns@.len(),
            forall|k: int|
                #![trigger out@[k]]
                0 <= k < out@.len() ==> out@[k] == sum_after(rules@, *batch, sums@, k),
        decreases rules@.len() - i,
    {
        let rule = &rules[i];
        let cells = &batch.columns[rule.column_index];
        let integer = match rule.bounds {
            SumBounds::Integer { .. } => true,
            SumBounds::Float { .. } => false,
        };
        if integer {
            match accumulate(sums[i], cells) {
                Ok(t) => {
                    assert(total_stays(sums@[i as int] as int, cells@));
                    out.push(t);
                },
                Err(e) => {
                    proof {
                        assert(!total_stays(sums@[i as int] as int, cells@));
                        assert(errors[i as int] == Some(e@));
                        assert(earliest(errors, (i + 1) as nat) == Some(e@));
                        earliest_stays(errors, (i + 1) as nat, rules@.len());
                    }
                    return Err(e);
                },
            }
        } else {
            out.push(sums[i]);
        }
        i = i + 1;
    }
    Ok(out)
}

/// The findings of each exclusivity rule.
pub open spec fn exclusive_lists(
    rules: Seq<MutuallyExclusivePlan>,
    batch: Batch,
    row_offset: int,
) -> Seq<Seq<FindingView>> {
    Seq::new(
        rules.len(),
        |i: int| exclusive_findings(rules[i], batch.columns@, row_offset, batch.rows as nat),
    )
}

/// Applies the exclusivity rules to a batch.
fn update_exclusive(
    rules: &Vec<MutuallyExclusivePlan>,
    batch: &Batch,
    row_offset: u64,
    validation: &mut ValidationState,
)
    requires
        old(validation).wf(),
        batch.wf(),
        row_offset + batch.rows <= u64::MAX,
        forall|i: int|
            #![trigger rules@[i]]
            0 <= i < rules@.len() ==> exclusive_in_range(
                rules@[i],
                batch.columns@.len() as int,
            ),
    ensures
        final(validation).wf(),
        final(validation).offered() == old(validation).offered(),
        final(validation)@ == recorded_all(
            old(validation)@,
            all_of(exclusive_lists(rules@, *batch, row_offset as int), rules@.len()),
        ),
{
    let ghost lists = exclusive_lists(rules@, *batch, row_offset as int);
    let mut i: usize = 0;
    while i < rules.len()
        invariant
            i <= rules@.len(),
            lists == exclusive_lists(rules@, *batch, row_offset as int),
            validation.wf(),
            validation.offered() == old(validation).offered(),
            batch.wf(),
            row_offset + batch.rows <= u64::MAX,
            forall|k: int|
                #![trigger rules@[k]]
                0 <= k < rules@.len() ==> exclusive_in_range(
                    rules@[k],
                    batch.columns@.len() as int,
                ),
            validation@ == recorded_all(old(validation)@, all_of(lists, i as nat)),
        decreases rules@.len() - i,
    {
        scan_exclusive(&rules[i], batch, row_offset, validation);
        proof {
            recorded_in_parts(old(validation)@, all_of(lists, i as nat), lists[i as int]);
        }
        i = i + 1;
    }
}

/// The nulls of each rule after a batch.
pub open spec fn nulls_after(rules: Seq<RatioPlan>, batch: Batch, counts: Seq<u64>, i: int) -> nat {
    capped(
        counts[i] as nat + nulls_in(
            batch.columns@[rules[i].column_index as int]@,
            batch.columns@[rules[i].column_index as int]@.len(),
        ),
    )
}

/// Counts the nulls of a batch for the null-ratio rules.
fn update_nulls(rules: &Vec<RatioPlan>, batch: &Batch, counts: &Vec<u64>) -> (r: Vec<u64>)
    requires
        batch.wf(),
        counts@.len() == rules@.len(),
        forall|i: int|
            #![trigger rules@[i]]
            0 <= i < rules@.len() ==> rules@[i].column_index < batch.columns@.len(),
    ensures
        r@.len() == rules@.len(),
        forall|i: int|
            #![trigger r@[i]]
            0 <= i < r@.len() ==> r@[i] == nulls_after(rules@, *batch, counts@, i),
{
    let mut out: Vec<u64> = Vec::new();
    let mut i: usize = 0;
    while i < rules.len()
        invariant
            i <= rules@.len(),
            out@.len() == i,
            batch.wf(),
            counts@.len() == rules@.len(),
            forall|k: int|
                #![trigger rules@[k]]
                0 <= k < rules@.len() ==> rules@[k].column_index < batch.columns@.len(),
            forall|k: int|
                #![trigger out@[k]]
                0 <= k < out@.len() ==> out@[k] == nulls_after(rules@, *batch, counts@, k),
        decreases rules@.len() - i,
    {
        let n: usize = null_count(&batch.columns[rules[i].column_index]);
        out.push(counts[i].saturating_add(n as u64));
        i = i + 1;
    }
    out
}

/// What a counted column feeds to its exact state.
pub open spec fn distinct_feed(
    spec_of: DistinctSpec,
    schema: Schema,
    batch: Batch,
    row_offset: int,
) -> Fed {
    fed_column(
        batch.columns@[spec_of.column_index as int]@,
        schema.fields@[spec_of.column_index as int].type_text@,
        false,
        row_offset,
        batch.rows as nat,
    )
}

/// The error of each counted column.
pub open spec fn distinct_errors(
    specs: Seq<DistinctSpec>,
    schema: Schema,
    batch: Batch,
    row_offset: int,
) -> Seq<Option<ErrorView>> {
    Seq::new(specs.len(), |i: int| distinct_feed(specs[i], schema, batch, row_offset).error)
}

/// The columns and rules of counted columns.
pub open spec fn specs_of(states: Seq<DistinctState>) -> Seq<DistinctSpec> {
    Seq::new(states.len(), |i: int| states[i].rules)
}

/// Counted columns, each with an exact state of its kind at a node of the account.
pub open spec fn distinct_wf(states: Seq<DistinctState>, account: ResourceAccount) -> bool {
    forall|i: int|
        #![trigger states[i]]
        0 <= i < states.len() ==> exact_at(states[i].exact, account)
            && states[i].exact.spec_kind() == key_kind(states[i].rules.kernel)
}

/// Exact states of composite keys, each at a node of the account.
pub open spec fn keys_wf(states: Seq<ExactState>, account: ResourceAccount) -> bool {
    forall|i: int|
        #![trigger states[i]]
        0 <= i < states.len() ==> exact_at(states[i], account) && states[i].spec_kind()
            == ValueKind::Bytes
}

/// The exact states of counted columns.
pub open spec fn exacts_of(states: Seq<DistinctState>) -> Seq<ExactState> {
    Seq::new(states.len(), |i: int| states[i].exact)
}

/// What each counted column feeds to its exact state.
pub open spec fn distinct_entries(
    specs: Seq<DistinctSpec>,
    schema: Schema,
    batch: Batch,
    row_offset: int,
) -> Seq<Seq<Entry>> {
    Seq::new(specs.len(), |i: int| distinct_feed(specs[i], schema, batch, row_offset).entries)
}

/// Exact states at nodes of an account are in order.
pub proof fn exacts_are_wf(states: Seq<DistinctState>, account: ResourceAccount)
    requires
        distinct_wf(states, account),
    ensures
        all_wf(exacts_of(states)),
{
    assert forall|i: int| 0 <= i < exacts_of(states).len() implies (#[trigger] exacts_of(
        states,
    )[i]).wf() by {
        assert(exact_at(states[i].exact, account));
    }
}

/// Exact states at nodes of an account are in order.
pub proof fn keys_are_wf(states: Seq<ExactState>, account: ResourceAccount)
    requires
        keys_wf(states, account),
    ensures
        all_wf(states),
{
    assert forall|i: int| 0 <= i < states.len() implies (#[trigger] states[i]).wf() by {
        assert(exact_at(states[i], account));
    }
}

/// Feeds a batch to the counted columns.
fn update_distinct(
    states: &mut Vec<DistinctState>,
    schema: &Schema,
    batch: &Batch,
    row_offset: u64,
    account: &mut ResourceAccount,
) -> (r: Result<Vec<Vec<Vec<u8>>>, ProofFrameError>)
    requires
        old(account).wf(),
        distinct_wf(old(states)@, *old(account)),
        batch_fits(*schema, *batch, row_offset as int),
        forall|i: int|
            #![trigger old(states)@[i]]
            0 <= i < old(states)@.len() ==> old(states)@[i].rules.column_index
                < batch.columns@.len(),
    ensures
        same_account(*old(account), *final(account)),
        distinct_wf(final(states)@, *final(account)),
        final(states)@.len() == old(states)@.len(),
        specs_of(final(states)@) == specs_of(old(states)@),
        old(states)@.len() == 0 ==> r is Ok && *final(account) == *old(account),
        ({
            let errors = distinct_errors(
                specs_of(old(states)@),
                *schema,
                *batch,
                row_offset as int,
            );
            &&& r matches Err(e) ==> earliest(errors, errors.len()) == Some(e@)
                || not_inserted(e@)
            &&& r matches Ok(runs) ==> earliest(errors, errors.len()) is None && runs@.len() == old(
                states,
            )@.len() && forall|i: int|
                #![trigger final(states)@[i]]
                0 <= i < final(states)@.len() ==> {
                    let f = distinct_feed(
                        old(states)@[i].rules,
                        *schema,
                        *batch,
                        row_offset as int,
                    );
                    &&& final(states)@[i].saw_null == (old(states)@[i].saw_null || f.saw_null)
                    &&& fed_state(
                        old(states)@[i].exact,
                        final(states)@[i].exact,
                        f.entries,
                        runs@[i]@,
                    )
                }
            &&& r is Ok ==> leaves(
                old(account).nodes(),
                final(account).nodes(),
                exacts_of(old(states)@),
                distinct_entries(specs_of(old(states)@), *schema, *batch, row_offset as int),
                old(states)@.len(),
            )
            &&& ample_for(
                old(account).nodes(),
                exacts_of(old(states)@),
                distinct_entries(specs_of(old(states)@), *schema, *batch, row_offset as int),
            ) ==> outcome(r, earliest(errors, errors.len()))
        }),
{
    let ghost given = states@;
    let ghost errors = distinct_errors(specs_of(given), *schema, *batch, row_offset as int);
    let ghost firsts = exacts_of(given);
    let ghost lists = distinct_entries(specs_of(given), *schema, *batch, row_offset as int);
    let ghost owed = ample_for(account.nodes(), firsts, lists);
    proof {
        leaves_all(account.nodes(), firsts, lists);
    }
    let mut out: Vec<Vec<Vec<u8>>> = Vec::new();
    let mut i: usize = 0;
    while i < states.len()
        invariant
            i <= states@.len(),
            out@.len() == i,
            given == old(states)@,
            states@.len() == given.len(),
            errors == distinct_errors(specs_of(given), *schema, *batch, row_offset as int),
            earliest(errors, i as nat) is None,
            firsts == exacts_of(given),
            lists == distinct_entries(specs_of(given), *schema, *batch, row_offset as int),
            owed == ample_for(old(account).nodes(), firsts, lists),
            leaves(old(account).nodes(), account.nodes(), firsts, lists, i as nat),
            given.len() == 0 ==> *account == *old(account),
            same_account(*old(account), *account),
            distinct_wf(given, *old(account)),
            distinct_wf(states@, *account),
            batch_fits(*schema, *batch, row_offset as int),
            forall|k: int|
                #![trigger given[k]]
                0 <= k < given.len() ==> given[k].rules.column_index < batch.columns@.len(),
            forall|k: int| i <= k < states@.len() ==> #[trigger] states@[k] == given[k],
            forall|k: int|
                #![trigger states@[k]]
                0 <= k < i ==> {
                    let f = distinct_feed(given[k].rules, *schema, *batch, row_offset as int);
                    &&& states@[k].rules == given[k].rules
                    &&& states@[k].saw_null == (given[k].saw_null || f.saw_null)
                    &&& fed_state(given[k].exact, states@[k].exact, f.entries, out@[k]@)
                },
        decreases states@.len() - i,
    {
        let column: usize = states[i].rules.column_index;
        let had_null = states[i].saw_null;
        assert(states@[i as int] == given[i as int]);
        assert(given[i as int].rules.column_index < batch.columns@.len());
        let cells = &batch.columns[column];
        let shown = schema.fields[column].type_text.as_str();
        let ghost before = states@;
        let ghost middle = account.nodes();
        proof {
            exacts_are_wf(given, *old(account));
            if owed {
                next_has_room(old(account).nodes(), account, firsts, lists, i as nat);
            }
        }
        let fed = feed_column(&mut states[i].exact, account, cells, shown, false, row_offset);
        proof {
            assert(specs_of(states@) =~= specs_of(given));
            assert forall|k: int|
                #![trigger states@[k]]
                0 <= k < states@.len() && k != i implies states@[k] == before[k] by {}
        }
        match fed {
            Ok((runs, nulls)) => {
                states[i].saw_null = had_null || nulls;
                proof {
                    assert(errors[i as int] is None);
                    leaves_less(
                        old(account).nodes(),
                        middle,
                        account.nodes(),
                        firsts,
                        lists,
                        i as nat,
                        states@[i as int].exact,
                    );
                }
                out.push(runs);
            },
            Err(e) => {
                proof {
                    if errors[i as int] == Some(e@) {
                        assert(earliest(errors, (i + 1) as nat) == Some(e@));
                        earliest_stays(errors, (i + 1) as nat, errors.len());
                    }
                }
                return Err(e);
            },
        }
        i = i + 1;
    }
    assert(specs_of(states@) =~= specs_of(given));
    Ok(out)
}

/// A composite rule as a key rule.
pub open spec fn composite_rule(plan: CompositeUniquePlan) -> KeyRule {
    KeyRule {
        key: plan.columns@,
        nulls: plan.nulls,
        name: plan.name@,
        label: "composite_unique"@,
        lead: "Composite rule `"@,
    }
}

/// A conditional rule as a key rule.
pub open spec fn conditional_rule(plan: ConditionalUniquePlan) -> KeyRule {
    KeyRule {
        key: plan.columns@,
        nulls: plan.nulls,
        name: plan.name@,
        label: "conditional_unique"@,
        lead: "Rule `"@,
    }
}

/// Every row.
pub open spec fn every_row(n: nat) -> Seq<bool> {
    Seq::new(n, |i: int| true)
}

/// The rows on which a comparison holds.
pub open spec fn chosen_rows(plan: ConditionalUniquePlan, batch: Batch) -> Seq<bool> {
    Seq::new(
        batch.rows as nat,
        |i: int| answer(plan.predicate@, batch.columns@, i) == Some(true),
    )
}

/// What a composite rule feeds to its exact state.
pub open spec fn composite_feed(
    plan: CompositeUniquePlan,
    schema: Schema,
    batch: Batch,
    row_offset: int,
) -> Fed {
    fed_keys(
        composite_rule(plan),
        schema,
        batch.columns@,
        every_row(batch.rows as nat),
        row_offset,
        batch.rows as nat,
    )
}

/// What a conditional rule feeds to its exact state: the keys of the rows that its
/// comparison selects.
pub open spec fn conditional_feed(
    plan: ConditionalUniquePlan,
    schema: Schema,
    batch: Batch,
    row_offset: int,
) -> Fed {
    if executable(plan.predicate@) {
        fed_keys(
            conditional_rule(plan),
            schema,
            batch.columns@,
            chosen_rows(plan, batch),
            row_offset,
            batch.rows as nat,
        )
    } else {
        Fed {
            entries: Seq::empty(),
            findings: Seq::empty(),
            saw_null: false,
            error: Some(unsupported_error(plan.predicate@)),
        }
    }
}

/// What feeding several keys comes to.
pub struct Feeds {
    pub errors: Seq<Option<ErrorView>>,
    pub findings: Seq<Seq<FindingView>>,
    pub entries: Seq<Seq<Entry>>,
}

/// What the composite rules feed.
pub open spec fn composite_feeds(
    rules: Seq<CompositeUniquePlan>,
    schema: Schema,
    batch: Batch,
    row_offset: int,
) -> Feeds {
    Feeds {
        errors: Seq::new(
            rules.len(),
            |i: int| composite_feed(rules[i], schema, batch, row_offset).error,
        ),
        findings: Seq::new(
            rules.len(),
            |i: int| composite_feed(rules[i], schema, batch, row_offset).findings,
        ),
        entries: Seq::new(
            rules.len(),
            |i: int| composite_feed(rules[i], schema, batch, row_offset).entries,
        ),
    }
}

/// What the conditional rules feed.
pub open spec fn conditional_feeds(
    rules: Seq<ConditionalUniquePlan>,
    schema: Schema,
    batch: Batch,
    row_offset: int,
) -> Feeds {
    Feeds {
        errors: Seq::new(
            rules.len(),
            |i: int| conditional_feed(rules[i], schema, batch, row_offset).error,
        ),
        findings: Seq::new(
            rules.len(),
            |i: int| conditional_feed(rules[i], schema, batch, row_offset).findings,
        ),
        entries: Seq::new(
            rules.len(),
            |i: int| conditional_feed(rules[i], schema, batch, row_offset).entries,
        ),
    }
}

/// What feeding keys left of the exact states.
pub open spec fn keys_fed(
    before: Seq<ExactState>,
    after: Seq<ExactState>,
    feeds: Feeds,
    runs: Seq<Vec<Vec<u8>>>,
) -> bool {
    &&& runs.len() == before.len()
    &&& forall|i: int|
        #![trigger after[i]]
        0 <= i < after.len() ==> fed_state(before[i], after[i], feeds.entries[i], runs[i]@)
}

/// Feeds a batch to the composite rules.
fn update_composites(
    rules: &Vec<CompositeUniquePlan>,
    states: &mut Vec<ExactState>,
    schema: &Schema,
    batch: &Batch,
    row_offset: u64,
    account: &mut ResourceAccount,
    validation: &mut ValidationState,
) -> (r: Result<Vec<Vec<Vec<u8>>>, ProofFrameError>)
    requires
        old(account).wf(),
        old(validation).wf(),
        keys_wf(old(states)@, *old(account)),
        old(states)@.len() == rules@.len(),
        batch_fits(*schema, *batch, row_offset as int),
        forall|i: int|
            #![trigger rules@[i]]
            0 <= i < rules@.len() ==> forall|j: int|
                0 <= j < rules@[i].columns@.len() ==> (#[trigger] rules@[i].columns@[j])
                    < batch.columns@.len(),
    ensures
        same_account(*old(account), *final(account)),
        final(validation).wf(),
        final(validation).offered() == old(validation).offered(),
        keys_wf(final(states)@, *final(account)),
        final(states)@.len() == old(states)@.len(),
        rules@.len() == 0 ==> r is Ok && *final(account) == *old(account),
        ({
            let feeds = composite_feeds(rules@, *schema, *batch, row_offset as int);
            &&& r matches Err(e) ==> earliest(feeds.errors, rules@.len()) == Some(e@)
                || not_inserted(e@)
            &&& r matches Ok(runs) ==> earliest(feeds.errors, rules@.len()) is None && keys_fed(
                old(states)@,
                final(states)@,
                feeds,
                runs@,
            ) && final(validation)@ == recorded_all(
                old(validation)@,
                all_of(feeds.findings, rules@.len()),
            ) && leaves(
                old(account).nodes(),
                final(account).nodes(),
                old(states)@,
                feeds.entries,
                rules@.len(),
            )
            &&& ample_for(
                old(account).nodes(),
                old(states)@,
                feeds.entries,
            ) ==> outcome(r, earliest(feeds.errors, rules@.len()))
        }),
{
    let ghost given = states@;
    let ghost feeds = composite_feeds(rules@, *schema, *batch, row_offset as int);
    let selected = all_rows(batch.rows);
    let ghost owed = ample_for(account.nodes(), given, feeds.entries);
    proof {
        leaves_all(account.nodes(), given, feeds.entries);
    }
    let mut out: Vec<Vec<Vec<u8>>> = Vec::new();
    let mut i: usize = 0;
    while i < rules.len()
        invariant
            i <= rules@.len(),
            out@.len() == i,
            given == old(states)@,
            states@.len() == given.len(),
            given.len() == rules@.len(),
            selected@ == every_row(batch.rows as nat),
            feeds == composite_feeds(rules@, *schema, *batch, row_offset as int),
            earliest(feeds.errors, i as nat) is None,
            owed == ample_for(old(account).nodes(), given, feeds.entries),
            keys_wf(given, *old(account)),
            leaves(old(account).nodes(), account.nodes(), given, feeds.entries, i as nat),
            rules@.len() == 0 ==> *account == *old(account),
            same_account(*old(account), *account),
            keys_wf(states@, *account),
            validation.wf(),
            validation.offered() == old(validation).offered(),
            validation@ == recorded_all(old(validation)@, all_of(feeds.findings, i as nat)),
            batch_fits(*schema, *batch, row_offset as int),
            forall|k: int|
                #![trigger rules@[k]]
                0 <= k < rules@.len() ==> forall|j: int|
                    0 <= j < rules@[k].columns@.len() ==> (#[trigger] rules@[k].columns@[j])
                        < batch.columns@.len(),
            forall|k: int| i <= k < states@.len() ==> #[trigger] states@[k] == given[k],
            forall|k: int|
                #![trigger states@[k]]
                0 <= k < i ==> fed_state(given[k], states@[k], feeds.entries[k], out@[k]@),
        decreases rules@.len() - i,
    {
        let rule = &rules[i];
        assert(states@[i as int] == given[i as int]);
        let ghost before = states@;
        let ghost middle = account.nodes();
        proof {
            keys_are_wf(given, *old(account));
            if owed {
                next_has_room(old(account).nodes(), account, given, feeds.entries, i as nat);
            }
        }
        let fed = feed_keys(
            &mut states[i],
            account,
            &rule.columns,
            rule.nulls,
            rule.name.as_str(),
            "composite_unique",
            "Composite rule `",
            schema,
            batch,
            &selected,
            row_offset,
            validation,
        );
        assert forall|k: int|
            #![trigger states@[k]]
            0 <= k < states@.len() && k != i implies states@[k] == before[k] by {}
        match fed {
            Ok(runs) => {
                proof {
                    assert(feeds.errors[i as int] is None);
                    leaves_less(
                        old(account).nodes(),
                        middle,
                        account.nodes(),
                        given,
                        feeds.entries,
                        i as nat,
                        states@[i as int],
                    );
                    recorded_in_parts(
                        old(validation)@,
                        all_of(feeds.findings, i as nat),
                        feeds.findings[i as int],
                    );
                }
                out.push(runs);
            },
            Err(e) => {
                proof {
                    if feeds.errors[i as int] == Some(e@) {
                        assert(earliest(feeds.errors, (i + 1) as nat) == Some(e@));
                        earliest_stays(feeds.errors, (i + 1) as nat, rules@.len());
                    }
                }
                return Err(e);
            },
        }
        i = i + 1;
    }
    Ok(out)
}

fn all_rows(n: usize) -> (r: Vec<bool>)
    ensures
        r@ == every_row(n as nat),
{
    let mut out: Vec<bool> = Vec::new();
    while out.len() < n
        invariant
            out@.len() <= n,
            forall|i: int| 0 <= i < out@.len() ==> #[trigger] out@[i],
        decreases n - out@.len(),
    {
        out.push(true);
    }
    assert(out@ =~= every_row(n as nat));
    out
}

/// The rows that a conditional rule selects.
fn select_rows(plan: &ConditionalUniquePlan, batch: &Batch) -> (r: Result<
    Vec<bool>,
    ProofFrameError,
>)
    requires
        batch.wf(),
        in_range(plan.predicate@, batch.columns@.len() as int),
    ensures
        match r {
            Ok(v) => executable(plan.predicate@) && v@ == chosen_rows(*plan, *batch),
            Err(e) => !executable(plan.predicate@) && e@ == unsupported_error(plan.predicate@),
        },
{
    let answers = match scan_predicate(&plan.predicate, batch) {
        Ok(v) => v,
        Err(e) => return Err(e),
    };
    let mut out: Vec<bool> = Vec::new();
    let mut i: usize = 0;
    while i < answers.len()
        invariant
            i <= answers@.len(),
            out@.len() == i,
            forall|k: int| 0 <= k < i ==> #[trigger] out@[k] == (answers@[k] == Some(true)),
        decreases answers@.len() - i,
    {
        let yes = match answers[i] {
            Some(b) => b,
            None => false,
        };
        out.push(yes);
        i = i + 1;
    }
    assert(out@ =~= chosen_rows(*plan, *batch)) by {
        assert forall|k: int| 0 <= k < out@.len() implies out@[k] == chosen_rows(
            *plan,
            *batch,
        )[k] by {
            assert(answers@[k] == answer(plan.predicate@, batch.columns@, k));
        }
    }
    Ok(out)
}

/// Feeds a batch to the conditional rules.
fn update_conditional(
    rules: &Vec<ConditionalUniquePlan>,
    states: &mut Vec<ExactState>,
    schema: &Schema,
    batch: &Batch,
    row_offset: u64,
    account: &mut ResourceAccount,
    validation: &mut ValidationState,
) -> (r: Result<Vec<Vec<Vec<u8>>>, ProofFrameError>)
    requires
        old(account).wf(),
        old(validation).wf(),
        keys_wf(old(states)@, *old(account)),
        old(states)@.len() == rules@.len(),
        batch_fits(*schema, *batch, row_offset as int),
        forall|i: int|
            #![trigger rules@[i]]
            0 <= i < rules@.len() ==> in_range(
                rules@[i].predicate@,
                batch.columns@.len() as int,
            ) && forall|j: int|
                0 <= j < rules@[i].columns@.len() ==> (#[trigger] rules@[i].columns@[j])
                    < batch.columns@.len(),
    ensures
        same_account(*old(account), *final(account)),
        final(validation).wf(),
        final(validation).offered() == old(validation).offered(),
        keys_wf(final(states)@, *final(account)),
        final(states)@.len() == old(states)@.len(),
        rules@.len() == 0 ==> r is Ok && *final(account) == *old(account),
        ({
            let feeds = conditional_feeds(rules@, *schema, *batch, row_offset as int);
            &&& r matches Err(e) ==> earliest(feeds.errors, rules@.len()) == Some(e@)
                || not_inserted(e@)
            &&& r matches Ok(runs) ==> earliest(feeds.errors, rules@.len()) is None && keys_fed(
                old(states)@,
                final(states)@,
                feeds,
                runs@,
            ) && final(validation)@ == recorded_all(
                old(validation)@,
                all_of(feeds.findings, rules@.len()),
            ) && leaves(
                old(account).nodes(),
                final(account).nodes(),
                old(states)@,
                feeds.entries,
                rules@.len(),
            )
            &&& ample_for(
                old(account).nodes(),
                old(states)@,
                feeds.entries,
            ) ==> outcome(r, earliest(feeds.errors, rules@.len()))
        }),
{
    let ghost given = states@;
    let ghost feeds = conditional_feeds(rules@, *schema, *batch, row_offset as int);
    let ghost owed = ample_for(account.nodes(), given, feeds.entries);
    proof {
        leaves_all(account.nodes(), given, feeds.entries);
    }
    let mut out: Vec<Vec<Vec<u8>>> = Vec::new();
    let mut i: usize = 0;
    while i < rules.len()
        invariant
            i <= rules@.len(),
            out@.len() == i,
            given == old(states)@,
            states@.len() == given.len(),
            given.len() == rules@.len(),
            feeds == conditional_feeds(rules@, *schema, *batch, row_offset as int),
            earliest(feeds.errors, i as nat) is None,
            owed == ample_for(old(account).nodes(), given, feeds.entries),
            keys_wf(given, *old(account)),
            leaves(old(account).nodes(), account.nodes(), given, feeds.entries, i as nat),
            rules@.len() == 0 ==> *account == *old(account),
            same_account(*old(account), *account),
            keys_wf(states@, *account),
            validation.wf(),
            validation.offered() == old(validation).offered(),
            validation@ == recorded_all(old(validation)@, all_of(feeds.findings, i as nat)),
            batch_fits(*schema, *batch, row_offset as int),
            forall|k: int|
                #![trigger rules@[k]]
                0 <= k < rules@.len() ==> in_range(
                    rules@[k].predicate@,
                    batch.columns@.len() as int,
                ) && forall|j: int|
                    0 <= j < rules@[k].columns@.len() ==> (#[trigger] rules@[k].columns@[j])
                        < batch.columns@.len(),
            forall|k: int| i <= k < states@.len() ==> #[trigger] states@[k] == given[k],
            forall|k: int|
                #![trigger states@[k]]
                0 <= k < i ==> fed_state(given[k], states@[k], feeds.entries[k], out@[k]@),
        decreases rules@.len() - i,
    {
        let rule = &rules[i];
        assert(states@[i as int] == given[i as int]);
        let selected = match select_rows(rule, batch) {
            Ok(v) => v,
            Err(e) => {
                proof {
                    assert(feeds.errors[i as int] == Some(e@));
                    assert(earliest(feeds.errors, (i + 1) as nat) == Some(e@));
                    earliest_stays(feeds.errors, (i + 1) as nat, rules@.len());
                }
                return Err(e);
            },
        };
        let ghost before = states@;
        let ghost middle = account.nodes();
        proof {
            keys_are_wf(given, *old(account));
            if owed {
                next_has_room(old(account).nodes(), account, given, feeds.entries, i as nat);
            }
        }
        let fed = feed_keys(
            &mut states[i],
            account,
            &rule.columns,
            rule.nulls,
            rule.name.as_str(),
            "conditional_unique",
            "Rule `",
            schema,
            batch,
            &selected,
            row_offset,
            validation,
        );
        assert forall|k: int|
            #![trigger states@[k]]
            0 <= k < states@.len() && k != i implies states@[k] == before[k] by {}
        match fed {
            Ok(runs) => {
                proof {
                    assert(feeds.errors[i as int] is None);
                    leaves_less(
                        old(account).nodes(),
                        middle,
                        account.nodes(),
                        given,
                        feeds.entries,
                        i as nat,
                        states@[i as int],
                    );
                    recorded_in_parts(
                        old(validation)@,
                        all_of(feeds.findings, i as nat),
                        feeds.findings[i as int],
                    );
                }
                out.push(runs);
            },
            Err(e) => {
                proof {
                    if feeds.errors[i as int] == Some(e@) {
                        assert(earliest(feeds.errors, (i + 1) as nat) == Some(e@));
                        earliest_stays(feeds.errors, (i + 1) as nat, rules@.len());
                    }
                }
                return Err(e);
            },
        }
        i = i + 1;
    }
    Ok(out)
}

/// The counted columns of a plan that fits a batch stand in it.
pub proof fn specs_fit(plan: DatasetPlan, specs: Seq<DistinctSpec>, columns: int)
    requires
        plan.distinct_counts@.len() <= usize::MAX,
        plan.distinct_ratios@.len() <= usize::MAX,
        distinct_listed(
            specs,
            plan.distinct_counts@,
            plan.distinct_counts@.len(),
            plan.distinct_ratios@,
            plan.distinct_ratios@.len(),
        ),
        plan_fits(plan, columns),
    ensures
        forall|i: int| 0 <= i < specs.len() ==> (#[trigger] specs[i]).column_index < columns,
{
    assert forall|i: int| 0 <= i < specs.len() implies (#[trigger] specs[i]).column_index
        < columns by {
        last_count_fits(plan.distinct_counts@, specs[i].column_index, plan.distinct_counts@.len());
        last_ratio_fits(plan.distinct_ratios@, specs[i].column_index, plan.distinct_ratios@.len());
    }
}

/// The error of one of two stages, the first first.
pub open spec fn or_else(a: Option<ErrorView>, b: Option<ErrorView>) -> Option<ErrorView> {
    match a {
        Some(e) => Some(e),
        None => b,
    }
}

impl DatasetState {
    /// The error that a batch gives whatever room there is: of a counted column, an
    /// ordering rule, a step rule, a total, a conditional rule or a composite rule, in
    /// this order.
    pub open spec fn batch_error(
        &self,
        plan: DatasetPlan,
        schema: Schema,
        batch: Batch,
        long: Seq<Vec<bool>>,
        row_offset: int,
    ) -> Option<ErrorView> {
        let counted = distinct_errors(specs_of(self.distinct@), schema, batch, row_offset);
        or_else(
            earliest(counted, counted.len()),
            or_else(
                earliest(
                    order_errors(
                        plan.monotonicity@,
                        schema,
                        batch,
                        row_offset,
                        self.ordering@,
                    ),
                    plan.monotonicity@.len(),
                ),
                or_else(
                    earliest(
                        gap_errors(
                            plan.gap_detection@,
                            schema,
                            batch,
                            long,
                            row_offset,
                            self.gaps@,
                        ),
                        plan.gap_detection@.len(),
                    ),
                    or_else(
                        earliest(sum_errors(plan.sums@, batch, self.sums@), plan.sums@.len()),
                        or_else(
                            earliest(
                                conditional_feeds(
                                    plan.conditional_unique@,
                                    schema,
                                    batch,
                                    row_offset,
                                ).errors,
                                plan.conditional_unique@.len(),
                            ),
                            earliest(
                                composite_feeds(
                                    plan.composite_unique@,
                                    schema,
                                    batch,
                                    row_offset,
                                ).errors,
                                plan.composite_unique@.len(),
                            ),
                        ),
                    ),
                ),
            ),
        )
    }

    /// The findings of a batch: of the ordering rules, the step rules, the conditional
    /// rules, the exclusivity rules and the composite rules, in this order.
    pub open spec fn batch_findings(
        &self,
        plan: DatasetPlan,
        schema: Schema,
        batch: Batch,
        long: Seq<Vec<bool>>,
        row_offset: int,
    ) -> Seq<FindingView> {
        all_of(
            order_findings(plan.monotonicity@, schema, batch, row_offset, self.ordering@),
            plan.monotonicity@.len(),
        ) + all_of(
            gap_findings(plan.gap_detection@, schema, batch, long, row_offset, self.gaps@),
            plan.gap_detection@.len(),
        ) + all_of(
            conditional_feeds(plan.conditional_unique@, schema, batch, row_offset).findings,
            plan.conditional_unique@.len(),
        ) + all_of(
            exclusive_lists(plan.mutually_exclusive@, batch, row_offset),
            plan.mutually_exclusive@.len(),
        ) + all_of(
            composite_feeds(plan.composite_unique@, schema, batch, row_offset).findings,
            plan.composite_unique@.len(),
        )
    }

    /// The exact states, in the order in which a batch is fed to them: of the counted
    /// columns, the conditional rules and the composite rules.
    pub open spec fn exacts(&self) -> Seq<ExactState> {
        exacts_of(self.distinct@) + self.conditional@ + self.composites@
    }

    /// What a batch feeds to the exact states.
    pub open spec fn batch_entries(
        &self,
        plan: DatasetPlan,
        schema: Schema,
        batch: Batch,
        row_offset: int,
    ) -> Seq<Seq<Entry>> {
        distinct_entries(specs_of(self.distinct@), schema, batch, row_offset)
            + conditional_feeds(plan.conditional_unique@, schema, batch, row_offset).entries
            + composite_feeds(plan.composite_unique@, schema, batch, row_offset).entries
    }

    /// What a batch changes in the state, with the runs that had to be written.
    pub open spec fn advanced(
        &self,
        after: DatasetState,
        plan: DatasetPlan,
        schema: Schema,
        batch: Batch,
        long: Seq<Vec<bool>>,
        row_offset: int,
        runs: DatasetRuns,
    ) -> bool {
        &&& forall|i: int|
            #![trigger after.null_counts@[i]]
            0 <= i < after.null_counts@.len() ==> after.null_counts@[i] == nulls_after(
                plan.null_ratios@,
                batch,
                self.null_counts@,
                i,
            )
        &&& runs.distinct@.len() == self.distinct@.len()
        &&& forall|i: int|
            #![trigger after.distinct@[i]]
            0 <= i < after.distinct@.len() ==> {
                let f = distinct_feed(self.distinct@[i].rules, schema, batch, row_offset);
                &&& after.distinct@[i].saw_null == (self.distinct@[i].saw_null || f.saw_null)
                &&& fed_state(
                    self.distinct@[i].exact,
                    after.distinct@[i].exact,
                    f.entries,
                    runs.distinct@[i]@,
                )
            }
        &&& specs_of(after.distinct@) == specs_of(self.distinct@)
        &&& forall|i: int|
            #![trigger after.ordering@[i]]
            0 <= i < after.ordering@.len() ==> opt_place(after.ordering@[i]) == order_trail(
                plan.monotonicity@,
                schema,
                batch,
                row_offset,
                self.ordering@,
                i,
            ).last
        &&& forall|i: int|
            #![trigger after.gaps@[i]]
            0 <= i < after.gaps@.len() ==> after.gaps@[i].so_far() == (Steps {
                findings: Seq::empty(),
                ..gap_steps(
                    plan.gap_detection@,
                    schema,
                    batch,
                    long,
                    row_offset,
                    self.gaps@,
                    i,
                )
            })
        &&& forall|i: int|
            #![trigger after.sums@[i]]
            0 <= i < after.sums@.len() ==> after.sums@[i] == sum_after(
                plan.sums@,
                batch,
                self.sums@,
                i,
            )
        &&& keys_fed(
            self.composites@,
            after.composites@,
            composite_feeds(plan.composite_unique@, schema, batch, row_offset),
            runs.composites@,
        )
        &&& keys_fed(
            self.conditional@,
            after.conditional@,
            conditional_feeds(plan.conditional_unique@, schema, batch, row_offset),
            runs.conditional@,
        )
    }

    /// Applies every rule to a batch. For each step rule and row the caller says whether
    /// the step to the row's value is longer than the rule allows. The runs that exact
    /// states had to write are returned for the caller to keep.
    pub fn update(
        &mut self,
        plan: &DatasetPlan,
        schema: &Schema,
        batch: &Batch,
        long: &Vec<Vec<bool>>,
        row_offset: u64,
        account: &mut ResourceAccount,
        validation: &mut ValidationState,
    ) -> (r: Result<DatasetRuns, ProofFrameError>)
        requires
            old(account).wf(),
            old(validation).wf(),
            old(self).matches(*plan),
            old(self).wf(*old(account)),
            batch_fits(*schema, *batch, row_offset as int),
            plan_fits(*plan, batch.columns@.len() as int),
            long@.len() == plan.gap_detection@.len(),
            forall|i: int| 0 <= i < long@.len() ==> (#[trigger] long@[i])@.len() == batch.rows,
        ensures
            same_account(*old(account), *final(account)),
            final(validation).wf(),
            final(validation).offered() == old(validation).offered(),
            r is Ok ==> final(self).matches(*plan) && final(self).wf(*final(account)),
            r matches Ok(runs) ==> old(self).batch_error(
                *plan,
                *schema,
                *batch,
                long@,
                row_offset as int,
            ) is None && old(self).advanced(
                *final(self),
                *plan,
                *schema,
                *batch,
                long@,
                row_offset as int,
                runs,
            ) && final(validation)@ == recorded_all(
                old(validation)@,
                old(self).batch_findings(*plan, *schema, *batch, long@, row_offset as int),
            ),
            r matches Err(e) ==> old(self).batch_error(
                *plan,
                *schema,
                *batch,
                long@,
                row_offset as int,
            ) == Some(e@) || (not_inserted(e@) && exact_count(
                *plan,
                old(self).distinct@.len(),
            ) > 0),
            exact_count(*plan, old(self).distinct@.len()) == 0 ==> outcome(
                r,
                old(self).batch_error(*plan, *schema, *batch, long@, row_offset as int),
            ),
            exact_count(*plan, old(self).distinct@.len()) == 0 ==> *final(account) == *old(account),
            r is Ok ==> leaves(
                old(account).nodes(),
                final(account).nodes(),
                old(self).exacts(),
                old(self).batch_entries(*plan, *schema, *batch, row_offset as int),
                old(self).exacts().len(),
            ),
            ample_for(
                old(account).nodes(),
                old(self).exacts(),
                old(self).batch_entries(*plan, *schema, *batch, row_offset as int),
            ) ==> outcome(
                r,
                old(self).batch_error(*plan, *schema, *batch, long@, row_offset as int),
            ),
    {
        let ghost given = *self;
        let ghost x0 = account.nodes();
        let ghost sa = exacts_of(given.distinct@);
        let ghost la = distinct_entries(
            specs_of(given.distinct@),
            *schema,
            *batch,
            row_offset as int,
        );
        let ghost sb = given.conditional@;
        let ghost lb = conditional_feeds(
            plan.conditional_unique@,
            *schema,
            *batch,
            row_offset as int,
        ).entries;
        let ghost sc = given.composites@;
        let ghost lc = composite_feeds(
            plan.composite_unique@,
            *schema,
            *batch,
            row_offset as int,
        ).entries;
        let ghost owed = ample_for(x0, sa + sb + sc, la + lb + lc);
        proof {
            exacts_are_wf(given.distinct@, *account);
            keys_are_wf(sb, *account);
            keys_are_wf(sc, *account);
            let m = memory_needs(sa + sb + sc, la + lb + lc, (sa + sb + sc).len());
            let t = temp_needs(sa + sb + sc, la + lb + lc, (sa + sb + sc).len());
            if owed {
                room_in_parts(x0, x0, sa + sb, la + lb, sc, lc, m, t);
                room_in_parts(x0, x0, sa, la, sb, lb, m, t);
            }
        }
        let ghost f0 = validation@;
        proof {
            assert(plan.distinct_counts.len() == plan.distinct_counts@.len());
            assert(plan.distinct_ratios.len() == plan.distinct_ratios@.len());
            specs_fit(*plan, self.specs(), batch.columns@.len() as int);
            assert(self.specs() =~= specs_of(self.distinct@));
            assert forall|i: int|
                #![trigger self.distinct@[i]]
                0 <= i < self.distinct@.len() implies self.distinct@[i].rules.column_index
                < batch.columns@.len() by {
                assert(self.specs()[i] == self.distinct@[i].rules);
            }
        }
        let null_counts = update_nulls(&plan.null_ratios, batch, &self.null_counts);
        self.null_counts = null_counts;
        let distinct = match update_distinct(
            &mut self.distinct,
            schema,
            batch,
            row_offset,
            account,
        ) {
            Ok(runs) => runs,
            Err(e) => return Err(e),
        };
        let ghost x1 = account.nodes();
        proof {
            if owed {
                let m = memory_needs(sa + sb + sc, la + lb + lc, (sa + sb + sc).len());
                let t = temp_needs(sa + sb + sc, la + lb + lc, (sa + sb + sc).len());
                room_in_parts(x0, x1, sa, la, sb, lb, m, t);
            }
        }
        let mut last: Vec<Option<Ordered>> = Vec::new();
        core::mem::swap(&mut last, &mut self.ordering);
        match update_ordering(&plan.monotonicity, schema, batch, row_offset, last, validation) {
            Ok(v) => {
                self.ordering = v;
            },
            Err(e) => return Err(e),
        }
        let ghost f1 = validation@;
        let mut gaps: Vec<GapState> = Vec::new();
        core::mem::swap(&mut gaps, &mut self.gaps);
        match update_gaps(&plan.gap_detection, schema, batch, long, row_offset, gaps, validation) {
            Ok(v) => {
                self.gaps = v;
            },
            Err(e) => return Err(e),
        }
        match update_sums(&plan.sums, batch, &self.sums) {
            Ok(v) => {
                self.sums = v;
            },
            Err(e) => return Err(e),
        }
        let conditional = match update_conditional(
            &plan.conditional_unique,
            &mut self.conditional,
            schema,
            batch,
            row_offset,
            account,
            validation,
        ) {
            Ok(runs) => runs,
            Err(e) => return Err(e),
        };
        proof {
            leaves_in_parts(x0, x1, account.nodes(), sa, la, sb, lb);
            if owed {
                let m = memory_needs(sa + sb + sc, la + lb + lc, (sa + sb + sc).len());
                let t = temp_needs(sa + sb + sc, la + lb + lc, (sa + sb + sc).len());
                room_in_parts(x0, account.nodes(), sa + sb, la + lb, sc, lc, m, t);
            }
        }
        let ghost x2 = account.nodes();
        update_exclusive(&plan.mutually_exclusive, batch, row_offset, validation);
        let composites = match update_composites(
            &plan.composite_unique,
            &mut self.composites,
            schema,
            batch,
            row_offset,
            account,
            validation,
        ) {
            Ok(runs) => runs,
            Err(e) => return Err(e),
        };
        proof {
            let a = all_of(
                order_findings(
                    plan.monotonicity@,
                    *schema,
                    *batch,
                    row_offset as int,
                    given.ordering@,
                ),
                plan.monotonicity@.len(),
            );
            let b = all_of(
                gap_findings(
                    plan.gap_detection@,
                    *schema,
                    *batch,
                    long@,
                    row_offset as int,
                    given.gaps@,
                ),
                plan.gap_detection@.len(),
            );
            let c = all_of(
                conditional_feeds(
                    plan.conditional_unique@,
                    *schema,
                    *batch,
                    row_offset as int,
                ).findings,
                plan.conditional_unique@.len(),
            );
            let d = all_of(
                exclusive_lists(plan.mutually_exclusive@, *batch, row_offset as int),
                plan.mutually_exclusive@.len(),
            );
            let e = all_of(
                composite_feeds(
                    plan.composite_unique@,
                    *schema,
                    *batch,
                    row_offset as int,
                ).findings,
                plan.composite_unique@.len(),
            );
            leaves_in_parts(x0, x2, account.nodes(), sa + sb, la + lb, sc, lc);
            recorded_in_parts(f0, a, b);
            recorded_in_parts(f0, a + b, c);
            recorded_in_parts(f0, a + b + c, d);
            recorded_in_parts(f0, a + b + c + d, e);
            assert(self.specs() =~= specs_of(self.distinct@));
            assert(given.specs() =~= specs_of(given.distinct@));
        }
        Ok(DatasetRuns { distinct, composites, conditional })
    }
}

} // verus!
