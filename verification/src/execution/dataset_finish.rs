//! The verdicts of rules over a whole dataset, once every batch was seen.

use crate::contract::ast::{CountRangeAst, RatioRangeAst};
use crate::contract::dataset::{
    CompositeUniquePlan, ConditionalUniquePlan, DatasetPlan, GapDetectionPlan, RatioPlan, StatisticPlan,
    SumBounds, SumPlan,
};
use crate::distinct::budget::{
    all_end, all_told, damage_has_room, end_has_room, end_storages, ends_told, ends_whole,
    room_to_end, some_damaged, spare, spare_once_stored, states_restored, storages_grow,
    told_and_whole, told_to_end,
};
use crate::distinct::merge::DuplicateSample;
use crate::distinct::order::{sorted, tally, Entry};
use crate::distinct::state::{damaged, not_merged, record_total, summed, ExactState, ExactSummary};
use crate::error::{ErrorView, ProofFrameError};
use crate::execution::dataset_state::{exacts_of, all_of, DatasetState, DistinctSpec};
use crate::execution::exact_rules::same_account;
use crate::execution::ordering::GapState;
use crate::execution::total::{
    float_outside, measured_outside, outside, total_outside, Measured, Total,
};
use crate::execution::validation::{
    capped, counted_more, recorded_all, recorded_in_parts, Finding, FindingView, Found,
    ValidationState,
};
use crate::numbers::{compare_fraction_to_bound, fraction_order, Order};
use crate::resource::{ResourceAccount};
use crate::text::{cat3, cat4, cat5, cat7, decimal, decimal_i128, decimal_int, decimal_u64, text};
use vstd::prelude::*;

verus! {

/// The stored runs of every exact state, in the order in which they were written.
pub struct DatasetStored<'a> {
    pub distinct: Vec<Vec<&'a [u8]>>,
    pub composites: Vec<Vec<&'a [u8]>>,
    pub conditional: Vec<Vec<&'a [u8]>>,
}

/// What exact rules cost in temporary storage.
#[derive(Debug, Clone, Copy, PartialEq, Eq, Structural)]
pub struct DatasetMetrics {
    pub spill_bytes: u64,
    pub exact_runs: u64,
}

/// A counted column with its number of different values, a null counting as one.
#[derive(Debug, Clone, Copy)]
pub struct DistinctOutcome {
    pub rules: DistinctSpec,
    pub distinct: u64,
}

/// What the rules over a dataset hold once every exact state was merged.
#[derive(Debug)]
pub struct FinishedDataset {
    pub null_counts: Vec<u64>,
    pub distinct: Vec<DistinctOutcome>,
    pub composites: Vec<ExactSummary>,
    pub conditional: Vec<ExactSummary>,
    pub gaps: Vec<GapState>,
    pub sums: Vec<i128>,
    pub metrics: DatasetMetrics,
}

/// Whether an exact state can be finished with the runs that are stored for it: there is
/// one for each that it wrote, and the counts fit.
pub open spec fn finishable(s: ExactState, stored: Seq<&[u8]>) -> bool {
    &&& stored.len() == s.metas().len()
    &&& record_total(s.metas(), s.metas().len()) + s.in_memory().len() <= u64::MAX
    &&& forall|i: int|
        0 <= i < s.metas().len() ==> (#[trigger] s.metas()[i]).payload_bytes <= u64::MAX - 60
}

/// What a summary says of an exact state whose stored runs are those that it wrote: the
/// tally of all its entries in sorted order.
pub open spec fn summary_of(
    s: ExactState,
    stored: Seq<&[u8]>,
    max_samples: nat,
    summary: ExactSummary,
) -> bool {
    s.restored(stored) ==> exists|list: Seq<Entry>| #[trigger]
        sorted(list) && list.to_multiset() == s.all() && summed(summary, tally(list, max_samples))
}

/// Whether an exact state has anything in it.
pub open spec fn has_entries(s: ExactState) -> bool {
    s.metas().len() > 0 || s.in_memory().len() > 0
}

/// The cost of the first `n` summaries.
pub open spec fn cost_of(start: DatasetMetrics, list: Seq<ExactSummary>, n: nat) -> DatasetMetrics
    decreases n,
{
    if n == 0 {
        start
    } else {
        let c = cost_of(start, list, (n - 1) as nat);
        DatasetMetrics {
            spill_bytes: capped(
                c.spill_bytes as nat + list[n - 1].metrics.spill_bytes as nat,
            ) as u64,
            exact_runs: capped(c.exact_runs as nat + list[n - 1].metrics.runs as nat) as u64,
        }
    }
}

/// Adds what summaries cost.
pub fn add_costs(start: DatasetMetrics, list: &Vec<ExactSummary>) -> (r: DatasetMetrics)
    ensures
        r == cost_of(start, list@, list@.len()),
{
    let mut out = start;
    let mut i: usize = 0;
    while i < list.len()
        invariant
            i <= list@.len(),
            out == cost_of(start, list@, i as nat),
        decreases list@.len() - i,
    {
        let m = &list[i].metrics;
        out = DatasetMetrics {
            spill_bytes: out.spill_bytes.saturating_add(m.spill_bytes),
            exact_runs: out.exact_runs.saturating_add(m.runs),
        };
        i = i + 1;
    }
    out
}

/// What a finished state comes to: the summary of its entries and of its runs, which are
/// whole, in an operation that runs on where there was anything to count.
pub open spec fn ended(
    state: ExactState,
    stored: Seq<&[u8]>,
    max_samples: nat,
    summary: ExactSummary,
    cancelled: bool,
) -> bool {
    &&& summary_of(state, stored, max_samples, summary)
    &&& state.runs_metered(stored, summary.metrics)
    &&& !damaged(state.metas(), stored)
    &&& !(cancelled && has_entries(state))
}

/// Whether no state with anything in it meets a cancelled operation.
pub open spec fn runs_on(states: Seq<ExactState>, cancelled: bool) -> bool {
    forall|i: int|
        #![trigger states[i]]
        0 <= i < states.len() ==> !(cancelled && has_entries(states[i]))
}

/// Finishes exact states in order.
#[verifier::spinoff_prover]
#[verifier::rlimit(40)]
pub fn finish_all(
    states: Vec<ExactState>,
    account: &mut ResourceAccount,
    stored: &Vec<Vec<&[u8]>>,
    cancelled: bool,
) -> (r: Result<Vec<ExactSummary>, ProofFrameError>)
    requires
        old(account).wf(),
        stored@.len() == states@.len(),
        forall|i: int|
            #![trigger states@[i]]
            0 <= i < states@.len() ==> states@[i].wf() && states@[i].spec_node() < old(
                account,
            ).nodes().len() && finishable(states@[i], stored@[i]@),
    ensures
        same_account(*old(account), *final(account)),
        r matches Ok(v) ==> v@.len() == states@.len() && forall|i: int|
            #![trigger v@[i]]
            0 <= i < v@.len() ==> ended(
                states@[i],
                stored@[i]@,
                old(account).spec_limits().max_samples as nat,
                v@[i],
                cancelled,
            ),
        (forall|i: int|
            #![trigger states@[i]]
            0 <= i < states@.len() ==> states@[i].metas().len() == 0 && !(cancelled
                && states@[i].in_memory().len() > 0)) ==> r is Ok,
        r matches Err(e) ==> (if cancelled {
            e@ == ErrorView::Cancelled
        } else {
            e@ is CorruptData || e@ is ResourceLimit
        }),
        !cancelled && states_restored(states@, stored@) ==> (r matches Err(e) ==> not_merged(e@)),
        some_damaged(states@, stored@) ==> r is Err,
        !cancelled && some_damaged(states@, stored@) ==> forall|m: int, t: int| #[trigger]
            told_to_end(old(account).nodes(), states@, stored@, m, t) ==> (r matches Err(e)
                && e@ is CorruptData),
        !cancelled && !some_damaged(states@, stored@) ==> forall|m: int, t: int| #[trigger]
            told_to_end(old(account).nodes(), states@, stored@, m, t) ==> r is Ok && spare(
                final(account).nodes(),
                m,
                t - end_storages(states@, states@.len()),
            ),
        runs_on(states@, cancelled) ==> forall|m: int, t: int| #[trigger]
            room_to_end(old(account).nodes(), states@, stored@, m, t) ==> r is Ok && spare(
                final(account).nodes(),
                m,
                t - end_storages(states@, states@.len()),
            ),
{
    let ghost given = states@;
    let mut rest = states;
    let mut out: Vec<ExactSummary> = Vec::new();
    let ghost easy = forall|i: int|
        #![trigger given[i]]
        0 <= i < given.len() ==> given[i].metas().len() == 0 && !(cancelled
            && given[i].in_memory().len() > 0);
    while rest.len() > 0
        invariant
            given == states@,
            runs_on(given, cancelled) ==> forall|m: int, t: int| #[trigger]
                room_to_end(old(account).nodes(), given, stored@, m, t) ==> spare(
                    account.nodes(),
                    m,
                    t - end_storages(given, out@.len()),
                ),
            !cancelled ==> forall|m: int, t: int| #[trigger]
                told_to_end(old(account).nodes(), given, stored@, m, t) ==> spare(
                    account.nodes(),
                    m,
                    t - end_storages(given, out@.len()),
                ),
            forall|i: int|
                #![trigger given[i]]
                0 <= i < out@.len() ==> !damaged(given[i].metas(), stored@[i]@),
            rest@.len() <= given.len(),
            out@.len() == given.len() - rest@.len(),
            rest@ == given.skip(out@.len() as int),
            stored@.len() == given.len(),
            same_account(*old(account), *account),
            easy == (forall|i: int|
                #![trigger given[i]]
                0 <= i < given.len() ==> given[i].metas().len() == 0 && !(cancelled
                    && given[i].in_memory().len() > 0)),
            forall|i: int|
                #![trigger given[i]]
                0 <= i < given.len() ==> given[i].wf() && given[i].spec_node() < old(
                    account,
                ).nodes().len() && finishable(given[i], stored@[i]@),
            forall|i: int|
                #![trigger out@[i]]
                0 <= i < out@.len() ==> ended(
                    given[i],
                    stored@[i]@,
                    old(account).spec_limits().max_samples as nat,
                    out@[i],
                    cancelled,
                ),
        decreases rest@.len(),
    {
        let i: usize = out.len();
        let ghost had = rest@;
        let state = rest.remove(0);
        assert(state == given[i as int]);
        assert(rest@ =~= given.skip(i + 1));
        let ghost before = account.nodes();
        proof {
            storages_grow(given, (i + 1) as nat, given.len());
            if runs_on(given, cancelled) && exists|m: int, t: int| #[trigger]
                room_to_end(old(account).nodes(), given, stored@, m, t) {
                let (m, t) = choose|m: int, t: int| #[trigger]
                    room_to_end(old(account).nodes(), given, stored@, m, t);
                assert(!(cancelled && has_entries(given[i as int])));
                if state.metas().len() > 0 {
                    end_has_room(
                        &state,
                        account,
                        stored@[i as int]@,
                        m,
                        t - end_storages(given, i as nat),
                    );
                }
            }
        }
        proof {
            let here = stored@[i as int]@;
            if !cancelled && state.metas().len() > 0 && exists|m: int, t: int| #[trigger]
                told_to_end(old(account).nodes(), given, stored@, m, t) {
                let (m, t) = choose|m: int, t: int| #[trigger]
                    told_to_end(old(account).nodes(), given, stored@, m, t);
                let left = t - end_storages(given, i as nat);
                damage_has_room(&state, account, here, m, left);
                if !damaged(state.metas(), here) {
                    told_and_whole(state, here);
                    end_has_room(&state, account, here, m, left);
                }
            }
        }
        match state.finish(account, &stored[i], cancelled) {
            Ok(s) => {
                proof {
                    assert forall|m: int, t: int| #[trigger]
                        told_to_end(old(account).nodes(), given, stored@, m, t)
                            && !cancelled implies spare(
                        account.nodes(),
                        m,
                        t - end_storages(given, (i + 1) as nat),
                    ) by {
                        assert(ends_told(given[i as int], stored@[i as int]@));
                        told_and_whole(given[i as int], stored@[i as int]@);
                        spare_once_stored(
                            before,
                            account.nodes(),
                            m,
                            t - end_storages(given, i as nat),
                            given[i as int].end_storage(),
                        );
                    }
                    assert(ended(
                        given[i as int],
                        stored@[i as int]@,
                        old(account).spec_limits().max_samples as nat,
                        s,
                        cancelled,
                    ));
                    assert forall|m: int, t: int| #[trigger]
                        room_to_end(old(account).nodes(), given, stored@, m, t) && runs_on(
                            given,
                            cancelled,
                        ) implies spare(
                        account.nodes(),
                        m,
                        t - end_storages(given, (i + 1) as nat),
                    ) by {
                        assert(ends_whole(given[i as int], stored@[i as int]@));
                        spare_once_stored(
                            before,
                            account.nodes(),
                            m,
                            t - end_storages(given, i as nat),
                            given[i as int].end_storage(),
                        );
                    }
                }
                out.push(s);
            },
            Err(e) => {
                assert(forall|m: int, t: int|
                    runs_on(given, cancelled) ==> !#[trigger] room_to_end(
                        old(account).nodes(),
                        given,
                        stored@,
                        m,
                        t,
                    ));
                proof {
                    if states_restored(given, stored@) {
                        assert(given[i as int].restored(stored@[i as int]@));
                    }
                    if !cancelled && exists|m: int, t: int| #[trigger]
                        told_to_end(old(account).nodes(), given, stored@, m, t) {
                        assert(damaged(given[i as int].metas(), stored@[i as int]@));
                    }
                }
                return Err(e);
            },
        }
    }
    assert(out@.len() == states@.len());
    assert(!some_damaged(states@, stored@));
    Ok(out)
}

/// Whether a finished dataset is what a state came to: its counts, totals and steps, and the
/// summaries of its exact states, with what they cost.
pub open spec fn came_to(
    s: DatasetState,
    stored: DatasetStored<'_>,
    samples: nat,
    f: FinishedDataset,
) -> bool {
    &&& f.null_counts == s.null_counts
    &&& f.gaps == s.gaps
    &&& f.sums == s.sums
    &&& f.distinct@.len() == s.distinct@.len()
    &&& f.composites@.len() == s.composites@.len()
    &&& f.conditional@.len() == s.conditional@.len()
    &&& exists|counted: Seq<ExactSummary>|
        #![trigger cost_of(DatasetMetrics { spill_bytes: 0, exact_runs: 0 }, counted, counted.len())]
        counted.len() == f.distinct@.len() && (forall|i: int|
            #![trigger f.distinct@[i]]
            0 <= i < f.distinct@.len() ==> f.distinct@[i].rules
                == s.distinct@[i].rules && summary_of(
                s.distinct@[i].exact,
                stored.distinct@[i]@,
                samples,
                counted[i],
            ) && s.distinct@[i].exact.runs_metered(
                stored.distinct@[i]@,
                counted[i].metrics,
            )
                && f.distinct@[i].distinct == capped(
                counted[i].distinct_count as nat + if s.distinct@[i].saw_null {
                    1nat
                } else {
                    0nat
                },
            )) && f.metrics == cost_of(
            cost_of(
                cost_of(
                    DatasetMetrics { spill_bytes: 0, exact_runs: 0 },
                    counted,
                    counted.len(),
                ),
                f.composites@,
                f.composites@.len(),
            ),
            f.conditional@,
            f.conditional@.len(),
        )
    &&& forall|i: int|
        #![trigger f.composites@[i]]
        0 <= i < f.composites@.len() ==> summary_of(
            s.composites@[i],
            stored.composites@[i]@,
            samples,
            f.composites@[i],
        ) && s.composites@[i].runs_metered(
            stored.composites@[i]@,
            f.composites@[i].metrics,
        )
    &&& forall|i: int|
        #![trigger f.conditional@[i]]
        0 <= i < f.conditional@.len() ==> summary_of(
            s.conditional@[i],
            stored.conditional@[i]@,
            samples,
            f.conditional@[i],
        ) && s.conditional@[i].runs_metered(
            stored.conditional@[i]@,
            f.conditional@[i].metrics,
        )
}

impl DatasetState {
    /// Whether every exact state can be finished with the runs that are stored for it.
    pub open spec fn can_end(&self, stored: DatasetStored<'_>) -> bool {
        &&& stored.distinct@.len() == self.distinct@.len()
        &&& stored.composites@.len() == self.composites@.len()
        &&& stored.conditional@.len() == self.conditional@.len()
        &&& forall|i: int|
            #![trigger self.distinct@[i]]
            0 <= i < self.distinct@.len() ==> finishable(
                self.distinct@[i].exact,
                stored.distinct@[i]@,
            )
        &&& forall|i: int|
            #![trigger self.composites@[i]]
            0 <= i < self.composites@.len() ==> finishable(
                self.composites@[i],
                stored.composites@[i]@,
            )
        &&& forall|i: int|
            #![trigger self.conditional@[i]]
            0 <= i < self.conditional@.len() ==> finishable(
                self.conditional@[i],
                stored.conditional@[i]@,
            )
    }

    /// Whether no exact state wrote a run, and none with values meets a cancelled token.
    pub open spec fn ends_in_memory(&self, cancelled: bool) -> bool {
        &&& forall|i: int|
            #![trigger self.distinct@[i]]
            0 <= i < self.distinct@.len() ==> self.distinct@[i].exact.metas().len() == 0 && !(
            cancelled && self.distinct@[i].exact.in_memory().len() > 0)
        &&& forall|i: int|
            #![trigger self.composites@[i]]
            0 <= i < self.composites@.len() ==> self.composites@[i].metas().len() == 0 && !(
            cancelled && self.composites@[i].in_memory().len() > 0)
        &&& forall|i: int|
            #![trigger self.conditional@[i]]
            0 <= i < self.conditional@.len() ==> self.conditional@[i].metas().len() == 0 && !(
            cancelled && self.conditional@[i].in_memory().len() > 0)
    }

    /// Whether every exact state has its runs, and every node of an account has so much
    /// room, which is enough for finishing all of them.
    pub open spec fn ends_with_room(
        &self,
        account: ResourceAccount,
        stored: DatasetStored<'_>,
        memory: int,
        temp: int,
    ) -> bool {
        let distinct = exacts_of(self.distinct@);
        &&& spare(account.nodes(), memory, temp)
        &&& all_end(distinct, stored.distinct@, memory)
        &&& all_end(self.composites@, stored.composites@, memory)
        &&& all_end(self.conditional@, stored.conditional@, memory)
        &&& temp >= self.end_storage()
    }

    /// The temporary storage that finishing every exact state takes.
    pub open spec fn end_storage(&self) -> int {
        let distinct = exacts_of(self.distinct@);
        end_storages(distinct, distinct.len()) + end_storages(
            self.composites@,
            self.composites@.len(),
        ) + end_storages(self.conditional@, self.conditional@.len())
    }

    /// Whether every exact state has the runs that it wrote.
    pub open spec fn restored(&self, stored: DatasetStored<'_>) -> bool {
        &&& states_restored(exacts_of(self.distinct@), stored.distinct@)
        &&& states_restored(self.composites@, stored.composites@)
        &&& states_restored(self.conditional@, stored.conditional@)
    }

    /// Whether a run of some exact state is damaged.
    pub open spec fn damaged(&self, stored: DatasetStored<'_>) -> bool {
        ||| some_damaged(exacts_of(self.distinct@), stored.distinct@)
        ||| some_damaged(self.composites@, stored.composites@)
        ||| some_damaged(self.conditional@, stored.conditional@)
    }

    /// Whether the runs of every exact state show their damage, and every node of an account
    /// has so much room, which is enough for finishing all of them.
    pub open spec fn told_with_room(
        &self,
        account: ResourceAccount,
        stored: DatasetStored<'_>,
        memory: int,
        temp: int,
    ) -> bool {
        let distinct = exacts_of(self.distinct@);
        &&& spare(account.nodes(), memory, temp)
        &&& all_told(distinct, stored.distinct@, memory)
        &&& all_told(self.composites@, stored.composites@, memory)
        &&& all_told(self.conditional@, stored.conditional@, memory)
        &&& temp >= self.end_storage()
    }

    /// Whether no exact state with anything in it meets a cancelled operation.
    pub open spec fn runs_on(&self, cancelled: bool) -> bool {
        &&& runs_on(exacts_of(self.distinct@), cancelled)
        &&& runs_on(self.composites@, cancelled)
        &&& runs_on(self.conditional@, cancelled)
    }

    /// Merges every exact state: the counted columns, the composite rules, then the
    /// conditional rules.
    pub fn finish(
        self,
        account: &mut ResourceAccount,
        stored: &DatasetStored<'_>,
        cancelled: bool,
    ) -> (r: Result<FinishedDataset, ProofFrameError>)
        requires
            old(account).wf(),
            self.wf(*old(account)),
            self.can_end(*stored),
        ensures
            same_account(*old(account), *final(account)),
            self.ends_in_memory(cancelled) ==> r is Ok,
            r matches Err(e) ==> (if cancelled {
                e@ == ErrorView::Cancelled
            } else {
                e@ is CorruptData || e@ is ResourceLimit
            }),
            !cancelled && self.restored(*stored) ==> (r matches Err(e) ==> not_merged(e@)),
            self.damaged(*stored) ==> r is Err,
            !cancelled && self.damaged(*stored) ==> forall|m: int, t: int| #[trigger]
                self.told_with_room(*old(account), *stored, m, t) ==> (r matches Err(e)
                    && e@ is CorruptData),
            self.runs_on(cancelled) ==> forall|m: int, t: int| #[trigger]
                self.ends_with_room(*old(account), *stored, m, t) ==> r is Ok && spare(
                    final(account).nodes(),
                    m,
                    t - self.end_storage(),
                ),
            r matches Ok(f) ==> came_to(
                self,
                *stored,
                old(account).spec_limits().max_samples as nat,
                f,
            ),
    {
        let ghost given = self;
        let mut rest = self.distinct;
        let mut exacts: Vec<ExactState> = Vec::new();
        let mut rules: Vec<(DistinctSpec, bool)> = Vec::new();
        while rest.len() > 0
            invariant
                rest@.len() <= given.distinct@.len(),
                exacts@.len() == given.distinct@.len() - rest@.len(),
                rules@.len() == exacts@.len(),
                rest@ == given.distinct@.skip(exacts@.len() as int),
                forall|i: int|
                    #![trigger exacts@[i]]
                    0 <= i < exacts@.len() ==> exacts@[i] == given.distinct@[i].exact && rules@[i]
                        == (given.distinct@[i].rules, given.distinct@[i].saw_null),
            decreases rest@.len(),
        {
            let ghost i = exacts@.len() as int;
            let state = rest.remove(0);
            assert(state == given.distinct@[i]);
            assert(rest@ =~= given.distinct@.skip(i + 1));
            exacts.push(state.exact);
            rules.push((state.rules, state.saw_null));
        }
        let ghost firsts = exacts_of(given.distinct@);
        let ghost x0 = account.nodes();
        proof {
            assert(exacts@ =~= firsts);
            storages_grow(given.composites@, 0, given.composites@.len());
            storages_grow(given.conditional@, 0, given.conditional@.len());
            assert forall|m: int, t: int| #[trigger]
                given.ends_with_room(*old(account), *stored, m, t) implies room_to_end(
                x0,
                firsts,
                stored.distinct@,
                m,
                t,
            ) by {}
            assert forall|m: int, t: int| #[trigger]
                given.told_with_room(*old(account), *stored, m, t) implies told_to_end(
                x0,
                firsts,
                stored.distinct@,
                m,
                t,
            ) by {}
        }
        let counted = match finish_all(exacts, account, &stored.distinct, cancelled) {
            Ok(v) => v,
            Err(e) => return Err(e),
        };
        let ghost x1 = account.nodes();
        proof {
            assert forall|m: int, t: int| #[trigger]
                given.ends_with_room(*old(account), *stored, m, t) && given.runs_on(
                    cancelled,
                ) implies room_to_end(
                x1,
                given.composites@,
                stored.composites@,
                m,
                t - end_storages(firsts, firsts.len()),
            ) by {
                assert(room_to_end(x0, firsts, stored.distinct@, m, t));
            }
            assert forall|m: int, t: int| #[trigger]
                given.told_with_room(*old(account), *stored, m, t)
                    && !cancelled implies told_to_end(
                x1,
                given.composites@,
                stored.composites@,
                m,
                t - end_storages(firsts, firsts.len()),
            ) by {
                assert(told_to_end(x0, firsts, stored.distinct@, m, t));
            }
        }
        let mut distinct: Vec<DistinctOutcome> = Vec::new();
        let mut i: usize = 0;
        while i < counted.len()
            invariant
                i <= counted@.len(),
                counted@.len() == rules@.len(),
                distinct@.len() == i,
                forall|k: int|
                    #![trigger distinct@[k]]
                    0 <= k < distinct@.len() ==> distinct@[k].rules == rules@[k].0
                        && distinct@[k].distinct == capped(
                        counted@[k].distinct_count as nat + if rules@[k].1 {
                            1nat
                        } else {
                            0nat
                        },
                    ),
            decreases counted@.len() - i,
        {
            let one: u64 = if rules[i].1 {
                1
            } else {
                0
            };
            distinct.push(
                DistinctOutcome {
                    rules: rules[i].0,
                    distinct: counted[i].distinct_count.saturating_add(one),
                },
            );
            i = i + 1;
        }
        let metrics = add_costs(DatasetMetrics { spill_bytes: 0, exact_runs: 0 }, &counted);
        let composites = match finish_all(
            self.composites,
            account,
            &stored.composites,
            cancelled,
        ) {
            Ok(v) => v,
            Err(e) => return Err(e),
        };
        let metrics = add_costs(metrics, &composites);
        let ghost x2 = account.nodes();
        proof {
            let a = end_storages(firsts, firsts.len());
            let b = end_storages(given.composites@, given.composites@.len());
            assert forall|m: int, t: int| #[trigger]
                given.ends_with_room(*old(account), *stored, m, t) && given.runs_on(
                    cancelled,
                ) implies room_to_end(
                x2,
                given.conditional@,
                stored.conditional@,
                m,
                t - a - b,
            ) by {
                assert(room_to_end(x1, given.composites@, stored.composites@, m, t - a));
            }
            assert forall|m: int, t: int| #[trigger]
                given.told_with_room(*old(account), *stored, m, t)
                    && !cancelled implies told_to_end(
                x2,
                given.conditional@,
                stored.conditional@,
                m,
                t - a - b,
            ) by {
                assert(told_to_end(x1, given.composites@, stored.composites@, m, t - a));
            }
        }
        let conditional = match finish_all(
            self.conditional,
            account,
            &stored.conditional,
            cancelled,
        ) {
            Ok(v) => v,
            Err(e) => return Err(e),
        };
        let metrics = add_costs(metrics, &conditional);
        proof {
            let a = end_storages(firsts, firsts.len());
            let b = end_storages(given.composites@, given.composites@.len());
            assert forall|m: int, t: int| #[trigger]
                given.ends_with_room(*old(account), *stored, m, t) && given.runs_on(
                    cancelled,
                ) implies spare(account.nodes(), m, t - given.end_storage()) by {
                assert(room_to_end(
                    x2,
                    given.conditional@,
                    stored.conditional@,
                    m,
                    t - a - b,
                ));
            }
        }
        let f = FinishedDataset {
            null_counts: self.null_counts,
            distinct,
            composites,
            conditional,
            gaps: self.gaps,
            sums: self.sums,
            metrics,
        };
        assert forall|k: int|
            #![trigger f.distinct@[k]]
            0 <= k < f.distinct@.len() implies f.distinct@[k].rules == given.distinct@[k].rules
            && summary_of(
            given.distinct@[k].exact,
            stored.distinct@[k]@,
            old(account).spec_limits().max_samples as nat,
            counted@[k],
        ) && given.distinct@[k].exact.runs_metered(
            stored.distinct@[k]@,
            counted@[k].metrics,
        ) by {
            assert(exacts@[k] == given.distinct@[k].exact);
        }
        Ok(f)
    }
}

/// A statistic that the caller worked out of so many values.
#[derive(Debug)]
pub struct Statistic {
    pub measured: Measured,
    pub count: u64,
}

/// What only floating-point arithmetic gives: the statistics, the float totals, and the
/// spellings of step lengths and ratios.
#[derive(Debug)]
pub struct Measurements {
    pub statistics: Vec<Option<Statistic>>,
    pub totals: Vec<Measured>,
    pub steps: Vec<String>,
    pub null_ratios: Vec<String>,
    pub distinct_ratios: Vec<String>,
}

/// A finding on the dataset as a whole or on one column, at no row.
pub open spec fn plain_finding(
    rule: Seq<char>,
    column: Seq<char>,
    row: Option<u64>,
    message: Seq<char>,
) -> FindingView {
    FindingView { rule, column, row, message }
}

/// The finding of a statistic rule, if any.
pub open spec fn statistic_finding(plan: StatisticPlan, observed: Option<Statistic>) -> Seq<
    FindingView,
> {
    match observed {
        None => seq![
            plain_finding(
                plan.kind.spec_label(),
                plan.column@,
                None,
                "Rule `"@ + plan.name@ + "` had no value to take a "@ + plan.kind.spec_label()
                    + " from"@,
            ),
        ],
        Some(s) => match float_outside(s.measured, plan.min, plan.max) {
            Some(reason) => seq![
                plain_finding(
                    plan.kind.spec_label(),
                    plan.column@,
                    None,
                    "Rule `"@ + plan.name@ + "` has "@ + plan.kind.spec_label() + " "@
                        + s.measured.shown@ + " over "@ + decimal(s.count as nat)
                        + " value(s), which is "@ + reason,
                ),
            ],
            None => Seq::empty(),
        },
    }
}

/// The finding of a total rule, if any.
pub open spec fn sum_finding(plan: SumPlan, sum: i128, measured: Measured) -> Seq<FindingView> {
    match plan.bounds {
        SumBounds::Integer { .. } => match total_outside(Total::Integer(sum), plan.bounds) {
            Some(reason) => seq![
                plain_finding(
                    "sum"@,
                    plan.column@,
                    None,
                    "Rule `"@ + plan.name@ + "` totals "@ + decimal_int(sum as int)
                        + ", which is "@ + reason,
                ),
            ],
            None => Seq::empty(),
        },
        SumBounds::Float { min, max } => match float_outside(measured, min, max) {
            Some(reason) => seq![
                plain_finding(
                    "sum"@,
                    plan.column@,
                    None,
                    "Rule `"@ + plan.name@ + "` totals "@ + measured.shown@ + ", which is "@
                        + reason,
                ),
            ],
            None => Seq::empty(),
        },
    }
}

/// The finding of a step rule, if any.
pub open spec fn gap_finding(plan: GapDetectionPlan, state: GapState, step: Seq<char>) -> Seq<
    FindingView,
> {
    if state.gaps <= plan.max_gaps {
        Seq::empty()
    } else {
        seq![
            plain_finding(
                "gap_detection"@,
                plan.column@,
                state.first_row,
                "Rule `"@ + plan.name@ + "` found "@ + decimal(state.gaps as nat)
                    + " step(s) longer than "@ + step + " "@ + plan.unit@ + " (allowed "@
                    + decimal(plan.max_gaps as nat) + ")"@,
            ),
        ]
    }
}

/// Whether a count keeps a range.
pub open spec fn count_in(range: CountRangeAst, n: u64) -> bool {
    &&& range.exact matches Some(e) ==> n == e
    &&& range.min matches Some(e) ==> n >= e
    &&& range.max matches Some(e) ==> n <= e
}

/// Whether a fraction keeps a range.
pub open spec fn ratio_in(range: RatioRangeAst, part: u64, whole: u64) -> bool {
    &&& range.min matches Some(bound) ==> fraction_order(part, whole, bound) != Order::Less
    &&& range.max matches Some(bound) ==> fraction_order(part, whole, bound) != Order::Greater
}

/// Whether a count keeps a range.
pub fn count_keeps(range: CountRangeAst, n: u64) -> (r: bool)
    ensures
        r == count_in(range, n),
{
    let exact = match range.exact {
        Some(e) => n == e,
        None => true,
    };
    let low = match range.min {
        Some(e) => n >= e,
        None => true,
    };
    let high = match range.max {
        Some(e) => n <= e,
        None => true,
    };
    exact && low && high
}

/// Whether a fraction keeps a range, with no rounding of the counts.
pub fn ratio_keeps(range: RatioRangeAst, part: u64, whole: u64) -> (r: bool)
    ensures
        r == ratio_in(range, part, whole),
{
    let low = match range.min {
        Some(bound) => compare_fraction_to_bound(part, whole, bound) != Order::Less,
        None => true,
    };
    let high = match range.max {
        Some(bound) => compare_fraction_to_bound(part, whole, bound) != Order::Greater,
        None => true,
    };
    low && high
}

/// The finding on the row count, if any.
pub open spec fn row_count_finding(range: Option<CountRangeAst>, rows: u64) -> Seq<FindingView> {
    match range {
        Some(c) => if count_in(c, rows) {
            Seq::empty()
        } else {
            seq![
                plain_finding(
                    "row_count"@,
                    "$dataset"@,
                    None,
                    "Dataset row count `"@ + decimal(rows as nat)
                        + "` is outside the contract range"@,
                ),
            ]
        },
        None => Seq::empty(),
    }
}

/// The finding of a null-ratio rule, if any.
pub open spec fn null_ratio_finding(
    plan: RatioPlan,
    nulls: u64,
    rows: u64,
    shown: Seq<char>,
) -> Seq<FindingView> {
    if ratio_in(plan.range, nulls, rows) {
        Seq::empty()
    } else {
        seq![
            plain_finding(
                "null_ratio"@,
                plan.column@,
                None,
                "Null ratio `"@ + shown + "` is outside the contract range"@,
            ),
        ]
    }
}

/// The name of a counted column.
pub open spec fn distinct_column(plan: DatasetPlan, rules: DistinctSpec) -> Seq<char> {
    match rules.count_rule {
        Some(k) => plan.distinct_counts@[k as int].column@,
        None => plan.distinct_ratios@[rules.ratio_rule.unwrap() as int].column@,
    }
}

/// The findings on a counted column: on the count, then on the ratio.
pub open spec fn distinct_findings(
    plan: DatasetPlan,
    outcome: DistinctOutcome,
    rows: u64,
    shown: Seq<char>,
) -> Seq<FindingView> {
    (match outcome.rules.count_rule {
        Some(k) => if count_in(plan.distinct_counts@[k as int].range, outcome.distinct) {
            Seq::empty()
        } else {
            seq![
                plain_finding(
                    "distinct_count"@,
                    distinct_column(plan, outcome.rules),
                    None,
                    "Exact distinct count `"@ + decimal(outcome.distinct as nat)
                        + "` is outside the contract range"@,
                ),
            ]
        },
        None => Seq::empty(),
    }) + (match outcome.rules.ratio_rule {
        Some(k) => if ratio_in(plan.distinct_ratios@[k as int].range, outcome.distinct, rows) {
            Seq::empty()
        } else {
            seq![
                plain_finding(
                    "distinct_ratio"@,
                    distinct_column(plan, outcome.rules),
                    None,
                    "Exact distinct ratio `"@ + shown + "` is outside the contract range"@,
                ),
            ]
        },
        None => Seq::empty(),
    })
}

/// The findings on sampled duplicates.
pub open spec fn duplicate_findings(
    rule: Seq<char>,
    message: Seq<char>,
    samples: Seq<DuplicateSample>,
) -> Seq<FindingView> {
    Seq::new(
        samples.len(),
        |i: int| plain_finding(rule, "$dataset"@, Some(samples[i].duplicate_row), message),
    )
}

/// What the duplicates of one rule add: a finding for each sample, and the rest counted.
pub open spec fn with_duplicates(
    f: Found,
    rule: Seq<char>,
    message: Seq<char>,
    summary: ExactSummary,
) -> Found {
    let sampled = summary.duplicate_samples@.len();
    counted_more(
        recorded_all(f, duplicate_findings(rule, message, summary.duplicate_samples@)),
        if summary.duplicate_count >= sampled {
            (summary.duplicate_count - sampled) as nat
        } else {
            0
        },
    )
}

/// What the first `n` composite rules add.
pub open spec fn with_composites(
    f: Found,
    rules: Seq<CompositeUniquePlan>,
    summaries: Seq<ExactSummary>,
    n: nat,
) -> Found
    decreases n,
{
    if n == 0 {
        f
    } else {
        with_duplicates(
            with_composites(f, rules, summaries, (n - 1) as nat),
            "composite_unique"@,
            "Composite rule `"@ + rules[n - 1].name@ + "` found a duplicate key"@,
            summaries[n - 1],
        )
    }
}

/// What the first `n` conditional rules add.
pub open spec fn with_conditional(
    f: Found,
    rules: Seq<ConditionalUniquePlan>,
    summaries: Seq<ExactSummary>,
    n: nat,
) -> Found
    decreases n,
{
    if n == 0 {
        f
    } else {
        with_duplicates(
            with_conditional(f, rules, summaries, (n - 1) as nat),
            "conditional_unique"@,
            "Rule `"@ + rules[n - 1].name@ + "` found a duplicate among the rows it selects"@,
            summaries[n - 1],
        )
    }
}

/// The findings of the statistic rules.
pub open spec fn statistic_lists(plan: DatasetPlan, m: Measurements) -> Seq<Seq<FindingView>> {
    Seq::new(
        plan.statistics@.len(),
        |i: int| statistic_finding(plan.statistics@[i], m.statistics@[i]),
    )
}

/// The findings of the total rules.
pub open spec fn sum_lists(plan: DatasetPlan, f: FinishedDataset, m: Measurements) -> Seq<
    Seq<FindingView>,
> {
    Seq::new(
        plan.sums@.len(),
        |i: int| sum_finding(plan.sums@[i], f.sums@[i], m.totals@[i]),
    )
}

/// The findings of the step rules.
pub open spec fn gap_lists(plan: DatasetPlan, f: FinishedDataset, m: Measurements) -> Seq<
    Seq<FindingView>,
> {
    Seq::new(
        plan.gap_detection@.len(),
        |i: int| gap_finding(plan.gap_detection@[i], f.gaps@[i], m.steps@[i]@),
    )
}

/// The findings of the null-ratio rules.
pub open spec fn null_lists(
    plan: DatasetPlan,
    f: FinishedDataset,
    m: Measurements,
    rows: u64,
) -> Seq<Seq<FindingView>> {
    Seq::new(
        plan.null_ratios@.len(),
        |i: int|
            null_ratio_finding(
                plan.null_ratios@[i],
                f.null_counts@[i],
                rows,
                m.null_ratios@[i]@,
            ),
    )
}

/// The findings on counted columns.
pub open spec fn distinct_lists(
    plan: DatasetPlan,
    f: FinishedDataset,
    m: Measurements,
    rows: u64,
) -> Seq<Seq<FindingView>> {
    Seq::new(
        f.distinct@.len(),
        |i: int| distinct_findings(plan, f.distinct@[i], rows, m.distinct_ratios@[i]@),
    )
}

/// Every finding but those on duplicates, in order.
pub open spec fn closing_findings(
    plan: DatasetPlan,
    f: FinishedDataset,
    m: Measurements,
    rows: u64,
) -> Seq<FindingView> {
    all_of(statistic_lists(plan, m), plan.statistics@.len()) + all_of(
        sum_lists(plan, f, m),
        plan.sums@.len(),
    ) + all_of(gap_lists(plan, f, m), plan.gap_detection@.len()) + row_count_finding(
        plan.row_count,
        rows,
    ) + all_of(null_lists(plan, f, m, rows), plan.null_ratios@.len()) + all_of(
        distinct_lists(plan, f, m, rows),
        f.distinct@.len(),
    )
}

/// What was found once the verdict of every rule is recorded: the findings of the rules, then
/// the duplicates of the composite and of the conditional rules.
pub open spec fn concluded(
    found: Found,
    plan: DatasetPlan,
    f: FinishedDataset,
    m: Measurements,
    rows: u64,
) -> Found {
    with_conditional(
        with_composites(
            recorded_all(found, closing_findings(plan, f, m, rows)),
            plan.composite_unique@,
            f.composites@,
            plan.composite_unique@.len(),
        ),
        plan.conditional_unique@,
        f.conditional@,
        plan.conditional_unique@.len(),
    )
}

/// Whether what was finished and measured has a place for every rule of a plan.
pub open spec fn measured_for(plan: DatasetPlan, f: FinishedDataset, m: Measurements) -> bool {
    &&& m.statistics@.len() == plan.statistics@.len()
    &&& m.totals@.len() == plan.sums@.len()
    &&& f.sums@.len() == plan.sums@.len()
    &&& m.steps@.len() == plan.gap_detection@.len()
    &&& f.gaps@.len() == plan.gap_detection@.len()
    &&& m.null_ratios@.len() == plan.null_ratios@.len()
    &&& f.null_counts@.len() == plan.null_ratios@.len()
    &&& m.distinct_ratios@.len() == f.distinct@.len()
    &&& f.composites@.len() == plan.composite_unique@.len()
    &&& f.conditional@.len() == plan.conditional_unique@.len()
    &&& forall|i: int|
        #![trigger f.distinct@[i]]
        0 <= i < f.distinct@.len() ==> (f.distinct@[i].rules.count_rule matches Some(k) ==> k
            < plan.distinct_counts@.len()) && (f.distinct@[i].rules.ratio_rule matches Some(k)
            ==> k < plan.distinct_ratios@.len()) && (f.distinct@[i].rules.count_rule is Some
            || f.distinct@[i].rules.ratio_rule is Some)
}

/// The duplicates of one rule, reported.
pub fn report_duplicates(
    rule: &'static str,
    message: &str,
    summary: &ExactSummary,
    validation: &mut ValidationState,
)
    requires
        old(validation).wf(),
    ensures
        final(validation).wf(),
        final(validation).offered() == old(validation).offered(),
        final(validation)@ == with_duplicates(old(validation)@, rule@, message@, *summary),
{
    let ghost list = duplicate_findings(rule@, message@, summary.duplicate_samples@);
    let mut i: usize = 0;
    assert(list.take(0) =~= Seq::empty());
    while i < summary.duplicate_samples.len()
        invariant
            i <= summary.duplicate_samples@.len(),
            list == duplicate_findings(rule@, message@, summary.duplicate_samples@),
            validation.wf(),
            validation.offered() == old(validation).offered(),
            validation@ == recorded_all(old(validation)@, list.take(i as int)),
        decreases summary.duplicate_samples@.len() - i,
    {
        assert(list.take(i + 1).drop_last() =~= list.take(i as int));
        validation.record(
            Finding {
                rule,
                column: text("$dataset"),
                row: Some(summary.duplicate_samples[i].duplicate_row),
                message: text(message),
            },
        );
        i = i + 1;
    }
    assert(list.take(list.len() as int) =~= list);
    let sampled: u64 = summary.duplicate_samples.len() as u64;
    validation.count_more(summary.duplicate_count.saturating_sub(sampled));
}

fn statistic_verdict(plan: &StatisticPlan, observed: &Option<Statistic>) -> (r: Option<Finding>)
    ensures
        match r {
            Some(f) => statistic_finding(*plan, *observed) == seq![f@],
            None => statistic_finding(*plan, *observed) == Seq::<FindingView>::empty(),
        },
{
    let label = plan.kind.label();
    match observed {
        None => Some(
            Finding {
                rule: label,
                column: plan.column.clone(),
                row: None,
                message: cat5(
                    "Rule `",
                    plan.name.as_str(),
                    "` had no value to take a ",
                    label,
                    " from",
                ),
            },
        ),
        Some(s) => match measured_outside(&s.measured, plan.min, plan.max) {
            Some(reason) => {
                let count = decimal_u64(s.count);
                let start = cat7(
                    "Rule `",
                    plan.name.as_str(),
                    "` has ",
                    label,
                    " ",
                    s.measured.shown.as_str(),
                    " over ",
                );
                Some(
                    Finding {
                        rule: label,
                        column: plan.column.clone(),
                        row: None,
                        message: cat4(
                            start.as_str(),
                            count.as_str(),
                            " value(s), which is ",
                            reason.as_str(),
                        ),
                    },
                )
            },
            None => None,
        },
    }
}

fn sum_verdict(plan: &SumPlan, sum: i128, measured: &Measured) -> (r: Option<Finding>)
    ensures
        match r {
            Some(f) => sum_finding(*plan, sum, *measured) == seq![f@],
            None => sum_finding(*plan, sum, *measured) == Seq::<FindingView>::empty(),
        },
{
    let (reason, shown) = match plan.bounds {
        SumBounds::Integer { .. } => (
            outside(&Total::Integer(sum), &plan.bounds),
            decimal_i128(sum),
        ),
        SumBounds::Float { min, max } => (
            measured_outside(measured, min, max),
            measured.shown.clone(),
        ),
    };
    match reason {
        Some(why) => {
            let start = cat4("Rule `", plan.name.as_str(), "` totals ", shown.as_str());
            Some(
                Finding {
                    rule: "sum",
                    column: plan.column.clone(),
                    row: None,
                    message: cat3(start.as_str(), ", which is ", why.as_str()),
                },
            )
        },
        None => None,
    }
}

fn gap_verdict(plan: &GapDetectionPlan, state: &GapState, step: &str) -> (r: Option<Finding>)
    ensures
        match r {
            Some(f) => gap_finding(*plan, *state, step@) == seq![f@],
            None => gap_finding(*plan, *state, step@) == Seq::<FindingView>::empty(),
        },
{
    if state.gaps <= plan.max_gaps {
        return None;
    }
    let gaps = decimal_u64(state.gaps);
    let allowed = decimal_u64(plan.max_gaps);
    let start = cat5(
        "Rule `",
        plan.name.as_str(),
        "` found ",
        gaps.as_str(),
        " step(s) longer than ",
    );
    let middle = cat4(start.as_str(), step, " ", plan.unit);
    Some(
        Finding {
            rule: "gap_detection",
            column: plan.column.clone(),
            row: state.first_row,
            message: cat4(middle.as_str(), " (allowed ", allowed.as_str(), ")"),
        },
    )
}

fn row_count_verdict(range: Option<CountRangeAst>, rows: u64) -> (r: Option<Finding>)
    ensures
        match r {
            Some(f) => row_count_finding(range, rows) == seq![f@],
            None => row_count_finding(range, rows) == Seq::<FindingView>::empty(),
        },
{
    match range {
        Some(c) => if count_keeps(c, rows) {
            None
        } else {
            let n = decimal_u64(rows);
            Some(
                Finding {
                    rule: "row_count",
                    column: text("$dataset"),
                    row: None,
                    message: cat3(
                        "Dataset row count `",
                        n.as_str(),
                        "` is outside the contract range",
                    ),
                },
            )
        },
        None => None,
    }
}

fn null_ratio_verdict(plan: &RatioPlan, nulls: u64, rows: u64, shown: &str) -> (r: Option<Finding>)
    ensures
        match r {
            Some(f) => null_ratio_finding(*plan, nulls, rows, shown@) == seq![f@],
            None => null_ratio_finding(*plan, nulls, rows, shown@) == Seq::<FindingView>::empty(),
        },
{
    if ratio_keeps(plan.range, nulls, rows) {
        return None;
    }
    Some(
        Finding {
            rule: "null_ratio",
            column: plan.column.clone(),
            row: None,
            message: cat3("Null ratio `", shown, "` is outside the contract range"),
        },
    )
}

/// Records a finding, if there is one.
fn record_any(found: Option<Finding>, validation: &mut ValidationState, Ghost(list): Ghost<
    Seq<FindingView>,
>)
    requires
        old(validation).wf(),
        match found {
            Some(f) => list == seq![f@],
            None => list == Seq::<FindingView>::empty(),
        },
    ensures
        final(validation).wf(),
        final(validation).offered() == old(validation).offered(),
        final(validation)@ == recorded_all(old(validation)@, list),
{
    match found {
        Some(f) => {
            proof {
                assert(list.drop_last() =~= Seq::empty());
                assert(recorded_all(validation@, list.drop_last()) == validation@);
            }
            validation.record(f);
        },
        None => {},
    }
}

fn distinct_verdicts(
    plan: &DatasetPlan,
    outcome: &DistinctOutcome,
    rows: u64,
    shown: &str,
    validation: &mut ValidationState,
)
    requires
        old(validation).wf(),
        outcome.rules.count_rule matches Some(k) ==> k < plan.distinct_counts@.len(),
        outcome.rules.ratio_rule matches Some(k) ==> k < plan.distinct_ratios@.len(),
        outcome.rules.count_rule is Some || outcome.rules.ratio_rule is Some,
    ensures
        final(validation).wf(),
        final(validation).offered() == old(validation).offered(),
        final(validation)@ == recorded_all(
            old(validation)@,
            distinct_findings(*plan, *outcome, rows, shown@),
        ),
{
    let column = match outcome.rules.count_rule {
        Some(k) => plan.distinct_counts[k].column.clone(),
        None => match outcome.rules.ratio_rule {
            Some(k) => plan.distinct_ratios[k].column.clone(),
            None => String::new(),
        },
    };
    let count_found = match outcome.rules.count_rule {
        Some(k) => if count_keeps(plan.distinct_counts[k].range, outcome.distinct) {
            None
        } else {
            let n = decimal_u64(outcome.distinct);
            Some(
                Finding {
                    rule: "distinct_count",
                    column: column.clone(),
                    row: None,
                    message: cat3(
                        "Exact distinct count `",
                        n.as_str(),
                        "` is outside the contract range",
                    ),
                },
            )
        },
        None => None,
    };
    let ratio_found = match outcome.rules.ratio_rule {
        Some(k) => if ratio_keeps(plan.distinct_ratios[k].range, outcome.distinct, rows) {
            None
        } else {
            Some(
                Finding {
                    rule: "distinct_ratio",
                    column,
                    row: None,
                    message: cat3(
                        "Exact distinct ratio `",
                        shown,
                        "` is outside the contract range",
                    ),
                },
            )
        },
        None => None,
    };
    let ghost a = if count_found is Some {
        seq![count_found.unwrap()@]
    } else {
        Seq::empty()
    };
    let ghost b = if ratio_found is Some {
        seq![ratio_found.unwrap()@]
    } else {
        Seq::empty()
    };
    let ghost start = validation@;
    record_any(count_found, validation, Ghost(a));
    record_any(ratio_found, validation, Ghost(b));
    proof {
        recorded_in_parts(start, a, b);
        assert(a + b =~= distinct_findings(*plan, *outcome, rows, shown@));
    }
}

impl FinishedDataset {
    /// Records the verdict of every rule: statistics, totals, steps, the row count, null
    /// ratios and counted columns, then the duplicates of composite and conditional rules.
    #[verifier::rlimit(40)]
    pub fn conclude(
        &self,
        plan: &DatasetPlan,
        rows: u64,
        m: &Measurements,
        validation: &mut ValidationState,
    )
        requires
            old(validation).wf(),
            measured_for(*plan, *self, *m),
        ensures
            final(validation).wf(),
            final(validation).offered() == old(validation).offered(),
            final(validation)@ == concluded(old(validation)@, *plan, *self, *m, rows),
    {
        let ghost f0 = validation@;
        let ghost statistics = statistic_lists(*plan, *m);
        let mut i: usize = 0;
        while i < plan.statistics.len()
            invariant
                i <= plan.statistics@.len(),
                validation.wf(),
                validation.offered() == old(validation).offered(),
                measured_for(*plan, *self, *m),
                statistics == statistic_lists(*plan, *m),
                validation@ == recorded_all(f0, all_of(statistics, i as nat)),
            decreases plan.statistics@.len() - i,
        {
            let found = statistic_verdict(&plan.statistics[i], &m.statistics[i]);
            record_any(found, validation, Ghost(statistics[i as int]));
            proof {
                recorded_in_parts(f0, all_of(statistics, i as nat), statistics[i as int]);
            }
            i = i + 1;
        }
        let ghost part = all_of(statistics, plan.statistics@.len());
        let ghost f1 = validation@;
        let ghost sums = sum_lists(*plan, *self, *m);
        let mut i: usize = 0;
        while i < plan.sums.len()
            invariant
                i <= plan.sums@.len(),
                validation.wf(),
                validation.offered() == old(validation).offered(),
                measured_for(*plan, *self, *m),
                sums == sum_lists(*plan, *self, *m),
                validation@ == recorded_all(f1, all_of(sums, i as nat)),
            decreases plan.sums@.len() - i,
        {
            let found = sum_verdict(&plan.sums[i], self.sums[i], &m.totals[i]);
            record_any(found, validation, Ghost(sums[i as int]));
            proof {
                recorded_in_parts(f1, all_of(sums, i as nat), sums[i as int]);
            }
            i = i + 1;
        }
        proof {
            recorded_in_parts(f0, part, all_of(sums, plan.sums@.len()));
        }
        let ghost part = part + all_of(sums, plan.sums@.len());
        let ghost f2 = validation@;
        let ghost gaps = gap_lists(*plan, *self, *m);
        let mut i: usize = 0;
        while i < plan.gap_detection.len()
            invariant
                i <= plan.gap_detection@.len(),
                validation.wf(),
                validation.offered() == old(validation).offered(),
                measured_for(*plan, *self, *m),
                gaps == gap_lists(*plan, *self, *m),
                validation@ == recorded_all(f2, all_of(gaps, i as nat)),
            decreases plan.gap_detection@.len() - i,
        {
            let found = gap_verdict(&plan.gap_detection[i], &self.gaps[i], m.steps[i].as_str());
            record_any(found, validation, Ghost(gaps[i as int]));
            proof {
                recorded_in_parts(f2, all_of(gaps, i as nat), gaps[i as int]);
            }
            i = i + 1;
        }
        proof {
            recorded_in_parts(f0, part, all_of(gaps, plan.gap_detection@.len()));
        }
        let ghost part = part + all_of(gaps, plan.gap_detection@.len());
        let found = row_count_verdict(plan.row_count, rows);
        record_any(found, validation, Ghost(row_count_finding(plan.row_count, rows)));
        proof {
            recorded_in_parts(f0, part, row_count_finding(plan.row_count, rows));
        }
        let ghost part = part + row_count_finding(plan.row_count, rows);
        let ghost f3 = validation@;
        let ghost nulls = null_lists(*plan, *self, *m, rows);
        let mut i: usize = 0;
        while i < plan.null_ratios.len()
            invariant
                i <= plan.null_ratios@.len(),
                validation.wf(),
                validation.offered() == old(validation).offered(),
                measured_for(*plan, *self, *m),
                nulls == null_lists(*plan, *self, *m, rows),
                validation@ == recorded_all(f3, all_of(nulls, i as nat)),
            decreases plan.null_ratios@.len() - i,
        {
            let found = null_ratio_verdict(
                &plan.null_ratios[i],
                self.null_counts[i],
                rows,
                m.null_ratios[i].as_str(),
            );
            record_any(found, validation, Ghost(nulls[i as int]));
            proof {
                recorded_in_parts(f3, all_of(nulls, i as nat), nulls[i as int]);
            }
            i = i + 1;
        }
        proof {
            recorded_in_parts(f0, part, all_of(nulls, plan.null_ratios@.len()));
        }
        let ghost part = part + all_of(nulls, plan.null_ratios@.len());
        let ghost f4 = validation@;
        let ghost counted = distinct_lists(*plan, *self, *m, rows);
        let mut i: usize = 0;
        while i < self.distinct.len()
            invariant
                i <= self.distinct@.len(),
                validation.wf(),
                validation.offered() == old(validation).offered(),
                measured_for(*plan, *self, *m),
                counted == distinct_lists(*plan, *self, *m, rows),
                validation@ == recorded_all(f4, all_of(counted, i as nat)),
            decreases self.distinct@.len() - i,
        {
            distinct_verdicts(
                plan,
                &self.distinct[i],
                rows,
                m.distinct_ratios[i].as_str(),
                validation,
            );
            proof {
                recorded_in_parts(f4, all_of(counted, i as nat), counted[i as int]);
            }
            i = i + 1;
        }
        proof {
            recorded_in_parts(f0, part, all_of(counted, self.distinct@.len()));
        }
        let ghost f5 = validation@;
        assert(f5 == recorded_all(f0, closing_findings(*plan, *self, *m, rows)));
        let mut i: usize = 0;
        while i < plan.composite_unique.len()
            invariant
                i <= plan.composite_unique@.len(),
                validation.wf(),
                validation.offered() == old(validation).offered(),
                measured_for(*plan, *self, *m),
                validation@ == with_composites(
                    f5,
                    plan.composite_unique@,
                    self.composites@,
                    i as nat,
                ),
            decreases plan.composite_unique@.len() - i,
        {
            let message = cat3(
                "Composite rule `",
                plan.composite_unique[i].name.as_str(),
                "` found a duplicate key",
            );
            report_duplicates(
                "composite_unique",
                message.as_str(),
                &self.composites[i],
                validation,
            );
            i = i + 1;
        }
        let ghost f6 = validation@;
        let mut i: usize = 0;
        while i < plan.conditional_unique.len()
            invariant
                i <= plan.conditional_unique@.len(),
                validation.wf(),
                validation.offered() == old(validation).offered(),
                measured_for(*plan, *self, *m),
                validation@ == with_conditional(
                    f6,
                    plan.conditional_unique@,
                    self.conditional@,
                    i as nat,
                ),
            decreases plan.conditional_unique@.len() - i,
        {
            let message = cat3(
                "Rule `",
                plan.conditional_unique[i].name.as_str(),
                "` found a duplicate among the rows it selects",
            );
            report_duplicates(
                "conditional_unique",
                message.as_str(),
                &self.conditional[i],
                validation,
            );
            i = i + 1;
        }
    }
}

} // verus!
