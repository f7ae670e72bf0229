//! What two exact states share, and what only the first holds.

use crate::distinct::merge::{
    anti_join, common, distinct_count, entry_rows, intersect, merged, merged_is_sorted, missing,
    value_keys, Merge, MissingValues, SharedValues, UniqueMerge,
};
use crate::distinct::order::sorted;
use crate::distinct::run::{behind_header, read_all, run_error};
use crate::distinct::state::{
    damaged, joined_length, kept, kept_run_opens, longest_of, merge_cost, merge_memory_bytes,
    open_runs, record_total, ExactState,
};
use crate::digest::blake3_digest;
use crate::error::{ErrorView, ProofFrameError};
use crate::resource::{
    as_before, charge_leaves_room, charged, less, on_path, refusal, refusal_as_before,
    release_restores, room, room_as_before, room_is_no_refusal, stop_when, MemoryReservation, ResourceAccount, ResourceKind,
};
use crate::text::text;
use vstd::prelude::*;

verus! {

/// A state whose values all stand in runs, with as many stored runs.
pub open spec fn sealed(state: &ExactState, account: &ResourceAccount, stored: Seq<&[u8]>) -> bool {
    &&& state.wf()
    &&& state.in_memory().len() == 0
    &&& state.spec_node() < account.nodes().len()
    &&& stored.len() == state.metas().len()
    &&& record_total(state.metas(), state.metas().len()) <= u64::MAX
    &&& forall|i: int|
        0 <= i < state.metas().len() ==> (#[trigger] state.metas()[i]).payload_bytes <= u64::MAX
            - 60
}

/// Opens all runs of a state, in order.
fn open_state<'a>(state: &ExactState, stored: &Vec<&'a [u8]>) -> (r: Result<
    UniqueMerge<'a>,
    ProofFrameError,
>)
    requires
        state.wf(),
        stored@.len() == state.metas().len(),
        record_total(state.metas(), state.metas().len()) <= u64::MAX,
        forall|i: int|
            0 <= i < state.metas().len() ==> (#[trigger] state.metas()[i]).payload_bytes
                <= u64::MAX - 60,
    ensures
        match r {
            Ok(m) => m.wf() && sorted(m.order()) && m.order().len() <= u64::MAX && !damaged(
                state.metas(),
                stored@,
            ) && (kept(state, stored@) ==> m.order() == merged(state.written())),
            Err(e) => e@ is CorruptData && !kept(state, stored@),
        },
{
    let n: usize = stored.len();
    let cursors = match open_runs(state.runs(), stored, n) {
        Ok(c) => c,
        Err(e) => {
            proof {
                if kept(state, stored@) {
                    assert forall|i: int| 0 <= i < n implies run_error(
                        state.metas()[i],
                        (#[trigger] stored@[i])@,
                        blake3_digest(behind_header(stored@[i]@)),
                    ) is None && sorted(
                        read_all(
                            state.metas()[i].kind,
                            stored@[i]@.skip(60),
                            state.metas()[i].records as nat,
                        )->Ok_0,
                    ) by {
                        assert(state.metas()[i].payload_bytes <= u64::MAX - 60);
                        kept_run_opens(state, stored@, i);
                    }
                    assert(false);
                }
            }
            return Err(e);
        },
    };
    let ghost opened = cursors@;
    let merge = Merge::new(cursors);
    let ghost lists = merge.lists();
    proof {
        assert forall|k: int| 0 <= k < lists.len() implies sorted(#[trigger] lists[k])
            && lists[k].len() == state.metas()[k].records by {
            assert(lists[k] == opened[k].rest());
        }
        joined_length(lists, state.metas());
        merged_is_sorted(lists);
        if damaged(state.metas(), stored@) {
            let k = choose|k: int|
                0 <= k < state.metas().len() && k < stored@.len() && run_error(
                    state.metas()[k],
                    (#[trigger] stored@[k])@,
                    blake3_digest(behind_header(stored@[k]@)),
                ) is Some;
            assert(opened[k].wf());
            assert(false);
        }
        if kept(state, stored@) {
            assert forall|k: int| 0 <= k < lists.len() implies lists[k]
                == state.written()[k] by {
                assert(lists[k] == opened[k].rest());
                assert(state.metas()[k].payload_bytes <= u64::MAX - 60);
                kept_run_opens(state, stored@, k);
            }
            assert(lists =~= state.written());
        }
    }
    Ok(UniqueMerge::new(merge))
}

/// The memory that merging the runs of a state takes.
pub open spec fn merge_bytes(state: &ExactState) -> nat {
    merge_cost(state.metas(), state.metas().len()) + longest_of(
        state.metas(),
        state.metas().len(),
    )
}

/// Whether an account has room for merging the runs of a state.
pub open spec fn can_merge(state: &ExactState, account: &ResourceAccount) -> bool {
    &&& merge_bytes(state) <= u64::MAX
    &&& room(
        account.nodes(),
        state.spec_node(),
        ResourceKind::Memory,
        0,
        merge_bytes(state) as int,
    )
}

/// What is wrong where two states cannot be compared, given the bytes of their runs: with the
/// damage of a run, where there is memory for the runs before it, or with the memory.
pub open spec fn comparison_failed(
    left: &ExactState,
    left_stored: Seq<&[u8]>,
    right: &ExactState,
    right_stored: Seq<&[u8]>,
    account: &ResourceAccount,
    e: ErrorView,
) -> bool {
    let whole = kept(left, left_stored) && kept(right, right_stored);
    let small = merge_bytes(left) <= u64::MAX && merge_bytes(right) <= u64::MAX;
    &&& e is CorruptData || e is ResourceLimit
    &&& damaged(left.metas(), left_stored) || (damaged(right.metas(), right_stored) && can_merge(
        left,
        account,
    )) ==> e is CorruptData
    &&& can_compare(left, right, account, 0) ==> e is CorruptData
    &&& kept(left, left_stored) && merge_bytes(left) <= u64::MAX && !can_merge(left, account)
        ==> e == refusal(
        account.nodes(),
        left.spec_node(),
        ResourceKind::Memory,
        merge_bytes(left) as u64,
    )
    &&& whole && small ==> e is ResourceLimit
    &&& whole && !small && (merge_bytes(left) > u64::MAX || can_merge(left, account)) ==> e
        == ErrorView::CorruptData("Exact merge size overflowed"@)
}

/// Whether an account has room for comparing two states, beside other bytes at the first.
pub open spec fn can_compare(
    left: &ExactState,
    right: &ExactState,
    account: &ResourceAccount,
    beside: int,
) -> bool {
    let all = beside + merge_bytes(left) + merge_bytes(right);
    &&& all <= u64::MAX
    &&& room(account.nodes(), left.spec_node(), ResourceKind::Memory, 0, all)
    &&& room(account.nodes(), right.spec_node(), ResourceKind::Memory, 0, all)
}

/// What every comparison keeps of an account: nothing stays reserved.
pub open spec fn kept_account(before: &ResourceAccount, after: &ResourceAccount) -> bool {
    &&& after.wf()
    &&& after.spec_limits() == before.spec_limits()
    &&& as_before(before.nodes(), after.nodes())
}

/// A comparison fails alike on accounts that are charged alike.
pub proof fn failed_as_before(
    left: &ExactState,
    left_stored: Seq<&[u8]>,
    right: &ExactState,
    right_stored: Seq<&[u8]>,
    before: &ResourceAccount,
    after: &ResourceAccount,
    e: ErrorView,
)
    requires
        0 <= left.spec_node() < before.nodes().len(),
        as_before(before.nodes(), after.nodes()),
        comparison_failed(left, left_stored, right, right_stored, after, e),
    ensures
        comparison_failed(left, left_stored, right, right_stored, before, e),
{
    let (a, b) = (before.nodes(), after.nodes());
    let kind = ResourceKind::Memory;
    let all = merge_bytes(left) + merge_bytes(right);
    room_as_before(a, b, left.spec_node(), kind, merge_bytes(left) as int);
    room_as_before(a, b, left.spec_node(), kind, all as int);
    room_as_before(a, b, right.spec_node(), kind, all as int);
    refusal_as_before(a, b, left.spec_node(), kind, merge_bytes(left) as u64);
    if merge_bytes(left) <= u64::MAX {
        room_is_no_refusal(a, left.spec_node(), kind, merge_bytes(left) as u64);
    }
}

/// Room for some bytes is room for fewer.
proof fn less_room(account: &ResourceAccount, node: int, bytes: int, fewer: int)
    requires
        fewer <= bytes,
        room(account.nodes(), node, ResourceKind::Memory, 0, bytes),
    ensures
        room(account.nodes(), node, ResourceKind::Memory, 0, fewer),
{
    let nodes = account.nodes();
    assert forall|k: int|
        #![trigger nodes[k]]
        0 <= k < nodes.len() && on_path(nodes, node, k) implies less(
        nodes[k].used(ResourceKind::Memory) as int,
        0,
    ) + fewer <= nodes[k].cap(ResourceKind::Memory) by {}
}

/// Opens all runs of a state, in order, with the memory that merging them takes.
fn open_held<'a>(state: &ExactState, stored: &Vec<&'a [u8]>, account: &mut ResourceAccount) -> (r:
    Result<(UniqueMerge<'a>, MemoryReservation), ProofFrameError>)
    requires
        old(account).wf(),
        sealed(state, old(account), stored@),
    ensures
        final(account).wf(),
        final(account).spec_limits() == old(account).spec_limits(),
        match r {
            Ok((m, held)) => {
                &&& m.wf()
                &&& sorted(m.order())
                &&& m.order().len() <= u64::MAX
                &&& !damaged(state.metas(), stored@)
                &&& kept(state, stored@) ==> m.order() == merged(state.written())
                &&& can_merge(state, old(account))
                &&& held.charge().node() == state.spec_node()
                &&& held.charge().kind() == ResourceKind::Memory
                &&& held.charge().bytes() == merge_bytes(state)
                &&& charged(
                    old(account).nodes(),
                    final(account).nodes(),
                    state.spec_node(),
                    ResourceKind::Memory,
                    merge_bytes(state) as int,
                )
            },
            Err(e) => {
                &&& final(account).nodes() == old(account).nodes()
                &&& e@ is CorruptData || e@ is ResourceLimit
                &&& !(kept(state, stored@) && can_merge(state, old(account)))
                &&& damaged(state.metas(), stored@) || can_merge(state, old(account))
                    ==> e@ is CorruptData
                &&& kept(state, stored@) && merge_bytes(state) <= u64::MAX ==> e@ == refusal(
                    old(account).nodes(),
                    state.spec_node(),
                    ResourceKind::Memory,
                    merge_bytes(state) as u64,
                )
                &&& kept(state, stored@) && merge_bytes(state) > u64::MAX ==> e@
                    == ErrorView::CorruptData("Exact merge size overflowed"@)
            },
        },
{
    let merge = match open_state(state, stored) {
        Ok(m) => m,
        Err(e) => return Err(e),
    };
    let bytes: u64 = match merge_memory_bytes(state.runs()) {
        Ok(b) => b,
        Err(e) => return Err(e),
    };
    let node: usize = state.node();
    proof {
        room_is_no_refusal(account.nodes(), node as int, ResourceKind::Memory, bytes);
    }
    match account.try_reserve_memory(node, bytes) {
        Ok(held) => Ok((merge, held)),
        Err(e) => Err(e),
    }
}

/// The memory for samples of shared values, 32 bytes each.
pub fn shared_sample_bytes(max_samples: usize) -> (r: Result<u64, ProofFrameError>)
    ensures
        if max_samples * 32 <= usize::MAX {
            r matches Ok(n) && n == max_samples * 32
        } else {
            r matches Err(e) && e@ == ErrorView::CorruptData("Leakage sample size overflowed"@)
        },
{
    if max_samples <= usize::MAX / 32 {
        Ok((max_samples * 32) as u64)
    } else {
        Err(ProofFrameError::CorruptData(text("Leakage sample size overflowed")))
    }
}

/// What two states share.
pub open spec fn shares(left: &ExactState, right: &ExactState, max_samples: nat, s: SharedValues)
    -> bool {
    let a = merged(left.written());
    let b = merged(right.written());
    let shared = common(a, b);
    &&& s.left_distinct == distinct_count(a)
    &&& s.right_distinct == distinct_count(b)
    &&& s.overlap == shared.len()
    &&& value_keys(s.samples@) == shared.take(
        if shared.len() < max_samples {
            shared.len() as int
        } else {
            max_samples as int
        },
    )
}

/// What two states share, given the bytes of their runs, with memory set aside for merging
/// them.
fn intersect_runs(
    left: &ExactState,
    left_stored: &Vec<&[u8]>,
    right: &ExactState,
    right_stored: &Vec<&[u8]>,
    max_samples: usize,
    cancelled: bool,
    account: &mut ResourceAccount,
) -> (r: Result<SharedValues, ProofFrameError>)
    requires
        old(account).wf(),
        sealed(left, old(account), left_stored@),
        sealed(right, old(account), right_stored@),
    ensures
        kept_account(old(account), final(account)),
        cancelled ==> (r matches Err(e) && e@ == ErrorView::Cancelled),
        !cancelled && kept(left, left_stored@) && kept(right, right_stored@)
            && can_compare(left, right, old(account), 0) ==> r is Ok,
        damaged(left.metas(), left_stored@) || damaged(right.metas(), right_stored@) ==> r is Err,
        !cancelled ==> (r matches Err(e) ==> comparison_failed(
            left,
            left_stored@,
            right,
            right_stored@,
            old(account),
            e@,
        )),
        r matches Ok(s) ==> (kept(left, left_stored@) && kept(right, right_stored@) ==> shares(
            left,
            right,
            max_samples as nat,
            s,
        )),
{
    match stop_when(cancelled) {
        Ok(()) => {},
        Err(e) => return Err(e),
    }
    let ghost start = account.nodes();
    let ghost roomy = can_compare(left, right, account, 0);
    proof {
        if roomy {
            less_room(
                account,
                left.spec_node(),
                (merge_bytes(left) + merge_bytes(right)) as int,
                merge_bytes(left) as int,
            );
        }
    }
    let (a, left_held) = match open_held(left, left_stored, account) {
        Ok(pair) => pair,
        Err(e) => {
            proof {
                assert(can_compare(left, right, account, 0) ==> can_merge(left, account));
            }
            return Err(e);
        },
    };
    let ghost first = account.nodes();
    proof {
        if roomy {
            charge_leaves_room(
                start,
                first,
                left.spec_node(),
                right.spec_node(),
                merge_bytes(left) as int,
                merge_bytes(right) as int,
            );
        }
    }
    match open_held(right, right_stored, account) {
        Ok((b, right_held)) => {
            let ghost second = account.nodes();
            let r = intersect(a, b, max_samples);
            account.release_memory(right_held);
            let ghost third = account.nodes();
            account.release_memory(left_held);
            proof {
                let n = merge_bytes(right) as u64;
                release_restores(first, second, second, third, right.spec_node(), n);
                let n = merge_bytes(left) as u64;
                release_restores(start, first, third, account.nodes(), left.spec_node(), n);
            }
            Ok(r)
        },
        Err(e) => {
            account.release_memory(left_held);
            proof {
                let n = merge_bytes(left) as u64;
                release_restores(start, first, first, account.nodes(), left.spec_node(), n);
            }
            Err(e)
        },
    }
}

/// What two states share, given the bytes of their runs.
pub fn intersect_exact_states(
    left: &ExactState,
    left_stored: &Vec<&[u8]>,
    right: &ExactState,
    right_stored: &Vec<&[u8]>,
    max_samples: usize,
    cancelled: bool,
    account: &mut ResourceAccount,
) -> (r: Result<SharedValues, ProofFrameError>)
    requires
        old(account).wf(),
        sealed(left, old(account), left_stored@),
        sealed(right, old(account), right_stored@),
    ensures
        kept_account(old(account), final(account)),
        max_samples * 32 > usize::MAX ==> (r matches Err(e) && e@ == ErrorView::CorruptData(
            "Leakage sample size overflowed"@,
        )),
        max_samples * 32 <= usize::MAX ==> {
            let first = room(
                old(account).nodes(),
                left.spec_node(),
                ResourceKind::Memory,
                0,
                max_samples * 32,
            );
            &&& !first ==> (r matches Err(e) && e@ == refusal(
                old(account).nodes(),
                left.spec_node(),
                ResourceKind::Memory,
                (max_samples * 32) as u64,
            ))
            &&& first && cancelled ==> (r matches Err(e) && e@
                == ErrorView::Cancelled)
            &&& !cancelled && kept(left, left_stored@) && kept(right, right_stored@)
                && can_compare(left, right, old(account), max_samples * 32) ==> r is Ok
            &&& first && !cancelled ==> (r matches Err(e) ==> e@ is CorruptData
                || e@ is ResourceLimit)
            &&& first && !cancelled && (damaged(left.metas(), left_stored@) || (damaged(
                right.metas(),
                right_stored@,
            ) && can_compare(left, right, old(account), max_samples * 32))) ==> (r matches Err(e)
                && e@ is CorruptData)
            &&& first && !cancelled && kept(left, left_stored@) && kept(right, right_stored@)
                && merge_bytes(left) <= u64::MAX && merge_bytes(right) <= u64::MAX ==> (
            r matches Err(e) ==> e@ is ResourceLimit)
        },
        damaged(left.metas(), left_stored@) || damaged(right.metas(), right_stored@) ==> r is Err,
        r matches Ok(s) ==> (kept(left, left_stored@) && kept(right, right_stored@) ==> shares(
            left,
            right,
            max_samples as nat,
            s,
        )),
{
    let bytes: u64 = shared_sample_bytes(max_samples)?;
    let ghost start = account.nodes();
    let ghost roomy = can_compare(left, right, account, bytes as int);
    let node: usize = left.node();
    proof {
        room_is_no_refusal(account.nodes(), node as int, ResourceKind::Memory, bytes);
        if roomy {
            less_room(
                account,
                left.spec_node(),
                bytes + merge_bytes(left) + merge_bytes(right),
                bytes as int,
            );
        }
    }
    let held = match account.try_reserve_memory(node, bytes) {
        Ok(h) => h,
        Err(e) => {
            proof {
                assert(as_before(start, account.nodes()));
            }
            return Err(e);
        },
    };
    let ghost during = account.nodes();
    proof {
        if roomy {
            let all = (merge_bytes(left) + merge_bytes(right)) as int;
            let (l, r) = (left.spec_node(), right.spec_node());
            charge_leaves_room(start, during, l, l, bytes as int, all);
            charge_leaves_room(start, during, l, r, bytes as int, all);
        }
    }
    let r = intersect_runs(
        left,
        left_stored,
        right,
        right_stored,
        max_samples,
        cancelled,
        account,
    );
    let ghost still = account.nodes();
    account.release_memory(held);
    proof {
        release_restores(start, during, still, account.nodes(), left.spec_node(), bytes);
    }
    r
}

/// What only the first of two states holds, given the bytes of their runs.
pub fn anti_join_exact_states(
    left: &ExactState,
    left_stored: &Vec<&[u8]>,
    right: &ExactState,
    right_stored: &Vec<&[u8]>,
    max_samples: usize,
    cancelled: bool,
    account: &mut ResourceAccount,
) -> (r: Result<MissingValues, ProofFrameError>)
    requires
        old(account).wf(),
        sealed(left, old(account), left_stored@),
        sealed(right, old(account), right_stored@),
    ensures
        kept_account(old(account), final(account)),
        cancelled ==> (r matches Err(e) && e@ == ErrorView::Cancelled),
        !cancelled && kept(left, left_stored@) && kept(right, right_stored@)
            && can_compare(left, right, old(account), 0) ==> r is Ok,
        damaged(left.metas(), left_stored@) || damaged(right.metas(), right_stored@) ==> r is Err,
        !cancelled ==> (r matches Err(e) ==> comparison_failed(
            left,
            left_stored@,
            right,
            right_stored@,
            old(account),
            e@,
        )),
        r matches Ok(s) && kept(left, left_stored@) && kept(right, right_stored@) ==> ({
            let a = merged(left.written());
            let b = merged(right.written());
            let absent = missing(a, b);
            &&& r->Ok_0.left_distinct == distinct_count(a)
            &&& r->Ok_0.right_distinct == distinct_count(b)
            &&& r->Ok_0.missing == absent.len()
            &&& r->Ok_0.rows@ == entry_rows(absent).take(
                if absent.len() < max_samples {
                    absent.len() as int
                } else {
                    max_samples as int
                },
            )
        }),
{
    match stop_when(cancelled) {
        Ok(()) => {},
        Err(e) => return Err(e),
    }
    let ghost start = account.nodes();
    let ghost roomy = can_compare(left, right, account, 0);
    proof {
        if roomy {
            less_room(
                account,
                left.spec_node(),
                (merge_bytes(left) + merge_bytes(right)) as int,
                merge_bytes(left) as int,
            );
        }
    }
    let (a, left_held) = match open_held(left, left_stored, account) {
        Ok(pair) => pair,
        Err(e) => {
            proof {
                assert(can_compare(left, right, account, 0) ==> can_merge(left, account));
            }
            return Err(e);
        },
    };
    let ghost first = account.nodes();
    proof {
        if roomy {
            charge_leaves_room(
                start,
                first,
                left.spec_node(),
                right.spec_node(),
                merge_bytes(left) as int,
                merge_bytes(right) as int,
            );
        }
    }
    match open_held(right, right_stored, account) {
        Ok((b, right_held)) => {
            let ghost second = account.nodes();
            let r = anti_join(a, b, max_samples);
            account.release_memory(right_held);
            let ghost third = account.nodes();
            account.release_memory(left_held);
            proof {
                let n = merge_bytes(right) as u64;
                release_restores(first, second, second, third, right.spec_node(), n);
                let n = merge_bytes(left) as u64;
                release_restores(start, first, third, account.nodes(), left.spec_node(), n);
            }
            Ok(r)
        },
        Err(e) => {
            account.release_memory(left_held);
            proof {
                let n = merge_bytes(left) as u64;
                release_restores(start, first, first, account.nodes(), left.spec_node(), n);
            }
            Err(e)
        },
    }
}

} // verus!
