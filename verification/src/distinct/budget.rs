//! Room for several exact states on one account.

use crate::digest::blake3_digest;
use crate::distinct::merge::merged;
use crate::distinct::order::Entry;
use crate::distinct::run::{behind_header, payload, readable, run_bytes, run_error};
use crate::distinct::state::{
    checksums_have_length, damaged, drawn, first_merged, held_bounds, in_sorted_order, least_bytes,
    list_cost, list_longest, merge_fits, merge_storage, merges_fit, run_cost, run_length, same_caps,
    shifted, short, spilled_to, stored_more, told, weight, widest_value, ExactState,
};
use crate::resource::{
    charged, less, on_path, room, same_paths, Counters, ResourceAccount, ResourceKind,
};
use vstd::prelude::*;

verus! {

/// Whether every node of an account has room for so much more.
pub open spec fn spare(nodes: Seq<Counters>, memory: int, temp: int) -> bool {
    forall|k: int|
        #![trigger nodes[k]]
        0 <= k < nodes.len() ==> nodes[k].used(ResourceKind::Memory) + memory <= nodes[k].cap(
            ResourceKind::Memory,
        ) && nodes[k].used(ResourceKind::Temp) + temp <= nodes[k].cap(ResourceKind::Temp)
}

/// Whether a list can be fed to a state that has a place for runs.
pub open spec fn suits(state: ExactState, list: Seq<Entry>) -> bool {
    &&& state.spills()
    &&& forall|i: int|
        #![trigger list[i]]
        0 <= i < list.len() ==> list[i].0.kind() == state.spec_kind() && short(list[i].0)
}

/// The memory that a state may come to hold while a list is fed to it.
pub open spec fn memory_need(state: ExactState, list: Seq<Entry>) -> int {
    state.most(list)
}

/// The temporary storage that a state may come to take while a list is fed to it.
pub open spec fn temp_need(state: ExactState, list: Seq<Entry>) -> int {
    (weight(state.in_memory()) + weight(list)) as int
}

/// The memory that the first states may come to hold together.
pub open spec fn memory_needs(states: Seq<ExactState>, lists: Seq<Seq<Entry>>, n: nat) -> int
    decreases n,
{
    if n == 0 {
        0
    } else {
        memory_needs(states, lists, (n - 1) as nat) + memory_need(states[n - 1], lists[n - 1])
    }
}

/// The temporary storage that the first states may come to take together.
pub open spec fn temp_needs(states: Seq<ExactState>, lists: Seq<Seq<Entry>>, n: nat) -> int
    decreases n,
{
    if n == 0 {
        0
    } else {
        temp_needs(states, lists, (n - 1) as nat) + temp_need(states[n - 1], lists[n - 1])
    }
}

/// Whether every list can be fed to its state.
pub open spec fn all_suit(states: Seq<ExactState>, lists: Seq<Seq<Entry>>) -> bool {
    forall|i: int|
        #![trigger states[i]]
        0 <= i < states.len() ==> suits(states[i], lists[i])
}

/// No value takes more memory than the widest.
pub proof fn widest_bounds(list: Seq<Entry>, i: int)
    requires
        0 <= i < list.len(),
    ensures
        least_bytes(list[i].0) <= widest_value(list),
    decreases list.len(),
{
    if i < list.len() - 1 {
        widest_bounds(list.drop_last(), i);
    }
}

/// Nothing that is fed draws nothing.
pub proof fn drawn_none(nodes: Seq<Counters>, s: ExactState)
    requires
        s.wf(),
    ensures
        drawn(nodes, nodes, s, s, Seq::empty()),
{
    held_bounds(&s);
}

/// What a list that was fed to a state draws on an account, where the state has a place for
/// runs.
pub open spec fn draws(
    before: Seq<Counters>,
    after: Seq<Counters>,
    s0: ExactState,
    s1: ExactState,
    list: Seq<Entry>,
) -> bool {
    s0.spills() ==> drawn(before, after, s0, s1, list)
}

/// One entry more draws no more than its weight and its segment.
pub proof fn draws_more(
    a: Seq<Counters>,
    b: Seq<Counters>,
    c: Seq<Counters>,
    s0: ExactState,
    s1: ExactState,
    s2: ExactState,
    list: Seq<Entry>,
    e: Entry,
)
    requires
        s1.wf(),
        s1.spills() == s0.spills(),
        draws(a, b, s0, s1, list),
        draws(b, c, s1, s2, seq![e]),
    ensures
        draws(a, c, s0, s2, list.push(e)),
{
    if s0.spills() {
        drawn_more(a, b, c, s0, s1, s2, list, e);
    }
}

proof fn drawn_more(
    a: Seq<Counters>,
    b: Seq<Counters>,
    c: Seq<Counters>,
    s0: ExactState,
    s1: ExactState,
    s2: ExactState,
    list: Seq<Entry>,
    e: Entry,
)
    requires
        s1.wf(),
        drawn(a, b, s0, s1, list),
        drawn(b, c, s1, s2, seq![e]),
    ensures
        drawn(a, c, s0, s2, list.push(e)),
{
    let more = list.push(e);
    held_bounds(&s1);
    assert(more.drop_last() =~= list);
    assert(seq![e].drop_last() =~= Seq::<Entry>::empty());
    assert(weight(seq![e].drop_last()) == 0);
    assert(widest_value(seq![e].drop_last()) == 0);
    assert(weight(more) == weight(list) + weight(seq![e]));
    assert(widest_value(seq![e]) <= widest_value(more));
    assert(widest_value(list) <= widest_value(more));
    assert forall|j: int| 0 <= j < a.len() implies (#[trigger] a[j]).above() == (
    #[trigger] b[j]).above() by {
        assert(same_caps(a[j], b[j]));
    }
    assert forall|k: int|
        #![trigger c[k]]
        0 <= k < a.len() implies same_caps(a[k], c[k]) && if on_path(a, s0.spec_node(), k) {
            &&& c[k].used(ResourceKind::Memory) <= less(
                a[k].used(ResourceKind::Memory) as int,
                s0.held(),
            ) + s2.held()
            &&& c[k].used(ResourceKind::Temp) + weight(s2.in_memory()) <= a[k].used(
                ResourceKind::Temp,
            ) + weight(s0.in_memory()) + weight(more)
        } else {
            &&& c[k].used(ResourceKind::Memory) == a[k].used(ResourceKind::Memory)
            &&& c[k].used(ResourceKind::Temp) == a[k].used(ResourceKind::Temp)
        } by {
        same_paths(a, b, s0.spec_node(), k);
        let mid = b[k];
        assert(same_caps(a[k], mid));
    }
}

/// Room at every node is room for a list at the node of its state.
pub proof fn plenty_of_spare(
    state: &ExactState,
    account: &ResourceAccount,
    list: Seq<Entry>,
    memory: int,
    temp: int,
)
    requires
        state.wf(),
        list.len() > 0,
        suits(*state, list),
        spare(account.nodes(), memory, temp),
        memory >= memory_need(*state, list),
        temp >= temp_need(*state, list),
    ensures
        state.plenty(account, list),
{
    let nodes = account.nodes();
    held_bounds(state);
    assert forall|i: int|
        #![trigger list[i]]
        0 <= i < list.len() implies room(
        nodes,
        state.spec_node(),
        ResourceKind::Memory,
        state.held(),
        least_bytes(list[i].0),
    ) by {
        widest_bounds(list, i);
    }
}

/// What is left at every node once a list was fed.
pub proof fn spare_after(
    before: Seq<Counters>,
    after: Seq<Counters>,
    s0: ExactState,
    s1: ExactState,
    list: Seq<Entry>,
    memory: int,
    temp: int,
)
    requires
        s0.wf(),
        drawn(before, after, s0, s1, list),
        spare(before, memory, temp),
    ensures
        spare(after, memory - memory_need(s0, list), temp - temp_need(s0, list)),
        memory_need(s0, list) >= 0,
{
    held_bounds(&s0);
    assert forall|k: int|
        #![trigger after[k]]
        0 <= k < after.len() implies after[k].used(ResourceKind::Memory) + (memory - memory_need(
        s0,
        list,
    )) <= after[k].cap(ResourceKind::Memory) && after[k].used(ResourceKind::Temp) + (temp
        - temp_need(s0, list)) <= after[k].cap(ResourceKind::Temp) by {
        assert(before[k] == before[k]);
    }
}

/// A state needs no less than nothing.
pub proof fn need_is_not_negative(state: ExactState, list: Seq<Entry>)
    requires
        state.wf(),
    ensures
        memory_need(state, list) >= 0,
        temp_need(state, list) >= 0,
{
    held_bounds(&state);
    widest_is_not_negative(list);
}

/// Every state needs no less than nothing.
pub proof fn needs_grow(states: Seq<ExactState>, lists: Seq<Seq<Entry>>, n: nat, m: nat)
    requires
        n <= m <= states.len(),
        forall|i: int| 0 <= i < states.len() ==> (#[trigger] states[i]).wf(),
    ensures
        0 <= memory_needs(states, lists, n) <= memory_needs(states, lists, m),
        0 <= temp_needs(states, lists, n) <= temp_needs(states, lists, m),
    decreases m,
{
    if m > 0 {
        held_bounds(&states[m - 1]);
        widest_is_not_negative(lists[m - 1]);
        if n < m {
            needs_grow(states, lists, n, (m - 1) as nat);
        } else {
            needs_grow(states, lists, (m - 1) as nat, (m - 1) as nat);
        }
    }
}

/// Whether every list can be fed to its state, and every node has room for so much more,
/// which is enough for all of them.
pub open spec fn room_for(
    nodes: Seq<Counters>,
    states: Seq<ExactState>,
    lists: Seq<Seq<Entry>>,
    memory: int,
    temp: int,
) -> bool {
    &&& all_suit(states, lists)
    &&& spare(nodes, memory, temp)
    &&& memory >= memory_needs(states, lists, states.len())
    &&& temp >= temp_needs(states, lists, states.len())
}

/// Whether every list can be fed to its state, and every node has room for all of them.
pub open spec fn ample_for(
    nodes: Seq<Counters>,
    states: Seq<ExactState>,
    lists: Seq<Seq<Entry>>,
) -> bool {
    room_for(
        nodes,
        states,
        lists,
        memory_needs(states, lists, states.len()),
        temp_needs(states, lists, states.len()),
    )
}

/// What the first lists leave of the room for all of them.
pub open spec fn leaves(
    before: Seq<Counters>,
    after: Seq<Counters>,
    states: Seq<ExactState>,
    lists: Seq<Seq<Entry>>,
    n: nat,
) -> bool {
    forall|m: int, t: int| #[trigger]
        room_for(before, states, lists, m, t) ==> spare(
            after,
            m - memory_needs(states, lists, n),
            t - temp_needs(states, lists, n),
        )
}

/// Nothing that was fed leaves all the room.
pub proof fn leaves_all(nodes: Seq<Counters>, states: Seq<ExactState>, lists: Seq<Seq<Entry>>)
    ensures
        leaves(nodes, nodes, states, lists, 0),
{
    assert forall|m: int, t: int| #[trigger] room_for(nodes, states, lists, m, t) implies spare(
        nodes,
        m - memory_needs(states, lists, 0),
        t - temp_needs(states, lists, 0),
    ) by {}
}

/// One list more leaves what it does not draw.
pub proof fn leaves_less(
    before: Seq<Counters>,
    middle: Seq<Counters>,
    after: Seq<Counters>,
    states: Seq<ExactState>,
    lists: Seq<Seq<Entry>>,
    n: nat,
    s1: ExactState,
)
    requires
        n < states.len(),
        states[n as int].wf(),
        leaves(before, middle, states, lists, n),
        draws(middle, after, states[n as int], s1, lists[n as int]),
    ensures
        leaves(before, after, states, lists, n + 1),
{
    let s0 = states[n as int];
    let list = lists[n as int];
    assert forall|m: int, t: int| #[trigger] room_for(before, states, lists, m, t) implies spare(
        after,
        m - memory_needs(states, lists, n + 1),
        t - temp_needs(states, lists, n + 1),
    ) by {
        assert(suits(s0, list));
        spare_after(
            middle,
            after,
            s0,
            s1,
            list,
            m - memory_needs(states, lists, n),
            t - temp_needs(states, lists, n),
        );
    }
}

/// Where there is room for all lists, there is for the next one.
pub proof fn next_has_room(
    before: Seq<Counters>,
    account: &ResourceAccount,
    states: Seq<ExactState>,
    lists: Seq<Seq<Entry>>,
    n: nat,
)
    requires
        n < states.len(),
        forall|i: int| 0 <= i < states.len() ==> (#[trigger] states[i]).wf(),
        ample_for(before, states, lists),
        leaves(before, account.nodes(), states, lists, n),
    ensures
        lists[n as int].len() > 0 ==> states[n as int].plenty(account, lists[n as int]),
{
    let m = memory_needs(states, lists, states.len());
    let t = temp_needs(states, lists, states.len());
    assert(room_for(before, states, lists, m, t));
    needs_grow(states, lists, n + 1, states.len());
    if lists[n as int].len() > 0 {
        assert(suits(states[n as int], lists[n as int]));
        plenty_of_spare(
            &states[n as int],
            account,
            lists[n as int],
            m - memory_needs(states, lists, n),
            t - temp_needs(states, lists, n),
        );
    }
}

/// Whether every state is in order.
pub open spec fn all_wf(states: Seq<ExactState>) -> bool {
    forall|i: int| 0 <= i < states.len() ==> (#[trigger] states[i]).wf()
}

/// What two groups of states need is what each group needs.
proof fn needs_add(
    a: Seq<ExactState>,
    la: Seq<Seq<Entry>>,
    b: Seq<ExactState>,
    lb: Seq<Seq<Entry>>,
    n: nat,
)
    requires
        la.len() == a.len(),
        lb.len() == b.len(),
        n <= b.len(),
    ensures
        memory_needs(a + b, la + lb, a.len() + n) == memory_needs(a, la, a.len()) + memory_needs(
            b,
            lb,
            n,
        ),
        temp_needs(a + b, la + lb, a.len() + n) == temp_needs(a, la, a.len()) + temp_needs(
            b,
            lb,
            n,
        ),
    decreases n,
{
    if n == 0 {
        needs_of_prefix(a + b, la + lb, a, la, a.len());
    } else {
        needs_add(a, la, b, lb, (n - 1) as nat);
        assert((a + b)[a.len() + n - 1] == b[n - 1]);
        assert((la + lb)[a.len() + n - 1] == lb[n - 1]);
    }
}

proof fn needs_of_prefix(
    a: Seq<ExactState>,
    la: Seq<Seq<Entry>>,
    b: Seq<ExactState>,
    lb: Seq<Seq<Entry>>,
    n: nat,
)
    requires
        n <= b.len() <= a.len(),
        n <= lb.len() <= la.len(),
        forall|i: int| 0 <= i < n ==> #[trigger] a[i] == b[i],
        forall|i: int| 0 <= i < n ==> #[trigger] la[i] == lb[i],
    ensures
        memory_needs(a, la, n) == memory_needs(b, lb, n),
        temp_needs(a, la, n) == temp_needs(b, lb, n),
    decreases n,
{
    if n > 0 {
        needs_of_prefix(a, la, b, lb, (n - 1) as nat);
        assert(a[n - 1] == b[n - 1]);
        assert(la[n - 1] == lb[n - 1]);
    }
}

/// Room for two groups of states is room for the first, and what the first leaves is room
/// for the second.
pub proof fn room_in_parts(
    before: Seq<Counters>,
    middle: Seq<Counters>,
    a: Seq<ExactState>,
    la: Seq<Seq<Entry>>,
    b: Seq<ExactState>,
    lb: Seq<Seq<Entry>>,
    m: int,
    t: int,
)
    requires
        la.len() == a.len(),
        lb.len() == b.len(),
        all_wf(a),
        all_wf(b),
        room_for(before, a + b, la + lb, m, t),
    ensures
        room_for(before, a, la, m, t),
        ample_for(before, a, la),
        leaves(before, middle, a, la, a.len()) ==> room_for(
            middle,
            b,
            lb,
            m - memory_needs(a, la, a.len()),
            t - temp_needs(a, la, a.len()),
        ) && ample_for(middle, b, lb),
{
    needs_add(a, la, b, lb, b.len());
    needs_grow(b, lb, 0, b.len());
    needs_grow(a, la, 0, a.len());
    assert forall|i: int|
        #![trigger a[i]]
        0 <= i < a.len() implies suits(a[i], la[i]) by {
        assert((a + b)[i] == a[i]);
        assert((la + lb)[i] == la[i]);
    }
    assert forall|i: int|
        #![trigger b[i]]
        0 <= i < b.len() implies suits(b[i], lb[i]) by {
        assert((a + b)[a.len() + i] == b[i]);
        assert((la + lb)[a.len() + i] == lb[i]);
    }
    assert(room_for(before, a, la, m, t));
    if leaves(before, middle, a, la, a.len()) {
        assert(spare(
            middle,
            m - memory_needs(a, la, a.len()),
            t - temp_needs(a, la, a.len()),
        ));
    }
}

/// Two groups of states that were fed one after the other leave what both leave.
pub proof fn leaves_in_parts(
    before: Seq<Counters>,
    middle: Seq<Counters>,
    after: Seq<Counters>,
    a: Seq<ExactState>,
    la: Seq<Seq<Entry>>,
    b: Seq<ExactState>,
    lb: Seq<Seq<Entry>>,
)
    requires
        la.len() == a.len(),
        lb.len() == b.len(),
        all_wf(a),
        all_wf(b),
        leaves(before, middle, a, la, a.len()),
        leaves(middle, after, b, lb, b.len()),
    ensures
        leaves(before, after, a + b, la + lb, a.len() + b.len()),
{
    needs_add(a, la, b, lb, b.len());
    assert forall|m: int, t: int| #[trigger]
        room_for(before, a + b, la + lb, m, t) implies spare(
        after,
        m - memory_needs(a + b, la + lb, a.len() + b.len()),
        t - temp_needs(a + b, la + lb, a.len() + b.len()),
    ) by {
        room_in_parts(before, middle, a, la, b, lb, m, t);
    }
}

/// The memory that merging lists at once takes.
pub open spec fn merge_need(lists: Seq<Seq<Entry>>) -> int {
    (list_cost(lists, lists.len()) + list_longest(lists, lists.len())) as int
}

/// The most memory that merging lists takes at once, the first thirty-two at a time.
pub open spec fn merges_need(lists: Seq<Seq<Entry>>) -> int
    decreases lists.len(),
{
    if lists.len() <= 32 {
        merge_need(lists)
    } else if merge_need(lists.take(32)) > merges_need(first_merged(lists)) {
        merge_need(lists.take(32))
    } else {
        merges_need(first_merged(lists))
    }
}

/// The most memory that finishing a state takes at once.
pub open spec fn end_memory(state: ExactState) -> int {
    if state.metas().len() == 0 {
        0
    } else {
        merges_need(state.final_lists())
    }
}

/// Room at every node is room for merging.
proof fn merges_have_room(
    nodes: Seq<Counters>,
    node: int,
    freed: int,
    written: int,
    lists: Seq<Seq<Entry>>,
    memory: int,
    temp: int,
)
    requires
        0 <= node < nodes.len(),
        freed >= 0,
        spare(nodes, memory, temp),
        memory >= merges_need(lists),
        temp >= written + merge_storage(lists),
    ensures
        merges_fit(nodes, node, freed, written, lists),
    decreases lists.len(),
{
    let here = nodes[node];
    assert(here.cap(ResourceKind::Memory) <= u64::MAX);
    if lists.len() <= 32 {
        assert(merge_fits(nodes, node, freed, lists));
    } else {
        let more = 60 + payload(merged(lists.take(32))).len();
        assert(merge_fits(nodes, node, freed, lists.take(32)));
        assert(room(nodes, node, ResourceKind::Temp, 0, written + more));
        merges_have_room(nodes, node, freed, written + more, first_merged(lists), memory, temp);
    }
}

/// Whether a state has the runs that it wrote; or wrote none.
pub open spec fn ends_whole(state: ExactState, stored: Seq<&[u8]>) -> bool {
    state.metas().len() == 0 || {
        &&& state.restored(stored)
        &&& payload(in_sorted_order(state.in_memory())).len() <= u64::MAX - 60
    }
}

/// Whether every state has its runs, and needs no more memory than there is.
pub open spec fn all_end(
    states: Seq<ExactState>,
    stored: Seq<Vec<&[u8]>>,
    memory: int,
) -> bool {
    forall|i: int|
        #![trigger states[i]]
        0 <= i < states.len() ==> ends_whole(states[i], stored[i]@) && end_memory(states[i])
            <= memory
}

/// The temporary storage that finishing the first states takes.
pub open spec fn end_storages(states: Seq<ExactState>, n: nat) -> int
    decreases n,
{
    if n == 0 {
        0
    } else {
        end_storages(states, (n - 1) as nat) + states[n - 1].end_storage()
    }
}

/// Whether every state has its runs, and every node has room for finishing all of them, one
/// after the other.
pub open spec fn room_to_end(
    nodes: Seq<Counters>,
    states: Seq<ExactState>,
    stored: Seq<Vec<&[u8]>>,
    memory: int,
    temp: int,
) -> bool {
    &&& all_end(states, stored, memory)
    &&& spare(nodes, memory, temp)
    &&& temp >= end_storages(states, states.len())
}

/// Whether a state wrote no run, or every run has the bytes that were written or shows that it
/// has not.
pub open spec fn ends_told(state: ExactState, stored: Seq<&[u8]>) -> bool {
    state.metas().len() == 0 || {
        &&& told(&state, stored)
        &&& forall|j: int|
            0 <= j < state.in_memory().len() ==> readable(
                #[trigger] state.in_memory()[j],
                state.spec_kind(),
            )
        &&& payload(in_sorted_order(state.in_memory())).len() <= u64::MAX - 60
    }
}

/// Whether the runs of every state show their damage, and no state needs more memory than
/// there is.
pub open spec fn all_told(states: Seq<ExactState>, stored: Seq<Vec<&[u8]>>, memory: int) -> bool {
    forall|i: int|
        #![trigger states[i]]
        0 <= i < states.len() ==> ends_told(states[i], stored[i]@) && end_memory(states[i])
            <= memory
}

/// Whether the runs of every state show their damage, and every node has room for finishing all
/// of them, one after the other.
pub open spec fn told_to_end(
    nodes: Seq<Counters>,
    states: Seq<ExactState>,
    stored: Seq<Vec<&[u8]>>,
    memory: int,
    temp: int,
) -> bool {
    &&& all_told(states, stored, memory)
    &&& spare(nodes, memory, temp)
    &&& temp >= end_storages(states, states.len())
}

/// Whether a run of some state is damaged.
pub open spec fn some_damaged(states: Seq<ExactState>, stored: Seq<Vec<&[u8]>>) -> bool {
    exists|i: int|
        #![trigger states[i]]
        0 <= i < states.len() && damaged(states[i].metas(), stored[i]@)
}

/// Whether every state has the runs that it wrote.
pub open spec fn states_restored(states: Seq<ExactState>, stored: Seq<Vec<&[u8]>>) -> bool {
    forall|i: int|
        #![trigger states[i]]
        0 <= i < states.len() ==> states[i].restored(stored[i]@)
}

/// Where damage shows, runs without it have the bytes that were written.
pub proof fn told_and_whole(state: ExactState, stored: Seq<&[u8]>)
    requires
        state.wf(),
        stored.len() == state.metas().len(),
        ends_told(state, stored),
        !damaged(state.metas(), stored),
    ensures
        ends_whole(state, stored),
{
    if state.metas().len() > 0 {
        assert forall|i: int|
            #![trigger stored[i]]
            0 <= i < stored.len() implies stored[i]@ == run_bytes(
            state.spec_kind(),
            state.written()[i],
            state.metas()[i].checksum@,
        ) by {
            assert(run_error(
                state.metas()[i],
                stored[i]@,
                blake3_digest(behind_header(stored[i]@)),
            ) is None);
        }
    }
}

/// Room at every node is room for meeting the damage of a run.
pub proof fn damage_has_room(
    state: &ExactState,
    account: &ResourceAccount,
    stored: Seq<&[u8]>,
    memory: int,
    temp: int,
)
    requires
        state.wf(),
        state.metas().len() > 0,
        ends_told(*state, stored),
        state.spec_node() < account.nodes().len(),
        spare(account.nodes(), memory, temp),
        memory >= end_memory(*state),
        temp >= state.end_storage(),
    ensures
        state.tells_damage(account, stored),
        state.in_memory().len() == 0 || room(
            account.nodes(),
            state.spec_node(),
            ResourceKind::Temp,
            0,
            state.last_run_bytes() as int,
        ),
{
    held_bounds(state);
    merges_have_room(
        account.nodes(),
        state.spec_node(),
        state.held(),
        state.last_run_bytes() as int,
        state.final_lists(),
        memory,
        temp,
    );
}

/// Finishing takes no less than nothing.
pub proof fn storages_grow(states: Seq<ExactState>, n: nat, m: nat)
    requires
        n <= m,
    ensures
        0 <= end_storages(states, n) <= end_storages(states, m),
    decreases m,
{
    if n < m {
        storages_grow(states, n, (m - 1) as nat);
    } else if m > 0 {
        storages_grow(states, (m - 1) as nat, (m - 1) as nat);
    }
}

/// Room at every node is room for finishing a state.
pub proof fn end_has_room(
    state: &ExactState,
    account: &ResourceAccount,
    stored: Seq<&[u8]>,
    memory: int,
    temp: int,
)
    requires
        state.wf(),
        state.metas().len() > 0,
        ends_whole(*state, stored),
        state.spec_node() < account.nodes().len(),
        spare(account.nodes(), memory, temp),
        memory >= end_memory(*state),
        temp >= state.end_storage(),
    ensures
        state.can_finish(account, stored),
{
    held_bounds(state);
    merges_have_room(
        account.nodes(),
        state.spec_node(),
        state.held(),
        state.last_run_bytes() as int,
        state.final_lists(),
        memory,
        temp,
    );
}

/// What is left at every node once more was stored.
pub proof fn spare_once_stored(
    before: Seq<Counters>,
    after: Seq<Counters>,
    memory: int,
    temp: int,
    stored: int,
)
    requires
        stored_more(before, after, stored),
        spare(before, memory, temp),
    ensures
        spare(after, memory, temp - stored),
{
    assert forall|k: int|
        #![trigger after[k]]
        0 <= k < after.len() implies after[k].used(ResourceKind::Memory) + memory <= after[k].cap(
        ResourceKind::Memory,
    ) && after[k].used(ResourceKind::Temp) + (temp - stored) <= after[k].cap(
        ResourceKind::Temp,
    ) by {
        assert(before[k] == before[k]);
    }
}

/// What is left at every node once memory was paid for at one.
pub proof fn spare_once_paid(
    before: Seq<Counters>,
    after: Seq<Counters>,
    node: int,
    memory: int,
    temp: int,
    bytes: int,
)
    requires
        charged(before, after, node, ResourceKind::Memory, bytes),
        bytes >= 0,
        spare(before, memory, temp),
    ensures
        spare(after, memory - bytes, temp),
{
    assert forall|k: int|
        #![trigger after[k]]
        0 <= k < after.len() implies after[k].used(ResourceKind::Memory) + (memory - bytes)
        <= after[k].cap(ResourceKind::Memory) && after[k].used(ResourceKind::Temp) + temp
        <= after[k].cap(ResourceKind::Temp) by {
        let was = before[k];
        if on_path(before, node, k) {
            assert(was.charged_as(
                after[k],
                ResourceKind::Memory,
                was.used(ResourceKind::Memory) + bytes,
            ));
            assert(after[k].used(ResourceKind::Temp) == was.used(ResourceKind::Temp));
        }
    }
}

/// Room for lists at every node is enough for all of them, and they leave the rest.
pub proof fn fed_within(
    before: Seq<Counters>,
    after: Seq<Counters>,
    states: Seq<ExactState>,
    lists: Seq<Seq<Entry>>,
    memory: int,
    temp: int,
)
    requires
        all_wf(states),
        all_suit(states, lists),
        spare(before, memory, temp),
        memory >= memory_needs(states, lists, states.len()),
        temp >= temp_needs(states, lists, states.len()),
    ensures
        ample_for(before, states, lists),
        leaves(before, after, states, lists, states.len()) ==> spare(
            after,
            memory - memory_needs(states, lists, states.len()),
            temp - temp_needs(states, lists, states.len()),
        ),
{
    assert(room_for(before, states, lists, memory, temp));
}

/// The memory that a column may come to hold while its keys are fed to it.
pub open spec fn column_need(state: Option<ExactState>, list: Seq<Entry>) -> int {
    match state {
        Some(s) => memory_need(s, list),
        None => 0,
    }
}

/// The temporary storage that a column may come to take while its keys are fed to it.
pub open spec fn column_storage(state: Option<ExactState>, list: Seq<Entry>) -> int {
    match state {
        Some(s) => temp_need(s, list),
        None => 0,
    }
}

/// The memory that the first columns may come to hold.
pub open spec fn columns_need(
    states: Seq<Option<ExactState>>,
    lists: Seq<Seq<Entry>>,
    n: nat,
) -> int
    decreases n,
{
    if n == 0 {
        0
    } else {
        columns_need(states, lists, (n - 1) as nat) + column_need(states[n - 1], lists[n - 1])
    }
}

/// The temporary storage that the first columns may come to take.
pub open spec fn columns_storage(
    states: Seq<Option<ExactState>>,
    lists: Seq<Seq<Entry>>,
    n: nat,
) -> int
    decreases n,
{
    if n == 0 {
        0
    } else {
        columns_storage(states, lists, (n - 1) as nat) + column_storage(
            states[n - 1],
            lists[n - 1],
        )
    }
}

/// Whether the keys of every unique column can be fed to its state.
pub open spec fn columns_suit(states: Seq<Option<ExactState>>, lists: Seq<Seq<Entry>>) -> bool {
    forall|i: int|
        #![trigger states[i]]
        0 <= i < states.len() ==> (states[i] matches Some(s) ==> suits(s, lists[i]))
}

/// Every column needs no less than nothing.
pub proof fn columns_need_grows(
    states: Seq<Option<ExactState>>,
    lists: Seq<Seq<Entry>>,
    n: nat,
    m: nat,
)
    requires
        n <= m <= states.len(),
        forall|i: int|
            #![trigger states[i]]
            0 <= i < states.len() ==> (states[i] matches Some(s) ==> s.wf()),
    ensures
        0 <= columns_need(states, lists, n) <= columns_need(states, lists, m),
        0 <= columns_storage(states, lists, n) <= columns_storage(states, lists, m),
    decreases m,
{
    if m > 0 {
        if states[m - 1] is Some {
            need_is_not_negative(states[m - 1]->0, lists[m - 1]);
        }
        if n < m {
            columns_need_grows(states, lists, n, (m - 1) as nat);
        } else {
            columns_need_grows(states, lists, (m - 1) as nat, (m - 1) as nat);
        }
    }
}

/// The temporary storage that finishing the unique columns among the first takes.
pub open spec fn column_storages(states: Seq<Option<ExactState>>, n: nat) -> int
    decreases n,
{
    if n == 0 {
        0
    } else {
        column_storages(states, (n - 1) as nat) + match states[n - 1] {
            Some(s) => s.end_storage(),
            None => 0,
        }
    }
}

/// Finishing a column takes no less than nothing.
pub proof fn column_storages_grow(states: Seq<Option<ExactState>>, n: nat, m: nat)
    requires
        n <= m,
    ensures
        0 <= column_storages(states, n) <= column_storages(states, m),
    decreases m,
{
    if n < m {
        column_storages_grow(states, n, (m - 1) as nat);
    } else if m > 0 {
        column_storages_grow(states, (m - 1) as nat, (m - 1) as nat);
    }
}

/// Whether every unique column has its runs, and every node has room for finishing all of
/// them, one after the other.
pub open spec fn room_for_columns(
    nodes: Seq<Counters>,
    states: Seq<Option<ExactState>>,
    stored: Seq<Vec<&[u8]>>,
    memory: int,
    temp: int,
) -> bool {
    &&& forall|i: int|
        #![trigger states[i]]
        0 <= i < states.len() ==> (states[i] matches Some(s) ==> ends_whole(s, stored[i]@)
            && end_memory(s) <= memory)
    &&& spare(nodes, memory, temp)
    &&& temp >= column_storages(states, states.len())
}

/// Whether every column that is counted exactly has the runs that it wrote.
pub open spec fn columns_restored(
    states: Seq<Option<ExactState>>,
    stored: Seq<Vec<&[u8]>>,
) -> bool {
    forall|i: int|
        #![trigger states[i]]
        0 <= i < states.len() ==> (states[i] matches Some(s) ==> s.restored(stored[i]@))
}

/// Whether a run of some column is damaged.
pub open spec fn some_column_damaged(
    states: Seq<Option<ExactState>>,
    stored: Seq<Vec<&[u8]>>,
) -> bool {
    exists|i: int|
        #![trigger states[i]]
        0 <= i < states.len() && (states[i] matches Some(s) && damaged(s.metas(), stored[i]@))
}

/// Whether the runs of every column show their damage, and every node has room for finishing
/// all of them, one after the other.
pub open spec fn told_for_columns(
    nodes: Seq<Counters>,
    states: Seq<Option<ExactState>>,
    stored: Seq<Vec<&[u8]>>,
    memory: int,
    temp: int,
) -> bool {
    &&& forall|i: int|
        #![trigger states[i]]
        0 <= i < states.len() ==> (states[i] matches Some(s) ==> ends_told(s, stored[i]@)
            && end_memory(s) <= memory)
    &&& spare(nodes, memory, temp)
    &&& temp >= column_storages(states, states.len())
}

/// The temporary storage of the last runs of the first states.
pub open spec fn last_runs(states: Seq<ExactState>, n: nat) -> int
    decreases n,
{
    if n == 0 {
        0
    } else {
        last_runs(states, (n - 1) as nat) + states[n - 1].last_run_bytes()
    }
}

/// A last run takes no less than nothing.
pub proof fn last_runs_grow(states: Seq<ExactState>, n: nat, m: nat)
    requires
        n <= m,
    ensures
        0 <= last_runs(states, n) <= last_runs(states, m),
    decreases m,
{
    if n < m {
        last_runs_grow(states, n, (m - 1) as nat);
    } else if m > 0 {
        last_runs_grow(states, (m - 1) as nat, (m - 1) as nat);
    }
}

/// Writing what is in memory stores the last run, and takes no memory.
pub proof fn spill_stores(
    before: Seq<Counters>,
    after: Seq<Counters>,
    s0: ExactState,
    s1: ExactState,
    bytes: Option<Vec<u8>>,
)
    requires
        s0.wf(),
        s1.wf(),
        spilled_to(s0, s1, bytes),
        shifted(before, after, s0.spec_node(), s0.held(), 0, run_cost(bytes)),
    ensures
        stored_more(before, after, s0.last_run_bytes() as int),
{
    held_bounds(&s0);
    if bytes is Some {
        checksums_have_length(&s1, s1.metas().len() - 1);
        run_length(
            s0.spec_kind(),
            in_sorted_order(s0.in_memory()),
            s1.metas().last().checksum@,
        );
    }
    assert forall|k: int|
        #![trigger after[k]]
        0 <= k < before.len() implies same_caps(before[k], after[k]) && after[k].used(
        ResourceKind::Memory,
    ) <= before[k].used(ResourceKind::Memory) && after[k].used(ResourceKind::Temp)
        <= before[k].used(ResourceKind::Temp) + s0.last_run_bytes() as int by {}
}

proof fn widest_is_not_negative(list: Seq<Entry>)
    ensures
        widest_value(list) >= 0,
    decreases list.len(),
{
    if list.len() > 0 {
        widest_is_not_negative(list.drop_last());
    }
}

} // verus!
