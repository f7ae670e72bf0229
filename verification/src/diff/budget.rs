//! How much memory and output a partition may take.

use crate::contract::ast::outcome;
use crate::diff::accumulate::{Accumulator, EventView};
use crate::diff::ledger::{
    ledger_outcome, ledger_refusal, next_charge, sole, sole_ledger_gives_its_limit, MemoryLedger,
    TempLedger, LEDGER_CHUNK_BYTES,
};
use crate::error::{ErrorView, ProofFrameError};
use crate::resource::{first_refusal, on_path, released, ResourceAccount, ResourceKind};
use vstd::prelude::*;

verus! {

/// A ledger of memory that alone charges a node below the root.
pub open spec fn tied(account: ResourceAccount, memory: MemoryLedger) -> bool {
    let nodes = account.nodes();
    let kind = ResourceKind::Memory;
    &&& account.wf()
    &&& memory.wf()
    &&& 0 < memory.at() < nodes.len()
    &&& nodes[memory.at()].above() == Some(0usize)
    &&& nodes[memory.at()].used(kind) == memory.taken()
    &&& nodes[memory.at()].cap(kind) == account.spec_limits().max_memory_bytes
    &&& nodes[0].cap(kind) == account.spec_limits().max_memory_bytes
    &&& nodes[0].used(kind) >= memory.taken()
}

/// Whether there is memory for `need` more bytes of rows and `cost` bytes of output.
pub open spec fn ample(account: ResourceAccount, memory: MemoryLedger, need: nat, cost: nat) -> bool {
    let kind = ResourceKind::Memory;
    &&& tied(account, memory)
    &&& memory.in_use() <= memory.taken() <= memory.in_use() + LEDGER_CHUNK_BYTES
    &&& account.nodes()[0].used(kind) - memory.taken() + memory.in_use() + need
        + LEDGER_CHUNK_BYTES + cost <= account.spec_limits().max_memory_bytes
}

/// The refusal of more bytes by a ledger of memory.
pub open spec fn memory_refusal(account: ResourceAccount, memory: MemoryLedger, bytes: u64) -> Option<
    ErrorView,
> {
    ledger_refusal(
        account,
        memory.at(),
        ResourceKind::Memory,
        "diff partition memory"@,
        account.spec_limits().max_memory_bytes,
        memory.taken(),
        memory.in_use(),
        bytes,
    )
}

/// What a ledger of memory did to its account.
pub open spec fn memory_outcome(
    before: ResourceAccount,
    after: ResourceAccount,
    early: MemoryLedger,
    late: MemoryLedger,
    bytes: u64,
    r: Result<(), ProofFrameError>,
) -> bool {
    ledger_outcome(
        before,
        after,
        early.at(),
        ResourceKind::Memory,
        "diff partition memory"@,
        before.spec_limits().max_memory_bytes,
        (early.taken(), late.taken()),
        (early.in_use(), late.in_use()),
        bytes,
        r,
    )
}

/// The node of a ledger and the root are all that its charges reach.
proof fn tied_path(account: ResourceAccount, memory: MemoryLedger)
    requires
        tied(account, memory),
    ensures
        forall|k: int| #[trigger]
            on_path(account.nodes(), memory.at(), k) <==> k == 0 || k == memory.at(),
{
    let nodes = account.nodes();
    assert forall|k: int| #[trigger] on_path(nodes, memory.at(), k) <==> k == 0 || k
        == memory.at() by {
        assert(on_path(nodes, 0, k) <==> k == 0);
        if k == memory.at() {
            assert(on_path(nodes, memory.at(), k));
        }
    }
}

/// Taking bytes of memory keeps the ledger tied, changes no temporary storage, and is
/// granted where there is memory enough.
pub proof fn memory_taken(
    before: ResourceAccount,
    after: ResourceAccount,
    early: MemoryLedger,
    late: MemoryLedger,
    bytes: u64,
    r: Result<(), ProofFrameError>,
)
    requires
        tied(before, early),
        late.wf(),
        late.at() == early.at(),
        outcome(r, memory_refusal(before, early, bytes)),
        memory_outcome(before, after, early, late, bytes, r),
    ensures
        tied(after, late),
        after.nodes().len() == before.nodes().len(),
        after.nodes()[0].used(ResourceKind::Temp) == before.nodes()[0].used(ResourceKind::Temp),
        after.nodes()[0].cap(ResourceKind::Temp) == before.nodes()[0].cap(ResourceKind::Temp),
        after.nodes()[0].used(ResourceKind::Memory) - late.taken()
            == before.nodes()[0].used(ResourceKind::Memory) - early.taken(),
        r matches Err(e) ==> e@ is ResourceLimit,
        forall|need: nat, cost: nat|
            need >= bytes && #[trigger] ample(before, early, need, cost) ==> r is Ok && ample(
                after,
                late,
                (need - bytes) as nat,
                cost,
            ),
{
    let kind = ResourceKind::Memory;
    let nodes = before.nodes();
    tied_path(before, early);
    let total = (early.in_use() + bytes) as nat;
    let limit = before.spec_limits().max_memory_bytes as nat;
    let charge = next_charge(early.taken(), total, limit);
    let at = early.at();
    assert(first_refusal(nodes, at, kind, charge as u64) is None <==> nodes[0].fits(
        kind,
        charge as u64,
    ) && nodes[at].fits(kind, charge as u64)) by {
        assert(first_refusal(nodes, 0, kind, charge as u64) is None <==> nodes[0].fits(
            kind,
            charge as u64,
        ));
    }
    if after.nodes() != nodes {
        assert(on_path(nodes, at, 0));
        assert(on_path(nodes, at, at));
        let root = after.nodes()[0];
        let node = after.nodes()[at];
        assert(nodes[0].charged_as(root, kind, nodes[0].used(kind) + charge));
        assert(nodes[at].charged_as(node, kind, nodes[at].used(kind) + charge));
        assert(root.used(ResourceKind::Temp) == nodes[0].used(ResourceKind::Temp));
    }
    assert forall|need: nat, cost: nat|
        need >= bytes && #[trigger] ample(before, early, need, cost) implies r is Ok && ample(
        after,
        late,
        (need - bytes) as nat,
        cost,
    ) by {
        if total <= early.taken() {
        } else {
            assert(early.taken() + charge <= total + LEDGER_CHUNK_BYTES);
            assert(total <= early.taken() + charge);
        }
    }
}

/// What closing a ledger of memory leaves: the root without its charges.
pub proof fn memory_closed(
    before: ResourceAccount,
    after: ResourceAccount,
    memory: MemoryLedger,
)
    requires
        tied(before, memory),
        after.wf(),
        released(
            before.nodes(),
            after.nodes(),
            memory.at(),
            ResourceKind::Memory,
            memory.taken() as int,
        ),
    ensures
        after.nodes().len() == before.nodes().len(),
        after.nodes()[0].used(ResourceKind::Temp) == before.nodes()[0].used(ResourceKind::Temp),
        after.nodes()[0].cap(ResourceKind::Temp) == before.nodes()[0].cap(ResourceKind::Temp),
        after.nodes()[0].cap(ResourceKind::Memory) == before.nodes()[0].cap(
            ResourceKind::Memory,
        ),
        after.nodes()[0].used(ResourceKind::Memory) == before.nodes()[0].used(
            ResourceKind::Memory,
        ) - memory.taken(),
{
    tied_path(before, memory);
    assert(on_path(before.nodes(), memory.at(), 0));
    let root = after.nodes()[0];
    assert(root.used(ResourceKind::Temp) == before.nodes()[0].used(ResourceKind::Temp));
}

/// The bytes that events take of an output.
pub open spec fn costs(events: Seq<EventView>, arrow: bool) -> nat
    decreases events.len(),
{
    if events.len() == 0 {
        0
    } else {
        costs(events.drop_last(), arrow) + events.last().cost(arrow)
    }
}

/// What the output of a diff takes of memory for events: nothing without an output.
pub open spec fn output_cost(acc: Accumulator, events: Seq<EventView>) -> nat {
    match acc.output() {
        Some(sink) => costs(events, sink.is_arrow()),
        None => 0,
    }
}

/// Whether the output of a diff has room for events.
pub open spec fn output_room(
    acc: Accumulator,
    account: ResourceAccount,
    temp: TempLedger,
    events: Seq<EventView>,
) -> bool {
    match acc.output() {
        Some(sink) => {
            &&& acc.written().0 + events.len() <= acc.written().1
            &&& temp.in_use() + costs(events, sink.is_arrow())
                <= account.spec_limits().max_temp_bytes
        },
        None => true,
    }
}

/// The cost of events is that of the first and that of the rest.
pub proof fn costs_front(events: Seq<EventView>, arrow: bool)
    requires
        events.len() > 0,
    ensures
        costs(events, arrow) == events[0].cost(arrow) + costs(events.drop_first(), arrow),
    decreases events.len(),
{
    if events.len() == 1 {
        assert(events.drop_last() =~= Seq::empty());
        assert(events.drop_first() =~= Seq::empty());
    } else {
        costs_front(events.drop_last(), arrow);
        assert(events.drop_last().drop_first() =~= events.drop_first().drop_last());
    }
}

/// An event that there is room for is recorded without an error.
pub proof fn room_for_event(
    acc: Accumulator,
    account: ResourceAccount,
    temp: TempLedger,
    memory: MemoryLedger,
    events: Seq<EventView>,
    need: nat,
)
    requires
        events.len() > 0,
        sole(account, temp),
        output_room(acc, account, temp, events),
        ample(account, memory, need, output_cost(acc, events)),
    ensures
        acc.emit_error(events[0], account, temp) is None,
{
    match acc.output() {
        Some(sink) => {
            let cost = events[0].cost(sink.is_arrow());
            costs_front(events, sink.is_arrow());
            assert(cost <= u64::MAX);
            sole_ledger_gives_its_limit(account, temp, cost as u64);
            assert(account.nodes()[0].fits(ResourceKind::Memory, cost as u64));
            if !sink.is_arrow() {
                assert(sink.growth(events[0]) <= cost);
                assert(account.nodes()[0].fits(
                    ResourceKind::Memory,
                    sink.growth(events[0]) as u64,
                ));
            }
        },
        None => {},
    }
}

} // verus!
