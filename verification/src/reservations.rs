//! What holds of an account over all that is reserved in it and given back.

use crate::resource::{charged, on_path, released, same_paths, Counters, ResourceKind};
use vstd::prelude::*;

verus! {

/// A reservation that was not given back yet.
pub struct Live {
    pub node: int,
    pub kind: ResourceKind,
    pub bytes: u64,
}

/// The nodes of an account, and the reservations that are live in it.
pub struct Ledger {
    pub nodes: Seq<Counters>,
    pub live: Seq<Live>,
}

/// What happens to an account: a node is opened, a reservation is made, refused or given back.
pub enum Event {
    Opened,
    Reserved(Live),
    Refused,
    Returned(int),
}

/// Whether nothing was ever charged at a node.
pub open spec fn fresh(node: Counters) -> bool {
    forall|kind: ResourceKind| (#[trigger] node.used(kind)) == 0 && node.peak(kind) == 0
}

/// Whether a ledger follows another by an event.
pub open spec fn follows(before: Ledger, event: Event, after: Ledger) -> bool {
    match event {
        Event::Opened => {
            &&& after.live == before.live
            &&& after.nodes.len() == before.nodes.len() + 1
            &&& after.nodes.drop_last() == before.nodes
            &&& after.nodes.last().above() matches Some(p) && p < before.nodes.len()
            &&& fresh(after.nodes.last())
        },
        Event::Reserved(l) => {
            &&& 0 <= l.node < before.nodes.len()
            &&& forall|k: int|
                #![trigger before.nodes[k]]
                0 <= k < before.nodes.len() && on_path(before.nodes, l.node, k)
                    ==> before.nodes[k].fits(l.kind, l.bytes)
            &&& charged(before.nodes, after.nodes, l.node, l.kind, l.bytes as int)
            &&& after.live == before.live.push(l)
        },
        Event::Refused => after == before,
        Event::Returned(i) => {
            &&& 0 <= i < before.live.len()
            &&& released(
                before.nodes,
                after.nodes,
                before.live[i].node,
                before.live[i].kind,
                before.live[i].bytes as int,
            )
            &&& after.live == before.live.remove(i)
        },
    }
}

/// Whether ledgers follow one another by events, from an account with a root and nothing
/// charged.
pub open spec fn history(ledgers: Seq<Ledger>, events: Seq<Event>) -> bool {
    &&& ledgers.len() == events.len() + 1
    &&& ledgers[0].live.len() == 0
    &&& ledgers[0].nodes.len() == 1
    &&& ledgers[0].nodes[0].above() is None
    &&& fresh(ledgers[0].nodes[0])
    &&& forall|i: int|
        #![trigger events[i]]
        0 <= i < events.len() ==> follows(ledgers[i], events[i], ledgers[i + 1])
}

/// The bytes of a kind that a reservation charges to a node.
pub open spec fn share(nodes: Seq<Counters>, l: Live, k: int, kind: ResourceKind) -> int {
    if l.kind == kind && on_path(nodes, l.node, k) {
        l.bytes as int
    } else {
        0
    }
}

/// The bytes of a kind that reservations charge to a node.
pub open spec fn live_bytes(nodes: Seq<Counters>, live: Seq<Live>, k: int, kind: ResourceKind) -> int
    decreases live.len(),
{
    if live.len() == 0 {
        0
    } else {
        live_bytes(nodes, live.drop_last(), k, kind) + share(nodes, live.last(), k, kind)
    }
}

proof fn same_shares(
    a: Seq<Counters>,
    b: Seq<Counters>,
    live: Seq<Live>,
    k: int,
    kind: ResourceKind,
)
    requires
        forall|i: int|
            #![trigger live[i]]
            0 <= i < live.len() ==> on_path(a, live[i].node, k) == on_path(b, live[i].node, k),
    ensures
        live_bytes(a, live, k, kind) == live_bytes(b, live, k, kind),
    decreases live.len(),
{
    if live.len() > 0 {
        let rest = live.drop_last();
        assert forall|i: int| #![trigger rest[i]] 0 <= i < rest.len() implies on_path(
            a,
            rest[i].node,
            k,
        ) == on_path(b, rest[i].node, k) by {
            assert(rest[i] == live[i]);
        }
        same_shares(a, b, rest, k, kind);
        assert(live.last() == live[live.len() - 1]);
    }
}

proof fn share_removed(nodes: Seq<Counters>, live: Seq<Live>, i: int, k: int, kind: ResourceKind)
    requires
        0 <= i < live.len(),
    ensures
        live_bytes(nodes, live.remove(i), k, kind) == live_bytes(nodes, live, k, kind) - share(
            nodes,
            live[i],
            k,
            kind,
        ),
        live_bytes(nodes, live.remove(i), k, kind) >= 0,
    decreases live.len(),
{
    if i == live.len() - 1 {
        assert(live.remove(i) =~= live.drop_last());
        if live.drop_last().len() > 0 {
            share_removed(nodes, live.drop_last(), 0, k, kind);
        }
    } else {
        share_removed(nodes, live.drop_last(), i, k, kind);
        assert(live.remove(i).drop_last() =~= live.drop_last().remove(i));
        assert(live.remove(i).last() == live.last());
    }
}

proof fn path_in_more(few: Seq<Counters>, more: Seq<Counters>, i: int, k: int)
    requires
        more.len() == few.len() + 1,
        more.drop_last() == few,
        0 <= i < few.len(),
    ensures
        on_path(few, i, k) == on_path(more, i, k),
    decreases i,
{
    assert(more.drop_last()[i] == more[i]);
    match few[i].above() {
        Some(p) => {
            if p < i {
                path_in_more(few, more, p as int, k);
            }
        },
        None => {},
    }
}

proof fn nothing_below(nodes: Seq<Counters>, i: int, k: int)
    requires
        i < k,
    ensures
        !on_path(nodes, i, k),
    decreases i,
{
    if 0 <= i < nodes.len() {
        match nodes[i].above() {
            Some(p) => {
                if p < i {
                    nothing_below(nodes, p as int, k);
                }
            },
            None => {},
        }
    }
}

/// At every node of every account, what is charged is the sum of the live reservations at it
/// and below it, and never more than the cap.
pub proof fn charges_are_the_live_reservations(
    ledgers: Seq<Ledger>,
    events: Seq<Event>,
    t: int,
    k: int,
    kind: ResourceKind,
)
    requires
        history(ledgers, events),
        0 <= t < ledgers.len(),
        0 <= k < ledgers[t].nodes.len(),
    ensures
        ledgers[t].nodes[k].used(kind) == live_bytes(ledgers[t].nodes, ledgers[t].live, k, kind),
        ledgers[t].nodes[k].used(kind) <= ledgers[t].nodes[k].cap(kind),
        forall|i: int|
            #![trigger ledgers[t].live[i]]
            0 <= i < ledgers[t].live.len() ==> 0 <= ledgers[t].live[i].node
                < ledgers[t].nodes.len(),
    decreases t,
{
    let after = ledgers[t];
    if t == 0 {
        assert(after.nodes[0].used(kind) == 0);
    } else {
        let before = ledgers[t - 1];
        let event = events[t - 1];
        assert(follows(before, event, after));
        if k < before.nodes.len() {
            charges_are_the_live_reservations(ledgers, events, t - 1, k, kind);
        } else {
            charges_are_the_live_reservations(ledgers, events, t - 1, 0, kind);
        }
        match event {
            Event::Opened => {
                if k < before.nodes.len() {
                    assert(after.nodes.drop_last()[k] == after.nodes[k]);
                    assert forall|i: int| #![trigger before.live[i]] 0 <= i
                        < before.live.len() implies on_path(before.nodes, before.live[i].node, k)
                        == on_path(after.nodes, before.live[i].node, k) by {
                        path_in_more(before.nodes, after.nodes, before.live[i].node, k);
                    }
                    same_shares(before.nodes, after.nodes, before.live, k, kind);
                } else {
                    assert forall|i: int| #![trigger before.live[i]] 0 <= i
                        < before.live.len() implies !on_path(
                        after.nodes,
                        before.live[i].node,
                        k,
                    ) by {
                        nothing_below(after.nodes, before.live[i].node, k);
                    }
                    none_charged(after.nodes, before.live, k, kind);
                    assert(after.nodes.last().used(kind) == 0);
                }
            },
            Event::Reserved(l) => {
                shares_after(before, after, k, kind);
                assert(after.live.drop_last() =~= before.live);
                same_way(before.nodes, after.nodes, l.node, k);
                assert(before.nodes[k].fits(l.kind, l.bytes) || !on_path(before.nodes, l.node, k));
                assert(after.nodes[k].used(kind) == after.nodes[k].used(kind));
                assert forall|i: int| #![trigger after.live[i]] 0 <= i
                    < after.live.len() implies 0 <= after.live[i].node < after.nodes.len() by {
                    if i < before.live.len() {
                        assert(after.live[i] == before.live[i]);
                    }
                }
            },
            Event::Refused => {},
            Event::Returned(i) => {
                let l = before.live[i];
                shares_after(before, after, k, kind);
                share_removed(before.nodes, before.live, i, k, kind);
                shares_removed_after(before, after, i, k, kind);
                assert(after.nodes[k].used(kind) == after.nodes[k].used(kind));
                assert forall|j: int| #![trigger after.live[j]] 0 <= j
                    < after.live.len() implies 0 <= after.live[j].node < after.nodes.len() by {
                    if j < i {
                        assert(after.live[j] == before.live[j]);
                    } else {
                        assert(after.live[j] == before.live[j + 1]);
                    }
                }
            },
        }
    }
}

proof fn none_charged(nodes: Seq<Counters>, live: Seq<Live>, k: int, kind: ResourceKind)
    requires
        forall|i: int|
            #![trigger live[i]]
            0 <= i < live.len() ==> !on_path(nodes, live[i].node, k),
    ensures
        live_bytes(nodes, live, k, kind) == 0,
    decreases live.len(),
{
    if live.len() > 0 {
        let rest = live.drop_last();
        assert forall|i: int| #![trigger rest[i]] 0 <= i < rest.len() implies !on_path(
            nodes,
            rest[i].node,
            k,
        ) by {
            assert(rest[i] == live[i]);
        }
        none_charged(nodes, rest, k, kind);
        assert(live.last() == live[live.len() - 1]);
    }
}

/// Charges do not move nodes.
proof fn same_way(a: Seq<Counters>, b: Seq<Counters>, i: int, k: int)
    requires
        a.len() == b.len(),
        forall|j: int| #![trigger b[j]] 0 <= j < a.len() ==> a[j].above() == b[j].above(),
    ensures
        on_path(a, i, k) == on_path(b, i, k),
{
    same_paths(a, b, i, k);
}

proof fn shares_after(before: Ledger, after: Ledger, k: int, kind: ResourceKind)
    requires
        before.nodes.len() == after.nodes.len(),
        forall|j: int|
            #![trigger after.nodes[j]]
            0 <= j < before.nodes.len() ==> before.nodes[j].above() == after.nodes[j].above(),
    ensures
        live_bytes(before.nodes, before.live, k, kind) == live_bytes(
            after.nodes,
            before.live,
            k,
            kind,
        ),
{
    assert forall|i: int| #![trigger before.live[i]] 0 <= i < before.live.len() implies on_path(
        before.nodes,
        before.live[i].node,
        k,
    ) == on_path(after.nodes, before.live[i].node, k) by {
        same_paths(before.nodes, after.nodes, before.live[i].node, k);
    }
    same_shares(before.nodes, after.nodes, before.live, k, kind);
}

proof fn shares_removed_after(before: Ledger, after: Ledger, i: int, k: int, kind: ResourceKind)
    requires
        before.nodes.len() == after.nodes.len(),
        forall|j: int|
            #![trigger after.nodes[j]]
            0 <= j < before.nodes.len() ==> before.nodes[j].above() == after.nodes[j].above(),
        0 <= i < before.live.len(),
    ensures
        live_bytes(before.nodes, before.live.remove(i), k, kind) == live_bytes(
            after.nodes,
            before.live.remove(i),
            k,
            kind,
        ),
{
    shares_after(
        Ledger { nodes: before.nodes, live: before.live.remove(i) },
        after,
        k,
        kind,
    );
}

/// The peak of a node is the most that was ever charged at it: no charge was larger, and one
/// was as large. What is given back or refused does not move it.
pub proof fn peaks_are_the_largest_charges(
    ledgers: Seq<Ledger>,
    events: Seq<Event>,
    t: int,
    k: int,
    kind: ResourceKind,
) -> (at: int)
    requires
        history(ledgers, events),
        0 <= t < ledgers.len(),
        0 <= k < ledgers[t].nodes.len(),
    ensures
        0 <= at <= t,
        k < ledgers[at].nodes.len(),
        ledgers[at].nodes[k].used(kind) == ledgers[t].nodes[k].peak(kind),
        forall|s: int|
            #![trigger ledgers[s]]
            0 <= s <= t && k < ledgers[s].nodes.len() ==> ledgers[s].nodes[k].used(kind)
                <= ledgers[t].nodes[k].peak(kind),
    decreases t,
{
    let after = ledgers[t];
    if t == 0 {
        assert(after.nodes[0].used(kind) == 0);
        0
    } else {
        let before = ledgers[t - 1];
        let event = events[t - 1];
        assert(follows(before, event, after));
        if k >= before.nodes.len() {
            assert(after.nodes.last().used(kind) == 0);
            fewer_nodes_before(ledgers, events, t - 1);
            t
        } else {
            let earlier = peaks_are_the_largest_charges(ledgers, events, t - 1, k, kind);
            assert(ledgers[t - 1].nodes[k].used(kind) <= before.nodes[k].peak(kind));
            match event {
                Event::Opened => {
                    assert(after.nodes.drop_last()[k] == after.nodes[k]);
                },
                Event::Reserved(l) => {
                    assert(on_path(before.nodes, l.node, k) || after.nodes[k] == before.nodes[k]);
                    if kind != l.kind {
                        assert(after.nodes[k].used(kind) == before.nodes[k].used(kind));
                    }
                },
                Event::Refused => {},
                Event::Returned(i) => {
                    let l = before.live[i];
                    assert(on_path(before.nodes, l.node, k) || after.nodes[k] == before.nodes[k]);
                    if kind != l.kind {
                        assert(after.nodes[k].used(kind) == before.nodes[k].used(kind));
                    }
                },
            }
            assert(after.nodes[k].peak(kind) >= before.nodes[k].peak(kind));
            assert(after.nodes[k].used(kind) <= after.nodes[k].peak(kind));
            assert forall|s: int|
                #![trigger ledgers[s]]
                0 <= s <= t && k < ledgers[s].nodes.len() implies ledgers[s].nodes[k].used(kind)
                <= after.nodes[k].peak(kind) by {
                if s < t {
                    assert(ledgers[s].nodes[k].used(kind) <= before.nodes[k].peak(kind));
                }
            }
            if after.nodes[k].peak(kind) > before.nodes[k].peak(kind) {
                t
            } else {
                earlier
            }
        }
    }
}

proof fn fewer_nodes_before(ledgers: Seq<Ledger>, events: Seq<Event>, t: int)
    requires
        history(ledgers, events),
        0 <= t < ledgers.len(),
    ensures
        forall|s: int|
            #![trigger ledgers[s]]
            0 <= s <= t ==> ledgers[s].nodes.len() <= ledgers[t].nodes.len(),
    decreases t,
{
    if t > 0 {
        assert(follows(ledgers[t - 1], events[t - 1], ledgers[t]));
        fewer_nodes_before(ledgers, events, t - 1);
    }
}

} // verus!
