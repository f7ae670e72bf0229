//! Hierarchical accounting of memory and temporary storage.

use crate::error::{ErrorView, ProofFrameError};
use std::sync::atomic::AtomicBool;
use std::sync::Arc;
use vstd::prelude::*;

verus! {

pub const DEFAULT_MEMORY_BYTES: u64 = 536870912;

pub const DEFAULT_TEMP_BYTES: u64 = 4294967296;

pub const DEFAULT_OUTPUT_RECORDS: u64 = 100000;

pub const DEFAULT_SAMPLES: usize = 100;

/// Hard limits shared by validation, distinct, diff and evidence operations.
#[derive(Debug, Clone, Copy, PartialEq, Eq, Structural)]
pub struct ResourceLimits {
    pub max_memory_bytes: u64,
    pub max_temp_bytes: u64,
    pub max_output_records: u64,
    pub max_samples: usize,
}

impl Default for ResourceLimits {
    fn default() -> (r: Self)
        ensures
            r.max_memory_bytes == 512 * 1024 * 1024,
            r.max_temp_bytes == 4 * 1024 * 1024 * 1024,
            r.max_output_records == 100_000,
            r.max_samples == 100,
    {
        ResourceLimits {
            max_memory_bytes: DEFAULT_MEMORY_BYTES,
            max_temp_bytes: DEFAULT_TEMP_BYTES,
            max_output_records: DEFAULT_OUTPUT_RECORDS,
            max_samples: DEFAULT_SAMPLES,
        }
    }
}

/// Cooperative cancellation shared across cloned operation handles: a cancel of one handle
/// is a cancel of all of them, and nothing takes it back.
///
/// Whether a token was cancelled may change between any two looks at it, so no contract says
/// what a look returns. A function that an operation can stop in takes what was seen as a
/// flag, and states what it returns for either value.
#[derive(Debug)]
pub struct CancellationToken {
    cancelled: Arc<AtomicBool>,
}

impl Clone for CancellationToken {
    fn clone(&self) -> (r: Self)
        ensures
            r.same_operation(self),
    {
        CancellationToken { cancelled: self.cancelled.clone() }
    }
}

impl Default for CancellationToken {
    fn default() -> (r: Self) {
        CancellationToken::new()
    }
}

impl CancellationToken {
    /// Whether two handles share one flag.
    pub closed spec fn same_operation(&self, other: &Self) -> bool {
        self.cancelled == other.cancelled
    }

    /// A token of an operation of its own, which is not cancelled.
    pub fn new() -> (r: Self) {
        CancellationToken { cancelled: Arc::new(AtomicBool::new(false)) }
    }

    /// Cancel the operation for every handle of it.
    pub fn cancel(&self) {
        self.cancelled.store(true, std::sync::atomic::Ordering::Release);
    }

    /// Whether the operation was cancelled by now.
    pub fn is_cancelled(&self) -> (r: bool) {
        self.cancelled.load(std::sync::atomic::Ordering::Acquire)
    }

    /// Fail once the operation was cancelled, and only by that error.
    pub fn check(&self) -> (r: Result<(), ProofFrameError>)
        ensures
            r matches Err(e) ==> e@ == ErrorView::Cancelled,
    {
        stop_when(self.is_cancelled())
    }
}

/// Stops an operation that was seen to be cancelled.
pub fn stop_when(cancelled: bool) -> (r: Result<(), ProofFrameError>)
    ensures
        r is Ok <==> !cancelled,
        r matches Err(e) ==> e@ == ErrorView::Cancelled,
{
    if cancelled {
        Err(ProofFrameError::Cancelled)
    } else {
        Ok(())
    }
}

/// The two kinds of accounted resource.
#[derive(Debug, Clone, Copy, PartialEq, Eq, Structural)]
pub enum ResourceKind {
    Memory,
    Temp,
}

impl ResourceKind {
    /// The name of a resource in an error.
    pub open spec fn label(self) -> Seq<char> {
        match self {
            ResourceKind::Memory => "memory"@,
            ResourceKind::Temp => "temporary storage"@,
        }
    }

    /// The name of a resource in an error.
    pub fn name(self) -> (r: &'static str)
        ensures
            r@ == self.label(),
    {
        match self {
            ResourceKind::Memory => "memory",
            ResourceKind::Temp => "temporary storage",
        }
    }
}

/// The caps and charges of one node of the hierarchy.
#[derive(Debug, Clone, Copy)]
pub struct Counters {
    parent: Option<usize>,
    memory_cap: u64,
    temp_cap: u64,
    memory: u64,
    peak_memory: u64,
    temp: u64,
    peak_temp: u64,
}

impl Counters {
    /// Bytes charged now.
    pub closed spec fn used(self, kind: ResourceKind) -> u64 {
        match kind {
            ResourceKind::Memory => self.memory,
            ResourceKind::Temp => self.temp,
        }
    }

    /// The most bytes that were ever charged at once.
    pub closed spec fn peak(self, kind: ResourceKind) -> u64 {
        match kind {
            ResourceKind::Memory => self.peak_memory,
            ResourceKind::Temp => self.peak_temp,
        }
    }

    /// The most bytes that may be charged.
    pub closed spec fn cap(self, kind: ResourceKind) -> u64 {
        match kind {
            ResourceKind::Memory => self.memory_cap,
            ResourceKind::Temp => self.temp_cap,
        }
    }

    /// The node above, if this is not the root.
    pub closed spec fn above(self) -> Option<usize> {
        self.parent
    }

    /// Whether `bytes` more may be charged.
    pub open spec fn fits(self, kind: ResourceKind, bytes: u64) -> bool {
        self.used(kind) + bytes <= self.cap(kind)
    }

    /// The node after its charge of one kind changed.
    pub open spec fn charged_as(self, after: Counters, kind: ResourceKind, used: int) -> bool {
        &&& after.used(kind) == used
        &&& after.peak(kind) == if used > self.peak(kind) {
            used
        } else {
            self.peak(kind) as int
        }
        &&& after.cap(kind) == self.cap(kind)
        &&& after.above() == self.above()
        &&& forall|other: ResourceKind|
            #![trigger after.used(other)]
            other != kind ==> after.used(other) == self.used(other) && after.peak(other)
                == self.peak(other) && after.cap(other) == self.cap(other)
    }

    fn new(parent: Option<usize>, memory_cap: u64, temp_cap: u64) -> (r: Self)
        ensures
            r.above() == parent,
            r.cap(ResourceKind::Memory) == memory_cap,
            r.cap(ResourceKind::Temp) == temp_cap,
            forall|kind: ResourceKind| (#[trigger] r.used(kind)) == 0 && r.peak(kind) == 0,
    {
        Counters {
            parent,
            memory_cap,
            temp_cap,
            memory: 0,
            peak_memory: 0,
            temp: 0,
            peak_temp: 0,
        }
    }

    /// Bytes charged now, and the most that may be.
    fn used_and_limit(&self, kind: ResourceKind) -> (r: (u64, u64))
        ensures
            r == (self.used(kind), self.cap(kind)),
    {
        match kind {
            ResourceKind::Memory => (self.memory, self.memory_cap),
            ResourceKind::Temp => (self.temp, self.temp_cap),
        }
    }

    /// The node with its charge of one kind set, and its peak raised to it.
    fn set_used(self, kind: ResourceKind, used: u64) -> (r: Self)
        ensures
            self.charged_as(r, kind, used as int),
    {
        let mut r = self;
        match kind {
            ResourceKind::Memory => {
                r.memory = used;
                if used > r.peak_memory {
                    r.peak_memory = used;
                }
            },
            ResourceKind::Temp => {
                r.temp = used;
                if used > r.peak_temp {
                    r.peak_temp = used;
                }
            },
        }
        r
    }
}

/// A hierarchy of resource nodes. Node 0 is the root; a reservation at a node charges
/// that node and every node above it.
#[derive(Debug)]
pub struct ResourceAccount {
    nodes: Vec<Counters>,
    limits: ResourceLimits,
}

/// A charge at one node of an account.
#[derive(Debug)]
pub struct Reservation {
    node: usize,
    bytes: u64,
    kind: ResourceKind,
}

impl Reservation {
    /// The node that was asked.
    pub closed spec fn node(&self) -> int {
        self.node as int
    }

    /// The bytes that were charged.
    pub closed spec fn bytes(&self) -> u64 {
        self.bytes
    }

    /// The kind of resource that was charged.
    pub closed spec fn kind(&self) -> ResourceKind {
        self.kind
    }
}

/// Charge for engine-owned memory.
#[derive(Debug)]
pub struct MemoryReservation {
    reservation: Reservation,
}

impl MemoryReservation {
    /// The charge that is held.
    pub closed spec fn charge(&self) -> Reservation {
        self.reservation
    }
}

/// Charge for operation-owned temporary storage.
#[derive(Debug)]
pub struct TempReservation {
    reservation: Reservation,
}

impl TempReservation {
    /// The charge that is held.
    pub closed spec fn charge(&self) -> Reservation {
        self.reservation
    }
}

/// Whether node `k` is node `i` or stands above it.
pub open spec fn on_path(nodes: Seq<Counters>, i: int, k: int) -> bool
    decreases i,
{
    0 <= i < nodes.len() && (i == k || match nodes[i].above() {
        Some(p) => p < i && on_path(nodes, p as int, k),
        None => false,
    })
}

/// The node closest to the root, on the way down to node `i`, that refuses a charge.
pub open spec fn first_refusal(nodes: Seq<Counters>, i: int, kind: ResourceKind, bytes: u64) -> Option<
    int,
>
    decreases i,
{
    if i < 0 || i >= nodes.len() {
        None
    } else {
        let above = match nodes[i].above() {
            Some(p) => if p < i {
                first_refusal(nodes, p as int, kind, bytes)
            } else {
                None
            },
            None => None,
        };
        if above is Some {
            above
        } else if nodes[i].fits(kind, bytes) {
            None
        } else {
            Some(i)
        }
    }
}

/// The error of a charge that is refused at node `i`: it names what was asked for and how
/// the node that refuses stands.
pub open spec fn refusal(nodes: Seq<Counters>, i: int, kind: ResourceKind, bytes: u64) -> ErrorView {
    let k = first_refusal(nodes, i, kind, bytes).unwrap();
    ErrorView::ResourceLimit {
        resource: kind.label(),
        requested: bytes,
        used: nodes[k].used(kind),
        limit: nodes[k].cap(kind),
    }
}

/// A charge with bytes given back; never below nothing.
pub open spec fn less(used: int, bytes: int) -> int {
    if used >= bytes {
        used - bytes
    } else {
        0
    }
}

/// `after` is `before` with `bytes` given back at every node on the way to `i`.
pub open spec fn released(
    before: Seq<Counters>,
    after: Seq<Counters>,
    i: int,
    kind: ResourceKind,
    bytes: int,
) -> bool {
    &&& after.len() == before.len()
    &&& forall|k: int|
        #![trigger after[k]]
        0 <= k < before.len() ==> if on_path(before, i, k) {
            before[k].charged_as(after[k], kind, less(before[k].used(kind) as int, bytes))
        } else {
            after[k] == before[k]
        }
}

/// `after` is `before` with memory and temporary storage given back.
pub open spec fn given_back(before: Counters, after: Counters, memory: int, temp: int) -> bool {
    &&& after.used(ResourceKind::Memory) == less(before.used(ResourceKind::Memory) as int, memory)
    &&& after.used(ResourceKind::Temp) == less(before.used(ResourceKind::Temp) as int, temp)
    &&& after.above() == before.above()
    &&& forall|kind: ResourceKind|
        #![trigger after.peak(kind)]
        after.peak(kind) == before.peak(kind) && after.cap(kind) == before.cap(kind)
}

/// `after` is `before` with all that node `i` is charged given back at every node on the way
/// to it.
pub open spec fn released_both(before: Seq<Counters>, after: Seq<Counters>, i: int) -> bool {
    &&& after.len() == before.len()
    &&& forall|k: int|
        #![trigger after[k]]
        0 <= k < before.len() ==> if on_path(before, i, k) {
            given_back(
                before[k],
                after[k],
                before[i].used(ResourceKind::Memory) as int,
                before[i].used(ResourceKind::Temp) as int,
            )
        } else {
            after[k] == before[k]
        }
}

/// `after` is `before` with `delta` added to the charge of every node on the way to `i`.
pub open spec fn charged(
    before: Seq<Counters>,
    after: Seq<Counters>,
    i: int,
    kind: ResourceKind,
    delta: int,
) -> bool {
    &&& after.len() == before.len()
    &&& forall|k: int|
        0 <= k < before.len() ==> if on_path(before, i, k) {
            before[k].charged_as(#[trigger] after[k], kind, before[k].used(kind) + delta)
        } else {
            after[k] == before[k]
        }
}

/// A charge is refused exactly where a node on the path has no room for it.
pub proof fn refusal_on_path(nodes: Seq<Counters>, i: int, kind: ResourceKind, bytes: u64)
    requires
        0 <= i < nodes.len(),
    ensures
        match first_refusal(nodes, i, kind, bytes) {
            Some(k) => on_path(nodes, i, k) && 0 <= k < nodes.len() && !nodes[k].fits(kind, bytes),
            None => forall|k: int| #[trigger]
                on_path(nodes, i, k) && 0 <= k < nodes.len() ==> nodes[k].fits(kind, bytes),
        },
    decreases i,
{
    match nodes[i].above() {
        Some(p) => {
            if p < i {
                refusal_on_path(nodes, p as int, kind, bytes);
            }
        },
        None => {},
    }
    if first_refusal(nodes, i, kind, bytes) is None {
        assert forall|k: int| #[trigger]
            on_path(nodes, i, k) && 0 <= k < nodes.len() implies nodes[k].fits(kind, bytes) by {
            if k != i {
                assert(on_path(nodes, nodes[i].above().unwrap() as int, k));
            }
        }
    }
}

impl ResourceAccount {
    /// The nodes of the hierarchy.
    pub closed spec fn nodes(&self) -> Seq<Counters> {
        self.nodes@
    }

    /// The limits that the root was made with.
    pub closed spec fn spec_limits(&self) -> ResourceLimits {
        self.limits
    }

    /// Every node but the root has a node before it above it, and no node is charged
    /// beyond its peak or its cap.
    pub open spec fn wf(&self) -> bool {
        &&& self.nodes().len() > 0
        &&& self.nodes()[0].above() is None
        &&& forall|i: int|
            0 < i < self.nodes().len() ==> (#[trigger] self.nodes()[i].above() matches Some(p)
                && p < i)
        &&& forall|i: int, kind: ResourceKind|
            #![trigger self.nodes()[i].used(kind)]
            0 <= i < self.nodes().len() ==> self.nodes()[i].used(kind) <= self.nodes()[i].peak(kind)
                && self.nodes()[i].peak(kind) <= self.nodes()[i].cap(kind)
    }

    /// Whether a reservation is covered by the charges of its nodes.
    pub open spec fn covers(&self, r: Reservation) -> bool {
        &&& 0 <= r.node() < self.nodes().len()
        &&& forall|k: int|
            0 <= k < self.nodes().len() && on_path(self.nodes(), r.node(), k)
                ==> #[trigger] self.nodes()[k].used(r.kind()) >= r.bytes()
    }

    /// A hierarchy with a root and nothing charged.
    pub fn root(limits: ResourceLimits) -> (r: Self)
        ensures
            r.wf(),
            r.nodes().len() == 1,
            r.spec_limits() == limits,
            r.nodes()[0].cap(ResourceKind::Memory) == limits.max_memory_bytes,
            r.nodes()[0].cap(ResourceKind::Temp) == limits.max_temp_bytes,
            forall|kind: ResourceKind|
                (#[trigger] r.nodes()[0].used(kind)) == 0 && r.nodes()[0].peak(kind) == 0,
    {
        let mut nodes: Vec<Counters> = Vec::new();
        nodes.push(Counters::new(None, limits.max_memory_bytes, limits.max_temp_bytes));
        ResourceAccount { nodes, limits }
    }

    /// A node under `parent` with caps of its own, and its number.
    pub fn child(&mut self, parent: usize, memory_cap: u64, temp_cap: u64) -> (node: usize)
        requires
            old(self).wf(),
            parent < old(self).nodes().len(),
        ensures
            final(self).wf(),
            node == old(self).nodes().len(),
            final(self).nodes().len() == node + 1,
            final(self).nodes().drop_last() == old(self).nodes(),
            final(self).spec_limits() == old(self).spec_limits(),
            final(self).nodes()[node as int].above() == Some(parent),
            final(self).nodes()[node as int].cap(ResourceKind::Memory) == memory_cap,
            final(self).nodes()[node as int].cap(ResourceKind::Temp) == temp_cap,
            forall|kind: ResourceKind|
                (#[trigger] final(self).nodes()[node as int].used(kind)) == 0
                    && final(self).nodes()[node as int].peak(kind) == 0,
    {
        let node: usize = self.nodes.len();
        let ghost before = self.nodes@;
        self.nodes.push(Counters::new(Some(parent), memory_cap, temp_cap));
        assert(self.nodes@.drop_last() =~= before);
        assert forall|i: int| 0 < i < self.nodes@.len() implies (#[trigger] self.nodes@[i].above()
            matches Some(p) && p < i) by {
            if i < before.len() {
                assert(before[i].above() is Some);
            }
        }
        assert forall|i: int, kind: ResourceKind| 0 <= i < self.nodes@.len() implies (
        #[trigger] self.nodes@[i].used(kind)) <= self.nodes@[i].peak(kind)
            && self.nodes@[i].peak(kind) <= self.nodes@[i].cap(kind) by {
            if i < before.len() {
                assert(before[i].used(kind) <= before[i].peak(kind));
            }
        }
        node
    }

    /// The outcome that a reservation at `node` owes.
    pub open spec fn reserve_outcome(
        &self,
        after: &Self,
        node: int,
        kind: ResourceKind,
        bytes: u64,
        r: Result<Reservation, ErrorView>,
    ) -> bool {
        &&& after.wf()
        &&& after.spec_limits() == self.spec_limits()
        &&& match first_refusal(self.nodes(), node, kind, bytes) {
            None => r matches Ok(held) && held.node() == node && held.bytes() == bytes
                && held.kind() == kind && after.covers(held) && charged(
                self.nodes(),
                after.nodes(),
                node,
                kind,
                bytes as int,
            ),
            Some(_) => after.nodes() == self.nodes() && r == Err::<Reservation, ErrorView>(
                refusal(self.nodes(), node, kind, bytes),
            ),
        }
    }

    /// Charge `bytes` at `node` and every node above it, or nothing at all.
    fn try_reserve(&mut self, node: usize, kind: ResourceKind, bytes: u64) -> (r: Result<
        Reservation,
        ProofFrameError,
    >)
        requires
            old(self).wf(),
            node < old(self).nodes().len(),
        ensures
            old(self).reserve_outcome(
                final(self),
                node as int,
                kind,
                bytes,
                match r {
                    Ok(held) => Ok(held),
                    Err(e) => Err(e@),
                },
            ),
    {
        match self.refusing_node(node, kind, bytes) {
            Some(k) => {
                let (used, limit) = self.nodes[k].used_and_limit(kind);
                Err(
                    ProofFrameError::ResourceLimit {
                        resource: kind.name(),
                        requested: bytes,
                        used,
                        limit,
                    },
                )
            },
            None => {
                let ghost before = self.nodes@;
                proof {
                    refusal_on_path(before, node as int, kind, bytes);
                }
                let mut at: usize = node;
                let mut more: bool = true;
                while more
                    invariant
                        before == old(self).nodes(),
                        old(self).wf(),
                        self.limits == old(self).limits,
                        self.nodes@.len() == before.len(),
                        node < before.len(),
                        at < before.len(),
                        forall|k: int|
                            0 <= k < before.len() && #[trigger] on_path(before, node as int, k)
                                ==> before[k].fits(kind, bytes),
                        more ==> forall|k: int| #[trigger]
                            on_path(before, at as int, k) ==> on_path(before, node as int, k),
                        forall|k: int|
                            #![trigger self.nodes@[k]]
                            0 <= k < before.len() ==> if on_path(before, node as int, k) && !(more
                                && on_path(before, at as int, k)) {
                                before[k].charged_as(
                                    self.nodes@[k],
                                    kind,
                                    before[k].used(kind) + bytes,
                                )
                            } else {
                                self.nodes@[k] == before[k]
                            },
                    decreases at + (if more { 1int } else { 0int }),
                {
                    let counters = self.nodes[at];
                    assert(on_path(before, at as int, at as int));
                    assert(before[at as int].fits(kind, bytes));
                    assert(counters == before[at as int]);
                    let (used, limit) = counters.used_and_limit(kind);
                    self.nodes.set(at, counters.set_used(kind, used + bytes));
                    let ghost was = at;
                    match counters.parent {
                        Some(p) => {
                            proof {
                                assert(before[was as int].above() == Some(p));
                                if was == 0 {
                                    assert(before[0].above() is None);
                                }
                                path_below(before, p as int);
                                path_step(before, was as int, p as int);
                            }
                            at = p;
                        },
                        None => {
                            more = false;
                        },
                    }
                }
                proof {
                    let after = self.nodes@;
                    assert(charged(before, after, node as int, kind, bytes as int));
                    assert forall|i: int| 0 < i < after.len() implies (
                    #[trigger] after[i].above() matches Some(p) && p < i) by {
                        assert(before[i].above() is Some);
                    }
                    assert(after[0].above() is None);
                    assert forall|i: int, k: ResourceKind| 0 <= i < after.len() implies
                        (#[trigger] after[i].used(k)) <= after[i].peak(k) && after[i].peak(k) <= after[i].cap(k) by {
                        node_bounds(old(self), i, k);
                        if on_path(before, node as int, i) {
                            assert(before[i].fits(kind, bytes));
                        }
                    }
                    assert forall|k: int| 0 <= k < after.len() && on_path(
                        after,
                        node as int,
                        k,
                    ) implies #[trigger] after[k].used(kind) >= bytes by {
                        same_paths(before, after, node as int, k);
                    }
                }
                Ok(Reservation { node, bytes, kind })
            },
        }
    }

    /// The node closest to the root that refuses a charge.
    fn refusing_node(&self, node: usize, kind: ResourceKind, bytes: u64) -> (r: Option<usize>)
        requires
            self.wf(),
            node < self.nodes().len(),
        ensures
            match first_refusal(self.nodes(), node as int, kind, bytes) {
                Some(k) => (r matches Some(j) && j == k) && 0 <= k < self.nodes().len(),
                None => r is None,
            },
        decreases node,
    {
        let counters = self.nodes[node];
        let above: Option<usize> = match counters.parent {
            Some(p) => {
                proof {
                    assert(self.nodes()[node as int].above() == Some(p));
                    if node == 0 {
                        assert(self.nodes()[0].above() is None);
                    }
                }
                self.refusing_node(p, kind, bytes)
            },
            None => None,
        };
        if above.is_some() {
            return above;
        }
        let (used, limit) = counters.used_and_limit(kind);
        match used.checked_add(bytes) {
            Some(next) => if next > limit {
                Some(node)
            } else {
                None
            },
            None => Some(node),
        }
    }

    /// Give back the bytes of a reservation at its node and every node above it.
    fn release(&mut self, held: Reservation)
        requires
            old(self).wf(),
            held.node() < old(self).nodes().len(),
        ensures
            final(self).wf(),
            final(self).spec_limits() == old(self).spec_limits(),
            released(
                old(self).nodes(),
                final(self).nodes(),
                held.node(),
                held.kind(),
                held.bytes() as int,
            ),
    {
        let ghost before = self.nodes@;
        let ghost node = held.node();
        let kind = held.kind;
        let bytes: u64 = held.bytes;
        let mut at: usize = held.node;
        let mut more: bool = true;
        while more
            invariant
                before == old(self).nodes(),
                old(self).wf(),
                node == held.node(),
                kind == held.kind(),
                bytes == held.bytes(),
                self.limits == old(self).limits,
                self.nodes@.len() == before.len(),
                0 <= node < before.len(),
                at < before.len(),
                more ==> forall|k: int| #[trigger]
                    on_path(before, at as int, k) ==> on_path(before, node, k),
                forall|k: int|
                    #![trigger self.nodes@[k]]
                    0 <= k < before.len() ==> if on_path(before, node, k) && !(more && on_path(
                        before,
                        at as int,
                        k,
                    )) {
                        before[k].charged_as(
                            self.nodes@[k],
                            kind,
                            less(before[k].used(kind) as int, bytes as int),
                        )
                    } else {
                        self.nodes@[k] == before[k]
                    },
            decreases at + (if more { 1int } else { 0int }),
        {
            let counters = self.nodes[at];
            assert(on_path(before, at as int, at as int));
            assert(counters == before[at as int]);
            let (used, limit) = counters.used_and_limit(kind);
            self.nodes.set(at, counters.set_used(kind, used.saturating_sub(bytes)));
            let ghost was = at;
            match counters.parent {
                Some(p) => {
                    proof {
                        assert(before[was as int].above() == Some(p));
                        if was == 0 {
                            assert(before[0].above() is None);
                        }
                        path_below(before, p as int);
                        path_step(before, was as int, p as int);
                    }
                    at = p;
                },
                None => {
                    more = false;
                },
            }
        }
        proof {
            let after = self.nodes@;
            assert forall|i: int| 0 < i < after.len() implies (#[trigger] after[i].above()
                matches Some(p) && p < i) by {
                assert(before[i].above() is Some);
            }
            assert forall|i: int, k: ResourceKind| 0 <= i < after.len() implies
                (#[trigger] after[i].used(k)) <= after[i].peak(k) && after[i].peak(k) <= after[i].cap(k) by {
                node_bounds(old(self), i, k);
            }
        }
    }

    /// Charge memory at `node` and every node above it, or nothing at all.
    pub fn try_reserve_memory(&mut self, node: usize, bytes: u64) -> (r: Result<
        MemoryReservation,
        ProofFrameError,
    >)
        requires
            old(self).wf(),
            node < old(self).nodes().len(),
        ensures
            old(self).reserve_outcome(
                final(self),
                node as int,
                ResourceKind::Memory,
                bytes,
                match r {
                    Ok(held) => Ok(held.charge()),
                    Err(e) => Err(e@),
                },
            ),
    {
        match self.try_reserve(node, ResourceKind::Memory, bytes) {
            Ok(reservation) => Ok(MemoryReservation { reservation }),
            Err(e) => Err(e),
        }
    }

    /// Charge temporary storage at `node` and every node above it, or nothing at all.
    pub fn try_reserve_temp(&mut self, node: usize, bytes: u64) -> (r: Result<
        TempReservation,
        ProofFrameError,
    >)
        requires
            old(self).wf(),
            node < old(self).nodes().len(),
        ensures
            old(self).reserve_outcome(
                final(self),
                node as int,
                ResourceKind::Temp,
                bytes,
                match r {
                    Ok(held) => Ok(held.charge()),
                    Err(e) => Err(e@),
                },
            ),
    {
        match self.try_reserve(node, ResourceKind::Temp, bytes) {
            Ok(reservation) => Ok(TempReservation { reservation }),
            Err(e) => Err(e),
        }
    }

    /// Give back a memory reservation.
    pub fn release_memory(&mut self, held: MemoryReservation)
        requires
            old(self).wf(),
            held.charge().node() < old(self).nodes().len(),
        ensures
            final(self).wf(),
            final(self).spec_limits() == old(self).spec_limits(),
            released(
                old(self).nodes(),
                final(self).nodes(),
                held.charge().node(),
                held.charge().kind(),
                held.charge().bytes() as int,
            ),
    {
        self.release(held.reservation);
    }

    /// Give back a temporary-storage reservation.
    pub fn release_temp(&mut self, held: TempReservation)
        requires
            old(self).wf(),
            held.charge().node() < old(self).nodes().len(),
        ensures
            final(self).wf(),
            final(self).spec_limits() == old(self).spec_limits(),
            released(
                old(self).nodes(),
                final(self).nodes(),
                held.charge().node(),
                held.charge().kind(),
                held.charge().bytes() as int,
            ),
    {
        self.release(held.reservation);
    }

    /// Give back all that is charged at a node, as when what reserved there is gone.
    pub fn release_node(&mut self, node: usize)
        requires
            old(self).wf(),
            node < old(self).nodes().len(),
        ensures
            final(self).wf(),
            final(self).spec_limits() == old(self).spec_limits(),
            released_both(old(self).nodes(), final(self).nodes(), node as int),
            final(self).nodes()[node as int].used(ResourceKind::Memory) == 0,
            final(self).nodes()[node as int].used(ResourceKind::Temp) == 0,
    {
        let ghost before = self.nodes();
        let (memory, limit) = self.nodes[node].used_and_limit(ResourceKind::Memory);
        self.release(Reservation { node, bytes: memory, kind: ResourceKind::Memory });
        let ghost between = self.nodes();
        let (temp, limit) = self.nodes[node].used_and_limit(ResourceKind::Temp);
        self.release(Reservation { node, bytes: temp, kind: ResourceKind::Temp });
        proof {
            assert(on_path(before, node as int, node as int));
            assert(between[node as int].used(ResourceKind::Temp) == temp);
            assert forall|k: int| #![trigger self.nodes()[k]] 0 <= k < before.len() implies (
            if on_path(before, node as int, k) {
                given_back(
                    before[k],
                    self.nodes()[k],
                    memory as int,
                    temp as int,
                )
            } else {
                self.nodes()[k] == before[k]
            }) by {
                same_paths(before, between, node as int, k);
                assert(between[k] == between[k]);
            }
        }
    }

    /// Memory charged at a node.
    pub fn memory_used(&self, node: usize) -> (r: u64)
        requires
            node < self.nodes().len(),
        ensures
            r == self.nodes()[node as int].used(ResourceKind::Memory),
    {
        self.nodes[node].memory
    }

    /// The most memory ever charged at a node at once.
    pub fn peak_memory_used(&self, node: usize) -> (r: u64)
        requires
            node < self.nodes().len(),
        ensures
            r == self.nodes()[node as int].peak(ResourceKind::Memory),
    {
        self.nodes[node].peak_memory
    }

    /// Temporary storage charged at a node.
    pub fn temp_used(&self, node: usize) -> (r: u64)
        requires
            node < self.nodes().len(),
        ensures
            r == self.nodes()[node as int].used(ResourceKind::Temp),
    {
        self.nodes[node].temp
    }

    /// The most temporary storage ever charged at a node at once.
    pub fn peak_temp_used(&self, node: usize) -> (r: u64)
        requires
            node < self.nodes().len(),
        ensures
            r == self.nodes()[node as int].peak(ResourceKind::Temp),
    {
        self.nodes[node].peak_temp
    }

    /// The limits that the root was made with.
    pub fn limits(&self) -> (r: ResourceLimits)
        ensures
            r == self.spec_limits(),
    {
        self.limits
    }
}

/// A node is never charged beyond its peak, nor its peak beyond its cap.
pub proof fn node_bounds(account: &ResourceAccount, i: int, kind: ResourceKind)
    requires
        account.wf(),
        0 <= i < account.nodes().len(),
    ensures
        account.nodes()[i].used(kind) <= account.nodes()[i].peak(kind),
        account.nodes()[i].peak(kind) <= account.nodes()[i].cap(kind),
{
    assert(account.nodes()[i].used(kind) <= account.nodes()[i].peak(kind));
}

/// No path leads from a node to one behind it.
proof fn path_below(nodes: Seq<Counters>, i: int)
    ensures
        forall|k: int| #[trigger] on_path(nodes, i, k) ==> 0 <= k <= i,
    decreases i,
{
    if 0 <= i < nodes.len() {
        match nodes[i].above() {
            Some(p) => {
                if p < i {
                    path_below(nodes, p as int);
                }
            },
            None => {},
        }
        assert forall|k: int| #[trigger] on_path(nodes, i, k) implies 0 <= k <= i by {
            if k != i {
                assert(on_path(nodes, nodes[i].above().unwrap() as int, k));
            }
        }
    }
}

/// The path of a node is the node and the path of the node above it.
proof fn path_step(nodes: Seq<Counters>, i: int, p: int)
    requires
        0 <= p < i < nodes.len(),
        nodes[i].above() == Some(p as usize),
        p <= usize::MAX,
    ensures
        forall|k: int| #[trigger] on_path(nodes, p, k) ==> on_path(nodes, i, k),
        forall|k: int| #[trigger] on_path(nodes, i, k) ==> k == i || on_path(nodes, p, k),
{
    assert forall|k: int| #[trigger] on_path(nodes, p, k) implies on_path(nodes, i, k) by {}
    assert forall|k: int| #[trigger] on_path(nodes, i, k) implies k == i || on_path(
        nodes,
        p,
        k,
    ) by {}
}

/// Paths depend only on which node stands above which.
pub proof fn same_paths(a: Seq<Counters>, b: Seq<Counters>, i: int, k: int)
    requires
        a.len() == b.len(),
        forall|j: int| 0 <= j < a.len() ==> (#[trigger] a[j]).above() == (#[trigger] b[j]).above(),
    ensures
        on_path(a, i, k) == on_path(b, i, k),
    decreases i,
{
    if 0 <= i < a.len() {
        match a[i].above() {
            Some(p) => {
                if p < i {
                    same_paths(a, b, p as int, k);
                }
            },
            None => {},
        }
    }
}

/// Whether every node on the way to `i` has room for `bytes` once `freed` are given back.
pub open spec fn room(
    nodes: Seq<Counters>,
    i: int,
    kind: ResourceKind,
    freed: int,
    bytes: int,
) -> bool {
    forall|k: int|
        #![trigger nodes[k]]
        0 <= k < nodes.len() && on_path(nodes, i, k) ==> less(nodes[k].used(kind) as int, freed)
            + bytes <= nodes[k].cap(kind)
}

/// A reservation succeeds exactly where there is room for it.
pub proof fn room_is_no_refusal(nodes: Seq<Counters>, i: int, kind: ResourceKind, bytes: u64)
    requires
        0 <= i < nodes.len(),
    ensures
        room(nodes, i, kind, 0, bytes as int) <==> first_refusal(nodes, i, kind, bytes) is None,
{
    refusal_on_path(nodes, i, kind, bytes);
    match first_refusal(nodes, i, kind, bytes) {
        Some(k) => {
            assert(!nodes[k].fits(kind, bytes));
            assert(less(nodes[k].used(kind) as int, 0) + bytes > nodes[k].cap(kind));
        },
        None => {
            assert forall|k: int| 0 <= k < nodes.len() && on_path(nodes, i, k) implies less(
                (#[trigger] nodes[k]).used(kind) as int,
                0,
            ) + bytes <= nodes[k].cap(kind) by {
                assert(nodes[k].fits(kind, bytes));
            }
        },
    }
}

/// Giving bytes back makes the room that was promised, and keeps the paths.
pub proof fn release_makes_room(
    before: Seq<Counters>,
    after: Seq<Counters>,
    i: int,
    kind: ResourceKind,
    freed: int,
    bytes: int,
)
    requires
        released(before, after, i, kind, freed),
    ensures
        room(after, i, kind, 0, bytes) <==> room(before, i, kind, freed, bytes),
        forall|j: int, k: int| #[trigger] on_path(after, j, k) == on_path(before, j, k),
{
    assert forall|j: int| 0 <= j < before.len() implies (#[trigger] before[j]).above() == (
    #[trigger] after[j]).above() by {}
    assert forall|j: int, k: int| #[trigger] on_path(after, j, k) == on_path(before, j, k) by {
        same_paths(before, after, j, k);
    }
    if room(before, i, kind, freed, bytes) {
        assert forall|k: int| 0 <= k < after.len() && on_path(after, i, k) implies less(
            (#[trigger] after[k]).used(kind) as int,
            0,
        ) + bytes <= after[k].cap(kind) by {
            assert(on_path(before, i, k));
            assert(before[k].charged_as(
                after[k],
                kind,
                less(before[k].used(kind) as int, freed),
            ));
        }
    }
    if room(after, i, kind, 0, bytes) {
        assert forall|k: int| 0 <= k < before.len() && on_path(before, i, k) implies less(
            (#[trigger] before[k]).used(kind) as int,
            freed,
        ) + bytes <= before[k].cap(kind) by {
            assert(on_path(after, i, k));
            assert(before[k].charged_as(
                after[k],
                kind,
                less(before[k].used(kind) as int, freed),
            ));
        }
    }
}

/// Giving bytes back twice gives back the sum.
pub proof fn released_twice(
    before: Seq<Counters>,
    between: Seq<Counters>,
    after: Seq<Counters>,
    i: int,
    kind: ResourceKind,
    a: int,
    b: int,
)
    requires
        released(before, between, i, kind, a),
        released(between, after, i, kind, b),
        a >= 0,
        b >= 0,
        forall|k: int| 0 <= k < before.len() ==> (#[trigger] before[k]).used(kind) <= before[k].peak(
            kind,
        ),
    ensures
        released(before, after, i, kind, a + b),
{
    release_makes_room(before, between, i, kind, a, 0);
    assert forall|k: int| 0 <= k < before.len() implies if on_path(before, i, k) {
        before[k].charged_as(
            #[trigger] after[k],
            kind,
            less(before[k].used(kind) as int, a + b),
        )
    } else {
        after[k] == before[k]
    } by {
        let m = between[k];
        assert(on_path(between, i, k) == on_path(before, i, k));
        if on_path(before, i, k) {
            assert(before[k].charged_as(m, kind, less(before[k].used(kind) as int, a)));
            assert(m.charged_as(after[k], kind, less(m.used(kind) as int, b)));
            assert(before[k].used(kind) <= before[k].peak(kind));
            assert forall|other: ResourceKind| other != kind implies (
            #[trigger] after[k].used(other)) == before[k].used(other) && after[k].peak(other)
                == before[k].peak(other) && after[k].cap(other) == before[k].cap(other) by {
                assert(m.used(other) == before[k].used(other));
                assert(after[k].used(other) == m.used(other));
                assert(m.peak(other) == before[k].peak(other));
                assert(after[k].peak(other) == m.peak(other));
            }
        }
    }
}

/// Releasing a reservation that was just made leaves every charge as it was before the
/// reservation.
pub proof fn release_undoes_reserve(
    before: Seq<Counters>,
    during: Seq<Counters>,
    after: Seq<Counters>,
    node: int,
    kind: ResourceKind,
    bytes: u64,
)
    requires
        charged(before, during, node, kind, bytes as int),
        released(during, after, node, kind, bytes as int),
    ensures
        after.len() == before.len(),
        forall|k: int, any: ResourceKind|
            0 <= k < before.len() ==> #[trigger] after[k].used(any) == before[k].used(any),
{
    assert forall|j: int| 0 <= j < before.len() implies (#[trigger] before[j]).above() == (
    #[trigger] during[j]).above() by {}
    assert forall|k: int, any: ResourceKind| 0 <= k < before.len() implies
        #[trigger] after[k].used(any) == before[k].used(any) by {
        same_paths(before, during, node, k);
        let d = during[k];
        if on_path(before, node, k) {
            assert(before[k].charged_as(d, kind, before[k].used(kind) + bytes));
            assert(d.charged_as(after[k], kind, less(d.used(kind) as int, bytes as int)));
            if any != kind {
                assert(after[k].used(any) == d.used(any));
            }
        }
    }
}

/// A reservation at a node charges the root too: the root never holds less than any
/// single reservation made below it.
pub proof fn reservation_charges_root(account: ResourceAccount, node: int)
    requires
        account.wf(),
        0 <= node < account.nodes().len(),
    ensures
        on_path(account.nodes(), node, 0),
    decreases node,
{
    if node > 0 {
        let p = account.nodes()[node].above();
        assert(p is Some);
        reservation_charges_root(account, p.unwrap() as int);
    }
}

/// A new node below another has the room of that node, up to its own limit, and takes
/// none from it.
pub proof fn child_room(
    before: Seq<Counters>,
    after: Seq<Counters>,
    parent: int,
    kind: ResourceKind,
    bytes: int,
)
    requires
        0 <= parent < before.len(),
        after.len() == before.len() + 1,
        after.drop_last() == before,
        after.last().above() == Some(parent as usize),
        parent <= usize::MAX,
        after.last().used(kind) == 0,
    ensures
        room(after, parent, kind, 0, bytes) == room(before, parent, kind, 0, bytes),
        room(after, before.len() as int, kind, 0, bytes) == (room(before, parent, kind, 0, bytes)
            && bytes <= after.last().cap(kind)),
{
    let c = before.len() as int;
    assert forall|k: int| 0 <= k < before.len() implies after[k] == #[trigger] before[k] by {
        assert(after.drop_last()[k] == before[k]);
    }
    assert forall|k: int| #[trigger] on_path(after, parent, k) == on_path(before, parent, k) by {
        path_in_prefix(before, after, parent, k);
    }
    assert forall|k: int| #[trigger] on_path(after, c, k) == (k == c || on_path(
        before,
        parent,
        k,
    )) by {
        path_in_prefix(before, after, parent, k);
    }
    if room(before, parent, kind, 0, bytes) {
        assert forall|k: int|
            #![trigger after[k]]
            0 <= k < after.len() && on_path(after, parent, k) implies less(
            after[k].used(kind) as int,
            0,
        ) + bytes <= after[k].cap(kind) by {
            assert(on_path(before, parent, k));
            path_is_below(before, parent, k);
            assert(after[k] == before[k]);
        }
    }
    if room(after, parent, kind, 0, bytes) {
        assert forall|k: int|
            #![trigger before[k]]
            0 <= k < before.len() && on_path(before, parent, k) implies less(
            before[k].used(kind) as int,
            0,
        ) + bytes <= before[k].cap(kind) by {
            assert(on_path(after, parent, k));
            assert(after[k] == before[k]);
        }
    }
    if room(before, parent, kind, 0, bytes) && bytes <= after.last().cap(kind) {
        assert forall|k: int|
            #![trigger after[k]]
            0 <= k < after.len() && on_path(after, c, k) implies less(after[k].used(kind) as int, 0)
            + bytes <= after[k].cap(kind) by {
            if k != c {
                path_is_below(before, parent, k);
                assert(after[k] == before[k]);
            }
        }
    }
    if room(after, c, kind, 0, bytes) {
        assert(on_path(after, c, c));
        assert(after[c] == after.last());
        assert forall|k: int|
            #![trigger before[k]]
            0 <= k < before.len() && on_path(before, parent, k) implies less(
            before[k].used(kind) as int,
            0,
        ) + bytes <= before[k].cap(kind) by {
            assert(on_path(after, c, k));
            assert(after[k] == before[k]);
        }
    }
}

proof fn path_is_below(nodes: Seq<Counters>, i: int, k: int)
    requires
        on_path(nodes, i, k),
    ensures
        0 <= k < nodes.len(),
        k <= i,
    decreases i,
{
    if i != k {
        match nodes[i].above() {
            Some(p) => path_is_below(nodes, p as int, k),
            None => {},
        }
    }
}

proof fn path_in_prefix(before: Seq<Counters>, after: Seq<Counters>, i: int, k: int)
    requires
        0 <= i < before.len() <= after.len(),
        forall|j: int| 0 <= j < before.len() ==> after[j] == #[trigger] before[j],
    ensures
        on_path(after, i, k) == on_path(before, i, k),
    decreases i,
{
    match before[i].above() {
        Some(p) => if p < i {
            path_in_prefix(before, after, p as int, k);
        },
        None => {},
    }
}

/// Whether the nodes of two moments are charged alike: all that was reserved between them
/// has been given back.
pub open spec fn as_before(before: Seq<Counters>, after: Seq<Counters>) -> bool {
    &&& after.len() == before.len()
    &&& forall|k: int|
        0 <= k < before.len() ==> (#[trigger] after[k]).above() == before[k].above()
    &&& forall|k: int, kind: ResourceKind|
        #![trigger after[k].used(kind)]
        0 <= k < before.len() ==> after[k].used(kind) == before[k].used(kind)
            && after[k].cap(kind) == before[k].cap(kind)
}

/// Nodes that are charged as at one moment are charged as at every moment like it.
pub proof fn as_before_twice(a: Seq<Counters>, b: Seq<Counters>, c: Seq<Counters>)
    requires
        as_before(a, b),
        as_before(b, c),
    ensures
        as_before(a, c),
{
    assert forall|k: int| 0 <= k < a.len() implies (#[trigger] c[k]).above() == a[k].above() by {
        assert(b[k].above() == a[k].above());
    }
    assert forall|k: int, kind: ResourceKind|
        #![trigger c[k].used(kind)]
        0 <= k < a.len() implies c[k].used(kind) == a[k].used(kind) && c[k].cap(kind)
        == a[k].cap(kind) by {
        assert(b[k].used(kind) == a[k].used(kind));
    }
}

/// Nodes that are charged alike have the same room.
pub proof fn room_as_before(
    before: Seq<Counters>,
    after: Seq<Counters>,
    i: int,
    kind: ResourceKind,
    bytes: int,
)
    requires
        as_before(before, after),
    ensures
        room(after, i, kind, 0, bytes) == room(before, i, kind, 0, bytes),
{
    assert forall|k: int| #[trigger] on_path(after, i, k) == on_path(before, i, k) by {
        same_paths(before, after, i, k);
    }
    assert forall|k: int| 0 <= k < before.len() implies (#[trigger] after[k]).used(kind)
        == before[k].used(kind) && after[k].cap(kind) == before[k].cap(kind) by {}
    if room(before, i, kind, 0, bytes) {
        assert forall|k: int| 0 <= k < after.len() && on_path(after, i, k) implies less(
            (#[trigger] after[k]).used(kind) as int,
            0,
        ) + bytes <= after[k].cap(kind) by {
            assert(on_path(before, i, k));
            assert(less(before[k].used(kind) as int, 0) + bytes <= before[k].cap(kind));
        }
    }
    if room(after, i, kind, 0, bytes) {
        assert forall|k: int| 0 <= k < before.len() && on_path(before, i, k) implies less(
            (#[trigger] before[k]).used(kind) as int,
            0,
        ) + bytes <= before[k].cap(kind) by {
            assert(on_path(after, i, k));
            assert(less(after[k].used(kind) as int, 0) + bytes <= after[k].cap(kind));
        }
    }
}

/// Nodes that are charged alike refuse alike.
pub proof fn refusal_as_before(
    before: Seq<Counters>,
    after: Seq<Counters>,
    i: int,
    kind: ResourceKind,
    bytes: u64,
)
    requires
        as_before(before, after),
    ensures
        first_refusal(after, i, kind, bytes) == first_refusal(before, i, kind, bytes),
        first_refusal(before, i, kind, bytes) matches Some(k) ==> 0 <= k < before.len(),
        first_refusal(before, i, kind, bytes) is Some ==> refusal(after, i, kind, bytes) == refusal(
            before,
            i,
            kind,
            bytes,
        ),
    decreases i,
{
    if 0 <= i < before.len() {
        assert(after[i].above() == before[i].above());
        assert(after[i].used(kind) == before[i].used(kind));
        match before[i].above() {
            Some(p) => if p < i {
                refusal_as_before(before, after, p as int, kind, bytes);
            },
            None => {},
        }
        if let Some(k) = first_refusal(before, i, kind, bytes) {
            assert(after[k].used(kind) == before[k].used(kind));
        }
    }
}

/// `after` has the nodes of `before`, with the same charges of memory.
pub open spec fn same_memory(before: Seq<Counters>, after: Seq<Counters>) -> bool {
    &&& after.len() == before.len()
    &&& forall|k: int|
        0 <= k < before.len() ==> (#[trigger] after[k]).above() == before[k].above()
            && after[k].used(ResourceKind::Memory) == before[k].used(ResourceKind::Memory)
            && after[k].cap(ResourceKind::Memory) == before[k].cap(ResourceKind::Memory)
}

/// Temporary storage that is charged or given back leaves memory alone.
pub proof fn temp_keeps_memory(before: Seq<Counters>, after: Seq<Counters>, node: int, bytes: int)
    requires
        charged(before, after, node, ResourceKind::Temp, bytes) || released(
            before,
            after,
            node,
            ResourceKind::Temp,
            bytes,
        ),
    ensures
        same_memory(before, after),
{
    assert forall|k: int| 0 <= k < before.len() implies (#[trigger] after[k]).above()
        == before[k].above() && after[k].used(ResourceKind::Memory) == before[k].used(
        ResourceKind::Memory,
    ) && after[k].cap(ResourceKind::Memory) == before[k].cap(ResourceKind::Memory) by {
        if on_path(before, node, k) {
            let (charge, release) = (
                before[k].used(ResourceKind::Temp) + bytes,
                less(before[k].used(ResourceKind::Temp) as int, bytes),
            );
            assert(before[k].charged_as(after[k], ResourceKind::Temp, charge)
                || before[k].charged_as(after[k], ResourceKind::Temp, release));
        }
    }
}

/// The same charges of memory leave the same room.
pub proof fn same_memory_same_room(
    before: Seq<Counters>,
    after: Seq<Counters>,
    node: int,
    freed: int,
    n: int,
)
    requires
        same_memory(before, after),
    ensures
        room(after, node, ResourceKind::Memory, freed, n) == room(
            before,
            node,
            ResourceKind::Memory,
            freed,
            n,
        ),
{
    assert forall|k: int| #[trigger] on_path(after, node, k) == on_path(before, node, k) by {
        same_paths(before, after, node, k);
    }
    if room(before, node, ResourceKind::Memory, freed, n) {
        assert forall|k: int| 0 <= k < after.len() && on_path(after, node, k) implies less(
            (#[trigger] after[k]).used(ResourceKind::Memory) as int,
            freed,
        ) + n <= after[k].cap(ResourceKind::Memory) by {
            assert(on_path(before, node, k));
            assert(before[k] == before[k]);
        }
    }
    if room(after, node, ResourceKind::Memory, freed, n) {
        assert forall|k: int| 0 <= k < before.len() && on_path(before, node, k) implies less(
            (#[trigger] before[k]).used(ResourceKind::Memory) as int,
            freed,
        ) + n <= before[k].cap(ResourceKind::Memory) by {
            assert(on_path(after, node, k));
            assert(after[k] == after[k]);
        }
    }
}

/// Giving back what was reserved leaves the nodes charged as before, whatever was reserved
/// and given back in between.
pub proof fn release_restores(
    before: Seq<Counters>,
    during: Seq<Counters>,
    still: Seq<Counters>,
    after: Seq<Counters>,
    node: int,
    bytes: u64,
)
    requires
        charged(before, during, node, ResourceKind::Memory, bytes as int),
        as_before(during, still),
        released(still, after, node, ResourceKind::Memory, bytes as int),
    ensures
        as_before(before, after),
{
    assert forall|j: int| 0 <= j < before.len() implies (#[trigger] before[j]).above() == (
    #[trigger] still[j]).above() by {
        assert(during[j].above() == before[j].above());
    }
    assert forall|k: int| 0 <= k < before.len() implies (#[trigger] after[k]).above()
        == before[k].above() by {
        assert(still[k].above() == before[k].above());
    }
    assert forall|k: int, kind: ResourceKind|
        #![trigger after[k].used(kind)]
        0 <= k < before.len() implies after[k].used(kind) == before[k].used(kind)
        && after[k].cap(kind) == before[k].cap(kind) by {
        same_paths(before, still, node, k);
        let d = during[k];
        let s = still[k];
        assert(still[k].used(kind) == during[k].used(kind));
        assert(still[k].cap(kind) == during[k].cap(kind));
        assert(still[k].used(ResourceKind::Memory) == during[k].used(ResourceKind::Memory));
        if on_path(before, node, k) {
            assert(before[k].charged_as(
                d,
                ResourceKind::Memory,
                before[k].used(ResourceKind::Memory) + bytes,
            ));
            assert(s.charged_as(
                after[k],
                ResourceKind::Memory,
                less(s.used(ResourceKind::Memory) as int, bytes as int),
            ));
            if kind != ResourceKind::Memory {
                assert(after[k].used(kind) == s.used(kind));
                assert(d.used(kind) == before[k].used(kind));
            }
        }
    }
}

/// Where there is room for more at a node, there is still room after a charge elsewhere.
pub proof fn charge_leaves_room(
    before: Seq<Counters>,
    after: Seq<Counters>,
    node: int,
    other: int,
    delta: int,
    bytes: int,
)
    requires
        charged(before, after, node, ResourceKind::Memory, delta),
        delta >= 0,
        room(before, other, ResourceKind::Memory, 0, bytes + delta),
    ensures
        room(after, other, ResourceKind::Memory, 0, bytes),
{
    let kind = ResourceKind::Memory;
    assert forall|j: int| 0 <= j < before.len() implies (#[trigger] before[j]).above() == (
    #[trigger] after[j]).above() by {}
    assert forall|k: int|
        #![trigger after[k]]
        0 <= k < after.len() && on_path(after, other, k) implies less(
        after[k].used(kind) as int,
        0,
    ) + bytes <= after[k].cap(kind) by {
        same_paths(before, after, other, k);
        assert(less(before[k].used(kind) as int, 0) + (bytes + delta) <= before[k].cap(kind));
    }
}

/// A root that nothing is charged to has room for its limit.
pub proof fn root_room(account: ResourceAccount)
    requires
        account.wf(),
        account.nodes().len() == 1,
        account.nodes()[0].used(ResourceKind::Memory) == 0,
    ensures
        forall|n: int| #[trigger]
            room(account.nodes(), 0, ResourceKind::Memory, 0, n) == (n
                <= account.nodes()[0].cap(ResourceKind::Memory)),
{
    let nodes = account.nodes();
    assert forall|n: int| #[trigger] room(nodes, 0, ResourceKind::Memory, 0, n) == (n
        <= nodes[0].cap(ResourceKind::Memory)) by {
        assert(on_path(nodes, 0, 0));
        if n <= nodes[0].cap(ResourceKind::Memory) {
            assert forall|k: int|
                #![trigger nodes[k]]
                0 <= k < nodes.len() && on_path(nodes, 0, k) implies less(
                nodes[k].used(ResourceKind::Memory) as int,
                0,
            ) + n <= nodes[k].cap(ResourceKind::Memory) by {
                assert(k == 0);
            }
        } else {
            assert(less(nodes[0].used(ResourceKind::Memory) as int, 0) + n
                > nodes[0].cap(ResourceKind::Memory));
        }
    }
}

/// A charge to a node is a charge to every node above it.
pub proof fn charge_above(
    before: Seq<Counters>,
    after: Seq<Counters>,
    node: int,
    parent: int,
    kind: ResourceKind,
    delta: int,
    bytes: int,
)
    requires
        charged(before, after, node, kind, delta),
        on_path(before, node, parent),
        delta >= 0,
    ensures
        room(after, parent, kind, 0, bytes) == room(before, parent, kind, 0, bytes + delta),
{
    assert forall|j: int| 0 <= j < before.len() implies (#[trigger] before[j]).above() == (
    #[trigger] after[j]).above() by {}
    assert forall|k: int| #[trigger] on_path(after, parent, k) == on_path(before, parent, k) by {
        same_paths(before, after, parent, k);
    }
    assert forall|k: int| #[trigger] on_path(before, parent, k) implies on_path(
        before,
        node,
        k,
    ) by {
        path_goes_on(before, node, parent, k);
    }
    if room(before, parent, kind, 0, bytes + delta) {
        assert forall|k: int|
            #![trigger after[k]]
            0 <= k < after.len() && on_path(after, parent, k) implies less(
            after[k].used(kind) as int,
            0,
        ) + bytes <= after[k].cap(kind) by {
            assert(on_path(before, parent, k));
            assert(before[k].charged_as(after[k], kind, before[k].used(kind) + delta));
            assert(less(before[k].used(kind) as int, 0) + (bytes + delta) <= before[k].cap(kind));
        }
    }
    if room(after, parent, kind, 0, bytes) {
        assert forall|k: int|
            #![trigger before[k]]
            0 <= k < before.len() && on_path(before, parent, k) implies less(
            before[k].used(kind) as int,
            0,
        ) + (bytes + delta) <= before[k].cap(kind) by {
            assert(on_path(after, parent, k));
            assert(before[k].charged_as(after[k], kind, before[k].used(kind) + delta));
            assert(less(after[k].used(kind) as int, 0) + bytes <= after[k].cap(kind));
        }
    }
}

proof fn path_goes_on(nodes: Seq<Counters>, i: int, p: int, k: int)
    requires
        on_path(nodes, i, p),
        on_path(nodes, p, k),
    ensures
        on_path(nodes, i, k),
    decreases i,
{
    if i != p {
        match nodes[i].above() {
            Some(q) => path_goes_on(nodes, q as int, p, k),
            None => {},
        }
    }
}

} // verus!
