//! Exact state: values in memory up to a budget, then in sorted runs.

use crate::bytes::slice_of;
use crate::digest::blake3_digest;
use crate::distinct::merge::{
    collect_merged, count_merged, count_records, joined, merged, merged_is_sorted, sample_rows,
    DuplicateSample, Merge,
};
use crate::distinct::order::{
    bag, entries, sort_records, sorted, sorted_list_is_unique, tally, Entry, Key, OwnedValue,
    Record, Tally, ValueKind, ValueRef,
};
use crate::distinct::run::{
    behind_header, describes, entry_bytes, entry_width, longest, payload, read_all, read_entries_are_readable, readable, run_bytes, run_error, storable,
    write_run, written_run_is_whole, RunCursor, RunMeta,
};
use crate::error::{ErrorView, ProofFrameError};
use crate::resource::{
    as_before, charged, less, on_path, refusal, release_makes_room, release_restores, released,
    released_twice, room, room_as_before, room_is_no_refusal, same_memory, same_memory_same_room,
    same_paths, stop_when, temp_keeps_memory, Counters, MemoryReservation, ResourceAccount, ResourceKind,
    TempReservation,
};
use crate::text::text;
use vstd::multiset::Multiset;
use vstd::prelude::*;

verus! {

pub const DEFAULT_FIXED_RECORDS: usize = 65536;

pub const MAX_FIXED_RECORDS: usize = 33554432;

pub const DEFAULT_BYTE_RECORDS: usize = 16384;

pub const MAX_BYTE_RECORDS: usize = 16777216;

pub const ASSUMED_BYTES_PER_VALUE: usize = 32;

pub const MAX_MERGE_FAN_IN: usize = 32;

/// What one run costs in memory while it is merged, beside its longest value.
pub const MERGE_CURSOR_BYTES: u64 = 384;

/// What an exact state did.
#[derive(Debug, Clone, Copy, PartialEq, Eq, Structural)]
pub struct ExactMetrics {
    pub runs: u64,
    pub spill_bytes: u64,
    pub compactions: u64,
    pub max_merge_fan_in: u64,
    pub peak_memory_bytes: u64,
    pub peak_temp_bytes: u64,
}

/// How many values were distinct and how many entries repeated one.
#[derive(Debug)]
pub struct ExactSummary {
    pub distinct_count: u64,
    pub duplicate_count: u64,
    pub duplicate_samples: Vec<DuplicateSample>,
    pub metrics: ExactMetrics,
}

/// Why a value may not be inserted: a limit, a value of another kind, or a size that leaves the
/// numbers of the machine.
pub open spec fn not_inserted(e: ErrorView) -> bool {
    ||| e is ResourceLimit
    ||| e == ErrorView::CorruptData("Value kind does not match the exact-state plan"@)
    ||| e == ErrorView::CorruptData("Exact segment size overflowed"@)
}

/// A summary that equals a tally.
pub open spec fn summed(s: ExactSummary, t: Tally) -> bool {
    s.distinct_count == t.distinct && s.duplicate_count == t.duplicates && sample_rows(
        s.duplicate_samples@,
    ) == t.samples
}

/// Values seen so far. Those in memory stand in one segment; when it is full it is either
/// enlarged or written to a sorted run, whose bytes the caller keeps.
pub struct ExactState {
    kind: ValueKind,
    node: usize,
    can_spill: bool,
    desired: usize,
    allocated: bool,
    record_capacity: usize,
    byte_capacity: usize,
    used_bytes: usize,
    records: Vec<Record>,
    memory: Vec<MemoryReservation>,
    sample_memory: MemoryReservation,
    runs: Vec<RunMeta>,
    temp: Vec<TempReservation>,
    compactions: u64,
    max_merge_fan_in: u64,
    written: Ghost<Seq<Seq<Entry>>>,
}

/// The bytes of all memory reservations of a segment.
pub closed spec fn held_bytes(memory: Seq<MemoryReservation>) -> int
    decreases memory.len(),
{
    if memory.len() == 0 {
        0
    } else {
        held_bytes(memory.drop_last()) + memory.last().charge().bytes()
    }
}

proof fn held_is_not_negative(memory: Seq<MemoryReservation>)
    ensures
        held_bytes(memory) >= 0,
    decreases memory.len(),
{
    if memory.len() > 0 {
        held_is_not_negative(memory.drop_last());
    }
}

/// What a state holds, and what a new segment asks for, is never below nothing.
pub proof fn held_bounds(state: &ExactState)
    requires
        state.wf(),
    ensures
        state.held() >= 0,
        state.base() >= 0,
        state.spec_node() >= 0,
{
    held_is_not_negative(state.memory@);
}

/// `after` has the memory room that `before` has once `held` bytes are given back.
pub open spec fn gave_back(
    before: Seq<crate::resource::Counters>,
    after: Seq<crate::resource::Counters>,
    node: int,
    held: int,
) -> bool {
    forall|n: int| #[trigger]
        room(after, node, ResourceKind::Memory, 0, n) == room(
            before,
            node,
            ResourceKind::Memory,
            held,
            n,
        )
}

/// What spilling did: nothing to runs where nothing was in memory, else one more run with
/// the entries in order, whose bytes are given.
pub open spec fn spilled_to(before: ExactState, after: ExactState, bytes: Option<Vec<u8>>) -> bool {
    match bytes {
        None => before.in_memory().len() == 0 && after.written() == before.written()
            && after.metas() == before.metas(),
        Some(b) => before.in_memory().len() > 0 && after.written() == before.written().push(
            in_sorted_order(before.in_memory()),
        ) && after.metas().len() == before.metas().len() + 1 && after.metas().drop_last()
            == before.metas() && b@ == run_bytes(
            before.spec_kind(),
            in_sorted_order(before.in_memory()),
            after.metas().last().checksum@,
        ),
    }
}

/// Entries in order.
pub open spec fn in_sorted_order(s: Seq<Entry>) -> Seq<Entry> {
    merged(seq![s])
}

/// The runs after an operation that may have written one more.
pub open spec fn runs_with(runs: Seq<Seq<u8>>, bytes: Option<Vec<u8>>) -> Seq<Seq<u8>> {
    match bytes {
        Some(b) => runs.push(b@),
        None => runs,
    }
}

/// The temporary storage that a list takes at most, however it is cut into runs.
pub open spec fn weight(s: Seq<Entry>) -> nat
    decreases s.len(),
{
    if s.len() == 0 {
        0
    } else {
        weight(s.drop_last()) + 60 + entry_width(s.last().0)
    }
}

/// The temporary storage that a written run takes.
pub open spec fn run_cost(bytes: Option<Vec<u8>>) -> int {
    match bytes {
        Some(b) => b@.len() as int,
        None => 0,
    }
}

/// What an operation of one state left of the account: the same memory, apart from what
/// its segment holds, and as much less temporary storage as it wrote.
pub open spec fn same_room(
    before: Seq<crate::resource::Counters>,
    after: Seq<crate::resource::Counters>,
    node: int,
    held_before: int,
    held_after: int,
    written: int,
) -> bool {
    &&& forall|n: int| #[trigger]
        room(after, node, ResourceKind::Memory, held_after, n) == room(
            before,
            node,
            ResourceKind::Memory,
            held_before,
            n,
        )
    &&& forall|n: int| #[trigger]
        room(after, node, ResourceKind::Temp, 0, n) == room(
            before,
            node,
            ResourceKind::Temp,
            0,
            n + written,
        )
}

/// `after` is `before` with memory given back and taken, and temporary storage taken, at
/// every node on the way to a node.
pub open spec fn shifted(
    before: Seq<Counters>,
    after: Seq<Counters>,
    node: int,
    freed: int,
    taken: int,
    stored: int,
) -> bool {
    &&& after.len() == before.len()
    &&& forall|k: int|
        #![trigger after[k]]
        0 <= k < before.len() ==> same_caps(before[k], after[k]) && if on_path(before, node, k) {
            &&& after[k].used(ResourceKind::Memory) == less(
                before[k].used(ResourceKind::Memory) as int,
                freed,
            ) + taken
            &&& after[k].used(ResourceKind::Temp) == before[k].used(ResourceKind::Temp) + stored
        } else {
            &&& after[k].used(ResourceKind::Memory) == before[k].used(ResourceKind::Memory)
            &&& after[k].used(ResourceKind::Temp) == before[k].used(ResourceKind::Temp)
        }
}

/// Two states of a node, with the same limits at the same place.
pub open spec fn same_caps(before: Counters, after: Counters) -> bool {
    &&& after.above() == before.above()
    &&& after.cap(ResourceKind::Memory) == before.cap(ResourceKind::Memory)
    &&& after.cap(ResourceKind::Temp) == before.cap(ResourceKind::Temp)
}

proof fn charge_shifts(before: Seq<Counters>, after: Seq<Counters>, node: int, bytes: int)
    requires
        charged(before, after, node, ResourceKind::Memory, bytes),
    ensures
        shifted(before, after, node, 0, bytes, 0),
{
    assert forall|k: int|
        #![trigger after[k]]
        0 <= k < before.len() && on_path(before, node, k) implies before[k].charged_as(
        after[k],
        ResourceKind::Memory,
        before[k].used(ResourceKind::Memory) + bytes,
    ) && after[k].used(ResourceKind::Temp) == before[k].used(ResourceKind::Temp) by {}
}

proof fn release_shifts(before: Seq<Counters>, after: Seq<Counters>, node: int, bytes: int)
    requires
        released(before, after, node, ResourceKind::Memory, bytes),
    ensures
        shifted(before, after, node, bytes, 0, 0),
{
    assert forall|k: int|
        #![trigger after[k]]
        0 <= k < before.len() && on_path(before, node, k) implies before[k].charged_as(
        after[k],
        ResourceKind::Memory,
        less(before[k].used(ResourceKind::Memory) as int, bytes),
    ) && after[k].used(ResourceKind::Temp) == before[k].used(ResourceKind::Temp) by {}
}

proof fn storage_shifts(before: Seq<Counters>, after: Seq<Counters>, node: int, bytes: int)
    requires
        charged(before, after, node, ResourceKind::Temp, bytes),
    ensures
        shifted(before, after, node, 0, 0, bytes),
{
    assert forall|k: int|
        #![trigger after[k]]
        0 <= k < before.len() && on_path(before, node, k) implies before[k].charged_as(
        after[k],
        ResourceKind::Temp,
        before[k].used(ResourceKind::Temp) + bytes,
    ) && after[k].used(ResourceKind::Memory) == before[k].used(ResourceKind::Memory) by {}
}

/// One shift after another, of which one takes no memory or the other frees none.
proof fn shifts_follow(
    a: Seq<Counters>,
    b: Seq<Counters>,
    c: Seq<Counters>,
    node: int,
    freed: int,
    freed_later: int,
    taken: int,
    stored: int,
    stored_later: int,
)
    requires
        shifted(a, b, node, freed, 0, stored),
        shifted(b, c, node, freed_later, taken, stored_later),
        freed == 0 || freed_later == 0,
        freed >= 0,
        freed_later >= 0,
    ensures
        shifted(a, c, node, freed + freed_later, taken, stored + stored_later),
{
    assert forall|j: int| 0 <= j < a.len() implies (#[trigger] a[j]).above() == (
    #[trigger] b[j]).above() by {}
    assert forall|k: int|
        #![trigger c[k]]
        0 <= k < a.len() implies same_caps(a[k], c[k]) && if on_path(a, node, k) {
            &&& c[k].used(ResourceKind::Memory) == less(
                a[k].used(ResourceKind::Memory) as int,
                freed + freed_later,
            ) + taken
            &&& c[k].used(ResourceKind::Temp) == a[k].used(ResourceKind::Temp) + (stored
                + stored_later)
        } else {
            &&& c[k].used(ResourceKind::Memory) == a[k].used(ResourceKind::Memory)
            &&& c[k].used(ResourceKind::Temp) == a[k].used(ResourceKind::Temp)
        } by {
        crate::resource::same_paths(a, b, node, k);
        let mid = b[k];
        assert(same_caps(a[k], mid));
    }
}

/// The most memory that one of the values of a list takes.
pub open spec fn widest_value(list: Seq<Entry>) -> int
    decreases list.len(),
{
    if list.len() == 0 {
        0
    } else if least_bytes(list.last().0) > widest_value(list.drop_last()) {
        least_bytes(list.last().0)
    } else {
        widest_value(list.drop_last())
    }
}

/// What a list that was fed to a state draws on an account at most: its segment gives way to
/// a new one, and its values are written out once.
pub open spec fn drawn(
    before: Seq<Counters>,
    after: Seq<Counters>,
    s0: ExactState,
    s1: ExactState,
    list: Seq<Entry>,
) -> bool {
    &&& s1.spec_node() == s0.spec_node()
    &&& s1.base() == s0.base()
    &&& s1.held() <= s0.most(list)
    &&& after.len() == before.len()
    &&& forall|k: int|
        #![trigger after[k]]
        0 <= k < before.len() ==> same_caps(before[k], after[k]) && if on_path(
            before,
            s0.spec_node(),
            k,
        ) {
            &&& after[k].used(ResourceKind::Memory) <= less(
                before[k].used(ResourceKind::Memory) as int,
                s0.held(),
            ) + s1.held()
            &&& after[k].used(ResourceKind::Temp) + weight(s1.in_memory()) <= before[k].used(
                ResourceKind::Temp,
            ) + weight(s0.in_memory()) + weight(list)
        } else {
            &&& after[k].used(ResourceKind::Memory) == before[k].used(ResourceKind::Memory)
            &&& after[k].used(ResourceKind::Temp) == before[k].used(ResourceKind::Temp)
        }
}

/// The least memory that holds one value.
pub open spec fn least_bytes(k: Key) -> int {
    match k {
        Key::Bytes(b) => 16 + b.len() as int,
        _ => 16,
    }
}

/// A value whose length fits in four bytes.
pub open spec fn short(k: Key) -> bool {
    k matches Key::Bytes(b) ==> b.len() <= u32::MAX
}

/// The length of the first `n` of a list of runs.
pub open spec fn run_sizes(lists: Seq<Seq<Entry>>, n: nat) -> nat
    decreases n,
{
    if n == 0 {
        0
    } else {
        run_sizes(lists, (n - 1) as nat) + payload(lists[n - 1]).len() + 60
    }
}

impl ExactState {
    /// The kind of the values.
    pub closed spec fn spec_kind(&self) -> ValueKind {
        self.kind
    }

    /// The node of the account that is charged.
    pub closed spec fn spec_node(&self) -> int {
        self.node as int
    }

    /// The entries in memory.
    pub closed spec fn in_memory(&self) -> Seq<Entry> {
        entries(self.records@)
    }

    /// The entries of each run that was written.
    pub closed spec fn written(&self) -> Seq<Seq<Entry>> {
        self.written@
    }

    /// What is remembered of each run.
    pub closed spec fn metas(&self) -> Seq<RunMeta> {
        self.runs@
    }

    /// Every entry that was inserted.
    pub open spec fn all(&self) -> Multiset<Entry> {
        joined(self.written()).to_multiset().add(self.in_memory().to_multiset())
    }

    /// Whether a full segment is written to a run rather than enlarged.
    pub closed spec fn spills(&self) -> bool {
        self.can_spill
    }

    /// Runs are described by what is remembered of them and are sorted; every entry can be
    /// stored.
    pub closed spec fn wf(&self) -> bool {
        &&& self.runs@.len() == self.written@.len()
        &&& forall|i: int|
            0 <= i < self.runs@.len() ==> describes(
                #[trigger] self.runs@[i],
                self.kind,
                self.written@[i],
            )
        &&& forall|i: int| 0 <= i < self.written@.len() ==> sorted(#[trigger] self.written@[i])
        &&& forall|i: int|
            0 <= i < self.records@.len() ==> storable((#[trigger] self.records@[i])@, self.kind)
        &&& forall|i: int|
            0 <= i < self.memory@.len() ==> (#[trigger] self.memory@[i]).charge().node()
                == self.node && self.memory@[i].charge().kind() == ResourceKind::Memory
        &&& self.temp@.len() == self.runs@.len()
        &&& forall|i: int|
            0 <= i < self.temp@.len() ==> (#[trigger] self.temp@[i]).charge().node() == self.node
                && self.temp@[i].charge().kind() == ResourceKind::Temp
        &&& self.record_capacity <= MAX_FIXED_RECORDS * 0x1_0000_0000
        &&& self.byte_capacity <= u32::MAX
        &&& self.used_bytes <= self.byte_capacity
        &&& 1 <= self.desired <= MAX_FIXED_RECORDS
        &&& !self.allocated ==> self.records@.len() == 0 && self.memory@.len() == 0
        &&& self.allocated ==> self.records@.len() <= self.record_capacity
    }

    /// Whether the segment has no place for a value.
    pub closed spec fn full(&self, k: Key) -> bool {
        self.allocated && (self.records@.len() >= self.record_capacity || (k matches Key::Bytes(b)
            && b.len() > self.byte_capacity - self.used_bytes))
    }

    /// Whether there is a segment.
    pub closed spec fn has_segment(&self) -> bool {
        self.allocated
    }

    /// The memory that the segment holds.
    pub closed spec fn held(&self) -> int {
        held_bytes(self.memory@)
    }

    /// The memory that a new segment asks for first, whatever its first value is.
    pub closed spec fn base(&self) -> int {
        if self.kind == ValueKind::Bytes {
            48 * self.desired
        } else {
            16 * self.desired
        }
    }

    /// The most memory that a state with a place for runs holds while a list is fed to it.
    pub open spec fn most(&self, list: Seq<Entry>) -> int {
        if list.len() == 0 || self.held() > self.base() + widest_value(list) {
            self.held()
        } else {
            self.base() + widest_value(list)
        }
    }

    /// The bytes that the arena of the segment has place for.
    pub closed spec fn arena(&self) -> int {
        self.byte_capacity as int
    }

    /// The bytes that the arena of a segment grows by to take a value of `length` bytes.
    pub closed spec fn arena_growth(&self, length: int) -> int {
        let lacking = length - (self.byte_capacity - self.used_bytes);
        if lacking <= 0 {
            0
        } else if lacking > self.byte_capacity {
            lacking
        } else {
            self.byte_capacity as int
        }
    }

    /// The error of a segment that cannot grow at all: its arena would be too large, or else
    /// its size would.
    pub closed spec fn growth_refusal(&self, k: Key) -> ErrorView {
        let extra = match k {
            Key::Bytes(b) => self.arena_growth(b.len() as int),
            _ => 0,
        };
        if self.byte_capacity + extra > u32::MAX {
            ErrorView::ResourceLimit {
                resource: "exact_state_arena"@,
                requested: extra as u64,
                used: self.byte_capacity as u64,
                limit: u32::MAX as u64,
            }
        } else {
            ErrorView::CorruptData("Exact segment size overflowed"@)
        }
    }


    /// What the segment must grow by to hold a value, or nothing where it cannot.
    pub closed spec fn growth(&self, k: Key) -> Option<int> {
        match k {
            Key::Bytes(b) => {
                let records = if self.records@.len() >= self.record_capacity {
                    if self.record_capacity > 1 {
                        self.record_capacity as int
                    } else {
                        1
                    }
                } else {
                    0
                };
                let extra = self.arena_growth(b.len() as int);
                if self.byte_capacity + extra > u32::MAX || records * 16 + extra > usize::MAX
                    || self.record_capacity + records > MAX_FIXED_RECORDS * 0x1_0000_0000 {
                    None
                } else {
                    Some(records * 16 + extra)
                }
            },
            _ => {
                let extra = if self.record_capacity > 1 {
                    self.record_capacity as int
                } else {
                    1
                };
                if extra * 16 > usize::MAX || self.record_capacity + extra > MAX_FIXED_RECORDS
                    * 0x1_0000_0000 {
                    None
                } else {
                    Some(extra * 16)
                }
            },
        }
    }

    /// The bytes of every run written so far.
    pub open spec fn run_list(&self) -> Seq<Seq<u8>> {
        Seq::new(
            self.written().len(),
            |i: int|
                run_bytes(self.spec_kind(), self.written()[i], self.metas()[i].checksum@),
        )
    }

    /// Whether the account has room for a list, whatever it has to be cut into: memory for
    /// one value at a time, and temporary storage for all.
    pub open spec fn plenty(&self, account: &ResourceAccount, list: Seq<Entry>) -> bool {
        &&& self.spills()
        &&& forall|i: int|
            #![trigger list[i]]
            0 <= i < list.len() ==> list[i].0.kind() == self.spec_kind() && short(list[i].0)
                && room(
                account.nodes(),
                self.spec_node(),
                ResourceKind::Memory,
                self.held(),
                least_bytes(list[i].0),
            )
        &&& room(
            account.nodes(),
            self.spec_node(),
            ResourceKind::Temp,
            0,
            (weight(self.in_memory()) + weight(list)) as int,
        )
    }

    /// Whether an account has room for one more value of this state: for a first segment,
    /// for a larger one, or for the run that the full one is written to and a new one.
    pub open spec fn accepts(&self, account: &ResourceAccount, k: Key) -> bool {
        let nodes = account.nodes();
        let node = self.spec_node();
        &&& k.kind() == self.spec_kind()
        &&& short(k)
        &&& if self.full(k) {
            if self.spills() {
                (self.in_memory().len() == 0 || room(
                    nodes,
                    node,
                    ResourceKind::Temp,
                    0,
                    (60 + payload(in_sorted_order(self.in_memory())).len()) as int,
                )) && room(nodes, node, ResourceKind::Memory, self.held(), least_bytes(k))
            } else {
                self.growth(k) is Some && room(
                    nodes,
                    node,
                    ResourceKind::Memory,
                    0,
                    self.growth(k).unwrap(),
                )
            }
        } else {
            self.has_segment() || room(nodes, node, ResourceKind::Memory, 0, least_bytes(k))
        }
    }

    /// The error of a value that is not accepted: of another kind, too long, without room for
    /// the run that has to be written first, or without room for the segment. `before` is
    /// what was charged when the value came, `after` what is charged once the segment that
    /// was in the way is given back.
    pub open spec fn insert_refusal(
        &self,
        before: Seq<Counters>,
        after: Seq<Counters>,
        k: Key,
    ) -> ErrorView {
        let node = self.spec_node();
        let run = 60 + payload(in_sorted_order(self.in_memory())).len();
        if k.kind() != self.spec_kind() {
            ErrorView::CorruptData("Value kind does not match the exact-state plan"@)
        } else if !short(k) {
            ErrorView::ResourceLimit {
                resource: "single exact value"@,
                requested: match k {
                    Key::Bytes(b) => b.len() as u64,
                    _ => 0,
                },
                used: 0,
                limit: u32::MAX as u64,
            }
        } else if self.full(k) && !self.spills() {
            match self.growth(k) {
                Some(bytes) => refusal(before, node, ResourceKind::Memory, bytes as u64),
                None => self.growth_refusal(k),
            }
        } else if self.full(k) && self.in_memory().len() > 0 && !room(
            before,
            node,
            ResourceKind::Temp,
            0,
            run as int,
        ) {
            refusal(before, node, ResourceKind::Temp, run as u64)
        } else {
            refusal(after, node, ResourceKind::Memory, least_bytes(k) as u64)
        }
    }

    /// A state that has seen nothing. Samples of repeats are charged at once.
    pub fn new(
        kind: ValueKind,
        account: &mut ResourceAccount,
        node: usize,
        can_spill: bool,
        row_count_hint: Option<u64>,
    ) -> (r: Result<Self, ProofFrameError>)
        requires
            old(account).wf(),
            node < old(account).nodes().len(),
        ensures
            final(account).wf(),
            final(account).spec_limits() == old(account).spec_limits(),
            final(account).nodes().len() == old(account).nodes().len(),
            r is Ok <==> old(account).spec_limits().max_samples * 16 <= usize::MAX && room(
                old(account).nodes(),
                node as int,
                ResourceKind::Memory,
                0,
                old(account).spec_limits().max_samples * 16,
            ),
            r matches Err(e) ==> (if old(account).spec_limits().max_samples * 16 > usize::MAX {
                e@ == ErrorView::CorruptData("Exact sample size overflowed"@)
            } else {
                e@ == refusal(
                    old(account).nodes(),
                    node as int,
                    ResourceKind::Memory,
                    (old(account).spec_limits().max_samples * 16) as u64,
                )
            }),
            r matches Ok(s) ==> s.wf() && s.spec_kind() == kind && s.spec_node() == node
                && s.spills() == can_spill && s.merges() == 0 && s.widest() == 0
                && !s.has_segment() && s.written()
                == Seq::<Seq<Entry>>::empty() && s.in_memory() == Seq::<Entry>::empty() && charged(
                old(account).nodes(),
                final(account).nodes(),
                node as int,
                ResourceKind::Memory,
                old(account).spec_limits().max_samples * 16,
            ),
    {
        let samples: usize = account.limits().max_samples;
        if samples > usize::MAX / 16 {
            return Err(ProofFrameError::CorruptData(text("Exact sample size overflowed")));
        }
        let bytes: u64 = (samples * 16) as u64;
        proof {
            room_is_no_refusal(account.nodes(), node as int, ResourceKind::Memory, bytes);
        }
        let sample_memory = match account.try_reserve_memory(node, bytes) {
            Ok(m) => m,
            Err(e) => return Err(e),
        };
        let fallback: usize = match kind {
            ValueKind::Bytes => DEFAULT_BYTE_RECORDS,
            _ => DEFAULT_FIXED_RECORDS,
        };
        let most: usize = match kind {
            ValueKind::Bytes => MAX_BYTE_RECORDS,
            _ => MAX_FIXED_RECORDS,
        };
        let hinted: usize = if can_spill {
            match row_count_hint {
                Some(rows) => if rows <= usize::MAX as u64 {
                    rows as usize
                } else {
                    fallback
                },
                None => fallback,
            }
        } else {
            fallback
        };
        let desired: usize = if hinted < 1 {
            1
        } else if hinted > most {
            most
        } else {
            hinted
        };
        let s = ExactState {
            kind,
            node,
            can_spill,
            desired,
            allocated: false,
            record_capacity: 0,
            byte_capacity: 0,
            used_bytes: 0,
            records: Vec::new(),
            memory: Vec::new(),
            sample_memory,
            runs: Vec::new(),
            temp: Vec::new(),
            compactions: 0,
            max_merge_fan_in: 0,
            written: Ghost(Seq::empty()),
        };
        assert(entries(s.records@) =~= Seq::empty());
        Ok(s)
    }

    fn is_full(&self, value: &ValueRef<'_>) -> (r: bool)
        requires
            self.wf(),
        ensures
            r == self.full(value@),
    {
        if !self.allocated {
            return false;
        }
        if self.records.len() >= self.record_capacity {
            return true;
        }
        match value {
            ValueRef::Bytes(b) => b.len() > self.byte_capacity - self.used_bytes,
            _ => false,
        }
    }

    /// Makes a first segment: as large as wanted, or halved until it fits.
    fn allocate(&mut self, account: &mut ResourceAccount, length: usize, Ghost(k): Ghost<Key>) -> (r:
        Result<(), ProofFrameError>)
        requires
            old(self).wf(),
            !old(self).has_segment(),
            old(account).wf(),
            old(self).spec_node() < old(account).nodes().len(),
            k.kind() == old(self).spec_kind(),
            short(k),
            k matches Key::Bytes(b) ==> b.len() == length,
            !(k is Bytes) ==> length == 0,
        ensures
            final(account).wf(),
            final(account).spec_limits() == old(account).spec_limits(),
            final(account).nodes().len() == old(account).nodes().len(),
            final(self).wf(),
            final(self).spec_kind() == old(self).spec_kind(),
            final(self).spec_node() == old(self).spec_node(),
            final(self).spills() == old(self).spills(),
            final(self).merges() == old(self).merges(),
            final(self).widest() == old(self).widest(),
            final(self).written() == old(self).written(),
            final(self).metas() == old(self).metas(),
            final(self).in_memory() == old(self).in_memory(),
            r is Ok <==> room(
                old(account).nodes(),
                old(self).spec_node(),
                ResourceKind::Memory,
                0,
                least_bytes(k),
            ),
            r is Ok ==> final(self).has_segment() && !final(self).full(k),
            final(self).base() == old(self).base(),
            r is Ok ==> final(self).held() <= old(self).base() + least_bytes(k),
            r is Ok ==> shifted(
                old(account).nodes(),
                final(account).nodes(),
                old(self).spec_node(),
                0,
                final(self).held(),
                0,
            ),
            r is Ok ==> same_room(
                old(account).nodes(),
                final(account).nodes(),
                old(self).spec_node(),
                old(self).held(),
                final(self).held(),
                0,
            ),
            r matches Err(e) ==> *final(self) == *old(self) && final(account).nodes() == old(
                account,
            ).nodes() && e@ == refusal(
                old(account).nodes(),
                old(self).spec_node(),
                ResourceKind::Memory,
                least_bytes(k) as u64,
            ),
    {
        let bytes_kind = match self.kind {
            ValueKind::Bytes => true,
            _ => false,
        };
        let mut records: usize = self.desired;
        let mut arena: usize = if bytes_kind {
            let wanted: usize = if records > u32::MAX as usize / ASSUMED_BYTES_PER_VALUE {
                u32::MAX as usize
            } else {
                records * ASSUMED_BYTES_PER_VALUE
            };
            if wanted < length {
                length
            } else {
                wanted
            }
        } else {
            0
        };
        loop
            invariant
                1 <= records <= MAX_FIXED_RECORDS,
                length <= arena <= u32::MAX,
                !bytes_kind ==> arena == 0,
                bytes_kind == (self.kind == ValueKind::Bytes),
                *self == *old(self),
                self.wf(),
                !self.allocated,
                account.nodes() == old(account).nodes(),
                account.spec_limits() == old(account).spec_limits(),
                account.wf(),
                self.node < account.nodes().len(),
                k.kind() == self.kind,
                short(k),
                k matches Key::Bytes(b) ==> b.len() == length,
                !(k is Bytes) ==> length == 0,
                least_bytes(k) == 16 + length,
                records * 16 + arena <= self.base() + 16 + length,
                records <= self.desired,
                arena <= 32 * self.desired + length,
            decreases records + arena,
        {
            let total: u64 = records as u64 * 16 + arena as u64;
            proof {
                room_is_no_refusal(
                    account.nodes(),
                    self.node as int,
                    ResourceKind::Memory,
                    total,
                );
                room_shrinks(account.nodes(), self.node as int, least_bytes(k), total as int);
            }
            match account.try_reserve_memory(self.node, total) {
                Ok(m) => {
                    self.memory = Vec::new();
                    self.memory.push(m);
                    self.allocated = true;
                    self.record_capacity = records;
                    self.byte_capacity = arena;
                    self.used_bytes = 0;
                    proof {
                        assert(self.memory@.drop_last() =~= Seq::empty());
                        assert(held_bytes(self.memory@.drop_last()) == 0);
                        assert(held_bytes(self.memory@) == total);
                        assert(held_bytes(old(self).memory@) == 0);
                        charge_keeps_room(
                            old(account).nodes(),
                            account.nodes(),
                            self.node as int,
                            ResourceKind::Memory,
                            total as int,
                            0,
                        );
                        charge_shifts(
                            old(account).nodes(),
                            account.nodes(),
                            self.node as int,
                            total as int,
                        );
                    }
                    return Ok(());
                },
                Err(e) => {
                    if records == 1 && arena <= length {
                        return Err(e);
                    }
                    records = if records / 2 < 1 {
                        1
                    } else {
                        records / 2
                    };
                    arena = if arena / 2 < length {
                        length
                    } else {
                        arena / 2
                    };
                },
            }
        }
    }

    /// Enlarges the segment.
    fn grow(&mut self, account: &mut ResourceAccount, length: usize, Ghost(k): Ghost<Key>) -> (r:
        Result<(), ProofFrameError>)
        requires
            old(self).wf(),
            old(self).full(k),
            old(account).wf(),
            old(self).spec_node() < old(account).nodes().len(),
            k.kind() == old(self).spec_kind(),
            k matches Key::Bytes(b) ==> b.len() == length,
            !(k is Bytes) ==> length == 0,
        ensures
            final(account).wf(),
            final(account).spec_limits() == old(account).spec_limits(),
            final(account).nodes().len() == old(account).nodes().len(),
            final(self).wf(),
            final(self).spec_kind() == old(self).spec_kind(),
            final(self).spec_node() == old(self).spec_node(),
            final(self).spills() == old(self).spills(),
            final(self).merges() == old(self).merges(),
            final(self).widest() == old(self).widest(),
            final(self).written() == old(self).written(),
            final(self).metas() == old(self).metas(),
            final(self).in_memory() == old(self).in_memory(),
            r is Ok <==> old(self).growth(k) is Some && room(
                old(account).nodes(),
                old(self).spec_node(),
                ResourceKind::Memory,
                0,
                old(self).growth(k).unwrap(),
            ),
            r is Ok ==> final(self).has_segment() && !final(self).full(k),
            r is Ok ==> same_room(
                old(account).nodes(),
                final(account).nodes(),
                old(self).spec_node(),
                old(self).held(),
                final(self).held(),
                0,
            ),
            final(self).base() == old(self).base(),
            r is Ok ==> final(self).arena() <= u32::MAX,
            r is Err ==> *final(self) == *old(self),
            r matches Err(e) ==> final(account).nodes() == old(account).nodes() && e@ == match old(
                self,
            ).growth(k) {
                Some(bytes) => refusal(
                    old(account).nodes(),
                    old(self).spec_node(),
                    ResourceKind::Memory,
                    bytes as u64,
                ),
                None => old(self).growth_refusal(k),
            },
    {
        let bytes_kind = match self.kind {
            ValueKind::Bytes => true,
            _ => false,
        };
        let extra_records: usize = if !bytes_kind || self.records.len() >= self.record_capacity {
            if self.record_capacity > 1 {
                self.record_capacity
            } else {
                1
            }
        } else {
            0
        };
        let free: usize = self.byte_capacity - self.used_bytes;
        let extra_bytes: usize = if bytes_kind && length > free {
            let lacking: usize = length - free;
            if lacking > self.byte_capacity {
                lacking
            } else {
                self.byte_capacity
            }
        } else {
            0
        };
        if extra_bytes > u32::MAX as usize - self.byte_capacity {
            return Err(
                ProofFrameError::ResourceLimit {
                    resource: "exact_state_arena",
                    requested: extra_bytes as u64,
                    used: self.byte_capacity as u64,
                    limit: u32::MAX as u64,
                },
            );
        }
        if extra_records > (usize::MAX - extra_bytes) / 16 || extra_records as u128
            + self.record_capacity as u128 > MAX_FIXED_RECORDS as u128 * 0x1_0000_0000 {
            return Err(ProofFrameError::CorruptData(text("Exact segment size overflowed")));
        }
        let bytes: u64 = (extra_records * 16 + extra_bytes) as u64;
        proof {
            assert(self.growth(k) == Some(bytes as int));
            room_is_no_refusal(account.nodes(), self.node as int, ResourceKind::Memory, bytes);
        }
        match account.try_reserve_memory(self.node, bytes) {
            Ok(m) => {
                let ghost had = self.memory@;
                self.memory.push(m);
                self.record_capacity = self.record_capacity + extra_records;
                self.byte_capacity = self.byte_capacity + extra_bytes;
                proof {
                    held_is_not_negative(had);
                    assert(self.memory@.drop_last() =~= had);
                    assert(held_bytes(self.memory@) == held_bytes(had) + bytes);
                    charge_keeps_room(
                        old(account).nodes(),
                        account.nodes(),
                        self.node as int,
                        ResourceKind::Memory,
                        bytes as int,
                        held_bytes(had),
                    );
                }
                Ok(())
            },
            Err(e) => Err(e),
        }
    }

    /// Gives the memory of the segment back.
    fn free_segment(&mut self, account: &mut ResourceAccount)
        requires
            old(account).wf(),
            old(self).spec_node() < old(account).nodes().len(),
            forall|i: int|
                0 <= i < old(self).memory@.len() ==> (
                #[trigger] old(self).memory@[i]).charge().node() == old(self).node
                    && old(self).memory@[i].charge().kind() == ResourceKind::Memory,
        ensures
            final(account).wf(),
            final(account).spec_limits() == old(account).spec_limits(),
            released(
                old(account).nodes(),
                final(account).nodes(),
                old(self).spec_node(),
                ResourceKind::Memory,
                old(self).held(),
            ),
            final(self).memory@.len() == 0,
            *final(self) == (ExactState { memory: final(self).memory, ..*old(self) }),
    {
        let ghost start = account.nodes();
        let ghost total = self.held();
        let ghost node = self.node as int;
        proof {
            held_is_not_negative(self.memory@);
            assert forall|k: int| 0 <= k < start.len() implies if on_path(start, node, k) {
                start[k].charged_as(
                    #[trigger] start[k],
                    ResourceKind::Memory,
                    less(start[k].used(ResourceKind::Memory) as int, 0),
                )
            } else {
                start[k] == start[k]
            } by {
                crate::resource::node_bounds(account, k, ResourceKind::Memory);
            }
        }
        while self.memory.len() > 0
            invariant
                account.wf(),
                account.spec_limits() == old(account).spec_limits(),
                start == old(account).nodes(),
                old(account).wf(),
                node == self.node,
                0 <= node < start.len(),
                total == old(self).held(),
                *self == (ExactState { memory: self.memory, ..*old(self) }),
                forall|i: int|
                    0 <= i < self.memory@.len() ==> (#[trigger] self.memory@[i]).charge().node()
                        == self.node && self.memory@[i].charge().kind() == ResourceKind::Memory,
                held_bytes(self.memory@) >= 0,
                total - held_bytes(self.memory@) >= 0,
                released(
                    start,
                    account.nodes(),
                    node,
                    ResourceKind::Memory,
                    total - held_bytes(self.memory@),
                ),
            decreases self.memory@.len(),
        {
            let ghost had = self.memory@;
            let ghost between = account.nodes();
            match self.memory.pop() {
                Some(m) => {
                    proof {
                        assert(had.drop_last() =~= self.memory@);
                        assert(had.last() == m);
                        held_is_not_negative(self.memory@);
                        assert(m.charge().node() == self.node);
                        assert forall|k: int| 0 <= k < start.len() implies (
                        #[trigger] start[k]).used(ResourceKind::Memory) <= start[k].peak(
                            ResourceKind::Memory,
                        ) by {
                            crate::resource::node_bounds(old(account), k, ResourceKind::Memory);
                        }
                    }
                    let ghost b = m.charge().bytes() as int;
                    account.release_memory(m);
                    proof {
                        released_twice(
                            start,
                            between,
                            account.nodes(),
                            node,
                            ResourceKind::Memory,
                            total - held_bytes(had),
                            b,
                        );
                    }
                },
                None => {},
            }
        }
    }

    /// Writes the segment to a sorted run, charges the run, and gives the segment's memory
    /// back. Nothing happens to an empty segment but that it is given up.
    pub fn spill(&mut self, account: &mut ResourceAccount) -> (r: Result<
        Option<Vec<u8>>,
        ProofFrameError,
    >)
        requires
            old(self).wf(),
            old(account).wf(),
            old(self).spec_node() < old(account).nodes().len(),
        ensures
            final(account).wf(),
            final(account).spec_limits() == old(account).spec_limits(),
            final(account).nodes().len() == old(account).nodes().len(),
            final(self).wf(),
            final(self).spec_kind() == old(self).spec_kind(),
            final(self).spec_node() == old(self).spec_node(),
            final(self).merges() == old(self).merges(),
            final(self).widest() == old(self).widest(),
            final(self).base() == old(self).base(),
            final(self).spills() == old(self).spills(),
            r is Ok <==> old(self).in_memory().len() == 0 || room(
                old(account).nodes(),
                old(self).spec_node(),
                ResourceKind::Temp,
                0,
                (60 + payload(in_sorted_order(old(self).in_memory())).len()) as int,
            ),
            r matches Ok(bytes) ==> {
                &&& !final(self).has_segment()
                &&& final(self).in_memory() == Seq::<Entry>::empty()
                &&& gave_back(
                    old(account).nodes(),
                    final(account).nodes(),
                    old(self).spec_node(),
                    old(self).held(),
                )
                &&& spilled_to(*old(self), *final(self), bytes)
                &&& shifted(
                    old(account).nodes(),
                    final(account).nodes(),
                    old(self).spec_node(),
                    old(self).held(),
                    0,
                    run_cost(bytes),
                )
                &&& same_room(
                    old(account).nodes(),
                    final(account).nodes(),
                    old(self).spec_node(),
                    old(self).held(),
                    final(self).held(),
                    run_cost(bytes),
                )
            },
            r is Err ==> final(self).in_memory().to_multiset() == old(
                self,
            ).in_memory().to_multiset() && final(self).written() == old(self).written(),
            r matches Err(e) ==> final(account).nodes() == old(account).nodes() && e@ == refusal(
                old(account).nodes(),
                old(self).spec_node(),
                ResourceKind::Temp,
                (60 + payload(in_sorted_order(old(self).in_memory())).len()) as u64,
            ),
    {
        let ghost held = self.held();
        let ghost memory_list = self.in_memory();
        if self.records.len() == 0 {
            assert(entries(self.records@) =~= Seq::empty());
            self.free_segment(account);
            self.allocated = false;
            proof {
                assert forall|n: int|
                    #[trigger]
                    room(account.nodes(), self.node as int, ResourceKind::Memory, 0, n) == room(
                        old(account).nodes(),
                        self.node as int,
                        ResourceKind::Memory,
                        held,
                        n,
                    ) by {
                    release_makes_room(
                        old(account).nodes(),
                        account.nodes(),
                        self.node as int,
                        ResourceKind::Memory,
                        held,
                        n,
                    );
                }
                release_shifts(old(account).nodes(), account.nodes(), self.node as int, held);
                held_is_not_negative(old(self).memory@);
                assert(self.held() == 0);
                release_keeps_room(
                    old(account).nodes(),
                    account.nodes(),
                    self.node as int,
                    held,
                );
            }
            return Ok(None);
        }
        let mut records: Vec<Record> = Vec::new();
        core::mem::swap(&mut self.records, &mut records);
        let ghost unsorted = records@;
        let list = sort_records(records);
        proof {
            merged_is_sorted(seq![memory_list]);
            one_list(memory_list);
            sorted_list_is_unique(entries(list@), in_sorted_order(memory_list));
            assert forall|i: int| 0 <= i < list@.len() implies storable(
                (#[trigger] list@[i])@,
                self.kind,
            ) by {
                same_members(list@, unsorted, i);
            }
        }
        let (meta, bytes) = write_run(self.kind, &list);
        let total: u64 = bytes.len() as u64;
        proof {
            run_length(self.kind, entries(list@), meta.checksum@);
            room_is_no_refusal(account.nodes(), self.node as int, ResourceKind::Temp, total);
        }
        match account.try_reserve_temp(self.node, total) {
            Ok(t) => {
                let ghost charged_nodes = account.nodes();
                self.free_segment(account);
                self.allocated = false;
                self.temp.push(t);
                self.runs.push(meta);
                self.written = Ghost(self.written@.push(entries(list@)));
                self.records = Vec::new();
                proof {
                    assert(entries(self.records@) =~= Seq::empty());
                    assert(self.runs@.drop_last() =~= old(self).runs@);
                    assert(self.written() =~= old(self).written().push(
                        in_sorted_order(old(self).in_memory()),
                    ));
                    assert(bytes@ =~= run_bytes(
                        old(self).spec_kind(),
                        in_sorted_order(old(self).in_memory()),
                        self.metas().last().checksum@,
                    ));
                    assert(spilled_to(*old(self), *self, Some(bytes)));
                    assert forall|n: int|
                        #[trigger]
                        room(account.nodes(), self.node as int, ResourceKind::Memory, 0, n) == room(
                            old(account).nodes(),
                            self.node as int,
                            ResourceKind::Memory,
                            held,
                            n,
                        ) by {
                        release_makes_room(
                            charged_nodes,
                            account.nodes(),
                            self.node as int,
                            ResourceKind::Memory,
                            held,
                            n,
                        );
                        temp_leaves_memory(
                            old(account).nodes(),
                            charged_nodes,
                            self.node as int,
                            total as int,
                            held,
                            n,
                        );
                    }
                    held_is_not_negative(old(self).memory@);
                    assert(self.held() == 0);
                    release_keeps_room(charged_nodes, account.nodes(), self.node as int, held);
                    charge_keeps_room(
                        old(account).nodes(),
                        charged_nodes,
                        self.node as int,
                        ResourceKind::Temp,
                        total as int,
                        held,
                    );
                    storage_shifts(
                        old(account).nodes(),
                        charged_nodes,
                        self.node as int,
                        total as int,
                    );
                    release_shifts(charged_nodes, account.nodes(), self.node as int, held);
                    shifts_follow(
                        old(account).nodes(),
                        charged_nodes,
                        account.nodes(),
                        self.node as int,
                        0,
                        held,
                        0,
                        total as int,
                        0,
                    );
                    assert(run_cost(Some(bytes)) == total);
                    rooms_follow(
                        old(account).nodes(),
                        charged_nodes,
                        account.nodes(),
                        self.node as int,
                        held,
                        held,
                        0,
                        total as int,
                        0,
                    );
                }
                Ok(Some(bytes))
            },
            Err(e) => {
                self.records = list;
                Err(e)
            },
        }
    }

    /// Adds a value. The bytes of a run that had to be written are returned for the caller
    /// to keep, as the last of the runs.
    pub fn insert(&mut self, account: &mut ResourceAccount, value: ValueRef<'_>, row: u64) -> (r:
        Result<Option<Vec<u8>>, ProofFrameError>)
        requires
            old(self).wf(),
            old(account).wf(),
            old(self).spec_node() < old(account).nodes().len(),
        ensures
            final(account).wf(),
            final(account).spec_limits() == old(account).spec_limits(),
            final(account).nodes().len() == old(account).nodes().len(),
            final(self).wf(),
            final(self).spec_kind() == old(self).spec_kind(),
            final(self).spec_node() == old(self).spec_node(),
            final(self).spills() == old(self).spills(),
            final(self).merges() == old(self).merges(),
            final(self).widest() == old(self).widest(),
            r is Ok <==> old(self).accepts(old(account), value@),
            r is Ok ==> final(self).all() == old(self).all().insert((value@, row)),
            r matches Ok(bytes) ==> match bytes {
                None => final(self).in_memory() == old(self).in_memory().push((value@, row))
                    && final(self).written() == old(self).written() && final(self).metas() == old(
                    self,
                ).metas(),
                Some(b) => old(self).in_memory().len() > 0 && final(self).in_memory() == seq![
                    (value@, row),
                ] && final(self).written() == old(self).written().push(
                    in_sorted_order(old(self).in_memory()),
                )
                    && final(self).metas().len() == old(self).metas().len() + 1
                    && final(self).metas().drop_last() == old(self).metas() && b@ == run_bytes(
                    old(self).spec_kind(),
                    in_sorted_order(old(self).in_memory()),
                    final(self).metas().last().checksum@,
                ),
            },
            r matches Ok(bytes) ==> same_room(
                old(account).nodes(),
                final(account).nodes(),
                old(self).spec_node(),
                old(self).held(),
                final(self).held(),
                run_cost(bytes),
            ),
            r matches Ok(bytes) ==> final(self).run_list() == runs_with(
                old(self).run_list(),
                bytes,
            ),
            final(self).base() == old(self).base(),
            r is Ok && old(self).spills() ==> drawn(
                old(account).nodes(),
                final(account).nodes(),
                *old(self),
                *final(self),
                seq![(value@, row)],
            ),
            r is Err ==> final(self).all() == old(self).all(),
            r is Err && !(old(self).full(value@) && old(self).spills()) ==> *final(self) == *old(
                self,
            ) && final(account).nodes() == old(account).nodes(),
            r matches Err(e) ==> e@ == old(self).insert_refusal(
                old(account).nodes(),
                final(account).nodes(),
                value@,
            ),
            r matches Err(e) ==> not_inserted(e@),
    {
        let same = match (self.kind, &value) {
            (ValueKind::I64, ValueRef::I64(_)) => true,
            (ValueKind::U64, ValueRef::U64(_)) => true,
            (ValueKind::F64, ValueRef::F64(_)) => true,
            (ValueKind::Bytes, ValueRef::Bytes(_)) => true,
            _ => false,
        };
        if !same {
            return Err(
                ProofFrameError::CorruptData(
                    text("Value kind does not match the exact-state plan"),
                ),
            );
        }
        let ghost k = value@;
        let length: usize = match &value {
            ValueRef::Bytes(b) => b.len(),
            _ => 0,
        };
        if length > u32::MAX as usize {
            return Err(
                ProofFrameError::ResourceLimit {
                    resource: "single exact value",
                    requested: length as u64,
                    used: 0,
                    limit: u32::MAX as u64,
                },
            );
        }
        let mut spilled: Option<Vec<u8>> = None;
        proof {
            room_of_itself(account.nodes(), self.spec_node(), self.held());
        }
        if self.is_full(&value) {
            if !self.can_spill {
                match self.grow(account, length, Ghost(k)) {
                    Ok(()) => {},
                    Err(e) => return Err(e),
                }
            } else {
                match self.spill(account) {
                    Ok(bytes) => {
                        spilled = bytes;
                    },
                    Err(e) => return Err(e),
                }
            }
        }
        let ghost middle = account.nodes();
        let ghost had_segment = self.allocated;
        if !self.allocated {
            let ghost between = account.nodes();
            let ghost held = self.held();
            match self.allocate(account, length, Ghost(k)) {
                Ok(()) => {
                    proof {
                        rooms_follow(
                            old(account).nodes(),
                            between,
                            account.nodes(),
                            self.spec_node(),
                            old(self).held(),
                            held,
                            self.held(),
                            run_cost(spilled),
                            0,
                        );
                    }
                },
                Err(e) => {
                    proof {
                        assert(spilled is Some ==> self.written() =~= old(self).final_lists());
                        if spilled is Some {
                            spilled_all(*old(self), *self);
                        } else if old(self).allocated {
                            assert(self.written() =~= old(self).final_lists());
                            spilled_all(*old(self), *self);
                        }
                    }
                    return Err(e);
                },
            }
        }
        let owned = match value {
            ValueRef::I64(v) => OwnedValue::I64(v),
            ValueRef::U64(v) => OwnedValue::U64(v),
            ValueRef::F64(v) => OwnedValue::F64(v),
            ValueRef::Bytes(b) => {
                let copy = slice_of(b, 0, b.len());
                assert(copy@ =~= b@);
                OwnedValue::Bytes(copy)
            },
        };
        let ghost had = self.records@;
        self.used_bytes = self.used_bytes + length;
        self.records.push(Record { value: owned, row });
        proof {
            assert(entries(self.records@) =~= entries(had).push((k, row)));
            if spilled is Some {
                assert(entries(self.records@) =~= seq![(k, row)]);
                spilled_bag(old(self).written(), old(self).in_memory(), (k, row));
                assert(self.metas().drop_last() =~= old(self).metas());
                assert forall|i: int| 0 <= i < old(self).metas().len() implies self.metas()[i]
                    == #[trigger] old(self).metas()[i] by {
                    assert(self.metas().drop_last()[i] == old(self).metas()[i]);
                }
                assert(self.run_list() =~= runs_with(old(self).run_list(), spilled));
            } else {
                assert(self.run_list() =~= old(self).run_list());
                pushed_bag(old(self).in_memory(), (k, row));
                assert(self.in_memory() =~= old(self).in_memory().push((k, row)));
                assert(self.all() =~= old(self).all().insert((k, row)));
            }
        }
        proof {
            if old(self).spills() {
                if spilled is Some {
                    run_length(
                        self.kind,
                        in_sorted_order(old(self).in_memory()),
                        self.metas().last().checksum@,
                    );
                    assert(self.in_memory() =~= seq![(k, row)]);
                } else {
                    assert(self.in_memory() =~= old(self).in_memory().push((k, row)));
                }
                insert_draws(
                    old(account).nodes(),
                    middle,
                    account.nodes(),
                    *old(self),
                    *self,
                    spilled,
                    (k, row),
                    had_segment,
                );
            }
        }
        Ok(spilled)
    }
}

/// An insertion draws no more than the weight of what is written, and the segment that holds
/// the new value.
proof fn insert_draws(
    before: Seq<Counters>,
    middle: Seq<Counters>,
    after: Seq<Counters>,
    s0: ExactState,
    s1: ExactState,
    bytes: Option<Vec<u8>>,
    e: Entry,
    had_segment: bool,
)
    requires
        s0.wf(),
        s1.wf(),
        s1.spec_node() == s0.spec_node(),
        s1.base() == s0.base(),
        had_segment ==> after == middle && middle == before && s1.held() == s0.held() && bytes
            is None,
        !had_segment ==> shifted(middle, after, s0.spec_node(), 0, s1.held(), 0) && s1.held()
            <= s0.base() + least_bytes(e.0) && (shifted(
            before,
            middle,
            s0.spec_node(),
            s0.held(),
            0,
            run_cost(bytes),
        ) || (middle == before && s0.held() == 0 && bytes is None)),
        match bytes {
            None => s1.in_memory() == s0.in_memory().push(e),
            Some(b) => s1.in_memory() == seq![e] && b@.len() == 60 + payload(
                in_sorted_order(s0.in_memory()),
            ).len() && s0.in_memory().len() > 0,
        },
    ensures
        drawn(before, after, s0, s1, seq![e]),
{
    let list = seq![e];
    let memory = s0.in_memory();
    let one = s1.in_memory();
    assert(list.drop_last() =~= Seq::empty());
    assert(widest_value(list.drop_last()) == 0);
    assert(weight(list.drop_last()) == 0);
    assert(weight(list) == 60 + entry_width(e.0));
    held_is_not_negative(s0.memory@);
    held_is_not_negative(s1.memory@);
    if bytes is None {
        assert(one.drop_last() =~= memory);
        assert(weight(one) == weight(memory) + weight(list));
    } else {
        assert(one =~= list);
        one_list(memory);
        merged_is_sorted(seq![memory]);
        weight_of_bag(in_sorted_order(memory), memory);
        weight_covers(in_sorted_order(memory));
        broadcast use vstd::seq_lib::group_to_multiset_ensures;

        assert(in_sorted_order(memory).to_multiset().len() == in_sorted_order(memory).len());
        assert(memory.to_multiset().len() == memory.len());
        let cost = run_cost(bytes);
        assert(cost <= weight(memory)) by (nonlinear_arith)
            requires
                cost == 60 + payload(in_sorted_order(memory)).len(),
                payload(in_sorted_order(memory)).len() + 60 * memory.len() == weight(memory),
                memory.len() >= 1,
        ;
    }
    if !had_segment {
        if middle == before && s0.held() == 0 && bytes is None {
            assert(shifted(before, after, s0.spec_node(), 0, s1.held(), 0));
        } else {
            shifts_follow(
                before,
                middle,
                after,
                s0.spec_node(),
                s0.held(),
                0,
                s1.held(),
                run_cost(bytes),
                0,
            );
        }
    }
}

proof fn pushed_bag(s: Seq<Entry>, e: Entry)
    ensures
        s.push(e).to_multiset() == s.to_multiset().insert(e),
{
    broadcast use vstd::seq_lib::group_to_multiset_ensures;

}

proof fn spilled_bag(written: Seq<Seq<Entry>>, memory: Seq<Entry>, e: Entry)
    ensures
        joined(written.push(in_sorted_order(memory))).to_multiset().add(seq![e].to_multiset())
            == joined(written).to_multiset().add(memory.to_multiset()).insert(e),
{
    broadcast use vstd::seq_lib::group_to_multiset_ensures;

    let s = in_sorted_order(memory);
    one_list(memory);
    merged_is_sorted(seq![memory]);
    let more = written.push(s);
    assert(more.drop_last() =~= written);
    vstd::seq_lib::lemma_multiset_commutative(joined(written), s);
    assert(seq![e] =~= Seq::<Entry>::empty().push(e));
    assert(seq![e].to_multiset() =~= Multiset::<Entry>::empty().insert(e));
    assert(joined(more).to_multiset().add(seq![e].to_multiset()) =~= joined(
        written,
    ).to_multiset().add(memory.to_multiset()).insert(e));
}

proof fn room_shrinks(nodes: Seq<crate::resource::Counters>, node: int, small: int, large: int)
    requires
        small <= large,
    ensures
        room(nodes, node, ResourceKind::Memory, 0, large) ==> room(
            nodes,
            node,
            ResourceKind::Memory,
            0,
            small,
        ),
{
}

proof fn temp_leaves_memory(
    before: Seq<crate::resource::Counters>,
    after: Seq<crate::resource::Counters>,
    node: int,
    bytes: int,
    freed: int,
    n: int,
)
    requires
        charged(before, after, node, ResourceKind::Temp, bytes),
    ensures
        room(after, node, ResourceKind::Memory, freed, n) == room(
            before,
            node,
            ResourceKind::Memory,
            freed,
            n,
        ),
{
    assert forall|j: int| 0 <= j < before.len() implies (#[trigger] before[j]).above() == (
    #[trigger] after[j]).above() by {}
    assert forall|k: int| #[trigger] on_path(after, node, k) == on_path(before, node, k) by {
        crate::resource::same_paths(before, after, node, k);
    }
    assert forall|k: int| 0 <= k < before.len() implies (#[trigger] after[k]).used(
        ResourceKind::Memory,
    ) == before[k].used(ResourceKind::Memory) && after[k].cap(ResourceKind::Memory)
        == before[k].cap(ResourceKind::Memory) by {
        if on_path(before, node, k) {
            assert(before[k].charged_as(
                after[k],
                ResourceKind::Temp,
                before[k].used(ResourceKind::Temp) + bytes,
            ));
        }
    }
    if room(before, node, ResourceKind::Memory, freed, n) {
        assert forall|k: int| 0 <= k < after.len() && on_path(after, node, k) implies less(
            (#[trigger] after[k]).used(ResourceKind::Memory) as int,
            freed,
        ) + n <= after[k].cap(ResourceKind::Memory) by {
            assert(on_path(before, node, k));
            assert(less(before[k].used(ResourceKind::Memory) as int, freed) + n <= before[k].cap(
                ResourceKind::Memory,
            ));
        }
    }
    if room(after, node, ResourceKind::Memory, freed, n) {
        assert forall|k: int| 0 <= k < before.len() && on_path(before, node, k) implies less(
            (#[trigger] before[k]).used(ResourceKind::Memory) as int,
            freed,
        ) + n <= before[k].cap(ResourceKind::Memory) by {
            assert(on_path(after, node, k));
            assert(less(after[k].used(ResourceKind::Memory) as int, freed) + n <= after[k].cap(
                ResourceKind::Memory,
            ));
        }
    }
}

proof fn weight_front(s: Seq<Entry>)
    requires
        s.len() > 0,
    ensures
        weight(s) == 60 + entry_width(s[0].0) + weight(s.drop_first()),
    decreases s.len(),
{
    if s.len() == 1 {
        assert(s.drop_last() =~= Seq::empty());
        assert(s.drop_first() =~= Seq::empty());
    } else {
        weight_front(s.drop_last());
        assert(s.drop_last().drop_first() =~= s.drop_first().drop_last());
        assert(s.drop_last()[0] == s[0]);
        assert(s.drop_first().last() == s.last());
    }
}

proof fn weight_without(s: Seq<Entry>, i: int)
    requires
        0 <= i < s.len(),
    ensures
        weight(s) == weight(s.remove(i)) + 60 + entry_width(s[i].0),
    decreases s.len(),
{
    if i == s.len() - 1 {
        assert(s.remove(i) =~= s.drop_last());
    } else {
        weight_without(s.drop_last(), i);
        assert(s.remove(i).drop_last() =~= s.drop_last().remove(i));
        assert(s.remove(i).last() == s.last());
        assert(s.drop_last()[i] == s[i]);
    }
}

proof fn weight_of_bag(a: Seq<Entry>, b: Seq<Entry>)
    requires
        a.to_multiset() == b.to_multiset(),
    ensures
        weight(a) == weight(b),
    decreases a.len(),
{
    broadcast use vstd::seq_lib::group_to_multiset_ensures;

    assert(a.to_multiset().len() == a.len());
    assert(b.to_multiset().len() == b.len());
    if a.len() > 0 {
        let x = a.last();
        assert(a.contains(x));
        assert(a.to_multiset().count(x) > 0);
        assert(b.contains(x));
        let i = choose|i: int| 0 <= i < b.len() && b[i] == x;
        assert(a.remove(a.len() - 1) =~= a.drop_last());
        assert(a.drop_last().to_multiset() =~= a.to_multiset().remove(x));
        assert(b.remove(i).to_multiset() =~= b.to_multiset().remove(x));
        weight_of_bag(a.drop_last(), b.remove(i));
        weight_without(b, i);
    }
}

proof fn weight_covers(s: Seq<Entry>)
    ensures
        payload(s).len() + 60 * s.len() == weight(s),
    decreases s.len(),
{
    if s.len() > 0 {
        weight_covers(s.drop_last());
        crate::bytes::le_len(s.last().1 as nat, 8);
        let k = s.last().0;
        match k {
            Key::I64(v) => {
                crate::bytes::le_len(crate::bytes::twos(v), 8);
            },
            Key::U64(v) => {
                crate::bytes::le_len(v as nat, 8);
            },
            Key::F64(v) => {
                crate::bytes::le_len(v as nat, 8);
            },
            Key::Bytes(b) => {
                crate::bytes::le_len(b.len(), 4);
            },
        }
        assert(entry_bytes(s.last()).len() == entry_width(k));
    }
}

/// A value is accepted where there is plenty of room for it.
pub proof fn plenty_accepts(state: &ExactState, account: &ResourceAccount, list: Seq<Entry>)
    requires
        state.wf(),
        list.len() > 0,
        state.plenty(account, list),
    ensures
        state.accepts(account, list[0].0),
{
    let k = list[0].0;
    let memory = state.in_memory();
    let nodes = account.nodes();
    let node = state.spec_node();
    assert(room(nodes, node, ResourceKind::Memory, state.held(), least_bytes(k)));
    if state.full(k) && memory.len() > 0 {
        one_list(memory);
        merged_is_sorted(seq![memory]);
        weight_of_bag(in_sorted_order(memory), memory);
        weight_covers(in_sorted_order(memory));
        broadcast use vstd::seq_lib::group_to_multiset_ensures;

        assert(in_sorted_order(memory).to_multiset().len() == in_sorted_order(memory).len());
        assert(memory.to_multiset().len() == memory.len());
        let need = (60 + payload(in_sorted_order(memory)).len()) as int;
        assert(need <= weight(memory) + weight(list)) by (nonlinear_arith)
            requires
                need == 60 + payload(in_sorted_order(memory)).len(),
                payload(in_sorted_order(memory)).len() + 60 * memory.len() == weight(memory),
                memory.len() >= 1,
        ;
        less_room(nodes, node, ResourceKind::Temp, need, (weight(memory) + weight(list)) as int);
    }
    if !state.has_segment() {
        assert(state.held() == 0);
    }
}

proof fn less_room(
    nodes: Seq<crate::resource::Counters>,
    node: int,
    kind: ResourceKind,
    small: int,
    large: int,
)
    requires
        small <= large,
        room(nodes, node, kind, 0, large),
    ensures
        room(nodes, node, kind, 0, small),
{
}

/// Where there was plenty of room for a list, there is for its rest after its first entry
/// was inserted.
pub proof fn plenty_stays(
    before: &ExactState,
    account_before: &ResourceAccount,
    list: Seq<Entry>,
    after: &ExactState,
    account_after: &ResourceAccount,
    bytes: Option<Vec<u8>>,
)
    requires
        before.wf(),
        list.len() > 0,
        before.plenty(account_before, list),
        after.spills() == before.spills(),
        after.spec_kind() == before.spec_kind(),
        after.spec_node() == before.spec_node(),
        same_room(
            account_before.nodes(),
            account_after.nodes(),
            before.spec_node(),
            before.held(),
            after.held(),
            run_cost(bytes),
        ),
        match bytes {
            None => after.in_memory() == before.in_memory().push(list[0]),
            Some(b) => after.in_memory() == seq![list[0]] && b@.len() == 60 + payload(
                in_sorted_order(before.in_memory()),
            ).len() && before.in_memory().len() > 0,
        },
    ensures
        after.plenty(account_after, list.drop_first()),
{
    let rest = list.drop_first();
    let node = before.spec_node();
    let memory = before.in_memory();
    assert forall|i: int|
        #![trigger rest[i]]
        0 <= i < rest.len() implies rest[i].0.kind() == after.spec_kind() && short(rest[i].0)
        && room(
        account_after.nodes(),
        node,
        ResourceKind::Memory,
        after.held(),
        least_bytes(rest[i].0),
    ) by {
        assert(rest[i] == list[i + 1]);
        assert(room(
            account_before.nodes(),
            node,
            ResourceKind::Memory,
            before.held(),
            least_bytes(list[i + 1].0),
        ));
    }
    weight_front(list);
    let one = after.in_memory();
    let n = (weight(one) + weight(rest)) as int;
    assert(room(account_after.nodes(), node, ResourceKind::Temp, 0, n) == room(
        account_before.nodes(),
        node,
        ResourceKind::Temp,
        0,
        n + run_cost(bytes),
    ));
    if bytes is None {
        assert(one.drop_last() =~= memory);
        assert(n == weight(memory) + weight(list));
    } else {
        assert(one.drop_last() =~= Seq::empty());
        assert(weight(one) == 60 + entry_width(list[0].0)) by {
            assert(weight(one.drop_last()) == 0);
        }
        one_list(memory);
        merged_is_sorted(seq![memory]);
        weight_of_bag(in_sorted_order(memory), memory);
        weight_covers(in_sorted_order(memory));
        broadcast use vstd::seq_lib::group_to_multiset_ensures;

        assert(in_sorted_order(memory).to_multiset().len() == in_sorted_order(memory).len());
        assert(memory.to_multiset().len() == memory.len());
        let cost = run_cost(bytes);
        assert(cost <= weight(memory)) by (nonlinear_arith)
            requires
                cost == 60 + payload(in_sorted_order(memory)).len(),
                payload(in_sorted_order(memory)).len() + 60 * memory.len() == weight(memory),
                memory.len() >= 1,
        ;
        less_room(
            account_before.nodes(),
            node,
            ResourceKind::Temp,
            n + cost,
            (weight(memory) + weight(list)) as int,
        );
    }
}

proof fn room_of_itself(nodes: Seq<crate::resource::Counters>, node: int, held: int)
    ensures
        same_room(nodes, nodes, node, held, held, 0),
{
}

proof fn rooms_follow(
    a: Seq<crate::resource::Counters>,
    b: Seq<crate::resource::Counters>,
    c: Seq<crate::resource::Counters>,
    node: int,
    held_a: int,
    held_b: int,
    held_c: int,
    written_b: int,
    written_c: int,
)
    requires
        same_room(a, b, node, held_a, held_b, written_b),
        same_room(b, c, node, held_b, held_c, written_c),
    ensures
        same_room(a, c, node, held_a, held_c, written_b + written_c),
{
    assert forall|n: int| #[trigger]
        room(c, node, ResourceKind::Memory, held_c, n) == room(
            a,
            node,
            ResourceKind::Memory,
            held_a,
            n,
        ) by {
        assert(room(b, node, ResourceKind::Memory, held_b, n) == room(
            a,
            node,
            ResourceKind::Memory,
            held_a,
            n,
        ));
    }
    assert forall|n: int| #[trigger]
        room(c, node, ResourceKind::Temp, 0, n) == room(
            a,
            node,
            ResourceKind::Temp,
            0,
            n + (written_b + written_c),
        ) by {
        assert(room(b, node, ResourceKind::Temp, 0, n + written_c) == room(
            a,
            node,
            ResourceKind::Temp,
            0,
            n + written_c + written_b,
        ));
        assert(n + written_c + written_b == n + (written_b + written_c));
    }
}

proof fn alike(
    a: Seq<crate::resource::Counters>,
    b: Seq<crate::resource::Counters>,
    node: int,
    kind: ResourceKind,
    held_a: int,
    n: int,
    held_b: int,
    m: int,
)
    requires
        a.len() == b.len(),
        forall|j: int| 0 <= j < a.len() ==> (#[trigger] a[j]).above() == (#[trigger] b[j]).above(),
        forall|k: int|
            #![trigger a[k]]
            #![trigger b[k]]
            0 <= k < a.len() && on_path(a, node, k) ==> (less(a[k].used(kind) as int, held_a) + n
                <= a[k].cap(kind)) == (less(b[k].used(kind) as int, held_b) + m <= b[k].cap(kind)),
    ensures
        room(a, node, kind, held_a, n) == room(b, node, kind, held_b, m),
{
    assert forall|k: int| #[trigger] on_path(a, node, k) == on_path(b, node, k) by {
        crate::resource::same_paths(a, b, node, k);
    }
    if room(a, node, kind, held_a, n) {
        assert forall|k: int| 0 <= k < b.len() && on_path(b, node, k) implies less(
            (#[trigger] b[k]).used(kind) as int,
            held_b,
        ) + m <= b[k].cap(kind) by {
            assert(on_path(a, node, k));
            assert(less(a[k].used(kind) as int, held_a) + n <= a[k].cap(kind));
        }
    }
    if room(b, node, kind, held_b, m) {
        assert forall|k: int| 0 <= k < a.len() && on_path(a, node, k) implies less(
            (#[trigger] a[k]).used(kind) as int,
            held_a,
        ) + n <= a[k].cap(kind) by {
            assert(on_path(b, node, k));
            assert(less(b[k].used(kind) as int, held_b) + m <= b[k].cap(kind));
        }
    }
}

/// A charge to memory that the segment holds, or to temporary storage, takes that much.
proof fn charge_keeps_room(
    before: Seq<crate::resource::Counters>,
    after: Seq<crate::resource::Counters>,
    node: int,
    kind: ResourceKind,
    bytes: int,
    held: int,
)
    requires
        charged(before, after, node, kind, bytes),
        bytes >= 0,
        held >= 0,
    ensures
        kind == ResourceKind::Memory ==> same_room(before, after, node, held, held + bytes, 0),
        kind == ResourceKind::Temp ==> same_room(before, after, node, held, held, bytes),
{
    assert forall|j: int| 0 <= j < before.len() implies (#[trigger] before[j]).above() == (
    #[trigger] after[j]).above() by {}
    let held_after = if kind == ResourceKind::Memory {
        held + bytes
    } else {
        held
    };
    let taken = if kind == ResourceKind::Temp {
        bytes
    } else {
        0
    };
    assert forall|k: int|
        #![trigger before[k]]
        #![trigger after[k]]
        0 <= k < before.len() && on_path(before, node, k) implies before[k].charged_as(
        after[k],
        kind,
        before[k].used(kind) + bytes,
    ) by {}
    assert forall|n: int| #[trigger]
        room(after, node, ResourceKind::Memory, held_after, n) == room(
            before,
            node,
            ResourceKind::Memory,
            held,
            n,
        ) by {
        alike(before, after, node, ResourceKind::Memory, held, n, held_after, n);
    }
    assert forall|n: int| #[trigger]
        room(after, node, ResourceKind::Temp, 0, n) == room(
            before,
            node,
            ResourceKind::Temp,
            0,
            n + taken,
        ) by {
        alike(before, after, node, ResourceKind::Temp, 0, n + taken, 0, n);
    }
}

/// Giving the segment back changes nothing but what it holds.
proof fn release_keeps_room(
    before: Seq<crate::resource::Counters>,
    after: Seq<crate::resource::Counters>,
    node: int,
    held: int,
)
    requires
        released(before, after, node, ResourceKind::Memory, held),
        held >= 0,
    ensures
        same_room(before, after, node, held, 0, 0),
{
    assert forall|j: int| 0 <= j < before.len() implies (#[trigger] before[j]).above() == (
    #[trigger] after[j]).above() by {}
    assert forall|k: int|
        #![trigger before[k]]
        #![trigger after[k]]
        0 <= k < before.len() && on_path(before, node, k) implies before[k].charged_as(
        after[k],
        ResourceKind::Memory,
        less(before[k].used(ResourceKind::Memory) as int, held),
    ) by {}
    assert forall|n: int| #[trigger]
        room(after, node, ResourceKind::Memory, 0, n) == room(
            before,
            node,
            ResourceKind::Memory,
            held,
            n,
        ) by {
        alike(before, after, node, ResourceKind::Memory, held, n, 0, n);
    }
    assert forall|n: int| #[trigger]
        room(after, node, ResourceKind::Temp, 0, n) == room(
            before,
            node,
            ResourceKind::Temp,
            0,
            n + 0,
        ) by {
        alike(before, after, node, ResourceKind::Temp, 0, n, 0, n);
    }
}

proof fn one_list(s: Seq<Entry>)
    ensures
        joined(seq![s]) == s,
{
    let l = seq![s];
    assert(l.drop_last() =~= Seq::<Seq<Entry>>::empty());
    assert(joined(l.drop_last()) =~= Seq::empty());
    assert(joined(l) =~= s);
}

proof fn same_members(a: Seq<Record>, b: Seq<Record>, i: int)
    requires
        bag(a) == bag(b),
        0 <= i < a.len(),
    ensures
        exists|j: int| 0 <= j < b.len() && (#[trigger] b[j])@ == a[i]@,
{
    broadcast use vstd::seq_lib::group_to_multiset_ensures;

    let x = a[i]@;
    assert(entries(a)[i] == x);
    assert(entries(a).contains(x));
    assert(bag(a).count(x) > 0);
    assert(entries(b).contains(x));
    let j = choose|j: int| 0 <= j < entries(b).len() && entries(b)[j] == x;
    assert(b[j]@ == x);
}

/// The checksum of a run is a digest.
pub proof fn checksums_have_length(state: &ExactState, i: int)
    requires
        state.wf(),
        0 <= i < state.metas().len(),
    ensures
        state.metas()[i].checksum@.len() == 32,
{
    assert(describes(state.runs@[i], state.kind, state.written@[i]));
}

/// The length of a run: its header and its entries.
pub proof fn run_length(kind: ValueKind, s: Seq<Entry>, checksum: Seq<u8>)
    requires
        checksum.len() == 32,
    ensures
        run_bytes(kind, s, checksum).len() == 60 + payload(s).len(),
{
    reveal_strlit("PFRUN001");
    vstd::utf8::is_ascii_chars_encode_utf8("PFRUN001"@);
    crate::bytes::le_len(1, 2);
    crate::bytes::le_len(s.len(), 8);
    crate::bytes::le_len(payload(s).len(), 8);
}


/// Runs whose bytes are those that were written, with values that a run gives back.
pub open spec fn kept(state: &ExactState, stored: Seq<&[u8]>) -> bool {
    &&& stored.len() == state.written().len()
    &&& forall|i: int|
        0 <= i < stored.len() ==> (#[trigger] stored[i])@ == run_bytes(
            state.spec_kind(),
            state.written()[i],
            state.metas()[i].checksum@,
        )
    &&& forall|i: int, j: int|
        #![trigger state.written()[i][j]]
        0 <= i < state.written().len() && 0 <= j < state.written()[i].len() ==> readable(
            state.written()[i][j],
            state.spec_kind(),
        )
}

/// Whether the bytes of one of several runs are not those that were written.
pub open spec fn damaged(metas: Seq<RunMeta>, stored: Seq<&[u8]>) -> bool {
    exists|i: int|
        0 <= i < metas.len() && i < stored.len() && run_error(
            metas[i],
            (#[trigger] stored[i])@,
            blake3_digest(behind_header(stored[i]@)),
        ) is Some
}

/// Why runs that have the bytes that were written are not merged: for want of room, or since
/// the size of the merge leaves the numbers of the machine.
pub open spec fn not_merged(e: ErrorView) -> bool {
    ||| e is ResourceLimit
    ||| e == ErrorView::CorruptData("Exact merge size overflowed"@)
}

/// The runs that are read first.
pub open spec fn front(stored: Seq<&[u8]>) -> Seq<&[u8]> {
    if stored.len() <= 32 {
        stored
    } else {
        stored.take(32)
    }
}

/// Whether every run either has the bytes that were written or shows that it has not.
pub open spec fn told(state: &ExactState, stored: Seq<&[u8]>) -> bool {
    &&& stored.len() == state.written().len()
    &&& forall|i: int|
        #![trigger stored[i]]
        0 <= i < stored.len() ==> stored[i]@ == run_bytes(
            state.spec_kind(),
            state.written()[i],
            state.metas()[i].checksum@,
        ) || run_error(
            state.metas()[i],
            stored[i]@,
            blake3_digest(behind_header(stored[i]@)),
        ) is Some
    &&& forall|i: int, j: int|
        #![trigger state.written()[i][j]]
        0 <= i < state.written().len() && 0 <= j < state.written()[i].len() ==> readable(
            state.written()[i][j],
            state.spec_kind(),
        )
}

/// What merging runs costs in memory, or nothing where that is no number of the machine.
pub open spec fn merge_cost(metas: Seq<RunMeta>, n: nat) -> nat
    decreases n,
{
    if n == 0 {
        0
    } else {
        merge_cost(metas, (n - 1) as nat) + 384 + metas[n - 1].max_record_bytes as nat
    }
}

/// The longest value of several runs.
pub open spec fn longest_of(metas: Seq<RunMeta>, n: nat) -> nat
    decreases n,
{
    if n == 0 {
        0
    } else if metas[n - 1].max_record_bytes > longest_of(metas, (n - 1) as nat) {
        metas[n - 1].max_record_bytes as nat
    } else {
        longest_of(metas, (n - 1) as nat)
    }
}

/// What merging runs costs in memory.
pub fn merge_memory_bytes(runs: &Vec<RunMeta>) -> (r: Result<u64, ProofFrameError>)
    ensures
        if merge_cost(runs@, runs@.len()) + longest_of(runs@, runs@.len()) <= u64::MAX {
            r matches Ok(n) && n == merge_cost(runs@, runs@.len()) + longest_of(
                runs@,
                runs@.len(),
            )
        } else {
            r matches Err(e) && e@ == ErrorView::CorruptData("Exact merge size overflowed"@)
        },
{
    let mut total: u64 = 0;
    let mut widest: u64 = 0;
    let mut i: usize = 0;
    while i < runs.len()
        invariant
            i <= runs@.len(),
            total == merge_cost(runs@, i as nat),
            widest == longest_of(runs@, i as nat),
        decreases runs@.len() - i,
    {
        proof {
            cost_grows(runs@, (i + 1) as nat, runs@.len());
        }
        let here: u64 = runs[i].max_record_bytes;
        total = match total.checked_add(MERGE_CURSOR_BYTES) {
            Some(t) => match t.checked_add(here) {
                Some(t) => t,
                None => return Err(
                    ProofFrameError::CorruptData(text("Exact merge size overflowed")),
                ),
            },
            None => return Err(
                ProofFrameError::CorruptData(text("Exact merge size overflowed")),
            ),
        };
        if here > widest {
            widest = here;
        }
        i = i + 1;
    }
    match total.checked_add(widest) {
        Some(n) => Ok(n),
        None => Err(ProofFrameError::CorruptData(text("Exact merge size overflowed"))),
    }
}

proof fn cost_grows(metas: Seq<RunMeta>, a: nat, b: nat)
    requires
        a <= b,
    ensures
        merge_cost(metas, a) <= merge_cost(metas, b),
    decreases b,
{
    if a < b {
        cost_grows(metas, a, (b - 1) as nat);
    }
}

/// Opens the first `n` of several runs.
pub(crate) fn open_runs<'a>(metas: &Vec<RunMeta>, stored: &Vec<&'a [u8]>, n: usize) -> (r: Result<
    Vec<RunCursor<'a>>,
    ProofFrameError,
>)
    requires
        n <= metas@.len(),
        n <= stored@.len(),
    ensures
        match r {
            Ok(cursors) => cursors@.len() == n && forall|i: int|
                0 <= i < n ==> (#[trigger] cursors@[i]).wf() && sorted(cursors@[i].rest())
                    && cursors@[i].rest().len() == metas@[i].records && run_error(
                    metas@[i],
                    stored@[i]@,
                    blake3_digest(behind_header(stored@[i]@)),
                ) is None && read_all(
                    metas@[i].kind,
                    stored@[i]@.skip(60),
                    metas@[i].records as nat,
                ) == Ok::<Seq<Entry>, Seq<char>>(cursors@[i].rest()),
            Err(e) => e@ is CorruptData && exists|i: int|
                #![trigger stored@[i]]
                0 <= i < n && (run_error(
                    metas@[i],
                    stored@[i]@,
                    blake3_digest(behind_header(stored@[i]@)),
                ) is Some || !sorted(
                    read_all(
                        metas@[i].kind,
                        stored@[i]@.skip(60),
                        metas@[i].records as nat,
                    )->Ok_0,
                )),
        },
{
    let mut cursors: Vec<RunCursor<'a>> = Vec::new();
    let mut i: usize = 0;
    while i < n
        invariant
            i <= n,
            n <= metas@.len(),
            n <= stored@.len(),
            cursors@.len() == i,
            forall|k: int|
                0 <= k < i ==> (#[trigger] cursors@[k]).wf() && sorted(cursors@[k].rest())
                    && cursors@[k].rest().len() == metas@[k].records && run_error(
                    metas@[k],
                    stored@[k]@,
                    blake3_digest(behind_header(stored@[k]@)),
                ) is None && read_all(
                    metas@[k].kind,
                    stored@[k]@.skip(60),
                    metas@[k].records as nat,
                ) == Ok::<Seq<Entry>, Seq<char>>(cursors@[k].rest()),
        decreases n - i,
    {
        match crate::distinct::run::open_sorted(&metas[i], stored[i]) {
            Ok(c) => {
                proof {
                    crate::distinct::run::read_all_count(
                        metas@[i as int].kind,
                        stored@[i as int]@.skip(60),
                        metas@[i as int].records as nat,
                    );
                }
                cursors.push(c);
            },
            Err(e) => {
                assert(stored@[i as int]@ == stored@[i as int]@);
                return Err(e);
            },
        }
        i = i + 1;
    }
    Ok(cursors)
}

/// The bytes that were written for a run are found whole and in order.
pub proof fn kept_run_opens(state: &ExactState, stored: Seq<&[u8]>, i: int)
    requires
        state.wf(),
        kept(state, stored),
        0 <= i < stored.len(),
        state.metas()[i].payload_bytes <= u64::MAX - 60,
    ensures
        run_error(state.metas()[i], stored[i]@, blake3_digest(behind_header(stored[i]@))) is None,
        read_all(
            state.metas()[i].kind,
            stored[i]@.skip(60),
            state.metas()[i].records as nat,
        ) == Ok::<Seq<Entry>, Seq<char>>(state.written()[i]),
        sorted(state.written()[i]),
{
    let s = state.written()[i];
    assert(describes(state.runs@[i], state.kind, state.written@[i]));
    assert forall|j: int| 0 <= j < s.len() implies readable(
        #[trigger] s[j],
        state.spec_kind(),
    ) by {
        assert(readable(state.written()[i][j], state.spec_kind()));
    }
    written_run_is_whole(state.metas()[i], state.spec_kind(), s, stored[i]@);
}

/// The number of entries in several runs.
pub open spec fn record_total(metas: Seq<RunMeta>, n: nat) -> nat
    decreases n,
{
    if n == 0 {
        0
    } else {
        record_total(metas, (n - 1) as nat) + metas[n - 1].records as nat
    }
}

/// The entries of several runs are those of the first and those of the others.
proof fn totals_split(all: Seq<RunMeta>, a: Seq<RunMeta>, b: Seq<RunMeta>)
    requires
        all == a + b,
    ensures
        record_total(all, all.len()) == record_total(a, a.len()) + record_total(b, b.len()),
    decreases b.len(),
{
    if b.len() == 0 {
        assert(all =~= a);
    } else {
        let fewer = b.drop_last();
        assert(all.drop_last() =~= a + fewer);
        totals_split(all.drop_last(), a, fewer);
        total_of_prefix(all, all.drop_last(), (all.len() - 1) as nat);
        total_of_prefix(b, fewer, fewer.len());
    }
}

/// The lists of runs hold as many entries as is remembered of them.
pub proof fn joined_length(lists: Seq<Seq<Entry>>, metas: Seq<RunMeta>)
    requires
        lists.len() == metas.len(),
        forall|i: int| 0 <= i < lists.len() ==> (#[trigger] lists[i]).len() == metas[i].records,
    ensures
        joined(lists).len() == record_total(metas, metas.len()),
    decreases lists.len(),
{
    if lists.len() > 0 {
        let fewer = metas.drop_last();
        assert forall|i: int| 0 <= i < lists.drop_last().len() implies (
        #[trigger] lists.drop_last()[i]).len() == fewer[i].records by {
            assert(lists[i].len() == metas[i].records);
        }
        joined_length(lists.drop_last(), fewer);
        total_of_prefix(metas, fewer, fewer.len());
    }
}

proof fn total_of_prefix(longer: Seq<RunMeta>, shorter: Seq<RunMeta>, n: nat)
    requires
        n <= shorter.len() <= longer.len(),
        forall|i: int| 0 <= i < shorter.len() ==> #[trigger] longer[i] == shorter[i],
    ensures
        record_total(longer, n) == record_total(shorter, n),
    decreases n,
{
    if n > 0 {
        total_of_prefix(longer, shorter, (n - 1) as nat);
    }
}

/// What merging lists costs in memory.
pub open spec fn list_cost(lists: Seq<Seq<Entry>>, n: nat) -> nat
    decreases n,
{
    if n == 0 {
        0
    } else {
        list_cost(lists, (n - 1) as nat) + 384 + longest(lists[n - 1])
    }
}

/// The longest value of several lists.
pub open spec fn list_longest(lists: Seq<Seq<Entry>>, n: nat) -> nat
    decreases n,
{
    if n == 0 {
        0
    } else if longest(lists[n - 1]) > list_longest(lists, (n - 1) as nat) {
        longest(lists[n - 1])
    } else {
        list_longest(lists, (n - 1) as nat)
    }
}

proof fn cost_of_described(metas: Seq<RunMeta>, lists: Seq<Seq<Entry>>, n: nat)
    requires
        n <= metas.len(),
        n <= lists.len(),
        forall|i: int|
            0 <= i < n ==> (#[trigger] metas[i]).max_record_bytes == longest(lists[i]),
    ensures
        merge_cost(metas, n) == list_cost(lists, n),
        longest_of(metas, n) == list_longest(lists, n),
    decreases n,
{
    if n > 0 {
        cost_of_described(metas, lists, (n - 1) as nat);
        assert(metas[n - 1].max_record_bytes == longest(lists[n - 1]));
    }
}

/// Lists with the first thirty-two merged into one while there are more than that.
pub open spec fn compacted(lists: Seq<Seq<Entry>>) -> Seq<Seq<Entry>>
    decreases lists.len(),
{
    if lists.len() <= 32 {
        lists
    } else {
        compacted(first_merged(lists))
    }
}

/// Lists with the first thirty-two merged into one.
pub open spec fn first_merged(lists: Seq<Seq<Entry>>) -> Seq<Seq<Entry>> {
    seq![merged(lists.take(32))] + lists.skip(32)
}

/// How often the first of so many lists are merged into one.
pub open spec fn merge_count(n: nat) -> nat
    decreases n,
{
    if n <= 32 {
        0
    } else {
        1 + merge_count((n - 31) as nat)
    }
}

/// How many lists are left of so many.
pub open spec fn left_of(n: nat) -> nat
    decreases n,
{
    if n <= 32 {
        n
    } else {
        left_of((n - 31) as nat)
    }
}

/// What merging lists to the end says of them, with what was counted before.
pub open spec fn merges_metered(
    lists: Seq<Seq<Entry>>,
    merges: u64,
    widest: u64,
    whole: bool,
    m: ExactMetrics,
) -> bool {
    let n = left_of(lists.len());
    let fan_in = if lists.len() > 32 {
        32
    } else {
        n
    };
    let last = compacted(lists);
    &&& m.runs == n
    &&& lists.len() <= 32 || whole ==> m.spill_bytes == if run_sizes(last, last.len()) > u64::MAX {
        u64::MAX as nat
    } else {
        run_sizes(last, last.len())
    }
    &&& m.compactions == if merges + merge_count(lists.len()) > u64::MAX {
        u64::MAX as int
    } else {
        merges + merge_count(lists.len())
    }
    &&& m.max_merge_fan_in == if widest > fan_in {
        widest as nat
    } else {
        fan_in
    }
}

/// Whether there is room for merging lists, once `freed` bytes of memory are given back and
/// `written` bytes of temporary storage are taken: all at once, or the first thirty-two and
/// then, with the run that they became, what is left.
pub open spec fn merges_fit(
    nodes: Seq<Counters>,
    node: int,
    freed: int,
    written: int,
    lists: Seq<Seq<Entry>>,
) -> bool
    decreases lists.len(),
{
    if lists.len() <= 32 {
        merge_fits(nodes, node, freed, lists)
    } else {
        let more = 60 + payload(merged(lists.take(32))).len();
        &&& merge_fits(nodes, node, freed, lists.take(32))
        &&& room(nodes, node, ResourceKind::Temp, 0, written + more)
        &&& merges_fit(nodes, node, freed, written + more, first_merged(lists))
    }
}

/// The temporary storage of the runs that take the place of the first thirty-two lists.
pub open spec fn merge_storage(lists: Seq<Seq<Entry>>) -> nat
    decreases lists.len(),
{
    if lists.len() <= 32 {
        0
    } else {
        60 + payload(merged(lists.take(32))).len() + merge_storage(first_merged(lists))
    }
}

/// `after` has the nodes of `before`, charged with no more memory and with at most so much
/// more temporary storage.
pub open spec fn stored_more(before: Seq<Counters>, after: Seq<Counters>, temp: int) -> bool {
    &&& after.len() == before.len()
    &&& forall|k: int|
        #![trigger after[k]]
        0 <= k < before.len() ==> same_caps(before[k], after[k]) && after[k].used(
            ResourceKind::Memory,
        ) <= before[k].used(ResourceKind::Memory) && after[k].used(ResourceKind::Temp)
            <= before[k].used(ResourceKind::Temp) + temp
}

/// What was stored in two steps.
pub proof fn stored_twice(
    a: Seq<Counters>,
    b: Seq<Counters>,
    c: Seq<Counters>,
    first: int,
    second: int,
)
    requires
        stored_more(a, b, first),
        stored_more(b, c, second),
    ensures
        stored_more(a, c, first + second),
{
    assert forall|k: int|
        #![trigger c[k]]
        0 <= k < a.len() implies same_caps(a[k], c[k]) && c[k].used(ResourceKind::Memory)
        <= a[k].used(ResourceKind::Memory) && c[k].used(ResourceKind::Temp) <= a[k].used(
        ResourceKind::Temp,
    ) + (first + second) by {
        let mid = b[k];
        assert(same_caps(a[k], mid));
    }
}

/// A charge or a release of temporary storage stores no more than its bytes.
proof fn temp_stores(before: Seq<Counters>, after: Seq<Counters>, node: int, bytes: int)
    requires
        bytes >= 0,
        charged(before, after, node, ResourceKind::Temp, bytes) || released(
            before,
            after,
            node,
            ResourceKind::Temp,
            bytes,
        ),
    ensures
        charged(before, after, node, ResourceKind::Temp, bytes) ==> stored_more(
            before,
            after,
            bytes,
        ),
        released(before, after, node, ResourceKind::Temp, bytes) ==> stored_more(
            before,
            after,
            0,
        ),
{
    temp_keeps_memory(before, after, node, bytes);
    assert forall|k: int|
        #![trigger after[k]]
        0 <= k < before.len() implies same_caps(before[k], after[k]) && (charged(
        before,
        after,
        node,
        ResourceKind::Temp,
        bytes,
    ) ==> after[k].used(ResourceKind::Temp) <= before[k].used(ResourceKind::Temp) + bytes) && (
    released(before, after, node, ResourceKind::Temp, bytes) ==> after[k].used(ResourceKind::Temp)
        <= before[k].used(ResourceKind::Temp)) by {
        if on_path(before, node, k) {
            let (charge, release) = (
                before[k].used(ResourceKind::Temp) + bytes,
                less(before[k].used(ResourceKind::Temp) as int, bytes),
            );
            assert(before[k].charged_as(after[k], ResourceKind::Temp, charge)
                || before[k].charged_as(after[k], ResourceKind::Temp, release));
        }
    }
}

/// Nodes that are charged as before store nothing more.
proof fn as_before_stores(before: Seq<Counters>, after: Seq<Counters>)
    requires
        as_before(before, after),
    ensures
        stored_more(before, after, 0),
{
    assert forall|k: int|
        #![trigger after[k]]
        0 <= k < before.len() implies same_caps(before[k], after[k]) && after[k].used(
        ResourceKind::Memory,
    ) <= before[k].used(ResourceKind::Memory) && after[k].used(ResourceKind::Temp)
        <= before[k].used(ResourceKind::Temp) by {
        assert(after[k].used(ResourceKind::Memory) == before[k].used(ResourceKind::Memory));
        assert(after[k].used(ResourceKind::Temp) == before[k].used(ResourceKind::Temp));
    }
}

/// Whether there is memory for merging lists at once.
pub open spec fn merge_fits(
    nodes: Seq<Counters>,
    node: int,
    freed: int,
    lists: Seq<Seq<Entry>>,
) -> bool {
    let cost = list_cost(lists, lists.len()) + list_longest(lists, lists.len());
    cost <= u64::MAX && room(nodes, node, ResourceKind::Memory, freed, cost as int)
}

impl ExactState {
    /// The runs that finishing merges.
    pub open spec fn final_lists(&self) -> Seq<Seq<Entry>> {
        if self.in_memory().len() == 0 {
            self.written()
        } else {
            self.written().push(in_sorted_order(self.in_memory()))
        }
    }

    /// How often runs were merged into one.
    pub closed spec fn merges(&self) -> u64 {
        self.compactions
    }

    /// The most runs that were merged at once.
    pub closed spec fn widest(&self) -> u64 {
        self.max_merge_fan_in
    }

    /// What finishing says of the account and of the runs.
    pub open spec fn metered(
        &self,
        account: &ResourceAccount,
        stored: Seq<&[u8]>,
        m: ExactMetrics,
    ) -> bool {
        let node = self.spec_node();
        &&& m.peak_memory_bytes == account.nodes()[node].peak(ResourceKind::Memory)
        &&& m.peak_temp_bytes == account.nodes()[node].peak(ResourceKind::Temp)
        &&& self.runs_metered(stored, m)
    }

    /// What finishing says of the runs: nothing where none was written. While there are more
    /// than thirty-two, the first thirty-two become one; their length is that of the lists
    /// where the bytes of the runs are those that were written.
    pub open spec fn runs_metered(&self, stored: Seq<&[u8]>, m: ExactMetrics) -> bool {
        if self.metas().len() == 0 {
            m.runs == 0 && m.spill_bytes == 0 && m.compactions == 0 && m.max_merge_fan_in == 0
        } else {
            merges_metered(
                self.final_lists(),
                self.merges(),
                self.widest(),
                self.restored(stored),
                m,
            )
        }
    }

    /// Whether the bytes of the runs are those that were written, and every value is one
    /// that a run gives back.
    pub open spec fn restored(&self, stored: Seq<&[u8]>) -> bool {
        &&& kept(self, stored)
        &&& forall|j: int|
            0 <= j < self.in_memory().len() ==> readable(
                #[trigger] self.in_memory()[j],
                self.spec_kind(),
            )
    }

    /// The temporary storage of the run that finishing writes.
    pub open spec fn last_run_bytes(&self) -> nat {
        if self.in_memory().len() == 0 {
            0
        } else {
            60 + payload(in_sorted_order(self.in_memory())).len()
        }
    }

    /// The temporary storage that finishing takes at most: of the last run, and of the runs
    /// that take the place of others.
    pub open spec fn end_storage(&self) -> int {
        if self.metas().len() == 0 {
            0
        } else {
            (self.last_run_bytes() + merge_storage(self.final_lists())) as int
        }
    }

    /// Whether the bytes of the runs are those that were written, and an account has room
    /// for the last run and for the merges: of all runs, or of the first thirty-two at a time
    /// and then of what is left.
    pub open spec fn can_finish(&self, account: &ResourceAccount, stored: Seq<&[u8]>) -> bool {
        let lists = self.final_lists();
        &&& self.restored(stored)
        &&& self.in_memory().len() == 0 || room(
            account.nodes(),
            self.spec_node(),
            ResourceKind::Temp,
            0,
            self.last_run_bytes() as int,
        )
        &&& payload(in_sorted_order(self.in_memory())).len() <= u64::MAX - 60
        &&& merges_fit(
            account.nodes(),
            self.spec_node(),
            self.held(),
            self.last_run_bytes() as int,
            lists,
        )
    }

    /// Whether runs that have not the bytes that were written show it, and an account has room
    /// for the merges.
    pub open spec fn tells_damage(&self, account: &ResourceAccount, stored: Seq<&[u8]>) -> bool {
        &&& told(self, stored)
        &&& forall|j: int|
            0 <= j < self.in_memory().len() ==> readable(
                #[trigger] self.in_memory()[j],
                self.spec_kind(),
            )
        &&& merges_fit(
            account.nodes(),
            self.spec_node(),
            self.held(),
            self.last_run_bytes() as int,
            self.final_lists(),
        )
    }

    /// The node of the account at which the state is charged.
    pub fn node(&self) -> (r: usize)
        ensures
            r == self.spec_node(),
    {
        self.node
    }

    /// Whether the first runs have the bytes that were written, and an account has room for
    /// merging them and for the run that takes their place.
    pub open spec fn can_compact(&self, account: &ResourceAccount, stored: Seq<&[u8]>) -> bool {
        let n = stored.len();
        let firsts = self.metas().take(n as int);
        let cost = merge_cost(firsts, n) + longest_of(firsts, n);
        &&& kept_first(*self, stored)
        &&& cost <= u64::MAX
        &&& room(account.nodes(), self.spec_node(), ResourceKind::Memory, 0, cost as int)
        &&& room(
            account.nodes(),
            self.spec_node(),
            ResourceKind::Temp,
            0,
            (60 + payload(merged(self.written().take(n as int))).len()) as int,
        )
    }

    /// The number of runs.
    pub fn run_count(&self) -> (r: usize)
        ensures
            r == self.metas().len(),
    {
        self.runs.len()
    }

    /// Whether so many runs were written that the first of them must be merged into one
    /// before more are added.
    pub fn compaction_due(&self) -> (r: bool)
        ensures
            r == (self.metas().len() > 32),
    {
        self.runs.len() > MAX_MERGE_FAN_IN
    }

    /// Counts every value that was inserted, given the bytes of the runs.
    pub fn finish(
        self,
        account: &mut ResourceAccount,
        stored: &Vec<&[u8]>,
        cancelled: bool,
    ) -> (r: Result<ExactSummary, ProofFrameError>)
        requires
            self.wf(),
            old(account).wf(),
            self.spec_node() < old(account).nodes().len(),
            stored@.len() == self.metas().len(),
            record_total(self.metas(), self.metas().len()) + self.in_memory().len() <= u64::MAX,
            forall|i: int|
                0 <= i < self.metas().len() ==> (#[trigger] self.metas()[i]).payload_bytes
                    <= u64::MAX - 60,
        ensures
            final(account).wf(),
            final(account).spec_limits() == old(account).spec_limits(),
            final(account).nodes().len() == old(account).nodes().len(),
            cancelled && (self.metas().len() > 0 || self.in_memory().len() > 0)
                ==> (r matches Err(e) && e@ == ErrorView::Cancelled),
            self.metas().len() == 0 && !(cancelled && self.in_memory().len() > 0)
                ==> r is Ok,
            damaged(self.metas(), stored@) ==> r is Err,
            !cancelled && damaged(self.metas(), stored@) && (self.in_memory().len() == 0 || room(
                old(account).nodes(),
                self.spec_node(),
                ResourceKind::Temp,
                0,
                self.last_run_bytes() as int,
            )) && (damaged(self.metas(), front(stored@)) || self.tells_damage(
                old(account),
                stored@,
            )) ==> (r matches Err(e) && e@ is CorruptData),
            r matches Err(e) ==> (if cancelled {
                e@ == ErrorView::Cancelled
            } else {
                e@ is CorruptData || e@ is ResourceLimit
            }),
            !cancelled && self.restored(stored@) ==> (r matches Err(e) ==> not_merged(e@)),
            r is Ok && (self.metas().len() == 0 || self.restored(stored@)) ==> stored_more(
                old(account).nodes(),
                final(account).nodes(),
                self.end_storage(),
            ),
            !cancelled && self.can_finish(old(account), stored@) ==> r is Ok,
            r matches Ok(s) ==> self.metered(final(account), stored@, s.metrics),
            r matches Ok(s) && self.restored(stored@) ==> exists|list: Seq<Entry>| #[trigger]
                sorted(list) && list.to_multiset() == self.all() && summed(
                    r->Ok_0,
                    tally(list, old(account).spec_limits().max_samples as nat),
                ),
    {
        let ghost given = self;
        let mut state = self;
        let max_samples: usize = account.limits().max_samples;
        if state.runs.len() == 0 {
            return finish_in_memory(state, account, max_samples, cancelled);
        }
        stop_when(cancelled)?;
        let ghost memory_list = state.in_memory();
        let spilled = state.spill(account)?;
        proof {
            assert(state.held() == 0);
            if memory_list.len() > 0 {
                run_length(
                    given.kind,
                    in_sorted_order(memory_list),
                    state.metas().last().checksum@,
                );
            }
            assert(run_cost(spilled) == given.last_run_bytes());
        }
        let last: Vec<u8> = match spilled {
            Some(bytes) => bytes,
            None => Vec::new(),
        };
        let mut all_stored: Vec<&[u8]> = Vec::new();
        let mut i: usize = 0;
        while i < stored.len()
            invariant
                i <= stored@.len(),
                all_stored@ == stored@.take(i as int),
            decreases stored@.len() - i,
        {
            all_stored.push(stored[i]);
            i = i + 1;
            assert(all_stored@ =~= stored@.take(i as int));
        }
        assert(all_stored@ =~= stored@);
        if state.runs.len() > stored.len() {
            all_stored.push(last.as_slice());
        }
        let ghost between = account.nodes();
        proof {
            assert(state.written() =~= given.final_lists());
            runs_after_spill(given, state);
            total_after_spill(given, state, memory_list);
            assert forall|k: int| 0 <= k < state.metas().len() implies (
            #[trigger] state.metas()[k]).payload_bytes <= u64::MAX - 60 by {
                if k < given.metas().len() {
                    assert(state.runs@[k] == given.runs@[k]);
                    assert(given.metas()[k].payload_bytes <= u64::MAX - 60);
                } else {
                    run_length(given.kind, in_sorted_order(memory_list), state.runs@[k].checksum@);
                    assert(describes(state.runs@[k], state.kind, state.written@[k]));
                }
            }
            if given.restored(stored@) || given.tells_damage(old(account), stored@) {
                spilled_is_kept(given, state, stored@, all_stored@);
                spilled_all(given, state);
            }
            if damaged(given.metas(), stored@) {
                let k = choose|k: int|
                    0 <= k < given.metas().len() && k < stored@.len() && run_error(
                        given.metas()[k],
                        (#[trigger] stored@[k])@,
                        blake3_digest(behind_header(stored@[k]@)),
                    ) is Some;
                assert(all_stored@[k] == stored@[k]);
                assert(state.runs@[k] == given.runs@[k]);
                assert(damaged(state.metas(), all_stored@));
            }
            if damaged(given.metas(), front(stored@)) {
                let k = choose|k: int|
                    0 <= k < given.metas().len() && k < front(stored@).len() && run_error(
                        given.metas()[k],
                        (#[trigger] front(stored@)[k])@,
                        blake3_digest(behind_header(front(stored@)[k]@)),
                    ) is Some;
                assert(front(all_stored@)[k] == front(stored@)[k]);
                assert(state.runs@[k] == given.runs@[k]);
                assert(damaged(state.metas(), front(all_stored@)));
            }
            if given.can_finish(old(account), stored@) || given.tells_damage(
                old(account),
                stored@,
            ) {
                merges_fit_after_spill(
                    old(account).nodes(),
                    between,
                    given.spec_node(),
                    given.held(),
                    given.last_run_bytes() as int,
                    0,
                    given.final_lists(),
                );
            }
        }
        let r = finish_runs(state, account, &all_stored, max_samples);
        proof {
            if r is Ok && given.restored(stored@) {
                held_is_not_negative(given.memory@);
                assert(stored_more(
                    old(account).nodes(),
                    between,
                    given.last_run_bytes() as int,
                ));
                stored_twice(
                    old(account).nodes(),
                    between,
                    account.nodes(),
                    given.last_run_bytes() as int,
                    merge_storage(given.final_lists()) as int,
                );
            }
        }
        r
    }
}

/// The entries of a state are those of its runs once all of them are written.
proof fn spilled_all(before: ExactState, after: ExactState)
    requires
        before.wf(),
        after.in_memory() == Seq::<Entry>::empty(),
        after.written() == before.final_lists(),
    ensures
        after.all() == before.all(),
{
    broadcast use vstd::seq_lib::group_to_multiset_ensures;

    let memory = before.in_memory();
    one_list(memory);
    merged_is_sorted(seq![memory]);
    if memory.len() == 0 {
        assert(memory =~= Seq::empty());
    } else {
        let s = in_sorted_order(memory);
        assert(after.written().drop_last() =~= before.written());
        vstd::seq_lib::lemma_multiset_commutative(joined(before.written()), s);
        assert(after.all() =~= before.all());
    }
}

/// Runs that were kept, with the one that was just written, are the kept runs of the state.
proof fn spilled_is_kept(
    before: ExactState,
    after: ExactState,
    stored: Seq<&[u8]>,
    all_stored: Seq<&[u8]>,
)
    requires
        before.wf(),
        after.wf(),
        told(&before, stored),
        forall|j: int|
            0 <= j < before.in_memory().len() ==> readable(
                #[trigger] before.in_memory()[j],
                before.spec_kind(),
            ),
        after.spec_kind() == before.spec_kind(),
        after.written() == before.final_lists(),
        after.metas().len() == all_stored.len(),
        after.metas() == before.metas() || after.metas().drop_last() == before.metas(),
        forall|i: int| 0 <= i < stored.len() ==> #[trigger] all_stored[i] == stored[i],
        if before.in_memory().len() == 0 {
            after.metas() == before.metas()
        } else {
            &&& after.metas().len() == before.metas().len() + 1
            &&& all_stored[stored.len() as int]@ == run_bytes(
                before.spec_kind(),
                in_sorted_order(before.in_memory()),
                after.metas().last().checksum@,
            )
        },
    ensures
        told(&after, all_stored),
        kept(&before, stored) ==> kept(&after, all_stored),
{
    broadcast use vstd::seq_lib::group_to_multiset_ensures;

    let memory = before.in_memory();
    let s = in_sorted_order(memory);
    one_list(memory);
    merged_is_sorted(seq![memory]);
    assert forall|i: int| 0 <= i < all_stored.len() implies (if i < stored.len() {
        (#[trigger] all_stored[i]) == stored[i] && after.metas()[i] == before.metas()[i]
            && after.written()[i] == before.written()[i]
    } else {
        all_stored[i]@ == run_bytes(
            after.spec_kind(),
            after.written()[i],
            after.metas()[i].checksum@,
        )
    }) by {
        if i < stored.len() && memory.len() > 0 {
            assert(after.metas().drop_last()[i] == before.metas()[i]);
        }
    }
    assert forall|i: int, j: int|
        #![trigger after.written()[i][j]]
        0 <= i < after.written().len() && 0 <= j < after.written()[i].len() implies readable(
        after.written()[i][j],
        after.spec_kind(),
    ) by {
        if i < before.written().len() {
            assert(readable(before.written()[i][j], before.spec_kind()));
        } else {
            assert(s.to_multiset().count(s[j]) > 0);
            assert(memory.to_multiset().count(s[j]) > 0);
            assert(memory.contains(s[j]));
            let p = choose|p: int| 0 <= p < memory.len() && memory[p] == s[j];
            assert(readable(memory[p], before.spec_kind()));
        }
    }
}

/// Room for merging stays when a segment is written and given back.
proof fn merges_fit_after_spill(
    before: Seq<Counters>,
    after: Seq<Counters>,
    node: int,
    held: int,
    written: int,
    more: int,
    lists: Seq<Seq<Entry>>,
)
    requires
        same_room(before, after, node, held, 0, written),
        merges_fit(before, node, held, more + written, lists),
    ensures
        merges_fit(after, node, 0, more, lists),
    decreases lists.len(),
{
    if lists.len() <= 32 {
        let cost = list_cost(lists, lists.len()) + list_longest(lists, lists.len());
        assert(room(after, node, ResourceKind::Memory, 0, cost as int));
    } else {
        let a = lists.take(32);
        let cost = list_cost(a, a.len()) + list_longest(a, a.len());
        assert(room(after, node, ResourceKind::Memory, 0, cost as int));
        let run = 60 + payload(merged(a)).len();
        assert(more + written + run == more + run + written);
        assert(room(after, node, ResourceKind::Temp, 0, more + run) == room(
            before,
            node,
            ResourceKind::Temp,
            0,
            more + run + written,
        ));
        merges_fit_after_spill(before, after, node, held, written, more + run, first_merged(lists));
    }
}

/// Room stays when runs are stored: what was set aside for them is taken.
proof fn room_once_stored(
    before: Seq<Counters>,
    after: Seq<Counters>,
    node: int,
    stored: int,
    kind: ResourceKind,
    bytes: int,
)
    requires
        stored_more(before, after, stored),
        match kind {
            ResourceKind::Memory => room(before, node, kind, 0, bytes),
            ResourceKind::Temp => room(before, node, kind, 0, bytes + stored),
        },
    ensures
        room(after, node, kind, 0, bytes),
{
    assert forall|k: int|
        #![trigger after[k]]
        0 <= k < after.len() && on_path(after, node, k) implies less(
        after[k].used(kind) as int,
        0,
    ) + bytes <= after[k].cap(kind) by {
        assert forall|j: int| 0 <= j < before.len() implies (#[trigger] before[j]).above() == (
        #[trigger] after[j]).above() by {}
        same_paths(before, after, node, k);
        assert(before[k].cap(kind) == after[k].cap(kind));
    }
}

/// Room for merging stays when runs are stored.
proof fn merges_fit_once_stored(
    before: Seq<Counters>,
    after: Seq<Counters>,
    node: int,
    stored: int,
    more: int,
    lists: Seq<Seq<Entry>>,
)
    requires
        stored_more(before, after, stored),
        merges_fit(before, node, 0, more + stored, lists),
    ensures
        merges_fit(after, node, 0, more, lists),
    decreases lists.len(),
{
    if lists.len() <= 32 {
        let cost = list_cost(lists, lists.len()) + list_longest(lists, lists.len());
        room_once_stored(before, after, node, stored, ResourceKind::Memory, cost as int);
    } else {
        let a = lists.take(32);
        let cost = list_cost(a, a.len()) + list_longest(a, a.len());
        room_once_stored(before, after, node, stored, ResourceKind::Memory, cost as int);
        let run = 60 + payload(merged(a)).len();
        assert(more + stored + run == more + run + stored);
        room_once_stored(before, after, node, stored, ResourceKind::Temp, more + run);
        merges_fit_once_stored(before, after, node, stored, more + run, first_merged(lists));
    }
}

/// Counts the values of a state with nothing in memory, given the bytes of all its runs.
/// While there are too many, the first of them are merged into one.
#[verifier::spinoff_prover]
#[verifier::rlimit(60)]
fn finish_runs(
    state: ExactState,
    account: &mut ResourceAccount,
    stored: &Vec<&[u8]>,
    max_samples: usize,
) -> (r: Result<ExactSummary, ProofFrameError>)
    requires
        state.wf(),
        state.in_memory() == Seq::<Entry>::empty(),
        old(account).wf(),
        state.spec_node() < old(account).nodes().len(),
        stored@.len() == state.metas().len(),
        record_total(state.metas(), state.metas().len()) <= u64::MAX,
        forall|i: int|
            0 <= i < state.metas().len() ==> (#[trigger] state.metas()[i]).payload_bytes
                <= u64::MAX - 60,
    ensures
        final(account).wf(),
        final(account).spec_limits() == old(account).spec_limits(),
        final(account).nodes().len() == old(account).nodes().len(),
        damaged(state.metas(), stored@) ==> r is Err,
        damaged(state.metas(), front(stored@)) ==> (r matches Err(e) && e@ is CorruptData),
        damaged(state.metas(), stored@) && told(&state, stored@) && merges_fit(
            old(account).nodes(),
            state.spec_node(),
            0,
            0,
            state.written(),
        ) ==> (r matches Err(e) && e@ is CorruptData),
        r is Ok && kept(&state, stored@) ==> stored_more(
            old(account).nodes(),
            final(account).nodes(),
            merge_storage(state.written()) as int,
        ),
        r matches Err(e) ==> e@ is CorruptData || e@ is ResourceLimit,
        kept(&state, stored@) ==> (r matches Err(e) ==> not_merged(e@)),
        kept(&state, stored@) && merges_fit(
            old(account).nodes(),
            state.spec_node(),
            0,
            0,
            state.written(),
        ) ==> r is Ok,
        r matches Ok(s) ==> {
            let node = state.spec_node();
            &&& s.metrics.peak_memory_bytes == final(account).nodes()[node].peak(
                ResourceKind::Memory,
            )
            &&& s.metrics.peak_temp_bytes == final(account).nodes()[node].peak(ResourceKind::Temp)
            &&& merges_metered(
                state.written(),
                state.merges(),
                state.widest(),
                kept(&state, stored@),
                s.metrics,
            )
        },
        r matches Ok(s) && kept(&state, stored@) ==> exists|list: Seq<Entry>| #[trigger]
            sorted(list) && list.to_multiset() == state.all() && summed(
                r->Ok_0,
                tally(list, max_samples as nat),
            ),
    decreases state.metas().len(),
{
    if state.runs.len() > MAX_MERGE_FAN_IN {
        let ghost given = state;
        let mut state = state;
        let mut first: Vec<&[u8]> = Vec::new();
        let mut i: usize = 0;
        while i < MAX_MERGE_FAN_IN
            invariant
                i <= MAX_MERGE_FAN_IN < stored@.len(),
                first@ == stored@.take(i as int),
            decreases MAX_MERGE_FAN_IN - i,
        {
            first.push(stored[i]);
            i = i + 1;
            assert(first@ =~= stored@.take(i as int));
        }
        proof {
            if damaged(given.metas(), first@) {
                let k = choose|k: int|
                    0 <= k < given.metas().len() && k < first@.len() && run_error(
                        given.metas()[k],
                        (#[trigger] first@[k])@,
                        blake3_digest(behind_header(first@[k]@)),
                    ) is Some;
                assert(stored@[k] == first@[k]);
                if kept(&given, stored@) {
                    assert(given.metas()[k].payload_bytes <= u64::MAX - 60);
                    kept_run_opens(&given, stored@, k);
                }
            }
            if told(&given, stored@) && !damaged(given.metas(), first@) {
                first_are_kept(given, stored@, first@);
                if merges_fit(account.nodes(), given.spec_node(), 0, 0, given.written()) {
                    described_first(given, 32);
                    assert(given.can_compact(account, first@));
                }
            }
        }
        let out = state.compact(account, &first, false)?;
        let ghost middle = account.nodes();
        let mut rest: Vec<&[u8]> = Vec::new();
        rest.push(out.as_slice());
        while i < stored.len()
            invariant
                MAX_MERGE_FAN_IN <= i <= stored@.len(),
                rest@.len() == i - 31,
                rest@[0]@ == out@,
                forall|k: int| 1 <= k < rest@.len() ==> #[trigger] rest@[k] == stored@[k + 31],
            decreases stored@.len() - i,
        {
            rest.push(stored[i]);
            i = i + 1;
        }
        proof {
            compacted_rest(given, state, stored@, rest@);
            if told(&given, stored@) {
                first_are_kept(given, stored@, first@);
                compacted_is_kept(given, state, stored@, rest@, out@);
                assert(state.written() =~= first_merged(given.written()));
                if merges_fit(old(account).nodes(), given.spec_node(), 0, 0, given.written()) {
                    run_length(given.kind, state.written()[0], state.metas()[0].checksum@);
                    merges_fit_once_stored(
                        old(account).nodes(),
                        middle,
                        given.spec_node(),
                        out@.len() as int,
                        0,
                        state.written(),
                    );
                }
            }
        }
        let r = finish_runs(state, account, &rest, max_samples);
        proof {
            if r is Ok && kept(&given, stored@) {
                run_length(given.kind, state.written()[0], state.metas()[0].checksum@);
                stored_twice(
                    old(account).nodes(),
                    middle,
                    account.nodes(),
                    out@.len() as int,
                    merge_storage(state.written()) as int,
                );
            }
        }
        r
    } else {
        merge_runs(state, account, stored, max_samples)
    }
}

/// Counts the values of a state with nothing in memory by one merge of all its runs.
#[verifier::spinoff_prover]
fn merge_runs(
    state: ExactState,
    account: &mut ResourceAccount,
    stored: &Vec<&[u8]>,
    max_samples: usize,
) -> (r: Result<ExactSummary, ProofFrameError>)
    requires
        state.wf(),
        state.in_memory() == Seq::<Entry>::empty(),
        state.metas().len() <= 32,
        old(account).wf(),
        state.spec_node() < old(account).nodes().len(),
        stored@.len() == state.metas().len(),
        record_total(state.metas(), state.metas().len()) <= u64::MAX,
        forall|i: int|
            0 <= i < state.metas().len() ==> (#[trigger] state.metas()[i]).payload_bytes
                <= u64::MAX - 60,
    ensures
        final(account).wf(),
        final(account).spec_limits() == old(account).spec_limits(),
        final(account).nodes().len() == old(account).nodes().len(),
        damaged(state.metas(), stored@) ==> (r matches Err(e) && e@ is CorruptData),
        r is Ok ==> stored_more(old(account).nodes(), final(account).nodes(), 0),
        r matches Err(e) ==> e@ is CorruptData || e@ is ResourceLimit,
        kept(&state, stored@) ==> (r matches Err(e) ==> not_merged(e@)),
        kept(&state, stored@) && merge_fits(
            old(account).nodes(),
            state.spec_node(),
            0,
            state.written(),
        ) ==> r is Ok,
        r matches Ok(s) ==> {
            let node = state.spec_node();
            &&& s.metrics.peak_memory_bytes == final(account).nodes()[node].peak(
                ResourceKind::Memory,
            )
            &&& s.metrics.peak_temp_bytes == final(account).nodes()[node].peak(ResourceKind::Temp)
            &&& merges_metered(
                state.written(),
                state.merges(),
                state.widest(),
                kept(&state, stored@),
                s.metrics,
            )
        },
        r matches Ok(s) && kept(&state, stored@) ==> exists|list: Seq<Entry>| #[trigger]
            sorted(list) && list.to_multiset() == state.all() && summed(
                r->Ok_0,
                tally(list, max_samples as nat),
            ),
{
    let n: usize = state.runs.len();
    let ghost start = account.nodes();
    proof {
        assert forall|i: int| 0 <= i < n implies (#[trigger] state.runs@[i]).max_record_bytes
            == longest(state.written()[i]) by {
            assert(describes(state.runs@[i], state.kind, state.written@[i]));
        }
        cost_of_described(state.runs@, state.written(), n as nat);
        if kept(&state, stored@) {
            assert forall|i: int|
                #![trigger stored@[i]]
                0 <= i < state.runs@.len() implies run_error(
                state.runs@[i],
                stored@[i]@,
                blake3_digest(behind_header(stored@[i]@)),
            ) is None && read_all(
                state.runs@[i].kind,
                stored@[i]@.skip(60),
                state.runs@[i].records as nat,
            ) == Ok::<Seq<Entry>, Seq<char>>(state.written()[i]) && sorted(
                read_all(
                    state.runs@[i].kind,
                    stored@[i]@.skip(60),
                    state.runs@[i].records as nat,
                )->Ok_0,
            ) by {
                assert(state.metas()[i].payload_bytes <= u64::MAX - 60);
                kept_run_opens(&state, stored@, i);
            }
        }
    }
    let bytes: u64 = match merge_memory_bytes(&state.runs) {
        Ok(b) => b,
        Err(e) => return Err(e),
    };
    proof {
        room_is_no_refusal(account.nodes(), state.node as int, ResourceKind::Memory, bytes);
    }
    let cursors = match open_runs(&state.runs, stored, n) {
        Ok(c) => c,
        Err(e) => return Err(e),
    };
    proof {
        if damaged(state.metas(), stored@) {
            let k = choose|k: int|
                0 <= k < state.metas().len() && k < stored@.len() && run_error(
                    state.metas()[k],
                    (#[trigger] stored@[k])@,
                    blake3_digest(behind_header(stored@[k]@)),
                ) is Some;
            assert(cursors@[k].wf());
            assert(false);
        }
    }
    let merge_memory = match account.try_reserve_memory(state.node, bytes) {
        Ok(m) => m,
        Err(e) => return Err(e),
    };
    let ghost during = account.nodes();
    let ghost opened = cursors@;
    let merge = Merge::new(cursors);
    let ghost lists = merge.lists();
    proof {
        assert(lists.len() == n);
        assert forall|k: int| 0 <= k < lists.len() implies sorted(#[trigger] lists[k])
            && lists[k].len() == state.runs@[k].records by {
            assert(lists[k] == opened[k].rest());
        }
        joined_length(lists, state.runs@);
        merged_is_sorted(lists);
    }
    let counts = count_merged(merge, max_samples);
    account.release_memory(merge_memory);
    proof {
        release_restores(start, during, during, account.nodes(), state.node as int, bytes);
        as_before_stores(start, account.nodes());
    }
    let mut spill_bytes: u64 = 0;
    let mut k: usize = 0;
    while k < state.runs.len()
        invariant
            k <= state.runs@.len(),
            state.wf(),
            spill_bytes == if run_sizes(state.written(), k as nat) > u64::MAX {
                u64::MAX as nat
            } else {
                run_sizes(state.written(), k as nat)
            },
        decreases state.runs@.len() - k,
    {
        assert(describes(state.runs@[k as int], state.kind, state.written@[k as int]));
        spill_bytes = spill_bytes.saturating_add(state.runs[k].payload_bytes).saturating_add(60);
        k = k + 1;
    }
    proof {
        if kept(&state, stored@) {
            assert forall|i: int| 0 <= i < lists.len() implies lists[i] == state.written()[i] by {
                assert(lists[i] == opened[i].rest());
                assert(stored@[i] == stored@[i]);
            }
            assert(lists =~= state.written());
            assert(state.all() =~= joined(lists).to_multiset()) by {
                broadcast use vstd::seq_lib::group_to_multiset_ensures;

            }
            assert(sorted(merged(lists)));
        }
    }
    let fan_in: u64 = if state.max_merge_fan_in > n as u64 {
        state.max_merge_fan_in
    } else {
        n as u64
    };
    Ok(
        ExactSummary {
            distinct_count: counts.distinct,
            duplicate_count: counts.duplicates,
            duplicate_samples: counts.samples,
            metrics: ExactMetrics {
                runs: n as u64,
                spill_bytes,
                compactions: state.compactions,
                max_merge_fan_in: fan_in,
                peak_memory_bytes: account.peak_memory_used(state.node),
                peak_temp_bytes: account.peak_temp_used(state.node),
            },
        },
    )
}

/// The first runs of kept runs are kept.
proof fn first_are_kept(state: ExactState, stored: Seq<&[u8]>, first: Seq<&[u8]>)
    requires
        state.wf(),
        told(&state, stored),
        !damaged(state.metas(), first),
        first.len() <= stored.len(),
        first == stored.take(first.len() as int),
        forall|i: int|
            0 <= i < state.metas().len() ==> (#[trigger] state.metas()[i]).payload_bytes
                <= u64::MAX - 60,
    ensures
        kept_first(state, first),
{
    assert forall|i: int| 0 <= i < first.len() implies (#[trigger] first[i])@ == run_bytes(
        state.spec_kind(),
        state.written()[i],
        state.metas()[i].checksum@,
    ) && state.metas()[i].payload_bytes <= u64::MAX - 60 by {
        assert(first[i] == stored[i]);
    }
}

/// What merging the first runs costs is what merging their lists costs.
proof fn described_first(state: ExactState, n: nat)
    requires
        state.wf(),
        n <= state.metas().len(),
    ensures
        merge_cost(state.metas().take(n as int), n) == list_cost(state.written().take(n as int), n),
        longest_of(state.metas().take(n as int), n) == list_longest(
            state.written().take(n as int),
            n,
        ),
{
    let metas = state.metas().take(n as int);
    let lists = state.written().take(n as int);
    assert forall|i: int| 0 <= i < n implies (#[trigger] metas[i]).max_record_bytes == longest(
        lists[i],
    ) by {
        assert(describes(state.runs@[i], state.kind, state.written@[i]));
    }
    cost_of_described(metas, lists, n);
}

/// What is left to merge once the first runs have become one.
proof fn compacted_rest(
    before: ExactState,
    after: ExactState,
    stored: Seq<&[u8]>,
    rest: Seq<&[u8]>,
)
    requires
        before.wf(),
        after.wf(),
        stored.len() == before.metas().len(),
        stored.len() > 32,
        rest.len() == stored.len() - 31,
        forall|k: int| 1 <= k < rest.len() ==> #[trigger] rest[k] == stored[k + 31],
        after.metas().len() == rest.len(),
        after.metas().drop_first() == before.metas().skip(32),
        !damaged(before.metas(), stored.take(32)),
        forall|i: int|
            0 <= i < before.metas().len() ==> (#[trigger] before.metas()[i]).payload_bytes
                <= u64::MAX - 60,
        after.metas()[0].payload_bytes <= u64::MAX - 60,
    ensures
        damaged(before.metas(), stored) ==> damaged(after.metas(), rest),
        forall|i: int|
            0 <= i < after.metas().len() ==> (#[trigger] after.metas()[i]).payload_bytes
                <= u64::MAX - 60,
{
    assert forall|i: int| 1 <= i < after.metas().len() implies #[trigger] after.metas()[i]
        == before.metas()[i + 31] by {
        assert(after.metas().drop_first()[i - 1] == before.metas().skip(32)[i - 1]);
    }
    if damaged(before.metas(), stored) {
        let k = choose|k: int|
            0 <= k < before.metas().len() && k < stored.len() && run_error(
                before.metas()[k],
                (#[trigger] stored[k])@,
                blake3_digest(behind_header(stored[k]@)),
            ) is Some;
        if k < 32 {
            assert(stored.take(32)[k] == stored[k]);
            assert(damaged(before.metas(), stored.take(32)));
        } else {
            assert(rest[k - 31] == stored[k]);
            assert(after.metas()[k - 31] == before.metas()[k]);
        }
    }
}

/// Kept runs stay kept when the first of them become one.
proof fn compacted_is_kept(
    before: ExactState,
    after: ExactState,
    stored: Seq<&[u8]>,
    rest: Seq<&[u8]>,
    out: Seq<u8>,
)
    requires
        before.wf(),
        after.wf(),
        told(&before, stored),
        stored.len() > 32,
        rest.len() == stored.len() - 31,
        rest[0]@ == out,
        forall|k: int| 1 <= k < rest.len() ==> #[trigger] rest[k] == stored[k + 31],
        after.spec_kind() == before.spec_kind(),
        after.metas().len() == rest.len(),
        after.metas().drop_first() == before.metas().skip(32),
        after.written().drop_first() == before.written().skip(32),
        after.written()[0] == merged(before.written().take(32)),
        out == run_bytes(before.spec_kind(), after.written()[0], after.metas()[0].checksum@),
    ensures
        told(&after, rest),
        kept(&before, stored) ==> kept(&after, rest),
{
    broadcast use vstd::seq_lib::group_to_multiset_ensures;

    let first = before.written().take(32);
    assert forall|k: int| 0 <= k < first.len() implies sorted(#[trigger] first[k]) by {
        assert(sorted(before.written@[k]));
    }
    merged_is_sorted(first);
    assert forall|i: int| 1 <= i < after.metas().len() implies #[trigger] after.metas()[i]
        == before.metas()[i + 31] && after.written()[i] == before.written()[i + 31] by {
        assert(after.metas().drop_first()[i - 1] == after.metas()[i]);
        assert(after.written().drop_first()[i - 1] == after.written()[i]);
        assert(after.metas().drop_first()[i - 1] == before.metas().skip(32)[i - 1]);
        assert(after.written().drop_first()[i - 1] == before.written().skip(32)[i - 1]);
    }
    assert forall|i: int| 0 <= i < rest.len() implies (if i > 0 {
        (#[trigger] rest[i]) == stored[i + 31] && after.metas()[i] == before.metas()[i + 31]
            && after.written()[i] == before.written()[i + 31]
    } else {
        rest[i]@ == run_bytes(
            after.spec_kind(),
            after.written()[i],
            after.metas()[i].checksum@,
        )
    }) by {
        if i > 0 {
            assert(rest[i] == stored[i + 31]);
            assert(after.metas()[i] == before.metas()[i + 31]);
        }
    }
    assert forall|i: int, j: int|
        #![trigger after.written()[i][j]]
        0 <= i < after.written().len() && 0 <= j < after.written()[i].len() implies readable(
        after.written()[i][j],
        after.spec_kind(),
    ) by {
        if i > 0 {
            assert(after.metas()[i] == before.metas()[i + 31]);
            assert(readable(before.written()[i + 31][j], before.spec_kind()));
        } else {
            let e = after.written()[0][j];
            assert(merged(first).to_multiset().count(e) > 0);
            assert(joined(first).to_multiset().count(e) > 0);
            let (a, b) = crate::distinct::merge::joined_member(first, e);
            assert(readable(before.written()[a][b], before.spec_kind()));
        }
    }
}
proof fn total_after_spill(before: ExactState, after: ExactState, memory: Seq<Entry>)
    requires
        after.wf(),
        memory == before.in_memory(),
        if memory.len() == 0 {
            after.metas() == before.metas()
        } else {
            after.metas().len() == before.metas().len() + 1 && after.metas().drop_last()
                == before.metas() && after.written() == before.written().push(
                in_sorted_order(memory),
            )
        },
    ensures
        record_total(after.metas(), after.metas().len()) == record_total(
            before.metas(),
            before.metas().len(),
        ) + memory.len(),
{
    if memory.len() > 0 {
        let n = before.metas().len();
        assert forall|i: int| 0 <= i < n implies #[trigger] after.metas()[i]
            == before.metas()[i] by {
            assert(after.metas().drop_last()[i] == before.metas()[i]);
        }
        total_of_prefix(after.metas(), before.metas(), n);
        assert(describes(after.runs@[n as int], after.kind, after.written@[n as int]));
        one_list(memory);
        merged_is_sorted(seq![memory]);
        assert(after.written()[n as int] == in_sorted_order(memory));
    }
}

/// Runs that were written stay when one more is.
proof fn runs_after_spill(before: ExactState, after: ExactState)
    requires
        after.metas() == before.metas() || (after.metas().len() == before.metas().len() + 1
            && after.metas().drop_last() == before.metas()),
    ensures
        forall|k: int| 0 <= k < before.runs@.len() ==> #[trigger] after.runs@[k] == before.runs@[k],
{
    assert forall|k: int| 0 <= k < before.runs@.len() implies #[trigger] after.runs@[k]
        == before.runs@[k] by {
        if after.metas() != before.metas() {
            assert(after.metas().drop_last()[k] == before.metas()[k]);
        }
    }
}

/// Counts values that never left memory.
fn finish_in_memory(
    state: ExactState,
    account: &ResourceAccount,
    max_samples: usize,
    cancelled: bool,
) -> (r: Result<ExactSummary, ProofFrameError>)
    requires
        state.wf(),
        state.metas().len() == 0,
        state.spec_node() < account.nodes().len(),
    ensures
        if cancelled && state.in_memory().len() > 0 {
            r matches Err(e) && e@ == ErrorView::Cancelled
        } else {
            r is Ok
        },
        r matches Ok(s) ==> state.metered(account, Seq::empty(), s.metrics),
        r matches Ok(s) ==> exists|list: Seq<Entry>| #[trigger]
            sorted(list) && list.to_multiset() == state.all() && summed(
                r->Ok_0,
                tally(list, max_samples as nat),
            ),
{
    let ghost memory_list = state.in_memory();
    if state.records.len() > 0 {
        match stop_when(cancelled) {
            Ok(()) => {},
            Err(e) => return Err(e),
        }
    }
    let node: usize = state.node;
    let list = sort_records(state.records);
    let ghost all = entries(list@);
    let counts = count_records(&list, max_samples);
    proof {
        empty_join(state.written());
        assert(state.all() =~= all.to_multiset());
        assert(sorted(all));
    }
    Ok(
        ExactSummary {
            distinct_count: counts.distinct,
            duplicate_count: counts.duplicates,
            duplicate_samples: counts.samples,
            metrics: ExactMetrics {
                runs: 0,
                spill_bytes: 0,
                compactions: 0,
                max_merge_fan_in: 0,
                peak_memory_bytes: account.peak_memory_used(node),
                peak_temp_bytes: account.peak_temp_used(node),
            },
        },
    )
}

/// Lists of two groups, one group behind the other.
proof fn joined_append(a: Seq<Seq<Entry>>, b: Seq<Seq<Entry>>)
    ensures
        joined(a + b) == joined(a) + joined(b),
    decreases b.len(),
{
    if b.len() == 0 {
        assert(a + b =~= a);
        assert(joined(a) + joined(b) =~= joined(a));
    } else {
        joined_append(a, b.drop_last());
        assert((a + b).drop_last() =~= a + b.drop_last());
        assert(joined(a + b) =~= joined(a) + joined(b));
    }
}

impl ExactState {
    /// A state that differs from another in its runs and its reservations of temporary
    /// storage alone.
    closed spec fn same_but_temp(
        self,
        other: Self,
        runs: Seq<RunMeta>,
        written: Seq<Seq<Entry>>,
    ) -> bool {
        &&& self.runs@ == runs
        &&& self.written@ == written
        &&& self.compactions == other.compactions
        &&& self.max_merge_fan_in == other.max_merge_fan_in
        &&& self.kind == other.kind
        &&& self.node == other.node
        &&& self.can_spill == other.can_spill
        &&& self.desired == other.desired
        &&& self.allocated == other.allocated
        &&& self.record_capacity == other.record_capacity
        &&& self.byte_capacity == other.byte_capacity
        &&& self.used_bytes == other.used_bytes
        &&& self.records == other.records
        &&& self.memory == other.memory
    }

    /// What is remembered of each run.
    pub fn runs(&self) -> (r: &Vec<RunMeta>)
        ensures
            r@ == self.metas(),
    {
        &self.runs
    }

    /// Merges the first runs into one, given their bytes, and returns the bytes of the new
    /// run, which takes their place as the first.
    #[verifier::spinoff_prover]
    #[verifier::rlimit(60)]
    pub fn compact(
        &mut self,
        account: &mut ResourceAccount,
        stored: &Vec<&[u8]>,
        cancelled: bool,
    ) -> (r: Result<Vec<u8>, ProofFrameError>)
        requires
            old(self).wf(),
            old(account).wf(),
            old(self).spec_node() < old(account).nodes().len(),
            0 < stored@.len() <= old(self).metas().len(),
        ensures
            final(account).wf(),
            final(account).spec_limits() == old(account).spec_limits(),
            final(account).nodes().len() == old(account).nodes().len(),
            final(self).wf(),
            final(self).spec_kind() == old(self).spec_kind(),
            final(self).spec_node() == old(self).spec_node(),
            final(self).in_memory() == old(self).in_memory(),
            final(self).spills() == old(self).spills(),
            cancelled ==> (r matches Err(e) && e@ == ErrorView::Cancelled),
            !cancelled ==> (r matches Err(e) ==> e@ is CorruptData || e@ is ResourceLimit),
            !cancelled && kept_first(*old(self), stored@) ==> (r matches Err(e) ==> not_merged(e@)),
            !cancelled && damaged(old(self).metas(), stored@) ==> (r matches Err(e)
                && e@ is CorruptData),
            !cancelled && old(self).can_compact(old(account), stored@) ==> r is Ok,
            r is Err ==> final(self).written() == old(self).written() && final(self).metas() == old(
                self,
            ).metas(),
            r matches Ok(bytes) ==> {
                &&& final(self).metas().len() == old(self).metas().len() - stored@.len() + 1
                &&& final(self).merges() == if old(self).merges() < u64::MAX {
                    (old(self).merges() + 1) as u64
                } else {
                    u64::MAX
                }
                &&& final(self).widest() == if old(self).widest() > stored@.len() {
                    old(self).widest() as nat
                } else {
                    stored@.len()
                }
                &&& bytes@ == run_bytes(
                    old(self).spec_kind(),
                    final(self).written()[0],
                    final(self).metas()[0].checksum@,
                )
                &&& final(self).written().drop_first() == old(self).written().skip(
                    stored@.len() as int,
                )
                &&& final(self).metas().drop_first() == old(self).metas().skip(
                    stored@.len() as int,
                )
                &&& stored_more(
                    old(account).nodes(),
                    final(account).nodes(),
                    bytes@.len() as int,
                )
                &&& final(self).metas()[0].payload_bytes <= u64::MAX - 60
                &&& record_total(final(self).metas(), final(self).metas().len()) == record_total(
                    old(self).metas(),
                    old(self).metas().len(),
                )
                &&& forall|n: int| #[trigger]
                    room(
                        final(account).nodes(),
                        old(self).spec_node(),
                        ResourceKind::Memory,
                        0,
                        n,
                    ) == room(
                        old(account).nodes(),
                        old(self).spec_node(),
                        ResourceKind::Memory,
                        0,
                        n,
                    )
                &&& kept_first(*old(self), stored@) ==> final(self).written()[0] == merged(
                    old(self).written().take(stored@.len() as int),
                ) && final(self).all() == old(self).all()
            },
    {
        match stop_when(cancelled) {
            Ok(()) => {},
            Err(e) => return Err(e),
        }
        let n: usize = stored.len();
        let mut firsts: Vec<RunMeta> = Vec::new();
        let mut i: usize = 0;
        while i < n
            invariant
                i <= n <= self.runs@.len(),
                firsts@ == self.runs@.take(i as int),
            decreases n - i,
        {
            firsts.push(self.runs[i]);
            i = i + 1;
            assert(firsts@ =~= self.runs@.take(i as int));
        }
        let ghost owed = self.can_compact(account, stored@);
        let ghost start = account.nodes();
        proof {
            assert(self.runs@.take(n as int) =~= firsts@);
            if kept_first(*self, stored@) {
                first_runs_open(*self, stored@);
            }
        }
        let cursors = match open_runs(&self.runs, stored, n) {
            Ok(c) => c,
            Err(e) => return Err(e),
        };
        proof {
            if damaged(self.metas(), stored@) {
                let k = choose|k: int|
                    0 <= k < self.metas().len() && k < stored@.len() && run_error(
                        self.metas()[k],
                        (#[trigger] stored@[k])@,
                        blake3_digest(behind_header(stored@[k]@)),
                    ) is Some;
                assert(cursors@[k].wf());
                assert(false);
            }
        }
        let bytes: u64 = match merge_memory_bytes(&firsts) {
            Ok(b) => b,
            Err(e) => return Err(e),
        };
        proof {
            room_is_no_refusal(account.nodes(), self.node as int, ResourceKind::Memory, bytes);
        }
        let merge_memory = match account.try_reserve_memory(self.node, bytes) {
            Ok(m) => m,
            Err(e) => return Err(e),
        };
        let ghost during = account.nodes();
        let ghost opened = cursors@;
        let merge = Merge::new(cursors);
        let ghost lists = merge.lists();
        proof {
            assert forall|k: int| 0 <= k < lists.len() implies sorted(#[trigger] lists[k]) by {
                assert(lists[k] == opened[k].rest());
            }
            merged_is_sorted(lists);
        }
        let list = collect_merged(merge);
        account.release_memory(merge_memory);
        proof {
            assert forall|j: int| 0 <= j < list@.len() implies storable(
                (#[trigger] list@[j])@,
                self.kind,
            ) by {
                merged_entries_are_storable(self.runs@, stored@, lists, opened, self.kind, list@, j);
            }
        }
        let (meta, out) = write_run(self.kind, &list);
        let total: u64 = out.len() as u64;
        proof {
            release_restores(start, during, during, account.nodes(), self.node as int, bytes);
            crate::distinct::state::run_length(self.kind, entries(list@), meta.checksum@);
            room_as_before(
                start,
                account.nodes(),
                self.node as int,
                ResourceKind::Temp,
                total as int,
            );
            room_is_no_refusal(account.nodes(), self.node as int, ResourceKind::Temp, total);
            if owed {
                assert forall|i: int| 0 <= i < lists.len() implies lists[i]
                    == self.written()[i] by {
                    assert(lists[i] == opened[i].rest());
                }
                assert(lists =~= self.written().take(n as int));
            }
        }
        let ghost restored_nodes = account.nodes();
        let reservation = match account.try_reserve_temp(self.node, total) {
            Ok(t) => t,
            Err(e) => return Err(e),
        };
        let ghost charged_nodes = account.nodes();
        let ghost old_runs = self.runs@;
        let ghost old_written = self.written@;
        let mut runs: Vec<RunMeta> = Vec::new();
        runs.push(meta);
        let mut k: usize = n;
        while k < self.runs.len()
            invariant
                n <= k <= self.runs@.len(),
                runs@ == seq![meta] + self.runs@.subrange(n as int, k as int),
            decreases self.runs@.len() - k,
        {
            runs.push(self.runs[k]);
            k = k + 1;
            assert(runs@ =~= seq![meta] + self.runs@.subrange(n as int, k as int));
        }
        self.runs = runs;
        self.written = Ghost(seq![entries(list@)] + old_written.skip(n as int));
        let ghost runs_now = self.runs@;
        let ghost written_now = self.written@;
        let mut later = self.temp.split_off(n);
        while self.temp.len() > 0
            invariant
                account.wf(),
                account.spec_limits() == old(account).spec_limits(),
                account.nodes().len() == old(account).nodes().len(),
                old(self).spec_node() < account.nodes().len(),
                forall|j: int|
                    0 <= j < self.temp@.len() ==> (#[trigger] self.temp@[j]).charge().node()
                        == self.node && self.temp@[j].charge().kind() == ResourceKind::Temp,
                self.same_but_temp(*old(self), runs_now, written_now),
                same_memory(charged_nodes, account.nodes()),
                stored_more(charged_nodes, account.nodes(), 0),
            decreases self.temp@.len(),
        {
            match self.temp.pop() {
                Some(t) => {
                    let ghost before = account.nodes();
                    let ghost bytes = t.charge().bytes() as int;
                    account.release_temp(t);
                    proof {
                        temp_keeps_memory(before, account.nodes(), self.node as int, bytes);
                        temp_stores(before, account.nodes(), self.node as int, bytes);
                        stored_twice(charged_nodes, before, account.nodes(), 0, 0);
                    }
                },
                None => {},
            }
        }
        self.temp.push(reservation);
        self.temp.append(&mut later);
        self.compactions = self.compactions.saturating_add(1);
        if n as u64 > self.max_merge_fan_in {
            self.max_merge_fan_in = n as u64;
        }
        proof {
            assert forall|j: int| 0 <= j < self.runs@.len() implies describes(
                #[trigger] self.runs@[j],
                self.kind,
                self.written@[j],
            ) by {
                if j > 0 {
                    assert(self.runs@[j] == old_runs[n + j - 1]);
                    assert(self.written@[j] == old_written[n + j - 1]);
                    assert(describes(old_runs[n + j - 1], self.kind, old_written[n + j - 1]));
                }
            }
            assert forall|j: int| 0 <= j < self.written@.len() implies sorted(
                #[trigger] self.written@[j],
            ) by {
                if j > 0 {
                    assert(self.written@[j] == old_written[n + j - 1]);
                    assert(sorted(old_written[n + j - 1]));
                }
            }
            assert(self.written().drop_first() =~= old_written.skip(n as int));
            assert(self.metas().drop_first() =~= old_runs.skip(n as int));
            joined_length(lists, firsts@);
            merged_is_sorted(lists);
            assert(self.metas() =~= seq![meta] + old_runs.skip(n as int));
            as_before_stores(start, restored_nodes);
            temp_stores(restored_nodes, charged_nodes, self.node as int, total as int);
            stored_twice(start, restored_nodes, charged_nodes, 0, total as int);
            stored_twice(start, charged_nodes, account.nodes(), total as int, 0);
            assert(old_runs =~= firsts@ + old_runs.skip(n as int));
            totals_split(old_runs, firsts@, old_runs.skip(n as int));
            totals_split(self.metas(), seq![meta], old_runs.skip(n as int));
            assert(record_total(seq![meta], 1) == meta.records) by {
                reveal_with_fuel(record_total, 2);
            }
            assert forall|m: int| #[trigger]
                room(
                    account.nodes(),
                    old(self).spec_node(),
                    ResourceKind::Memory,
                    0,
                    m,
                ) == room(start, old(self).spec_node(), ResourceKind::Memory, 0, m) by {
                let node = old(self).spec_node();
                temp_keeps_memory(restored_nodes, charged_nodes, node, total as int);
                same_memory_same_room(charged_nodes, account.nodes(), node, 0, m);
                same_memory_same_room(restored_nodes, charged_nodes, node, 0, m);
                room_as_before(start, restored_nodes, node, ResourceKind::Memory, m);
            }
            if kept_first(*old(self), stored@) {
                compacted_lists(*old(self), *self, stored@, lists, opened);
            }
        }
        Ok(out)
    }
}

/// The first runs have the bytes that were written, with values that a run gives back.
pub open spec fn kept_first(state: ExactState, stored: Seq<&[u8]>) -> bool {
    &&& stored.len() <= state.written().len()
    &&& forall|i: int|
        0 <= i < stored.len() ==> (#[trigger] stored[i])@ == run_bytes(
            state.spec_kind(),
            state.written()[i],
            state.metas()[i].checksum@,
        ) && state.metas()[i].payload_bytes <= u64::MAX - 60
    &&& forall|i: int, j: int|
        #![trigger state.written()[i][j]]
        0 <= i < stored.len() && 0 <= j < state.written()[i].len() ==> readable(
            state.written()[i][j],
            state.spec_kind(),
        )
}

/// The first runs open where they have the bytes that were written.
proof fn first_runs_open(state: ExactState, stored: Seq<&[u8]>)
    requires
        state.wf(),
        kept_first(state, stored),
        stored.len() <= state.metas().len(),
    ensures
        forall|i: int|
            #![trigger stored[i]]
            0 <= i < stored.len() ==> run_error(
                state.metas()[i],
                stored[i]@,
                blake3_digest(behind_header(stored[i]@)),
            ) is None && read_all(
                state.metas()[i].kind,
                stored[i]@.skip(60),
                state.metas()[i].records as nat,
            ) == Ok::<Seq<Entry>, Seq<char>>(state.written()[i]) && sorted(state.written()[i]),
{
    assert forall|i: int|
        #![trigger stored[i]]
        0 <= i < stored.len() implies run_error(
        state.metas()[i],
        stored[i]@,
        blake3_digest(behind_header(stored[i]@)),
    ) is None && read_all(
        state.metas()[i].kind,
        stored[i]@.skip(60),
        state.metas()[i].records as nat,
    ) == Ok::<Seq<Entry>, Seq<char>>(state.written()[i]) && sorted(state.written()[i]) by {
        let s = state.written()[i];
        assert(describes(state.runs@[i], state.kind, state.written@[i]));
        assert forall|j: int| 0 <= j < s.len() implies readable(
            #[trigger] s[j],
            state.spec_kind(),
        ) by {
            assert(readable(state.written()[i][j], state.spec_kind()));
        }
        written_run_is_whole(state.metas()[i], state.spec_kind(), s, stored[i]@);
    }
}

proof fn merged_entries_are_storable(
    metas: Seq<RunMeta>,
    stored: Seq<&[u8]>,
    lists: Seq<Seq<Entry>>,
    opened: Seq<RunCursor<'_>>,
    kind: ValueKind,
    list: Seq<Record>,
    j: int,
)
    requires
        0 <= j < list.len(),
        entries(list) == merged(lists),
        opened.len() == lists.len(),
        lists.len() <= metas.len(),
        lists.len() <= stored.len(),
        forall|i: int| 0 <= i < lists.len() ==> #[trigger] lists[i] == opened[i].rest(),
        forall|i: int|
            0 <= i < lists.len() ==> read_all(
                metas[i].kind,
                stored[i]@.skip(60),
                metas[i].records as nat,
            ) == Ok::<Seq<Entry>, Seq<char>>((#[trigger] opened[i]).rest()),
        forall|i: int| 0 <= i < metas.len() ==> (#[trigger] metas[i]).kind == kind,
    ensures
        storable(list[j]@, kind),
{
    broadcast use vstd::seq_lib::group_to_multiset_ensures;

    let e = list[j]@;
    assert(entries(list)[j] == e);
    merged_is_sorted(lists);
    assert(merged(lists).to_multiset().count(e) > 0);
    assert(joined(lists).to_multiset().count(e) > 0);
    let (a, b) = crate::distinct::merge::joined_member(lists, e);
    assert(lists[a] == opened[a].rest());
    assert(metas[a].kind == kind);
    read_entries_are_readable(metas[a].kind, stored[a]@.skip(60), metas[a].records as nat);
    let read = read_all(metas[a].kind, stored[a]@.skip(60), metas[a].records as nat)->Ok_0;
    assert(read == lists[a]);
    assert(readable(read[b], kind));
}

proof fn compacted_lists(
    before: ExactState,
    after: ExactState,
    stored: Seq<&[u8]>,
    lists: Seq<Seq<Entry>>,
    opened: Seq<RunCursor<'_>>,
)
    requires
        before.wf(),
        kept_first(before, stored),
        lists.len() == stored.len(),
        opened.len() == lists.len(),
        stored.len() <= before.metas().len(),
        forall|i: int| 0 <= i < lists.len() ==> #[trigger] lists[i] == opened[i].rest(),
        forall|i: int|
            0 <= i < lists.len() ==> read_all(
                before.metas()[i].kind,
                stored[i]@.skip(60),
                before.metas()[i].records as nat,
            ) == Ok::<Seq<Entry>, Seq<char>>((#[trigger] opened[i]).rest()),
        after.written() == seq![merged(lists)] + before.written().skip(stored.len() as int),
        after.in_memory() == before.in_memory(),
    ensures
        lists == before.written().take(stored.len() as int),
        after.all() == before.all(),
{
    broadcast use vstd::seq_lib::group_to_multiset_ensures;

    let n = stored.len() as int;
    assert forall|i: int| 0 <= i < lists.len() implies lists[i] == before.written()[i] by {
        let s = before.written()[i];
        assert(lists[i] == opened[i].rest());
        assert(describes(before.runs@[i], before.kind, before.written@[i]));
        assert forall|j: int| 0 <= j < s.len() implies readable(
            #[trigger] s[j],
            before.spec_kind(),
        ) by {
            assert(readable(before.written()[i][j], before.spec_kind()));
        }
        assert(stored[i]@ == run_bytes(
            before.spec_kind(),
            before.written()[i],
            before.metas()[i].checksum@,
        ));
        written_run_is_whole(before.metas()[i], before.spec_kind(), s, stored[i]@);
    }
    let head = before.written().take(n);
    let tail = before.written().skip(n);
    assert(lists =~= head);
    assert(before.written() =~= head + tail);
    joined_append(head, tail);
    let m = merged(lists);
    joined_append(seq![m], tail);
    one_list(m);
    merged_is_sorted(lists);
    vstd::seq_lib::lemma_multiset_commutative(joined(head), joined(tail));
    vstd::seq_lib::lemma_multiset_commutative(m, joined(tail));
    assert(after.all() =~= before.all());
}

proof fn empty_join(written: Seq<Seq<Entry>>)
    requires
        written.len() == 0,
    ensures
        joined(written).to_multiset() == Multiset::<Entry>::empty(),
{
    broadcast use vstd::seq_lib::group_to_multiset_ensures;

    assert(joined(written) =~= Seq::empty());
    assert(joined(written).to_multiset() =~= Multiset::<Entry>::empty());
}

} // verus!
