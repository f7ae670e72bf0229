//! The result of a diff as it grows: exact counts, bounded samples, and events for an
//! output.

use crate::canonical::{member_of, member_text, object_of, object_text};
use crate::contract::ast::outcome;
use crate::contract::json::{json_quoted, json_string};
use crate::diff::ledger::{
    ledger_outcome, next_charge, sole, sole_ledger_stays, temp_refusal, TempLedger,
};
use crate::diff::samples::{
    changed_views, retain_changed, retain_string, retained, retained_changed, ChangedRow,
    ChangedView,
};
use crate::error::{ErrorView, ProofFrameError};
use crate::resource::{
    charged, first_refusal, less, on_path, released, Counters, MemoryReservation,
    ResourceAccount, ResourceKind,
};
use crate::text::{cat3, join, joined, text, texts, utf8};
use vstd::prelude::*;
use vstd::string::*;

verus! {

/// The memory that an output takes from the start.
pub const SINK_BYTES: u64 = 9216;

/// The length of a line that an output holds from the start.
pub const LINE_BYTES: u64 = 1024;

/// Where the events of a diff go, by the path of a file.
#[derive(Debug)]
pub enum DiffOutput {
    JsonLines(String),
    ArrowIpc(String),
}

/// What happened to a row.
#[derive(Debug)]
pub enum DiffEvent {
    Added(String),
    Removed(String),
    Changed(ChangedRow),
}

/// What happened to a row.
pub enum EventView {
    Added(Seq<char>),
    Removed(Seq<char>),
    Changed(ChangedView),
}

impl View for DiffEvent {
    type V = EventView;

    open spec fn view(&self) -> EventView {
        match *self {
            DiffEvent::Added(key) => EventView::Added(key@),
            DiffEvent::Removed(key) => EventView::Removed(key@),
            DiffEvent::Changed(row) => EventView::Changed(row@),
        }
    }
}

/// Events, in order.
pub open spec fn event_views(events: Seq<DiffEvent>) -> Seq<EventView> {
    Seq::new(events.len(), |i: int| events[i]@)
}

/// Names as JSON strings.
pub open spec fn quoted_names(names: Seq<Seq<char>>) -> Seq<Seq<char>> {
    Seq::new(names.len(), |i: int| json_quoted(names[i]))
}

/// Names as a JSON array.
pub open spec fn names_json(names: Seq<Seq<char>>) -> Seq<char> {
    "["@ + joined(quoted_names(names), ","@) + "]"@
}

/// Names as a JSON array.
pub fn names_to_json(names: &Vec<String>) -> (r: String)
    ensures
        r@ == names_json(texts(names@)),
{
    let mut parts: Vec<String> = Vec::new();
    let mut i: usize = 0;
    while i < names.len()
        invariant
            i <= names@.len(),
            texts(parts@) == quoted_names(texts(names@)).take(i as int),
        decreases names@.len() - i,
    {
        let ghost before = parts@;
        parts.push(json_string(names[i].as_str()));
        assert(texts(parts@) =~= texts(before).push(quoted_names(texts(names@))[i as int]));
        assert(quoted_names(texts(names@)).take(i + 1) =~= quoted_names(texts(names@)).take(
            i as int,
        ).push(quoted_names(texts(names@))[i as int]));
        i = i + 1;
    }
    assert(quoted_names(texts(names@)).take(names@.len() as int) =~= quoted_names(texts(names@)));
    let all = join(&parts, ",");
    cat3("[", all.as_str(), "]")
}

impl EventView {
    /// The kind of an event.
    pub open spec fn kind(self) -> Seq<char> {
        match self {
            EventView::Added(_) => "added"@,
            EventView::Removed(_) => "removed"@,
            EventView::Changed(_) => "changed"@,
        }
    }

    /// The text of the key of an event.
    pub open spec fn key(self) -> Seq<char> {
        match self {
            EventView::Added(key) => key,
            EventView::Removed(key) => key,
            EventView::Changed(row) => row.key,
        }
    }

    /// The names of the changed columns of an event, as JSON.
    pub open spec fn columns(self) -> Option<Seq<char>> {
        match self {
            EventView::Changed(row) => Some(names_json(row.columns)),
            _ => None,
        }
    }

    /// An event in JSON.
    pub open spec fn json(self) -> Seq<char> {
        let head = seq![
            member_text("kind"@, "\""@ + self.kind() + "\""@),
            member_text("key"@, json_quoted(self.key())),
        ];
        object_text(
            match self.columns() {
                Some(columns) => head.push(member_text("columns"@, columns)),
                None => head,
            },
        )
    }

    /// The bytes that an event takes of an output.
    pub open spec fn cost(self, arrow: bool) -> nat {
        if arrow {
            4 * (utf8(self.key()).len() + (match self.columns() {
                Some(columns) => utf8(columns).len(),
                None => 0,
            })) + 4096
        } else {
            utf8(self.json()).len() + 1
        }
    }
}

impl DiffEvent {
    /// The kind of an event.
    pub fn kind(&self) -> (r: &'static str)
        ensures
            r@ == self@.kind(),
    {
        match self {
            DiffEvent::Added(_) => "added",
            DiffEvent::Removed(_) => "removed",
            DiffEvent::Changed(_) => "changed",
        }
    }

    /// The text of the key of an event.
    pub fn key(&self) -> (r: &str)
        ensures
            r@ == self@.key(),
    {
        match self {
            DiffEvent::Added(key) => key.as_str(),
            DiffEvent::Removed(key) => key.as_str(),
            DiffEvent::Changed(row) => row.key.as_str(),
        }
    }

    /// The names of the changed columns of an event, as JSON.
    pub fn columns_json(&self) -> (r: Option<String>)
        ensures
            match self@.columns() {
                Some(c) => r matches Some(s) && s@ == c,
                None => r is None,
            },
    {
        match self {
            DiffEvent::Changed(row) => Some(names_to_json(&row.columns)),
            _ => None,
        }
    }

    /// An event in JSON.
    pub fn to_json(&self) -> (r: String)
        ensures
            r@ == self@.json(),
    {
        let key = json_string(self.key());
        let kind = cat3("\"", self.kind(), "\"");
        let mut parts: Vec<String> = Vec::new();
        parts.push(member_of("kind", kind.as_str()));
        parts.push(member_of("key", key.as_str()));
        let ghost head = seq![
            member_text("kind"@, "\""@ + self@.kind() + "\""@),
            member_text("key"@, json_quoted(self@.key())),
        ];
        assert(texts(parts@) =~= head);
        match self.columns_json() {
            Some(columns) => {
                let ghost before = parts@;
                parts.push(member_of("columns", columns.as_str()));
                assert(texts(parts@) =~= head.push(member_text("columns"@, columns@)));
            },
            None => {},
        }
        object_of(&parts)
    }

    /// The bytes that an event takes of an output, if they can be counted.
    fn cost(&self, arrow: bool) -> (r: Option<u64>)
        ensures
            match r {
                Some(n) => n == self@.cost(arrow),
                None => self@.cost(arrow) > u64::MAX,
            },
    {
        if arrow {
            let key: u64 = self.key().as_bytes().len() as u64;
            let columns: u64 = match self.columns_json() {
                Some(c) => c.as_str().as_bytes().len() as u64,
                None => 0,
            };
            match key.checked_add(columns) {
                Some(sum) => {
                    if sum <= 4611686018427386879 {
                        Some(4 * sum + 4096)
                    } else {
                        None
                    }
                },
                None => None,
            }
        } else {
            let json = self.to_json();
            let size: u64 = json.as_str().as_bytes().len() as u64;
            size.checked_add(1)
        }
    }
}

/// An account of which only the charges of the root may have changed.
pub open spec fn same_below(before: Seq<Counters>, after: Seq<Counters>) -> bool {
    &&& after.len() == before.len()
    &&& before.len() > 0
    &&& after[0].above() == before[0].above()
    &&& after[0].cap(ResourceKind::Memory) == before[0].cap(ResourceKind::Memory)
    &&& after[0].cap(ResourceKind::Temp) == before[0].cap(ResourceKind::Temp)
    &&& forall|k: int| 0 < k < before.len() ==> (#[trigger] after[k]) == before[k]
}

/// A charge at the root changes no other node.
pub proof fn root_charge_stays_above(
    before: Seq<Counters>,
    after: Seq<Counters>,
    kind: ResourceKind,
    delta: int,
)
    requires
        before.len() > 0,
        before[0].above() is None,
        charged(before, after, 0, kind, delta),
    ensures
        same_below(before, after),
        after[0].used(kind) == before[0].used(kind) + delta,
        forall|other: ResourceKind|
            other != kind ==> (#[trigger] after[0].used(other)) == before[0].used(other),
{
    assert(on_path(before, 0, 0));
    assert forall|k: int| 0 < k < before.len() implies (#[trigger] after[k]) == before[k] by {
        assert(!on_path(before, 0, k));
    }
    let a = after[0];
    assert(a.cap(ResourceKind::Memory) == before[0].cap(ResourceKind::Memory)) by {
        let _ = a.used(ResourceKind::Memory);
    }
    assert(a.cap(ResourceKind::Temp) == before[0].cap(ResourceKind::Temp)) by {
        let _ = a.used(ResourceKind::Temp);
    }
}

/// Giving back at the root changes no other node.
pub proof fn root_release_stays_above(
    before: Seq<Counters>,
    after: Seq<Counters>,
    kind: ResourceKind,
    bytes: int,
)
    requires
        before.len() > 0,
        before[0].above() is None,
        released(before, after, 0, kind, bytes),
    ensures
        same_below(before, after),
        after[0].used(kind) == less(before[0].used(kind) as int, bytes),
        forall|other: ResourceKind|
            other != kind ==> (#[trigger] after[0].used(other)) == before[0].used(other),
{
    assert(on_path(before, 0, 0));
    assert forall|k: int| 0 < k < before.len() implies (#[trigger] after[k]) == before[k] by {
        assert(!on_path(before, 0, k));
    }
    let a = after[0];
    assert(a.cap(ResourceKind::Memory) == before[0].cap(ResourceKind::Memory)) by {
        let _ = a.used(ResourceKind::Memory);
    }
    assert(a.cap(ResourceKind::Temp) == before[0].cap(ResourceKind::Temp)) by {
        let _ = a.used(ResourceKind::Temp);
    }
}

/// What a ledger of the root does to its account.
pub proof fn ledger_stays_above(
    before: ResourceAccount,
    after: ResourceAccount,
    early: TempLedger,
    late: TempLedger,
    bytes: u64,
    r: Result<(), ProofFrameError>,
)
    requires
        sole(before, early),
        ledger_outcome(
            before,
            after,
            early.at(),
            ResourceKind::Temp,
            "temporary storage"@,
            before.spec_limits().max_temp_bytes,
            (early.taken(), late.taken()),
            (early.in_use(), late.in_use()),
            bytes,
            r,
        ),
    ensures
        same_below(before.nodes(), after.nodes()),
        after.nodes()[0].used(ResourceKind::Memory) == before.nodes()[0].used(
            ResourceKind::Memory,
        ),
{
    if after.nodes() != before.nodes() {
        root_charge_stays_above(
            before.nodes(),
            after.nodes(),
            ResourceKind::Temp,
            late.taken() - early.taken(),
        );
    }
}

/// An output: its format, and the longest line that it has memory for.
pub struct Sink {
    arrow: bool,
    capacity: u64,
    base: MemoryReservation,
    grown: Vec<MemoryReservation>,
}

impl Sink {
    /// Whether the output is in the Arrow format.
    pub closed spec fn is_arrow(&self) -> bool {
        self.arrow
    }

    /// The longest line that the output has memory for.
    pub closed spec fn line(&self) -> u64 {
        self.capacity
    }

    /// The error of an output that there is no memory for.
    pub open spec fn memory_error(account: ResourceAccount, bytes: u64) -> Option<ErrorView> {
        if account.nodes()[0].fits(ResourceKind::Memory, bytes) {
            None
        } else {
            Some(
                ErrorView::ResourceLimit {
                    resource: ResourceKind::Memory.label(),
                    requested: bytes,
                    used: account.nodes()[0].used(ResourceKind::Memory),
                    limit: account.nodes()[0].cap(ResourceKind::Memory),
                },
            )
        }
    }

    /// Opens an output.
    pub fn new(output: &DiffOutput, account: &mut ResourceAccount) -> (r: Result<
        Self,
        ProofFrameError,
    >)
        requires
            old(account).wf(),
        ensures
            outcome(r, Self::memory_error(*old(account), SINK_BYTES)),
            final(account).wf(),
            final(account).spec_limits() == old(account).spec_limits(),
            final(account).nodes().len() == old(account).nodes().len(),
            r matches Ok(sink) ==> sink.is_arrow() == (output is ArrowIpc) && sink.line()
                == LINE_BYTES && charged(
                old(account).nodes(),
                final(account).nodes(),
                0,
                ResourceKind::Memory,
                SINK_BYTES as int,
            ),
            r is Err ==> final(account).nodes() == old(account).nodes(),
    {
        let base = account.try_reserve_memory(0, SINK_BYTES)?;
        let arrow = match output {
            DiffOutput::ArrowIpc(_) => true,
            DiffOutput::JsonLines(_) => false,
        };
        Ok(Sink { arrow, capacity: LINE_BYTES, base, grown: Vec::new() })
    }

    /// The memory that a line takes beyond what the output has.
    pub open spec fn growth(self, event: EventView) -> nat {
        if !self.is_arrow() && event.cost(false) > self.line() {
            (event.cost(false) - self.line()) as nat
        } else {
            0
        }
    }

    /// The error of writing an event.
    pub open spec fn write_error(
        self,
        event: EventView,
        account: ResourceAccount,
        temp: TempLedger,
    ) -> Option<ErrorView> {
        let cost = event.cost(self.is_arrow());
        if cost > u64::MAX {
            Some(
                ErrorView::CorruptData(
                    if self.is_arrow() {
                        "Arrow diff event is too large"@
                    } else {
                        "Diff output record is too large"@
                    },
                ),
            )
        } else if self.is_arrow() {
            if temp_refusal(account, temp, cost as u64) is Some {
                temp_refusal(account, temp, cost as u64)
            } else {
                Self::memory_error(account, cost as u64)
            }
        } else if self.growth(event) > 0 && Self::memory_error(
            account,
            self.growth(event) as u64,
        ) is Some {
            Self::memory_error(account, self.growth(event) as u64)
        } else {
            temp_refusal(account, temp, cost as u64)
        }
    }

    /// Takes what an event needs of an output: temporary storage for its bytes, and memory
    /// for the line that holds it.
    pub fn write(
        &mut self,
        event: &DiffEvent,
        account: &mut ResourceAccount,
        temp: &mut TempLedger,
    ) -> (r: Result<(), ProofFrameError>)
        requires
            sole(*old(account), *old(temp)),
        ensures
            outcome(r, old(self).write_error(event@, *old(account), *old(temp))),
            sole(*final(account), *final(temp)),
            final(account).spec_limits() == old(account).spec_limits(),
            same_below(old(account).nodes(), final(account).nodes()),
            final(account).nodes()[0].used(ResourceKind::Memory) >= old(account).nodes()[0].used(
                ResourceKind::Memory,
            ),
            final(self).is_arrow() == old(self).is_arrow(),
            r is Ok ==> {
                &&& final(self).line() == old(self).line() + old(self).growth(event@)
                &&& final(temp).in_use() == old(temp).in_use() + event@.cost(old(self).is_arrow())
                &&& final(account).nodes()[0].used(ResourceKind::Memory) == old(
                    account,
                ).nodes()[0].used(ResourceKind::Memory) + old(self).growth(event@)
            },
    {
        let ghost start = *account;
        let cost: u64 = match event.cost(self.arrow) {
            Some(n) => n,
            None => {
                return Err(
                    ProofFrameError::CorruptData(
                        if self.arrow {
                            text("Arrow diff event is too large")
                        } else {
                            text("Diff output record is too large")
                        },
                    ),
                );
            },
        };
        if self.arrow {
            let taken = temp.reserve_additional(account, cost);
            proof {
                sole_ledger_stays(start, *account, *old(temp), *temp, cost, taken);
                ledger_stays_above(start, *account, *old(temp), *temp, cost, taken);
            }
            taken?;
            let ghost between = account.nodes();
            let held = account.try_reserve_memory(0, cost)?;
            let ghost during = account.nodes();
            proof {
                root_charge_stays_above(between, during, ResourceKind::Memory, cost as int);
            }
            account.release_memory(held);
            proof {
                root_release_stays_above(
                    during,
                    account.nodes(),
                    ResourceKind::Memory,
                    cost as int,
                );
            }
            return Ok(());
        }
        if cost > self.capacity {
            let growth: u64 = cost - self.capacity;
            let held = account.try_reserve_memory(0, growth)?;
            proof {
                root_charge_stays_above(
                    start.nodes(),
                    account.nodes(),
                    ResourceKind::Memory,
                    growth as int,
                );
            }
            self.grown.push(held);
            self.capacity = cost;
        }
        let ghost middle = *account;
        proof {
            assert(temp_refusal(middle, *temp, cost) == temp_refusal(start, *temp, cost)) by {
                same_temp_refusal(start, middle, *temp, cost);
            }
        }
        let taken = temp.reserve_additional(account, cost);
        proof {
            sole_ledger_stays(middle, *account, *old(temp), *temp, cost, taken);
            ledger_stays_above(middle, *account, *old(temp), *temp, cost, taken);
        }
        taken
    }
}

/// The result of a diff so far.
#[verifier::ext_equal]
pub struct Tally {
    pub added_count: nat,
    pub removed_count: nat,
    pub changed_count: nat,
    pub added: Seq<Seq<char>>,
    pub removed: Seq<Seq<char>>,
    pub changed: Seq<ChangedView>,
}

impl Tally {
    /// All events so far.
    pub open spec fn total(self) -> nat {
        self.added_count + self.removed_count + self.changed_count
    }

    /// The result after one more event.
    pub open spec fn with(self, event: EventView, limit: nat) -> Tally {
        match event {
            EventView::Added(key) => Tally {
                added_count: self.added_count + 1,
                added: if limit == 0 {
                    self.added
                } else {
                    retained(self.added, key, limit)
                },
                ..self
            },
            EventView::Removed(key) => Tally {
                removed_count: self.removed_count + 1,
                removed: if limit == 0 {
                    self.removed
                } else {
                    retained(self.removed, key, limit)
                },
                ..self
            },
            EventView::Changed(row) => Tally {
                changed_count: self.changed_count + 1,
                changed: if limit == 0 {
                    self.changed
                } else {
                    retained_changed(self.changed, row, limit)
                },
                ..self
            },
        }
    }

    /// The result after more events.
    pub open spec fn with_all(self, events: Seq<EventView>, limit: nat) -> Tally
        decreases events.len(),
    {
        if events.len() == 0 {
            self
        } else {
            self.with_all(events.drop_last(), limit).with(events.last(), limit)
        }
    }
}

/// The result of a diff as it grows.
pub struct Accumulator {
    keys: Vec<String>,
    before_rows: usize,
    after_rows: usize,
    sample_limit: usize,
    added_count: usize,
    removed_count: usize,
    changed_count: usize,
    added: Vec<String>,
    removed: Vec<String>,
    changed: Vec<ChangedRow>,
    sink: Option<Sink>,
    output_limit: u64,
    output_records: u64,
    pending: Vec<DiffEvent>,
}

impl Accumulator {
    /// The result so far.
    pub closed spec fn tally(&self) -> Tally {
        Tally {
            added_count: self.added_count as nat,
            removed_count: self.removed_count as nat,
            changed_count: self.changed_count as nat,
            added: texts(self.added@),
            removed: texts(self.removed@),
            changed: changed_views(self.changed@),
        }
    }

    /// The most samples of each kind.
    pub closed spec fn limit(&self) -> nat {
        self.sample_limit as nat
    }

    /// The output, if there is one.
    pub closed spec fn output(&self) -> Option<Sink> {
        self.sink
    }

    /// The events for the output that were not taken yet.
    pub closed spec fn events(&self) -> Seq<EventView> {
        event_views(self.pending@)
    }

    /// The events for the output so far, and the most that there may be.
    pub closed spec fn written(&self) -> (u64, u64) {
        (self.output_records, self.output_limit)
    }

    /// What the diff is of: its key columns, and the rows of both datasets.
    pub closed spec fn subject(&self) -> (Seq<Seq<char>>, usize, usize) {
        (texts(self.keys@), self.before_rows, self.after_rows)
    }

    /// No more samples are kept than the limit allows, and the counts add up.
    pub closed spec fn wf(&self) -> bool {
        &&& self.added@.len() <= self.sample_limit
        &&& self.removed@.len() <= self.sample_limit
        &&& self.changed@.len() <= self.sample_limit
        &&& self.added@.len() <= self.added_count
        &&& self.removed@.len() <= self.removed_count
        &&& self.changed@.len() <= self.changed_count
        &&& self.added_count + self.removed_count + self.changed_count <= usize::MAX
        &&& self.output_records <= self.output_limit
    }

    /// A diff without events.
    pub fn new(
        keys: Vec<String>,
        before_rows: usize,
        after_rows: usize,
        sample_limit: usize,
        output: Option<&DiffOutput>,
        account: &mut ResourceAccount,
    ) -> (r: Result<Self, ProofFrameError>)
        requires
            old(account).wf(),
        ensures
            outcome(
                r,
                if output is Some {
                    Sink::memory_error(*old(account), SINK_BYTES)
                } else {
                    None
                },
            ),
            final(account).wf(),
            final(account).spec_limits() == old(account).spec_limits(),
            same_below(old(account).nodes(), final(account).nodes()),
            final(account).nodes()[0].used(ResourceKind::Temp) == old(account).nodes()[0].used(
                ResourceKind::Temp,
            ),
            r matches Ok(acc) ==> {
                &&& acc.wf()
                &&& acc.tally() == (Tally {
                    added_count: 0,
                    removed_count: 0,
                    changed_count: 0,
                    added: Seq::empty(),
                    removed: Seq::empty(),
                    changed: Seq::empty(),
                })
                &&& acc.limit() == sample_limit
                &&& acc.events() == Seq::<EventView>::empty()
                &&& acc.written() == (0u64, old(account).spec_limits().max_output_records)
                &&& acc.subject() == (texts(keys@), before_rows, after_rows)
                &&& acc.output() is Some <==> output is Some
                &&& final(account).nodes()[0].used(ResourceKind::Memory) == old(
                    account,
                ).nodes()[0].used(ResourceKind::Memory) + (if output is Some {
                    SINK_BYTES as int
                } else {
                    0
                })
                &&& acc.output() matches Some(sink) ==> (output matches Some(o) && sink.is_arrow()
                    == (*o is ArrowIpc)) && sink.line() == LINE_BYTES
            },
    {
        let sink = match output {
            Some(o) => {
                let made = Sink::new(o, account);
                proof {
                    if made is Ok {
                        root_charge_stays_above(
                            old(account).nodes(),
                            account.nodes(),
                            ResourceKind::Memory,
                            SINK_BYTES as int,
                        );
                    }
                }
                Some(made?)
            },
            None => None,
        };
        let output_limit: u64 = account.limits().max_output_records;
        let acc = Accumulator {
            keys,
            before_rows,
            after_rows,
            sample_limit,
            added_count: 0,
            removed_count: 0,
            changed_count: 0,
            added: Vec::new(),
            removed: Vec::new(),
            changed: Vec::new(),
            sink,
            output_limit,
            output_records: 0,
            pending: Vec::new(),
        };
        proof {
            assert(texts(acc.added@) =~= Seq::empty());
            assert(texts(acc.removed@) =~= Seq::empty());
            assert(changed_views(acc.changed@) =~= Seq::empty());
            assert(event_views(acc.pending@) =~= Seq::empty());
        }
        Ok(acc)
    }

    /// Whether the columns of a changed row are wanted.
    pub open spec fn wants_detail(self) -> bool {
        self.output() is Some || self.limit() != 0
    }

    /// Whether the columns of a changed row are wanted.
    pub fn needs_changed_detail(&self) -> (r: bool)
        ensures
            r == self.wants_detail(),
    {
        self.sink.is_some() || self.sample_limit != 0
    }

    /// The error of one more event.
    pub open spec fn emit_error(
        self,
        event: EventView,
        account: ResourceAccount,
        temp: TempLedger,
    ) -> Option<ErrorView> {
        match self.output() {
            None => None,
            Some(sink) => if self.written().0 >= self.written().1 {
                Some(
                    ErrorView::ResourceLimit {
                        resource: "diff output records"@,
                        requested: 1,
                        used: self.written().0,
                        limit: self.written().1,
                    },
                )
            } else {
                sink.write_error(event, account, temp)
            },
        }
    }

    /// The memory that one more event takes of the output.
    pub open spec fn growth(self, event: EventView) -> nat {
        match self.output() {
            Some(sink) => sink.growth(event),
            None => 0,
        }
    }

    fn emit(
        &mut self,
        event: &DiffEvent,
        account: &mut ResourceAccount,
        temp: &mut TempLedger,
    ) -> (r: Result<(), ProofFrameError>)
        requires
            old(self).wf(),
            sole(*old(account), *old(temp)),
        ensures
            outcome(r, old(self).emit_error(event@, *old(account), *old(temp))),
            sole(*final(account), *final(temp)),
            final(account).spec_limits() == old(account).spec_limits(),
            same_below(old(account).nodes(), final(account).nodes()),
            final(account).nodes()[0].used(ResourceKind::Memory) >= old(account).nodes()[0].used(
                ResourceKind::Memory,
            ),
            final(self).wf(),
            final(self).tally() == old(self).tally(),
            final(self).limit() == old(self).limit(),
            final(self).events() == old(self).events(),
            final(self).subject() == old(self).subject(),
            final(self).output() is Some <==> old(self).output() is Some,
            r is Ok ==> {
                &&& final(self).written().1 == old(self).written().1
                &&& final(self).written().0 == old(self).written().0 + (if old(
                    self,
                ).output() is Some {
                    1int
                } else {
                    0
                })
                &&& final(account).nodes()[0].used(ResourceKind::Memory) == old(
                    account,
                ).nodes()[0].used(ResourceKind::Memory) + old(self).growth(event@)
                &&& match (old(self).output(), final(self).output()) {
                    (Some(a), Some(b)) => b.is_arrow() == a.is_arrow() && b.line() == a.line()
                        + a.growth(event@) && final(temp).in_use() == old(temp).in_use()
                        + event@.cost(a.is_arrow()),
                    _ => final(temp).in_use() == old(temp).in_use(),
                }
            },
    {
        let mut held: Option<Sink> = None;
        core::mem::swap(&mut held, &mut self.sink);
        match held {
            None => {
                Ok(())
            },
            Some(mut sink) => {
                if self.output_records >= self.output_limit {
                    self.sink = Some(sink);
                    return Err(
                        ProofFrameError::ResourceLimit {
                            resource: "diff output records",
                            requested: 1,
                            used: self.output_records,
                            limit: self.output_limit,
                        },
                    );
                }
                let done = sink.write(event, account, temp);
                self.sink = Some(sink);
                done?;
                self.output_records = self.output_records + 1;
                Ok(())
            },
        }
    }

    /// Counts an event, keeps it among the samples, and hands it to the output.
    pub fn record(
        &mut self,
        event: DiffEvent,
        account: &mut ResourceAccount,
        temp: &mut TempLedger,
    ) -> (r: Result<(), ProofFrameError>)
        requires
            old(self).wf(),
            sole(*old(account), *old(temp)),
            old(self).tally().total() < usize::MAX,
        ensures
            outcome(r, old(self).emit_error(event@, *old(account), *old(temp))),
            sole(*final(account), *final(temp)),
            final(account).spec_limits() == old(account).spec_limits(),
            same_below(old(account).nodes(), final(account).nodes()),
            final(account).nodes()[0].used(ResourceKind::Memory) >= old(account).nodes()[0].used(
                ResourceKind::Memory,
            ),
            final(self).limit() == old(self).limit(),
            final(self).subject() == old(self).subject(),
            final(self).output() is Some <==> old(self).output() is Some,
            r is Ok ==> {
                &&& final(self).wf()
                &&& final(self).tally() == old(self).tally().with(event@, old(self).limit())
                &&& final(self).events() == if old(self).output() is Some {
                    old(self).events().push(event@)
                } else {
                    old(self).events()
                }
                &&& final(self).written().1 == old(self).written().1
                &&& final(self).written().0 == old(self).written().0 + (if old(
                    self,
                ).output() is Some {
                    1int
                } else {
                    0
                })
                &&& final(account).nodes()[0].used(ResourceKind::Memory) == old(
                    account,
                ).nodes()[0].used(ResourceKind::Memory) + old(self).growth(event@)
                &&& match (old(self).output(), final(self).output()) {
                    (Some(a), Some(b)) => b.is_arrow() == a.is_arrow() && b.line() == a.line()
                        + a.growth(event@) && final(temp).in_use() == old(temp).in_use()
                        + event@.cost(a.is_arrow()),
                    _ => final(temp).in_use() == old(temp).in_use(),
                }
            },
    {
        self.emit(&event, account, temp)?;
        let kept = self.sink.is_some();
        let ghost wanted = old(self).tally().with(event@, old(self).limit());
        let ghost listed = self.pending@;
        let limit: usize = self.sample_limit;
        match event {
            DiffEvent::Added(key) => {
                self.added_count = self.added_count + 1;
                if kept {
                    self.pending.push(DiffEvent::Added(key.clone()));
                }
                retain_string(&mut self.added, key, limit);
            },
            DiffEvent::Removed(key) => {
                self.removed_count = self.removed_count + 1;
                if kept {
                    self.pending.push(DiffEvent::Removed(key.clone()));
                }
                retain_string(&mut self.removed, key, limit);
            },
            DiffEvent::Changed(row) => {
                self.changed_count = self.changed_count + 1;
                if kept {
                    let columns = copy_names(&row.columns);
                    self.pending.push(
                        DiffEvent::Changed(ChangedRow { key: row.key.clone(), columns }),
                    );
                }
                retain_changed(&mut self.changed, row, limit);
            },
        }
        proof {
            if kept {
                assert(event_views(self.pending@) =~= event_views(listed).push(event@));
            }
            assert(self.tally() =~= wanted);
        }
        Ok(())
    }

    /// The events for the output so far.
    pub fn output_records(&self) -> (r: u64)
        ensures
            r == self.written().0,
    {
        self.output_records
    }

    /// Whether one more event can be counted.
    pub fn has_room(&self) -> (r: bool)
        requires
            self.wf(),
        ensures
            r == (self.tally().total() < usize::MAX),
    {
        self.added_count + self.removed_count + self.changed_count < usize::MAX
    }

    /// Takes the events for the output.
    pub fn take_events(&mut self) -> (r: Vec<DiffEvent>)
        requires
            old(self).wf(),
        ensures
            event_views(r@) == old(self).events(),
            final(self).events() == Seq::<EventView>::empty(),
            final(self).wf(),
            final(self).tally() == old(self).tally(),
            final(self).limit() == old(self).limit(),
            final(self).subject() == old(self).subject(),
            final(self).output() == old(self).output(),
            final(self).written() == old(self).written(),
    {
        let mut taken: Vec<DiffEvent> = Vec::new();
        core::mem::swap(&mut taken, &mut self.pending);
        assert(event_views(self.pending@) =~= Seq::empty());
        taken
    }

    /// The report of a diff.
    pub fn finish(self, metrics: DiffMetrics) -> (r: DiffReport)
        requires
            self.wf(),
        ensures
            texts(r.keys@) == self.subject().0,
            r.before_rows == self.subject().1,
            r.after_rows == self.subject().2,
            r.added_count == self.tally().added_count,
            r.removed_count == self.tally().removed_count,
            r.changed_count == self.tally().changed_count,
            texts(r.added_keys@) == self.tally().added,
            texts(r.removed_keys@) == self.tally().removed,
            changed_views(r.changed@) == self.tally().changed,
            r.truncated <==> self.tally().total() > self.tally().added.len()
                + self.tally().removed.len() + self.tally().changed.len(),
            r.metrics == metrics,
    {
        let retained_rows: usize = self.added.len() + self.removed.len() + self.changed.len();
        let total: usize = self.added_count + self.removed_count + self.changed_count;
        assert(texts(self.added@).len() == self.added@.len());
        assert(texts(self.removed@).len() == self.removed@.len());
        DiffReport {
            keys: self.keys,
            before_rows: self.before_rows,
            after_rows: self.after_rows,
            added_count: self.added_count,
            removed_count: self.removed_count,
            changed_count: self.changed_count,
            added_keys: self.added,
            removed_keys: self.removed,
            changed: self.changed,
            truncated: total > retained_rows,
            metrics,
        }
    }
}

/// A list of names, copied.
fn copy_names(names: &Vec<String>) -> (r: Vec<String>)
    ensures
        texts(r@) == texts(names@),
{
    let mut out: Vec<String> = Vec::new();
    let mut i: usize = 0;
    while i < names.len()
        invariant
            i <= names@.len(),
            texts(out@) == texts(names@).take(i as int),
        decreases names@.len() - i,
    {
        let ghost before = out@;
        out.push(names[i].clone());
        assert(texts(out@) =~= texts(before).push(names@[i as int]@));
        assert(texts(names@).take(i + 1) =~= texts(names@).take(i as int).push(names@[i as int]@));
        i = i + 1;
    }
    assert(texts(names@).take(names@.len() as int) =~= texts(names@));
    out
}

/// What a diff took.
#[derive(Debug, Clone, Copy, PartialEq, Eq, Structural)]
pub struct DiffMetrics {
    pub partitions: usize,
    pub temp_bytes: u64,
    pub peak_memory_bytes: u64,
    pub peak_temp_bytes: u64,
    pub output_records: u64,
}

/// An exact keyed diff between two datasets.
#[derive(Debug)]
pub struct DiffReport {
    /// The key columns by which rows are aligned.
    pub keys: Vec<String>,
    /// The rows of the dataset before.
    pub before_rows: usize,
    /// The rows of the dataset after.
    pub after_rows: usize,
    /// The number of keys that are only in the dataset after.
    pub added_count: usize,
    /// The number of keys that are only in the dataset before.
    pub removed_count: usize,
    /// The number of keys in both with other values.
    pub changed_count: usize,
    /// Sorted keys that are only in the dataset after.
    pub added_keys: Vec<String>,
    /// Sorted keys that are only in the dataset before.
    pub removed_keys: Vec<String>,
    /// Changed rows, sorted by key.
    pub changed: Vec<ChangedRow>,
    /// Whether the counts exceed the samples.
    pub truncated: bool,
    /// What the diff took.
    pub metrics: DiffMetrics,
}

/// What a ledger refuses depends only on the temporary storage of the root.
proof fn same_temp_refusal(
    one: ResourceAccount,
    other: ResourceAccount,
    temp: TempLedger,
    bytes: u64,
)
    requires
        sole(one, temp),
        sole(other, temp),
        one.spec_limits() == other.spec_limits(),
    ensures
        temp_refusal(one, temp, bytes) == temp_refusal(other, temp, bytes),
{
    let limit = one.spec_limits().max_temp_bytes as nat;
    let charge = next_charge(temp.taken(), (temp.in_use() + bytes) as nat, limit);
    assert(first_refusal(one.nodes(), 0, ResourceKind::Temp, charge as u64) == first_refusal(
        other.nodes(),
        0,
        ResourceKind::Temp,
        charge as u64,
    ));
}

} // verus!
