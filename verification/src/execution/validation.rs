//! Findings, their bounded retention, and their memory.

use crate::error::ProofFrameError;
use crate::resource::{
    charged, refusal, room, room_is_no_refusal, MemoryReservation, Reservation, ResourceAccount,
    ResourceKind,
};
use crate::text::utf8;
use vstd::prelude::*;

verus! {

/// The size of a finding without its texts.
pub const FINDING_BYTES: u64 = 80;

/// A single rule violation with bounded, row-level evidence.
#[derive(Debug)]
pub struct Finding {
    pub rule: &'static str,
    pub column: String,
    pub row: Option<u64>,
    pub message: String,
}

/// A finding with its texts as character sequences.
pub struct FindingView {
    pub rule: Seq<char>,
    pub column: Seq<char>,
    pub row: Option<u64>,
    pub message: Seq<char>,
}

impl View for Finding {
    type V = FindingView;

    open spec fn view(&self) -> FindingView {
        FindingView {
            rule: self.rule@,
            column: self.column@,
            row: self.row,
            message: self.message@,
        }
    }
}

/// The views of a list of findings.
pub open spec fn finding_views(findings: Seq<Finding>) -> Seq<FindingView> {
    findings.map_values(|f: Finding| f@)
}

/// A number that stops at the largest of the machine.
pub open spec fn capped(n: nat) -> nat {
    if n > u64::MAX {
        u64::MAX as nat
    } else {
        n
    }
}

/// What a validation has found: the findings that were kept, how many violations there
/// were, and the memory that the kept findings cost and are not charged for yet.
pub struct Found {
    pub findings: Seq<FindingView>,
    pub count: nat,
    pub limit: nat,
    pub places: nat,
    pub owed: nat,
}

/// The places of a list that grows by doubling.
pub open spec fn more_places(places: nat) -> nat {
    if places == 0 {
        4
    } else {
        2 * places
    }
}

/// What keeping a finding costs: its texts, and new places where none is free.
pub open spec fn finding_cost(f: Found, finding: FindingView) -> nat {
    (if f.findings.len() == f.places {
        ((more_places(f.places) - f.places) * 80) as nat
    } else {
        0
    }) + utf8(finding.column).len() + utf8(finding.message).len()
}

/// What was found with one more violation: it is counted, and kept while there is room.
pub open spec fn recorded(f: Found, finding: FindingView) -> Found {
    if f.findings.len() < f.limit {
        Found {
            findings: f.findings.push(finding),
            count: capped(f.count + 1),
            limit: f.limit,
            places: if f.findings.len() == f.places {
                more_places(f.places)
            } else {
                f.places
            },
            owed: capped(f.owed + finding_cost(f, finding)),
        }
    } else {
        Found { count: capped(f.count + 1), ..f }
    }
}

/// What was found with several more violations, in order.
pub open spec fn recorded_all(f: Found, list: Seq<FindingView>) -> Found
    decreases list.len(),
{
    if list.len() == 0 {
        f
    } else {
        recorded(recorded_all(f, list.drop_last()), list.last())
    }
}

/// What was found with violations that are counted only.
pub open spec fn counted_more(f: Found, n: nat) -> Found {
    Found { count: capped(f.count + n), ..f }
}

/// Violations found in two parts are the violations found at once.
pub proof fn recorded_in_parts(f: Found, a: Seq<FindingView>, b: Seq<FindingView>)
    ensures
        recorded_all(f, a + b) == recorded_all(recorded_all(f, a), b),
    decreases b.len(),
{
    if b.len() == 0 {
        assert(a + b =~= a);
    } else {
        recorded_in_parts(f, a, b.drop_last());
        assert((a + b).drop_last() =~= a + b.drop_last());
    }
}

/// No more findings are kept than the limit, the kept ones are the first, and every
/// violation is counted: findings were dropped exactly where more were counted than kept.
pub proof fn findings_are_bounded(f: Found, list: Seq<FindingView>)
    requires
        f.findings.len() <= f.limit,
        f.count + list.len() <= u64::MAX,
        f.findings.len() <= f.count,
    ensures
        recorded_all(f, list).findings.len() <= f.limit,
        recorded_all(f, list).findings.len() <= recorded_all(f, list).count,
        recorded_all(f, list).count == f.count + list.len(),
        recorded_all(f, list).limit == f.limit,
        recorded_all(f, list).findings == f.findings + list.take(
            if f.findings.len() + list.len() <= f.limit {
                list.len() as int
            } else {
                f.limit - f.findings.len()
            },
        ),
    decreases list.len(),
{
    if list.len() == 0 {
        assert(recorded_all(f, list).findings =~= f.findings + list.take(0));
    } else {
        let rest = list.drop_last();
        findings_are_bounded(f, rest);
        let before = recorded_all(f, rest);
        let after = recorded_all(f, list);
        if before.findings.len() < f.limit {
            assert(rest.take(rest.len() as int) =~= rest);
            assert(after.findings =~= f.findings + list.take(list.len() as int));
        } else {
            assert(rest.take(f.limit - f.findings.len()) =~= list.take(
                f.limit - f.findings.len(),
            ));
            assert(after.findings =~= f.findings + list.take(f.limit - f.findings.len()));
        }
    }
}

/// The outcome of a validation.
#[derive(Debug)]
pub struct ValidationOutcome {
    pub findings: Vec<Finding>,
    pub violation_count: u64,
    pub truncated: bool,
    pub evaluated: Vec<u64>,
}

/// What a running validation has found.
#[derive(Debug)]
pub struct ValidationState {
    findings: Vec<Finding>,
    violation_count: u64,
    max_findings: usize,
    places: u128,
    owed: u64,
    reservations: Vec<MemoryReservation>,
    evaluated: Vec<u64>,
}

impl View for ValidationState {
    type V = Found;

    closed spec fn view(&self) -> Found {
        Found {
            findings: finding_views(self.findings@),
            count: self.violation_count as nat,
            limit: self.max_findings as nat,
            places: self.places as nat,
            owed: self.owed as nat,
        }
    }
}

impl ValidationState {
    /// The places hold the findings, and are few enough to count.
    pub closed spec fn wf(&self) -> bool {
        self.findings@.len() <= self.places && self.places <= 4 * (self.findings@.len() + 1)
    }

    /// How many values each column offered.
    pub closed spec fn offered(&self) -> Seq<u64> {
        self.evaluated@
    }

    /// The memory that was reserved for findings.
    pub closed spec fn reserved(&self) -> Seq<Reservation> {
        Seq::new(self.reservations@.len(), |i: int| self.reservations@[i].charge())
    }

    /// A validation that has found nothing.
    pub fn new(max_findings: usize) -> (r: Self)
        ensures
            r.wf(),
            r@ == (Found {
                findings: Seq::empty(),
                count: 0,
                limit: max_findings as nat,
                places: 0,
                owed: 0,
            }),
            r.offered() == Seq::<u64>::empty(),
            r.reserved() == Seq::<Reservation>::empty(),
    {
        let r = ValidationState {
            findings: Vec::new(),
            violation_count: 0,
            max_findings,
            places: 0,
            owed: 0,
            reservations: Vec::new(),
            evaluated: Vec::new(),
        };
        assert(finding_views(r.findings@) =~= Seq::empty());
        r
    }

    /// Starts the counts of the values that columns offer.
    pub fn prepare_evaluated(&mut self, columns: usize)
        requires
            old(self).wf(),
        ensures
            final(self).wf(),
            final(self)@ == old(self)@,
            final(self).reserved() == old(self).reserved(),
            final(self).offered() == Seq::new(columns as nat, |i: int| 0u64),
    {
        let mut evaluated: Vec<u64> = Vec::new();
        let mut i: usize = 0;
        while i < columns
            invariant
                i <= columns,
                evaluated@ == Seq::new(i as nat, |k: int| 0u64),
            decreases columns - i,
        {
            evaluated.push(0);
            i = i + 1;
            assert(evaluated@ =~= Seq::new(i as nat, |k: int| 0u64));
        }
        self.evaluated = evaluated;
    }

    /// Adds to the count of the values that a column offered.
    pub fn record_evaluated(&mut self, column: usize, values: u64)
        requires
            old(self).wf(),
            column < old(self).offered().len(),
        ensures
            final(self).wf(),
            final(self)@ == old(self)@,
            final(self).reserved() == old(self).reserved(),
            final(self).offered() == old(self).offered().update(
                column as int,
                capped((old(self).offered()[column as int] + values) as nat) as u64,
            ),
    {
        let now: u64 = self.evaluated[column].saturating_add(values);
        self.evaluated.set(column, now);
    }

    /// Whether one more finding would be kept.
    pub fn has_room(&self) -> (r: bool)
        ensures
            r == (self@.findings.len() < self@.limit),
    {
        self.findings.len() < self.max_findings
    }

    /// Records a violation: it is counted, and kept while there is room.
    pub fn record(&mut self, finding: Finding)
        requires
            old(self).wf(),
        ensures
            final(self).wf(),
            final(self)@ == recorded(old(self)@, finding@),
            final(self).reserved() == old(self).reserved(),
            final(self).offered() == old(self).offered(),
    {
        self.violation_count = self.violation_count.saturating_add(1);
        if self.findings.len() < self.max_findings {
            let held: u128 = self.findings.len() as u128;
            let texts: u128 = finding.column.as_str().as_bytes().len() as u128
                + finding.message.as_str().as_bytes().len() as u128;
            let mut cost: u128 = texts;
            if held == self.places {
                let next: u128 = if self.places == 0 {
                    4
                } else {
                    2 * self.places
                };
                cost = cost + (next - self.places) * FINDING_BYTES as u128;
                self.places = next;
            }
            let total: u128 = self.owed as u128 + cost;
            self.owed = if total > u64::MAX as u128 {
                u64::MAX
            } else {
                total as u64
            };
            let ghost had = self.findings@;
            self.findings.push(finding);
            assert(finding_views(self.findings@) =~= finding_views(had).push(finding@));
        }
    }

    /// Counts violations that are not kept.
    pub fn count_more(&mut self, n: u64)
        requires
            old(self).wf(),
        ensures
            final(self).wf(),
            final(self)@ == counted_more(old(self)@, n as nat),
            final(self).reserved() == old(self).reserved(),
            final(self).offered() == old(self).offered(),
    {
        self.violation_count = self.violation_count.saturating_add(n);
    }

    /// Charges the memory of the findings that were kept since the last call.
    pub fn check_resources(&mut self, account: &mut ResourceAccount, node: usize) -> (r: Result<
        (),
        ProofFrameError,
    >)
        requires
            old(self).wf(),
            old(account).wf(),
            node < old(account).nodes().len(),
        ensures
            final(self).wf(),
            final(account).wf(),
            final(account).spec_limits() == old(account).spec_limits(),
            final(account).nodes().len() == old(account).nodes().len(),
            final(self).offered() == old(self).offered(),
            r is Ok <==> room(
                old(account).nodes(),
                node as int,
                ResourceKind::Memory,
                0,
                old(self)@.owed as int,
            ),
            r is Ok ==> final(self).reserved().drop_last() == old(self).reserved()
                && final(self).reserved().len() == old(self).reserved().len() + 1
                && final(self).reserved().last().node() == node
                && final(self).reserved().last().kind() == ResourceKind::Memory
                && final(self).reserved().last().bytes() == old(self)@.owed,
            r is Err ==> final(self).reserved() == old(self).reserved(),
            r is Ok ==> final(self)@ == (Found { owed: 0, ..old(self)@ }) && charged(
                old(account).nodes(),
                final(account).nodes(),
                node as int,
                ResourceKind::Memory,
                old(self)@.owed as int,
            ),
            r matches Err(e) ==> final(self)@ == old(self)@ && final(account).nodes() == old(
                account,
            ).nodes() && e@ == refusal(
                old(account).nodes(),
                node as int,
                ResourceKind::Memory,
                old(self)@.owed as u64,
            ),
    {
        let bytes: u64 = self.owed;
        proof {
            room_is_no_refusal(account.nodes(), node as int, ResourceKind::Memory, bytes);
        }
        match account.try_reserve_memory(node, bytes) {
            Ok(m) => {
                self.reservations.push(m);
                self.owed = 0;
                assert(self.reserved().drop_last() =~= old(self).reserved());
                Ok(())
            },
            Err(e) => Err(e),
        }
    }

    /// The outcome. Findings are truncated exactly where more violations were counted than
    /// findings kept.
    pub fn finish(self) -> (r: ValidationOutcome)
        ensures
            finding_views(r.findings@) == self@.findings,
            r.violation_count == self@.count,
            r.truncated == (self@.count > self@.findings.len()),
            r.evaluated@ == self.offered(),
    {
        let truncated = self.violation_count > self.findings.len() as u64;
        assert(finding_views(self.findings@).len() == self.findings@.len());
        ValidationOutcome {
            truncated,
            violation_count: self.violation_count,
            findings: self.findings,
            evaluated: self.evaluated,
        }
    }
}

} // verus!
