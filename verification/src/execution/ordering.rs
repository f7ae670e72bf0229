//! Order of a column's values from row to row, and the steps between them.

use crate::contract::ast::{MonotonicDirectionAst, MonotonicNullPolicyAst};
use crate::contract::dataset::{GapDetectionPlan, MonotonicityPlan};
use crate::error::{ErrorView, ProofFrameError};
use crate::execution::validation::{capped, recorded_all, Finding, FindingView, ValidationState};
use crate::numbers::{total_key32, total_key64, total_order_key32, total_order_key64};
use crate::text::{bytes_less, cat2, cat3, cat5, lex_less, text, utf8};
use crate::value::Cell;
use vstd::prelude::*;

verus! {

/// A value compared by its own order rather than by its encoding. A float is the number
/// that orders all bit patterns totally.
#[derive(Debug)]
pub enum Ordered {
    Int(i128),
    Uint(u64),
    Float(i128),
    Text(Vec<u8>),
}

/// A value in its own order.
pub enum Place {
    Int(int),
    Uint(int),
    Float(int),
    Text(Seq<u8>),
}

impl View for Ordered {
    type V = Place;

    open spec fn view(&self) -> Place {
        match *self {
            Ordered::Int(v) => Place::Int(v as int),
            Ordered::Uint(v) => Place::Uint(v as int),
            Ordered::Float(k) => Place::Float(k as int),
            Ordered::Text(b) => Place::Text(b@),
        }
    }
}

/// The place of a cell in the order of its column; nothing for a type without an order.
pub open spec fn place_of(cell: Cell) -> Option<Place> {
    match cell {
        Cell::Int8(v) => Some(Place::Int(v as int)),
        Cell::Int16(v) => Some(Place::Int(v as int)),
        Cell::Int32(v) => Some(Place::Int(v as int)),
        Cell::Int64(v) => Some(Place::Int(v as int)),
        Cell::Date32(v) => Some(Place::Int(v as int)),
        Cell::Date64(v) => Some(Place::Int(v as int)),
        Cell::Timestamp(_, v) => Some(Place::Int(v as int)),
        Cell::Decimal128(v) => Some(Place::Int(v as int)),
        Cell::UInt8(v) => Some(Place::Uint(v as int)),
        Cell::UInt16(v) => Some(Place::Uint(v as int)),
        Cell::UInt32(v) => Some(Place::Uint(v as int)),
        Cell::UInt64(v) => Some(Place::Uint(v as int)),
        Cell::Boolean(b) => Some(Place::Uint(if b { 1 } else { 0 })),
        Cell::Float32(b) => Some(Place::Float(total_key32(b))),
        Cell::Float64(b) => Some(Place::Float(total_key64(b))),
        Cell::Utf8(s) => Some(Place::Text(utf8(s@))),
        Cell::LargeUtf8(s) => Some(Place::Text(utf8(s@))),
        Cell::Utf8View(s) => Some(Place::Text(utf8(s@))),
        _ => None,
    }
}

fn bytes_of(s: &str) -> (r: Vec<u8>)
    ensures
        r@ == utf8(s@),
{
    let b = s.as_bytes();
    let r = crate::bytes::slice_of(b, 0, b.len());
    assert(r@ =~= b@);
    r
}

/// Reads a cell in the order in which its column is compared.
pub fn ordered_value(cell: &Cell, shown: &str) -> (r: Result<Ordered, ProofFrameError>)
    ensures
        match place_of(*cell) {
            Some(p) => r matches Ok(v) && v@ == p,
            None => r matches Err(e) && e@ == ErrorView::UnsupportedType(
                "monotonicity for "@ + shown@,
            ),
        },
{
    match cell {
        Cell::Int8(v) => Ok(Ordered::Int(*v as i128)),
        Cell::Int16(v) => Ok(Ordered::Int(*v as i128)),
        Cell::Int32(v) => Ok(Ordered::Int(*v as i128)),
        Cell::Int64(v) => Ok(Ordered::Int(*v as i128)),
        Cell::Date32(v) => Ok(Ordered::Int(*v as i128)),
        Cell::Date64(v) => Ok(Ordered::Int(*v as i128)),
        Cell::Timestamp(_, v) => Ok(Ordered::Int(*v as i128)),
        Cell::Decimal128(v) => Ok(Ordered::Int(*v)),
        Cell::UInt8(v) => Ok(Ordered::Uint(*v as u64)),
        Cell::UInt16(v) => Ok(Ordered::Uint(*v as u64)),
        Cell::UInt32(v) => Ok(Ordered::Uint(*v as u64)),
        Cell::UInt64(v) => Ok(Ordered::Uint(*v)),
        Cell::Boolean(b) => Ok(
            Ordered::Uint(
                if *b {
                    1
                } else {
                    0
                },
            ),
        ),
        Cell::Float32(b) => Ok(Ordered::Float(total_order_key32(*b))),
        Cell::Float64(b) => Ok(Ordered::Float(total_order_key64(*b))),
        Cell::Utf8(s) => Ok(Ordered::Text(bytes_of(s.as_str()))),
        Cell::LargeUtf8(s) => Ok(Ordered::Text(bytes_of(s.as_str()))),
        Cell::Utf8View(s) => Ok(Ordered::Text(bytes_of(s.as_str()))),
        _ => Err(ProofFrameError::UnsupportedType(cat2("monotonicity for ", shown))),
    }
}

/// Whether two places are of one kind.
pub open spec fn same_kind(a: Place, b: Place) -> bool {
    match (a, b) {
        (Place::Int(_), Place::Int(_)) => true,
        (Place::Uint(_), Place::Uint(_)) => true,
        (Place::Float(_), Place::Float(_)) => true,
        (Place::Text(_), Place::Text(_)) => true,
        _ => false,
    }
}

/// Whether one place comes before another of its kind.
pub open spec fn precedes(a: Place, b: Place) -> bool {
    match (a, b) {
        (Place::Int(x), Place::Int(y)) => x < y,
        (Place::Uint(x), Place::Uint(y)) => x < y,
        (Place::Float(x), Place::Float(y)) => x < y,
        (Place::Text(x), Place::Text(y)) => lex_less(x, y),
        _ => false,
    }
}

/// Whether a value may follow another in a direction.
pub open spec fn may_follow(direction: MonotonicDirectionAst, previous: Place, next: Place) -> bool {
    match direction {
        MonotonicDirectionAst::Increasing => !precedes(next, previous),
        MonotonicDirectionAst::StrictlyIncreasing => precedes(previous, next),
        MonotonicDirectionAst::Decreasing => !precedes(previous, next),
        MonotonicDirectionAst::StrictlyDecreasing => precedes(next, previous),
    }
}

fn comes_before(a: &Ordered, b: &Ordered) -> (r: Option<bool>)
    ensures
        r == (if same_kind(a@, b@) {
            Some(precedes(a@, b@))
        } else {
            None
        }),
{
    match (a, b) {
        (Ordered::Int(x), Ordered::Int(y)) => Some(*x < *y),
        (Ordered::Uint(x), Ordered::Uint(y)) => Some(*x < *y),
        (Ordered::Float(x), Ordered::Float(y)) => Some(*x < *y),
        (Ordered::Text(x), Ordered::Text(y)) => Some(bytes_less(x.as_slice(), y.as_slice())),
        _ => None,
    }
}

/// Whether `next` may follow `previous` in a direction.
pub fn follows(direction: MonotonicDirectionAst, previous: &Ordered, next: &Ordered) -> (r: Result<
    bool,
    ProofFrameError,
>)
    ensures
        if same_kind(previous@, next@) {
            r matches Ok(b) && b == may_follow(direction, previous@, next@)
        } else {
            r matches Err(e) && e@ == ErrorView::CorruptData(
                "Monotonicity compared two different value kinds"@,
            )
        },
{
    match (comes_before(previous, next), comes_before(next, previous)) {
        (Some(up), Some(down)) => Ok(
            match direction {
                MonotonicDirectionAst::Increasing => !down,
                MonotonicDirectionAst::StrictlyIncreasing => up,
                MonotonicDirectionAst::Decreasing => !up,
                MonotonicDirectionAst::StrictlyDecreasing => down,
            },
        ),
        _ => Err(
            ProofFrameError::CorruptData(text("Monotonicity compared two different value kinds")),
        ),
    }
}

/// The sentence of a direction.
pub open spec fn direction_sentence(direction: MonotonicDirectionAst) -> Seq<char> {
    match direction {
        MonotonicDirectionAst::Increasing => "must not decrease"@,
        MonotonicDirectionAst::StrictlyIncreasing => "must increase"@,
        MonotonicDirectionAst::Decreasing => "must not increase"@,
        MonotonicDirectionAst::StrictlyDecreasing => "must decrease"@,
    }
}

/// The sentence of a direction, naming what was broken.
pub fn describe(direction: MonotonicDirectionAst) -> (r: &'static str)
    ensures
        r@ == direction_sentence(direction),
{
    match direction {
        MonotonicDirectionAst::Increasing => "must not decrease",
        MonotonicDirectionAst::StrictlyIncreasing => "must increase",
        MonotonicDirectionAst::Decreasing => "must not increase",
        MonotonicDirectionAst::StrictlyDecreasing => "must decrease",
    }
}

/// What following a column's order has found: the findings, the last value, and the error
/// that stopped it.
pub struct Trail {
    pub findings: Seq<FindingView>,
    pub last: Option<Place>,
    pub error: Option<ErrorView>,
}

/// A finding of an ordering or step rule on a null.
pub open spec fn null_finding(
    rule: Seq<char>,
    name: Seq<char>,
    column: Seq<char>,
    row: u64,
) -> FindingView {
    FindingView {
        rule,
        column,
        row: Some(row),
        message: "Rule `"@ + name + "` rejects null values"@,
    }
}

/// The trail with one more cell: a null is skipped or reported and never compared; any
/// other value is compared with the value before it.
pub open spec fn trail_step(
    t: Trail,
    plan: MonotonicityPlan,
    shown: Seq<char>,
    cell: Cell,
    row: u64,
) -> Trail {
    if t.error is Some {
        t
    } else if cell is Null {
        if plan.nulls == MonotonicNullPolicyAst::Reject {
            Trail {
                findings: t.findings.push(
                    null_finding("monotonicity"@, plan.name@, plan.column@, row),
                ),
                ..t
            }
        } else {
            t
        }
    } else {
        match place_of(cell) {
            None => Trail {
                error: Some(ErrorView::UnsupportedType("monotonicity for "@ + shown)),
                ..t
            },
            Some(p) => match t.last {
                None => Trail { last: Some(p), ..t },
                Some(before) => if !same_kind(before, p) {
                    Trail {
                        error: Some(
                            ErrorView::CorruptData(
                                "Monotonicity compared two different value kinds"@,
                            ),
                        ),
                        ..t
                    }
                } else if may_follow(plan.direction, before, p) {
                    Trail { last: Some(p), ..t }
                } else {
                    Trail {
                        findings: t.findings.push(
                            FindingView {
                                rule: "monotonicity"@,
                                column: plan.column@,
                                row: Some(row),
                                message: "Rule `"@ + plan.name@ + "` "@ + direction_sentence(
                                    plan.direction,
                                ) + " but this row is out of order"@,
                            },
                        ),
                        last: Some(p),
                        ..t
                    }
                },
            },
        }
    }
}

/// The trail of the first `n` cells of a column, behind a last value.
pub open spec fn trail(
    plan: MonotonicityPlan,
    shown: Seq<char>,
    cells: Seq<Cell>,
    row_offset: int,
    last: Option<Place>,
    n: nat,
) -> Trail
    decreases n,
{
    if n == 0 {
        Trail { findings: Seq::empty(), last, error: None }
    } else {
        trail_step(
            trail(plan, shown, cells, row_offset, last, (n - 1) as nat),
            plan,
            shown,
            cells[n - 1],
            (row_offset + n - 1) as u64,
        )
    }
}

/// An error stops a trail for good.
pub proof fn trail_error_stays(
    plan: MonotonicityPlan,
    shown: Seq<char>,
    cells: Seq<Cell>,
    row_offset: int,
    last: Option<Place>,
    i: nat,
    n: nat,
)
    requires
        i <= n,
        trail(plan, shown, cells, row_offset, last, i).error is Some,
    ensures
        trail(plan, shown, cells, row_offset, last, n) == trail(
            plan,
            shown,
            cells,
            row_offset,
            last,
            i,
        ),
    decreases n,
{
    if i < n {
        trail_error_stays(plan, shown, cells, row_offset, last, i, (n - 1) as nat);
    }
}

/// The view of an optional value.
pub open spec fn opt_place(v: Option<Ordered>) -> Option<Place> {
    match v {
        Some(x) => Some(x@),
        None => None,
    }
}

/// Follows the order of a column through a batch.
pub fn scan_order(
    plan: &MonotonicityPlan,
    shown: &str,
    cells: &Vec<Cell>,
    row_offset: u64,
    previous: Option<Ordered>,
    validation: &mut ValidationState,
) -> (r: Result<Option<Ordered>, ProofFrameError>)
    requires
        old(validation).wf(),
        row_offset + cells@.len() <= u64::MAX,
    ensures
        final(validation).wf(),
        final(validation).offered() == old(validation).offered(),
        ({
            let t = trail(
                *plan,
                shown@,
                cells@,
                row_offset as int,
                opt_place(previous),
                cells@.len(),
            );
            match t.error {
                Some(e) => r matches Err(x) && x@ == e,
                None => (r matches Ok(v) && opt_place(v) == t.last) && final(validation)@
                    == recorded_all(old(validation)@, t.findings),
            }
        }),
{
    let ghost start = validation@;
    let ghost given = opt_place(previous);
    let mut last = previous;
    let mut i: usize = 0;
    while i < cells.len()
        invariant
            i <= cells@.len(),
            row_offset + cells@.len() <= u64::MAX,
            validation.wf(),
            validation.offered() == old(validation).offered(),
            start == old(validation)@,
            given == opt_place(previous),
            trail(*plan, shown@, cells@, row_offset as int, given, i as nat).error is None,
            opt_place(last) == trail(
                *plan,
                shown@,
                cells@,
                row_offset as int,
                given,
                i as nat,
            ).last,
            validation@ == recorded_all(
                start,
                trail(*plan, shown@, cells@, row_offset as int, given, i as nat).findings,
            ),
        decreases cells@.len() - i,
    {
        let row: u64 = row_offset + i as u64;
        let ghost t = trail(*plan, shown@, cells@, row_offset as int, given, i as nat);
        let ghost next = trail(*plan, shown@, cells@, row_offset as int, given, (i + 1) as nat);
        assert(next == trail_step(t, *plan, shown@, cells@[i as int], row));
        let null = match &cells[i] {
            Cell::Null => true,
            _ => false,
        };
        if null {
            if plan.nulls == MonotonicNullPolicyAst::Reject {
                assert(next.findings.drop_last() =~= t.findings);
                validation.record(
                    Finding {
                        rule: "monotonicity",
                        column: plan.column.clone(),
                        row: Some(row),
                        message: cat3("Rule `", plan.name.as_str(), "` rejects null values"),
                    },
                );
            }
        } else {
            let value = match ordered_value(&cells[i], shown) {
                Ok(v) => v,
                Err(e) => {
                    proof {
                        trail_error_stays(
                            *plan,
                            shown@,
                            cells@,
                            row_offset as int,
                            given,
                            (i + 1) as nat,
                            cells@.len(),
                        );
                    }
                    return Err(e);
                },
            };
            let fine = match &last {
                Some(before) => match follows(plan.direction, before, &value) {
                    Ok(b) => b,
                    Err(e) => {
                        proof {
                            trail_error_stays(
                                *plan,
                                shown@,
                                cells@,
                                row_offset as int,
                                given,
                                (i + 1) as nat,
                                cells@.len(),
                            );
                        }
                        return Err(e);
                    },
                },
                None => true,
            };
            if !fine {
                assert(next.findings.drop_last() =~= t.findings);
                validation.record(
                    Finding {
                        rule: "monotonicity",
                        column: plan.column.clone(),
                        row: Some(row),
                        message: cat5(
                            "Rule `",
                            plan.name.as_str(),
                            "` ",
                            describe(plan.direction),
                            " but this row is out of order",
                        ),
                    },
                );
            }
            last = Some(value);
        }
        i = i + 1;
    }
    Ok(last)
}

/// What counting long steps has found: the findings on nulls, the last value, how many
/// steps were too long, the row of the first, and the error that stopped it.
pub struct Steps {
    pub findings: Seq<FindingView>,
    pub last: Option<Place>,
    pub gaps: nat,
    pub first_row: Option<u64>,
    pub error: Option<ErrorView>,
}

/// Whether two places have a distance.
pub open spec fn measurable(a: Place, b: Place) -> bool {
    same_kind(a, b) && !(a is Text)
}

/// The steps with one more cell, given whether the step to it is too long.
pub open spec fn step_more(
    s: Steps,
    plan: GapDetectionPlan,
    shown: Seq<char>,
    cell: Cell,
    long: bool,
    row: u64,
) -> Steps {
    if s.error is Some {
        s
    } else if cell is Null {
        if plan.nulls == MonotonicNullPolicyAst::Reject {
            Steps {
                findings: s.findings.push(
                    null_finding("gap_detection"@, plan.name@, plan.column@, row),
                ),
                ..s
            }
        } else {
            s
        }
    } else {
        match place_of(cell) {
            None => Steps {
                error: Some(ErrorView::UnsupportedType("monotonicity for "@ + shown)),
                ..s
            },
            Some(p) => match s.last {
                None => Steps { last: Some(p), ..s },
                Some(before) => if !measurable(before, p) {
                    Steps {
                        error: Some(
                            ErrorView::CorruptData(
                                "Gap detection compared two different value kinds"@,
                            ),
                        ),
                        ..s
                    }
                } else if long {
                    Steps {
                        last: Some(p),
                        gaps: capped(s.gaps + 1),
                        first_row: if s.first_row is None {
                            Some(row)
                        } else {
                            s.first_row
                        },
                        ..s
                    }
                } else {
                    Steps { last: Some(p), ..s }
                },
            },
        }
    }
}

/// The steps of the first `n` cells of a column.
pub open spec fn steps(
    start: Steps,
    plan: GapDetectionPlan,
    shown: Seq<char>,
    cells: Seq<Cell>,
    long: Seq<bool>,
    row_offset: int,
    n: nat,
) -> Steps
    decreases n,
{
    if n == 0 {
        start
    } else {
        step_more(
            steps(start, plan, shown, cells, long, row_offset, (n - 1) as nat),
            plan,
            shown,
            cells[n - 1],
            long[n - 1],
            (row_offset + n - 1) as u64,
        )
    }
}

proof fn steps_error_stays(
    start: Steps,
    plan: GapDetectionPlan,
    shown: Seq<char>,
    cells: Seq<Cell>,
    long: Seq<bool>,
    row_offset: int,
    i: nat,
    n: nat,
)
    requires
        i <= n,
        steps(start, plan, shown, cells, long, row_offset, i).error is Some,
    ensures
        steps(start, plan, shown, cells, long, row_offset, n) == steps(
            start,
            plan,
            shown,
            cells,
            long,
            row_offset,
            i,
        ),
    decreases n,
{
    if i < n {
        steps_error_stays(start, plan, shown, cells, long, row_offset, i, (n - 1) as nat);
    }
}

/// One step rule: the last value that it saw, and the long steps that it has counted.
#[derive(Debug)]
pub struct GapState {
    pub previous: Option<Ordered>,
    pub gaps: u64,
    pub first_row: Option<u64>,
}

impl GapState {
    /// A step rule that has seen nothing.
    pub fn new() -> (r: Self)
        ensures
            r.so_far() == no_steps(),
    {
        GapState { previous: None, gaps: 0, first_row: None }
    }

    /// The steps counted so far.
    pub open spec fn so_far(self) -> Steps {
        Steps {
            findings: Seq::empty(),
            last: opt_place(self.previous),
            gaps: self.gaps as nat,
            first_row: self.first_row,
            error: None,
        }
    }
}

/// No steps yet.
pub open spec fn no_steps() -> Steps {
    Steps { findings: Seq::empty(), last: None, gaps: 0, first_row: None, error: None }
}

fn is_measurable(a: &Ordered, b: &Ordered) -> (r: bool)
    ensures
        r == measurable(a@, b@),
{
    match (a, b) {
        (Ordered::Int(_), Ordered::Int(_)) => true,
        (Ordered::Uint(_), Ordered::Uint(_)) => true,
        (Ordered::Float(_), Ordered::Float(_)) => true,
        _ => false,
    }
}

/// Counts the long steps of a column through a batch. For each row the caller says whether
/// the step from the value before is longer than the rule allows; the answer counts only
/// where there is a value before.
pub fn scan_gaps(
    plan: &GapDetectionPlan,
    shown: &str,
    cells: &Vec<Cell>,
    long: &Vec<bool>,
    row_offset: u64,
    state: GapState,
    validation: &mut ValidationState,
) -> (r: Result<GapState, ProofFrameError>)
    requires
        old(validation).wf(),
        long@.len() == cells@.len(),
        row_offset + cells@.len() <= u64::MAX,
    ensures
        final(validation).wf(),
        final(validation).offered() == old(validation).offered(),
        ({
            let s = steps(
                state.so_far(),
                *plan,
                shown@,
                cells@,
                long@,
                row_offset as int,
                cells@.len(),
            );
            match s.error {
                Some(e) => r matches Err(x) && x@ == e,
                None => (r matches Ok(g) && g.so_far() == (Steps {
                    findings: Seq::empty(),
                    ..s
                })) && final(validation)@ == recorded_all(old(validation)@, s.findings),
            }
        }),
{
    let ghost start = validation@;
    let ghost given = state.so_far();
    let mut last = state.previous;
    let mut gaps: u64 = state.gaps;
    let mut first_row = state.first_row;
    let mut i: usize = 0;
    while i < cells.len()
        invariant
            i <= cells@.len(),
            long@.len() == cells@.len(),
            row_offset + cells@.len() <= u64::MAX,
            validation.wf(),
            validation.offered() == old(validation).offered(),
            start == old(validation)@,
            given == state.so_far(),
            ({
                let s = steps(given, *plan, shown@, cells@, long@, row_offset as int, i as nat);
                &&& s.error is None
                &&& opt_place(last) == s.last
                &&& gaps == s.gaps
                &&& first_row == s.first_row
                &&& validation@ == recorded_all(start, s.findings)
            }),
        decreases cells@.len() - i,
    {
        let row: u64 = row_offset + i as u64;
        let ghost s = steps(given, *plan, shown@, cells@, long@, row_offset as int, i as nat);
        let ghost next = steps(
            given,
            *plan,
            shown@,
            cells@,
            long@,
            row_offset as int,
            (i + 1) as nat,
        );
        assert(next == step_more(s, *plan, shown@, cells@[i as int], long@[i as int], row));
        let null = match &cells[i] {
            Cell::Null => true,
            _ => false,
        };
        if null {
            if plan.nulls == MonotonicNullPolicyAst::Reject {
                assert(next.findings.drop_last() =~= s.findings);
                validation.record(
                    Finding {
                        rule: "gap_detection",
                        column: plan.column.clone(),
                        row: Some(row),
                        message: cat3("Rule `", plan.name.as_str(), "` rejects null values"),
                    },
                );
            }
        } else {
            let value = match ordered_value(&cells[i], shown) {
                Ok(v) => v,
                Err(e) => {
                    proof {
                        steps_error_stays(
                            given,
                            *plan,
                            shown@,
                            cells@,
                            long@,
                            row_offset as int,
                            (i + 1) as nat,
                            cells@.len(),
                        );
                    }
                    return Err(e);
                },
            };
            match &last {
                Some(before) => {
                    if !is_measurable(before, &value) {
                        proof {
                            steps_error_stays(
                                given,
                                *plan,
                                shown@,
                                cells@,
                                long@,
                                row_offset as int,
                                (i + 1) as nat,
                                cells@.len(),
                            );
                        }
                        return Err(
                            ProofFrameError::CorruptData(
                                text("Gap detection compared two different value kinds"),
                            ),
                        );
                    }
                    if long[i] {
                        gaps = gaps.saturating_add(1);
                        if first_row.is_none() {
                            first_row = Some(row);
                        }
                    }
                },
                None => {},
            }
            last = Some(value);
        }
        i = i + 1;
    }
    Ok(GapState { previous: last, gaps, first_row })
}

} // verus!
