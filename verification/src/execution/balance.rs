//! Rules on what only floating-point arithmetic can add up: two totals that must meet, and
//! the share of the commonest value. The caller adds up in row order and hands in what came
//! out.

use crate::encoding::{encoded, item_of};
use crate::error::{ErrorView, ProofFrameError};
use crate::execution::keys::{append_scalar, keyable};
use crate::execution::total::{float_less, is_float_less};
use crate::execution::validation::{Finding, FindingView};
use crate::text::{cat2, cat5, cat7, decimal, decimal_u64, text};
use crate::value::Cell;
use vstd::prelude::*;
use vstd::string::*;

verus! {

/// Two columns whose totals must meet, within a tolerance in bits.
#[derive(Debug)]
pub struct BalanceEqualPlan {
    pub name: String,
    pub left: usize,
    pub left_column: String,
    pub right: usize,
    pub right_column: String,
    pub tolerance: u64,
}

/// The spellings of two totals, and the distance between them in bits.
#[derive(Debug)]
pub struct BalanceTotals {
    pub left: String,
    pub right: String,
    pub distance: u64,
}

/// The finding of a balance rule, where the totals are further apart than its tolerance.
pub open spec fn balance_finding(plan: BalanceEqualPlan, totals: BalanceTotals) -> Option<
    FindingView,
> {
    if float_less(plan.tolerance, totals.distance) {
        Some(
            FindingView {
                rule: "balance_equal"@,
                column: "$dataset"@,
                row: None,
                message: "Rule `"@ + plan.name@ + "` has `"@ + plan.left_column@ + "` totalling "@
                    + totals.left@ + " and `"@ + plan.right_column@ + "` totalling "@
                    + totals.right@,
            },
        )
    } else {
        None
    }
}

/// The finding of a balance rule.
pub fn balance_verdict(plan: &BalanceEqualPlan, totals: &BalanceTotals) -> (r: Option<Finding>)
    ensures
        match balance_finding(*plan, *totals) {
            Some(v) => r matches Some(f) && f@ == v,
            None => r is None,
        },
{
    if !is_float_less(plan.tolerance, totals.distance) {
        return None;
    }
    let lead = cat5(
        "Rule `",
        plan.name.as_str(),
        "` has `",
        plan.left_column.as_str(),
        "` totalling ",
    );
    let tail = cat5(
        totals.left.as_str(),
        " and `",
        plan.right_column.as_str(),
        "` totalling ",
        totals.right.as_str(),
    );
    let message = cat2(lead.as_str(), tail.as_str());
    proof {
        assert(message@ =~= "Rule `"@ + plan.name@ + "` has `"@ + plan.left_column@
            + "` totalling "@ + totals.left@ + " and `"@ + plan.right_column@ + "` totalling "@
            + totals.right@);
    }
    Some(Finding { rule: "balance_equal", column: text("$dataset"), row: None, message })
}

/// The largest share, in bits, that one value of a column may have.
#[derive(Debug)]
pub struct DominantValuePlan {
    pub column_index: usize,
    pub column: String,
    pub name: String,
    pub max: u64,
}

/// The commonest value of a column: its share in bits and spelled, its rows, and the limit
/// spelled.
#[derive(Debug)]
pub struct DominantShare {
    pub share: u64,
    pub shown: String,
    pub rows: u64,
    pub max_shown: String,
}

/// The finding of a rule on the commonest value; nothing is found in a column without rows.
pub open spec fn dominant_finding(plan: DominantValuePlan, seen: Option<DominantShare>) -> Option<
    FindingView,
> {
    match seen {
        None => None,
        Some(d) => if float_less(plan.max, d.share) {
            Some(
                FindingView {
                    rule: "max_dominant_value_ratio"@,
                    column: plan.column@,
                    row: None,
                    message: "Rule `"@ + plan.name@ + "` has one value in "@ + decimal(
                        d.rows as nat,
                    ) + " row(s), a share of "@ + d.shown@ + ", above the maximum "@ + d.max_shown@,
                },
            )
        } else {
            None
        },
    }
}

/// The finding of a rule on the commonest value.
pub fn dominant_verdict(plan: &DominantValuePlan, seen: &Option<DominantShare>) -> (r: Option<
    Finding,
>)
    ensures
        match dominant_finding(*plan, *seen) {
            Some(v) => r matches Some(f) && f@ == v,
            None => r is None,
        },
{
    match seen {
        None => None,
        Some(d) => {
            if !is_float_less(plan.max, d.share) {
                return None;
            }
            let rows = decimal_u64(d.rows);
            let lead = cat7(
                "Rule `",
                plan.name.as_str(),
                "` has one value in ",
                rows.as_str(),
                " row(s), a share of ",
                d.shown.as_str(),
                ", above the maximum ",
            );
            let message = cat2(lead.as_str(), d.max_shown.as_str());
            let column = text(plan.column.as_str());
            Some(Finding { rule: "max_dominant_value_ratio", column, row: None, message })
        },
    }
}

/// The bytes under which a value is counted: a null counts as a value of its own.
pub open spec fn value_key(cell: Cell) -> Seq<u8> {
    if cell is Null {
        seq![0u8]
    } else {
        seq![1u8] + encoded(item_of(cell))
    }
}

/// The bytes under which a value is counted.
pub fn counted_key(cell: &Cell, shown: &str) -> (r: Result<Vec<u8>, ProofFrameError>)
    ensures
        if cell is Null || keyable(*cell) {
            r matches Ok(key) && key@ == value_key(*cell)
        } else {
            r matches Err(e) && e@ == ErrorView::UnsupportedType(
                "composite uniqueness for "@ + shown@,
            )
        },
{
    let mut out: Vec<u8> = Vec::new();
    match cell {
        Cell::Null => {
            out.push(0);
            assert(out@ =~= seq![0u8]);
        },
        _ => {
            out.push(1);
            append_scalar(cell, shown, &mut out)?;
            assert(out@ =~= value_key(*cell));
        },
    }
    Ok(out)
}

} // verus!
