//! Rows that fill more than one of a rule's columns, or not just one.

use crate::contract::ast::ExclusiveModeAst;
use crate::contract::dataset::MutuallyExclusivePlan;
use crate::execution::validation::{recorded_all, Finding, FindingView, ValidationState};
use crate::text::{cat3, cat4, join, joined, text, texts};
use crate::value::{Batch, Cell};
use vstd::prelude::*;

verus! {

/// The names of the first `n` of a rule's columns that a row fills.
pub open spec fn filled(
    plan: MutuallyExclusivePlan,
    columns: Seq<Vec<Cell>>,
    row: int,
    n: nat,
) -> Seq<Seq<char>>
    decreases n,
{
    if n == 0 {
        Seq::empty()
    } else {
        let rest = filled(plan, columns, row, (n - 1) as nat);
        if columns[plan.columns@[n - 1] as int]@[row] is Null {
            rest
        } else {
            rest.push(plan.names@[n - 1]@)
        }
    }
}

/// The names of a rule's columns that a row fills.
pub open spec fn row_fills(plan: MutuallyExclusivePlan, columns: Seq<Vec<Cell>>, row: int) -> Seq<
    Seq<char>,
> {
    filled(plan, columns, row, plan.columns@.len())
}

/// Whether a row breaks a rule: it fills two or more of the columns, or not just one.
pub open spec fn breaks(plan: MutuallyExclusivePlan, columns: Seq<Vec<Cell>>, row: int) -> bool {
    match plan.mode {
        ExclusiveModeAst::AtMostOne => row_fills(plan, columns, row).len() > 1,
        ExclusiveModeAst::ExactlyOne => row_fills(plan, columns, row).len() != 1,
    }
}

/// The finding of a row that breaks a rule.
pub open spec fn exclusive_finding(
    plan: MutuallyExclusivePlan,
    columns: Seq<Vec<Cell>>,
    row: int,
    shown_row: u64,
) -> FindingView {
    let fills = row_fills(plan, columns, row);
    FindingView {
        rule: "mutually_exclusive"@,
        column: "$dataset"@,
        row: Some(shown_row),
        message: match plan.mode {
            ExclusiveModeAst::AtMostOne => "Rule `"@ + plan.name@
                + "` allows at most one of its columns; this row fills "@ + joined(fills, ", "@)
               ,
            ExclusiveModeAst::ExactlyOne => if fills.len() == 0 {
                "Rule `"@ + plan.name@
                    + "` needs exactly one of its columns; this row fills none"@
            } else {
                "Rule `"@ + plan.name@ + "` needs exactly one of its columns; this row fills "@
                    + joined(fills, ", "@)
            },
        },
    }
}

/// The findings of a rule in the first `n` rows.
pub open spec fn exclusive_findings(
    plan: MutuallyExclusivePlan,
    columns: Seq<Vec<Cell>>,
    row_offset: int,
    n: nat,
) -> Seq<FindingView>
    decreases n,
{
    if n == 0 {
        Seq::empty()
    } else {
        let rest = exclusive_findings(plan, columns, row_offset, (n - 1) as nat);
        if breaks(plan, columns, n - 1) {
            rest.push(exclusive_finding(plan, columns, n - 1, (row_offset + n - 1) as u64))
        } else {
            rest
        }
    }
}

/// A rule whose columns have names and stand in a batch of so many columns.
pub open spec fn exclusive_in_range(plan: MutuallyExclusivePlan, columns: int) -> bool {
    plan.names@.len() == plan.columns@.len() && forall|j: int|
        0 <= j < plan.columns@.len() ==> (#[trigger] plan.columns@[j]) < columns
}

/// The names of a rule's columns that a row fills.
pub fn filled_columns(plan: &MutuallyExclusivePlan, batch: &Batch, row: usize) -> (r: Vec<String>)
    requires
        batch.wf(),
        exclusive_in_range(*plan, batch.columns@.len() as int),
        row < batch.rows,
    ensures
        texts(r@) == row_fills(*plan, batch.columns@, row as int),
{
    let mut out: Vec<String> = Vec::new();
    let mut j: usize = 0;
    assert(texts(out@) =~= Seq::empty());
    while j < plan.columns.len()
        invariant
            j <= plan.columns@.len(),
            batch.wf(),
            exclusive_in_range(*plan, batch.columns@.len() as int),
            row < batch.rows,
            texts(out@) == filled(*plan, batch.columns@, row as int, j as nat),
        decreases plan.columns@.len() - j,
    {
        assert(plan.columns@[j as int] < batch.columns@.len());
        let column = &batch.columns[plan.columns[j]];
        let null = match &column[row] {
            Cell::Null => true,
            _ => false,
        };
        if !null {
            let ghost had = out@;
            let name = plan.names[j].clone();
            out.push(name);
            assert(texts(out@) =~= texts(had).push(plan.names@[j as int]@));
        }
        j = j + 1;
    }
    out
}

/// Applies an exclusivity rule to a batch.
pub fn scan_exclusive(
    plan: &MutuallyExclusivePlan,
    batch: &Batch,
    row_offset: u64,
    validation: &mut ValidationState,
)
    requires
        old(validation).wf(),
        batch.wf(),
        exclusive_in_range(*plan, batch.columns@.len() as int),
        row_offset + batch.rows <= u64::MAX,
    ensures
        final(validation).wf(),
        final(validation).offered() == old(validation).offered(),
        final(validation)@ == recorded_all(
            old(validation)@,
            exclusive_findings(*plan, batch.columns@, row_offset as int, batch.rows as nat),
        ),
{
    let ghost start = validation@;
    let mut i: usize = 0;
    while i < batch.rows
        invariant
            i <= batch.rows,
            batch.wf(),
            exclusive_in_range(*plan, batch.columns@.len() as int),
            row_offset + batch.rows <= u64::MAX,
            validation.wf(),
            validation.offered() == old(validation).offered(),
            start == old(validation)@,
            validation@ == recorded_all(
                start,
                exclusive_findings(*plan, batch.columns@, row_offset as int, i as nat),
            ),
        decreases batch.rows - i,
    {
        let fills = filled_columns(plan, batch, i);
        let broken = match plan.mode {
            ExclusiveModeAst::AtMostOne => fills.len() > 1,
            ExclusiveModeAst::ExactlyOne => fills.len() != 1,
        };
        assert(texts(fills@).len() == fills@.len());
        if broken {
            let list = join(&fills, ", ");
            let message = match plan.mode {
                ExclusiveModeAst::AtMostOne => cat4(
                    "Rule `",
                    plan.name.as_str(),
                    "` allows at most one of its columns; this row fills ",
                    list.as_str()),
                ExclusiveModeAst::ExactlyOne => if fills.len() == 0 {
                    cat3(
                        "Rule `",
                        plan.name.as_str(),
                        "` needs exactly one of its columns; this row fills none",
                    )
                } else {
                    cat4(
                        "Rule `",
                        plan.name.as_str(),
                        "` needs exactly one of its columns; this row fills ",
                        list.as_str())
                },
            };
            proof {
                let rest = exclusive_findings(
                    *plan,
                    batch.columns@,
                    row_offset as int,
                    i as nat,
                );
                let more = exclusive_findings(
                    *plan,
                    batch.columns@,
                    row_offset as int,
                    (i + 1) as nat,
                );
                assert(more.drop_last() =~= rest);
            }
            validation.record(
                Finding {
                    rule: "mutually_exclusive",
                    column: text("$dataset"),
                    row: Some(row_offset + i as u64),
                    message,
                },
            );
        }
        i = i + 1;
    }
}

} // verus!
