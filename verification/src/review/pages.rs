//! What a review shows of a report.

use crate::contract::json::Json;
use crate::review::{
    as_unsigned, bullet_view, bullet_views, byte_values, column_label, engine_view, finding_list,
    finding_view, finding_views, fingerprint_view, idle_columns, instruction_view, page_error,
    rules_error, shown_or, summary_error, summary_totals, title_view, verdict,
};
use crate::review::escape::{bounded, shown, SegmentView};
use crate::text::decimal;
use vstd::prelude::*;

verus! {

/// Whether a column of a report had no value for its rules.
pub open spec fn never_asked(counts: Seq<Json>, i: int) -> bool {
    counts[i] matches Json::Number(n) && n.as_u64 == Some(0u64)
}

/// A column is named as idle exactly where none of its values was evaluated, and idle columns are
/// named in the order of the report.
pub proof fn idle_columns_are_those_never_asked(
    indices: Seq<Json>,
    counts: Seq<Json>,
    names: Seq<String>,
    n: nat,
)
    requires
        n <= indices.len(),
        n <= counts.len(),
    ensures
        idle_columns(indices, counts, names, n) == Seq::new(n, |i: int| i).filter(
            |i: int| never_asked(counts, i),
        ).map_values(|i: int| column_label(indices[i], names)),
    decreases n,
{
    reveal(Seq::filter);
    let asked = |i: int| never_asked(counts, i);
    let label = |i: int| column_label(indices[i], names);
    let all = Seq::new(n, |i: int| i);
    if n > 0 {
        let m = (n - 1) as nat;
        idle_columns_are_those_never_asked(indices, counts, names, m);
        assert(all.drop_last() =~= Seq::new(m, |i: int| i));
        let rest = all.drop_last().filter(asked);
        assert(all.last() == n - 1);
        if never_asked(counts, n - 1) {
            assert(all.filter(asked) == rest.push(n - 1));
            assert(rest.push(n - 1).map_values(label) =~= rest.map_values(label).push(
                label(n - 1),
            ));
        }
    } else {
        assert(all.filter(asked).map_values(label) =~= Seq::<Seq<char>>::empty());
    }
}

/// A column is named by its name where it has one, and otherwise by its number.
pub proof fn columns_are_named(index: Json, names: Seq<String>)
    ensures
        index matches Json::Number(n) ==> (n.as_u64 matches Some(p) ==> if p < names.len() {
            column_label(index, names) == names[p as int]@
        } else {
            column_label(index, names) == "column "@ + decimal(p as nat)
        }),
{
}

/// Every finding of a report has its place on the page, in the order of the report, with its
/// column, its row, its rule and its message.
pub proof fn every_finding_is_on_the_page(found: Seq<Json>, n: nat, i: int)
    requires
        0 <= i < n <= found.len(),
    ensures
        finding_views(found, n).len() == 9 * n,
        finding_views(found, n)[9 * i + 1] == SegmentView::Data(
            shown_or(found[i], "column"@, "Dataset"@),
        ),
        finding_views(found, n)[9 * i + 3] == SegmentView::Data(
            shown_or(found[i], "row"@, "\u{2014}"@),
        ),
        finding_views(found, n)[9 * i + 5] == SegmentView::Data(
            shown(found[i].spec_field("rule"@).unwrap()),
        ),
        finding_views(found, n)[9 * i + 7] == SegmentView::Data(
            shown_or(found[i], "message"@, ""@),
        ),
    decreases n,
{
    let m = (n - 1) as nat;
    nine_for_each(found, m);
    assert(finding_view(found[n - 1]).len() == 9);
    if i < m {
        every_finding_is_on_the_page(found, m, i);
    }
}

proof fn nine_for_each(found: Seq<Json>, n: nat)
    requires
        n <= found.len(),
    ensures
        finding_views(found, n).len() == 9 * n,
        bullet_views(found, n).len() == 9 * n,
    decreases n,
{
    if n > 0 {
        nine_for_each(found, (n - 1) as nat);
        assert(finding_view(found[n - 1]).len() == 9);
        assert(bullet_view(found[n - 1]).len() == 9);
    }
}

/// Every finding of a report has its line in the summary, in the order of the report.
pub proof fn every_finding_is_in_the_summary(found: Seq<Json>, n: nat, i: int)
    requires
        0 <= i < n <= found.len(),
    ensures
        bullet_views(found, n).len() == 9 * n,
        bullet_views(found, n)[9 * i + 1] == SegmentView::Data(
            shown_or(found[i], "column"@, "Dataset"@),
        ),
        bullet_views(found, n)[9 * i + 3] == SegmentView::Data(
            shown_or(found[i], "row"@, "None"@),
        ),
        bullet_views(found, n)[9 * i + 7] == SegmentView::Data(shown_or(found[i], "message"@, ""@)),
    decreases n,
{
    let m = (n - 1) as nat;
    nine_for_each(found, m);
    assert(bullet_view(found[n - 1]).len() == 9);
    if i < m {
        every_finding_is_in_the_summary(found, m, i);
    }
}

/// A review tells a passed contract from a failed one: in its title, in what it asks the reader to
/// do, and in its summary.
pub proof fn verdicts_are_told_apart(one: Json, other: Json)
    requires
        verdict(one) == Some(true),
        verdict(other) == Some(false),
    ensures
        title_view(one) != title_view(other),
        instruction_view(one) != instruction_view(other),
        summary_totals(one) != summary_totals(other),
{
    reveal_strlit("Keep this result with your data");
    reveal_strlit("Inspect the violations");
    reveal_strlit("The declared contract passed on this dataset.");
    reveal_strlit("Rerun with --max-samples 20 to include finding details.");
    reveal_strlit("Inspect the ");
    reveal_strlit("**Passed** \u{b7} ");
    reveal_strlit("**Contract violations** \u{b7} ");
    assert("Keep this result with your data"@[0] == 'K');
    assert("Inspect the violations"@[0] == 'I');
    assert("The declared contract passed on this dataset."@[0] == 'T');
    assert("Rerun with --max-samples 20 to include finding details."@[0] == 'R');
    assert("Inspect the "@[0] == 'I');
    assert("**Passed** \u{b7} "@[2] == 'P');
    assert("**Contract violations** \u{b7} "@[2] == 'C');
    assert(title_view(one)[0] != title_view(other)[0]);
    assert(instruction_view(one)[0] != instruction_view(other)[0]);
    assert(summary_totals(one)[0] != summary_totals(other)[0]);
}

/// The title of a review of a failed contract names the column and the row of the first finding.
pub proof fn titles_name_the_first_finding(report: Json)
    requires
        verdict(report) == Some(false),
        finding_list(report) is Some,
        finding_list(report).unwrap().len() > 0,
    ensures
        title_view(report).contains(
            SegmentView::Data(
                bounded(shown_or(finding_list(report).unwrap()[0], "column"@, "Dataset"@)),
            ),
        ),
        title_view(report).contains(
            SegmentView::Data(
                bounded(shown_or(finding_list(report).unwrap()[0], "row"@, "\u{2014}"@)),
            ),
        ),
        instruction_view(report).contains(
            SegmentView::Data(
                shown(finding_list(report).unwrap()[0].spec_field("rule"@).unwrap()),
            ),
        ),
{
    let t = title_view(report);
    assert(t[0] == t[0] && t[2] == t[2]);
    let u = instruction_view(report);
    assert(u[1] == u[1]);
}

/// Bytes are read out of a list of numbers exactly where every number is a byte, one for one.
pub proof fn bytes_are_read_one_for_one(values: Seq<Json>, n: nat)
    requires
        n <= values.len(),
    ensures
        byte_values(values, n) is Some <==> forall|i: int|
            0 <= i < n ==> (as_unsigned(#[trigger] values[i]) matches Some(v) && v < 256),
        byte_values(values, n) matches Some(bytes) ==> bytes.len() == n && forall|i: int|
            0 <= i < n ==> as_unsigned(#[trigger] values[i]) == Some(bytes[i] as u64),
    decreases n,
{
    if n > 0 {
        let m = (n - 1) as nat;
        bytes_are_read_one_for_one(values, m);
        if byte_values(values, n) is Some {
            assert(as_unsigned(values[n - 1]) is Some);
        }
    }
}

proof fn rules_named(found: Seq<Json>, n: nat)
    requires
        n <= found.len(),
    ensures
        rules_error(found, n) is None <==> forall|i: int|
            0 <= i < n ==> (#[trigger] found[i]).spec_field("rule"@) is Some,
    decreases n,
{
    if n > 0 {
        rules_named(found, (n - 1) as nat);
        if rules_error(found, n) is None {
            assert(found[n - 1].spec_field("rule"@) is Some);
        }
    }
}

/// Whether a report holds what a review shows of it.
pub open spec fn reviewable(report: Json) -> bool {
    &&& report.spec_field("findings"@) matches Some(Json::Array(a)) && forall|i: int|
        0 <= i < a@.len() ==> (#[trigger] a@[i]).spec_field("rule"@) is Some
    &&& report.spec_field("valid"@) matches Some(Json::Bool(_))
    &&& report.spec_field("rows"@) is Some
    &&& report.spec_field("violation_count"@) is Some
}

/// A page is made exactly of a report that says what it found and whether that is valid, with
/// evidence that names a fingerprint and an engine.
pub proof fn pages_need_whole_reports(report: Json, evidence: Json)
    ensures
        page_error(report, evidence) is None <==> reviewable(report) && fingerprint_view(evidence)
            is Ok && engine_view(evidence) is Some,
        summary_error(report, evidence) is None <==> reviewable(report) && fingerprint_view(
            evidence,
        ) is Ok,
{
    if let Some(found) = finding_list(report) {
        rules_named(found, found.len());
    }
}

} // verus!
