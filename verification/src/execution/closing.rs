//! The verdicts on a dataset do not depend on how it is cut into batches.

use crate::contract::dataset::{CompositeUniquePlan, ConditionalUniquePlan, DatasetPlan};
use crate::distinct::merge::sample_rows;
use crate::distinct::order::{sorted, sorted_list_is_unique, tally, Entry};
use crate::distinct::state::{summed, ExactState, ExactSummary};
use crate::execution::cutting::{
    agree, fed_in_two, findings_ignore_batch_boundaries, lists_joined,
    states_ignore_batch_boundaries, Cut,
};
use crate::execution::dataset_finish::{
    came_to, closing_findings, concluded, cost_of, distinct_lists, duplicate_findings, gap_lists,
    null_lists, sum_lists, summary_of, with_composites, with_conditional, with_duplicates,
    DatasetMetrics, DatasetStored, FinishedDataset, Measurements,
};
use crate::execution::dataset_state::{
    all_of, composite_feeds, conditional_feeds, exacts_of, exclusive_lists, gap_findings,
    order_findings, specs_of, DatasetRuns, DatasetState,
};
use crate::execution::validation::{
    capped, recorded_all, recorded_in_parts, FindingView, Found,
};
use vstd::prelude::*;

verus! {

/// Whether two summaries count the same and show the same duplicates.
pub open spec fn same_summary(a: ExactSummary, b: ExactSummary) -> bool {
    &&& a.distinct_count == b.distinct_count
    &&& a.duplicate_count == b.duplicate_count
    &&& sample_rows(a.duplicate_samples@) == sample_rows(b.duplicate_samples@)
}

/// Whether two lists hold the same summaries.
pub open spec fn same_summaries(a: Seq<ExactSummary>, b: Seq<ExactSummary>) -> bool {
    &&& a.len() == b.len()
    &&& forall|i: int| #![trigger a[i]] 0 <= i < a.len() ==> same_summary(a[i], b[i])
}

/// Exact states with the same entries are summed up alike, whatever of them stood in memory
/// and whatever was written to runs.
pub proof fn equal_entries_have_equal_summaries(
    a: ExactState,
    b: ExactState,
    a_stored: Seq<&[u8]>,
    b_stored: Seq<&[u8]>,
    samples: nat,
    a_summary: ExactSummary,
    b_summary: ExactSummary,
)
    requires
        a.all() == b.all(),
        a.restored(a_stored),
        b.restored(b_stored),
        summary_of(a, a_stored, samples, a_summary),
        summary_of(b, b_stored, samples, b_summary),
    ensures
        same_summary(a_summary, b_summary),
{
    let x = choose|list: Seq<Entry>| #[trigger]
        sorted(list) && list.to_multiset() == a.all() && summed(a_summary, tally(list, samples));
    let y = choose|list: Seq<Entry>| #[trigger]
        sorted(list) && list.to_multiset() == b.all() && summed(b_summary, tally(list, samples));
    sorted_list_is_unique(x, y);
}

/// Whether two finished datasets give the same verdicts: the same counts, totals and steps, and
/// the same duplicates.
pub open spec fn same_end(a: FinishedDataset, b: FinishedDataset) -> bool {
    &&& a.null_counts@ == b.null_counts@
    &&& a.sums@ == b.sums@
    &&& a.gaps@.len() == b.gaps@.len()
    &&& forall|i: int|
        #![trigger a.gaps@[i]]
        0 <= i < a.gaps@.len() ==> a.gaps@[i].gaps == b.gaps@[i].gaps && a.gaps@[i].first_row
            == b.gaps@[i].first_row
    &&& a.distinct@ == b.distinct@
    &&& same_summaries(a.composites@, b.composites@)
    &&& same_summaries(a.conditional@, b.conditional@)
}

/// States that hold the same of a dataset come to the same end.
pub proof fn agreeing_states_end_alike(
    a: DatasetState,
    b: DatasetState,
    a_stored: DatasetStored<'_>,
    b_stored: DatasetStored<'_>,
    samples: nat,
    a_end: FinishedDataset,
    b_end: FinishedDataset,
)
    requires
        agree(a, b),
        a.distinct@.len() == b.distinct@.len(),
        a.restored(a_stored),
        b.restored(b_stored),
        came_to(a, a_stored, samples, a_end),
        came_to(b, b_stored, samples, b_end),
    ensures
        same_end(a_end, b_end),
{
    let none = DatasetMetrics { spill_bytes: 0, exact_runs: 0 };
    let x = choose|counted: Seq<ExactSummary>|
        #![trigger cost_of(none, counted, counted.len())]
        counted.len() == a_end.distinct@.len() && (forall|i: int|
            #![trigger a_end.distinct@[i]]
            0 <= i < a_end.distinct@.len() ==> a_end.distinct@[i].rules == a.distinct@[i].rules
                && summary_of(
                a.distinct@[i].exact,
                a_stored.distinct@[i]@,
                samples,
                counted[i],
            ) && a_end.distinct@[i].distinct == capped(
                counted[i].distinct_count as nat + if a.distinct@[i].saw_null {
                    1nat
                } else {
                    0nat
                },
            ));
    let y = choose|counted: Seq<ExactSummary>|
        #![trigger cost_of(none, counted, counted.len())]
        counted.len() == b_end.distinct@.len() && (forall|i: int|
            #![trigger b_end.distinct@[i]]
            0 <= i < b_end.distinct@.len() ==> b_end.distinct@[i].rules == b.distinct@[i].rules
                && summary_of(
                b.distinct@[i].exact,
                b_stored.distinct@[i]@,
                samples,
                counted[i],
            ) && b_end.distinct@[i].distinct == capped(
                counted[i].distinct_count as nat + if b.distinct@[i].saw_null {
                    1nat
                } else {
                    0nat
                },
            ));
    assert forall|i: int| 0 <= i < a_end.distinct@.len() implies #[trigger] a_end.distinct@[i]
        == b_end.distinct@[i] by {
        assert(a.distinct@[i].exact.all() == b.distinct@[i].exact.all());
        assert(specs_of(a.distinct@)[i] == specs_of(b.distinct@)[i]);
        assert(a_end.distinct@[i].rules == a.distinct@[i].rules);
        assert(b_end.distinct@[i].rules == b.distinct@[i].rules);
        assert(exacts_of(a.distinct@)[i].restored(a_stored.distinct@[i]@));
        assert(exacts_of(b.distinct@)[i].restored(b_stored.distinct@[i]@));
        equal_entries_have_equal_summaries(
            a.distinct@[i].exact,
            b.distinct@[i].exact,
            a_stored.distinct@[i]@,
            b_stored.distinct@[i]@,
            samples,
            x[i],
            y[i],
        );
    }
    assert(a_end.distinct@ =~= b_end.distinct@);
    assert forall|i: int|
        #![trigger a_end.composites@[i]]
        0 <= i < a_end.composites@.len() implies same_summary(
        a_end.composites@[i],
        b_end.composites@[i],
    ) by {
        assert(a.composites@[i].all() == b.composites@[i].all());
        assert(b.composites@[i].restored(b_stored.composites@[i]@));
        equal_entries_have_equal_summaries(
            a.composites@[i],
            b.composites@[i],
            a_stored.composites@[i]@,
            b_stored.composites@[i]@,
            samples,
            a_end.composites@[i],
            b_end.composites@[i],
        );
    }
    assert forall|i: int|
        #![trigger a_end.conditional@[i]]
        0 <= i < a_end.conditional@.len() implies same_summary(
        a_end.conditional@[i],
        b_end.conditional@[i],
    ) by {
        assert(a.conditional@[i].all() == b.conditional@[i].all());
        assert(b.conditional@[i].restored(b_stored.conditional@[i]@));
        equal_entries_have_equal_summaries(
            a.conditional@[i],
            b.conditional@[i],
            a_stored.conditional@[i]@,
            b_stored.conditional@[i]@,
            samples,
            a_end.conditional@[i],
            b_end.conditional@[i],
        );
    }
    assert forall|i: int|
        #![trigger a_end.gaps@[i]]
        0 <= i < a_end.gaps@.len() implies a_end.gaps@[i].gaps == b_end.gaps@[i].gaps
        && a_end.gaps@[i].first_row == b_end.gaps@[i].first_row by {
        assert(a.gaps@[i].so_far() == b.gaps@[i].so_far());
    }
}

/// Whether two validations found the same: as many violations, and as many findings kept, which
/// are the same ones where the limit was not reached.
pub open spec fn same_found(f: Found, g: Found) -> bool {
    &&& f.count == g.count
    &&& f.limit == g.limit
    &&& f.findings.len() == g.findings.len()
    &&& f.findings.len() < f.limit ==> f.findings.to_multiset() == g.findings.to_multiset()
}

proof fn alike_after(f: Found, g: Found, list: Seq<FindingView>)
    requires
        same_found(f, g),
    ensures
        same_found(recorded_all(f, list), recorded_all(g, list)),
    decreases list.len(),
{
    broadcast use vstd::seq_lib::group_to_multiset_ensures;

    if list.len() > 0 {
        alike_after(f, g, list.drop_last());
    }
}

/// The same findings in another order leave the same.
proof fn order_is_nothing(f: Found, a: Seq<FindingView>, b: Seq<FindingView>)
    requires
        a.to_multiset() == b.to_multiset(),
    ensures
        same_found(recorded_all(f, a), recorded_all(f, b)),
{
    broadcast use vstd::seq_lib::group_to_multiset_ensures;

    assert(a.len() == a.to_multiset().len());
    assert(b.len() == b.to_multiset().len());
    counted_alike(f, a, b);
    kept_while_room(f, a);
    kept_while_room(f, b);
    vstd::seq_lib::lemma_multiset_commutative(f.findings, a);
    vstd::seq_lib::lemma_multiset_commutative(f.findings, b);
}

proof fn counted_alike(f: Found, a: Seq<FindingView>, b: Seq<FindingView>)
    requires
        a.len() == b.len(),
    ensures
        recorded_all(f, a).count == recorded_all(f, b).count,
        recorded_all(f, a).limit == recorded_all(f, b).limit,
        recorded_all(f, a).findings.len() == recorded_all(f, b).findings.len(),
    decreases a.len(),
{
    if a.len() > 0 {
        counted_alike(f, a.drop_last(), b.drop_last());
    }
}

proof fn kept_while_room(f: Found, list: Seq<FindingView>)
    ensures
        recorded_all(f, list).limit == f.limit,
        recorded_all(f, list).findings.len() < f.limit ==> recorded_all(f, list).findings
            == f.findings + list,
    decreases list.len(),
{
    if list.len() > 0 {
        kept_while_room(f, list.drop_last());
        assert(f.findings + list =~= (f.findings + list.drop_last()).push(list.last()));
    } else {
        assert(f.findings + list =~= f.findings);
    }
}

proof fn same_duplicates(
    f: Found,
    g: Found,
    rule: Seq<char>,
    message: Seq<char>,
    a: ExactSummary,
    b: ExactSummary,
)
    requires
        same_found(f, g),
        same_summary(a, b),
    ensures
        same_found(with_duplicates(f, rule, message, a), with_duplicates(g, rule, message, b)),
{
    let (x, y) = (a.duplicate_samples@, b.duplicate_samples@);
    assert(sample_rows(x).len() == sample_rows(y).len());
    assert(duplicate_findings(rule, message, x) =~= duplicate_findings(rule, message, y)) by {
        assert forall|i: int| 0 <= i < x.len() implies #[trigger] x[i].duplicate_row
            == y[i].duplicate_row by {
            assert(sample_rows(x)[i] == sample_rows(y)[i]);
        }
    }
    alike_after(f, g, duplicate_findings(rule, message, x));
}

proof fn same_composites(
    f: Found,
    g: Found,
    rules: Seq<CompositeUniquePlan>,
    a: Seq<ExactSummary>,
    b: Seq<ExactSummary>,
    n: nat,
)
    requires
        same_found(f, g),
        same_summaries(a, b),
        n <= a.len(),
    ensures
        same_found(with_composites(f, rules, a, n), with_composites(g, rules, b, n)),
    decreases n,
{
    if n > 0 {
        same_composites(f, g, rules, a, b, (n - 1) as nat);
        assert(same_summary(a[n - 1], b[n - 1]));
        same_duplicates(
            with_composites(f, rules, a, (n - 1) as nat),
            with_composites(g, rules, b, (n - 1) as nat),
            "composite_unique"@,
            "Composite rule `"@ + rules[n - 1].name@ + "` found a duplicate key"@,
            a[n - 1],
            b[n - 1],
        );
    }
}

proof fn same_conditional(
    f: Found,
    g: Found,
    rules: Seq<ConditionalUniquePlan>,
    a: Seq<ExactSummary>,
    b: Seq<ExactSummary>,
    n: nat,
)
    requires
        same_found(f, g),
        same_summaries(a, b),
        n <= a.len(),
    ensures
        same_found(with_conditional(f, rules, a, n), with_conditional(g, rules, b, n)),
    decreases n,
{
    if n > 0 {
        same_conditional(f, g, rules, a, b, (n - 1) as nat);
        assert(same_summary(a[n - 1], b[n - 1]));
        same_duplicates(
            with_conditional(f, rules, a, (n - 1) as nat),
            with_conditional(g, rules, b, (n - 1) as nat),
            "conditional_unique"@,
            "Rule `"@ + rules[n - 1].name@ + "` found a duplicate among the rows it selects"@,
            a[n - 1],
            b[n - 1],
        );
    }
}

/// Datasets that came to the same end, measured alike, get the same verdicts.
pub proof fn equal_ends_have_equal_verdicts(
    f: Found,
    g: Found,
    plan: DatasetPlan,
    a: FinishedDataset,
    b: FinishedDataset,
    m: Measurements,
    rows: u64,
)
    requires
        same_found(f, g),
        same_end(a, b),
        a.sums@.len() == plan.sums@.len(),
        a.gaps@.len() == plan.gap_detection@.len(),
        a.null_counts@.len() == plan.null_ratios@.len(),
        a.composites@.len() == plan.composite_unique@.len(),
        a.conditional@.len() == plan.conditional_unique@.len(),
    ensures
        closing_findings(plan, a, m, rows) == closing_findings(plan, b, m, rows),
        same_found(concluded(f, plan, a, m, rows), concluded(g, plan, b, m, rows)),
{
    assert(sum_lists(plan, a, m) =~= sum_lists(plan, b, m));
    assert(gap_lists(plan, a, m) =~= gap_lists(plan, b, m)) by {
        assert forall|i: int| 0 <= i < plan.gap_detection@.len() implies #[trigger] gap_lists(
            plan,
            a,
            m,
        )[i] == gap_lists(plan, b, m)[i] by {
            assert(a.gaps@[i].gaps == b.gaps@[i].gaps);
        }
    }
    assert(null_lists(plan, a, m, rows) =~= null_lists(plan, b, m, rows));
    assert(distinct_lists(plan, a, m, rows) =~= distinct_lists(plan, b, m, rows));
    let list = closing_findings(plan, a, m, rows);
    alike_after(f, g, list);
    let (f1, g1) = (recorded_all(f, list), recorded_all(g, list));
    let n = plan.composite_unique@.len();
    same_composites(f1, g1, plan.composite_unique@, a.composites@, b.composites@, n);
    same_conditional(
        with_composites(f1, plan.composite_unique@, a.composites@, n),
        with_composites(g1, plan.composite_unique@, b.composites@, n),
        plan.conditional_unique@,
        a.conditional@,
        b.conditional@,
        plan.conditional_unique@.len(),
    );
}

proof fn all_joined(
    first: Seq<Seq<FindingView>>,
    second: Seq<Seq<FindingView>>,
    whole: Seq<Seq<FindingView>>,
    n: nat,
)
    requires
        lists_joined(first, second, whole),
        n <= whole.len(),
    ensures
        all_of(whole, n).to_multiset() == all_of(first, n).to_multiset().add(
            all_of(second, n).to_multiset(),
        ),
    decreases n,
{
    let (a, b, w) = (all_of(first, n), all_of(second, n), all_of(whole, n));
    if n == 0 {
        assert(w + b =~= w);
        vstd::seq_lib::lemma_multiset_commutative(a, b);
    } else {
        let k = (n - 1) as nat;
        all_joined(first, second, whole, k);
        assert(whole[n - 1] == first[n - 1] + second[n - 1]);
        vstd::seq_lib::lemma_multiset_commutative(all_of(whole, k), whole[n - 1]);
        vstd::seq_lib::lemma_multiset_commutative(first[n - 1], second[n - 1]);
        vstd::seq_lib::lemma_multiset_commutative(all_of(first, k), first[n - 1]);
        vstd::seq_lib::lemma_multiset_commutative(all_of(second, k), second[n - 1]);
        assert(w.to_multiset() =~= a.to_multiset().add(b.to_multiset()));
    }
}

/// The findings on rows in two batches are those on the rows in one, in another order.
pub proof fn batch_findings_are_joined(
    start: DatasetState,
    between: DatasetState,
    after: DatasetState,
    plan: DatasetPlan,
    cut: Cut,
    first_runs: DatasetRuns,
    second_runs: DatasetRuns,
)
    requires
        cut.wf(plan),
        fed_in_two(start, between, after, plan, cut, first_runs, second_runs),
    ensures
        ({
            let first = start.batch_findings(
                plan,
                cut.schema,
                cut.first,
                cut.first_long,
                cut.row_offset,
            );
            let second = between.batch_findings(
                plan,
                cut.schema,
                cut.second,
                cut.second_long,
                cut.middle(),
            );
            let whole = start.batch_findings(
                plan,
                cut.schema,
                cut.whole,
                cut.whole_long,
                cut.row_offset,
            );
            whole.to_multiset() == (first + second).to_multiset()
        }),
{
    findings_ignore_batch_boundaries(start, between, after, plan, cut, first_runs, second_runs);
    let (s, p, q) = (cut.schema, cut.row_offset, cut.middle());
    let o1 = order_findings(plan.monotonicity@, s, cut.first, p, start.ordering@);
    let o2 = order_findings(plan.monotonicity@, s, cut.second, q, between.ordering@);
    let o3 = order_findings(plan.monotonicity@, s, cut.whole, p, start.ordering@);
    let g1 = gap_findings(plan.gap_detection@, s, cut.first, cut.first_long, p, start.gaps@);
    let g2 = gap_findings(plan.gap_detection@, s, cut.second, cut.second_long, q, between.gaps@);
    let g3 = gap_findings(plan.gap_detection@, s, cut.whole, cut.whole_long, p, start.gaps@);
    let c1 = conditional_feeds(plan.conditional_unique@, s, cut.first, p).findings;
    let c2 = conditional_feeds(plan.conditional_unique@, s, cut.second, q).findings;
    let c3 = conditional_feeds(plan.conditional_unique@, s, cut.whole, p).findings;
    let x1 = exclusive_lists(plan.mutually_exclusive@, cut.first, p);
    let x2 = exclusive_lists(plan.mutually_exclusive@, cut.second, q);
    let x3 = exclusive_lists(plan.mutually_exclusive@, cut.whole, p);
    let k1 = composite_feeds(plan.composite_unique@, s, cut.first, p).findings;
    let k2 = composite_feeds(plan.composite_unique@, s, cut.second, q).findings;
    let k3 = composite_feeds(plan.composite_unique@, s, cut.whole, p).findings;
    let no = plan.monotonicity@.len();
    let ng = plan.gap_detection@.len();
    let nc = plan.conditional_unique@.len();
    let nx = plan.mutually_exclusive@.len();
    let nk = plan.composite_unique@.len();
    all_joined(o1, o2, o3, no);
    all_joined(g1, g2, g3, ng);
    all_joined(c1, c2, c3, nc);
    all_joined(x1, x2, x3, nx);
    all_joined(k1, k2, k3, nk);
    let first = five(all_of(o1, no), all_of(g1, ng), all_of(c1, nc), all_of(x1, nx), all_of(k1, nk));
    let second = five(all_of(o2, no), all_of(g2, ng), all_of(c2, nc), all_of(x2, nx), all_of(k2, nk));
    let whole = five(all_of(o3, no), all_of(g3, ng), all_of(c3, nc), all_of(x3, nx), all_of(k3, nk));
    five_in_all(all_of(o1, no), all_of(g1, ng), all_of(c1, nc), all_of(x1, nx), all_of(k1, nk));
    five_in_all(all_of(o2, no), all_of(g2, ng), all_of(c2, nc), all_of(x2, nx), all_of(k2, nk));
    five_in_all(all_of(o3, no), all_of(g3, ng), all_of(c3, nc), all_of(x3, nx), all_of(k3, nk));
    vstd::seq_lib::lemma_multiset_commutative(first, second);
    assert(whole.to_multiset() =~= first.to_multiset().add(second.to_multiset()));
}

spec fn five(
    a: Seq<FindingView>,
    b: Seq<FindingView>,
    c: Seq<FindingView>,
    d: Seq<FindingView>,
    e: Seq<FindingView>,
) -> Seq<FindingView> {
    a + b + c + d + e
}

proof fn five_in_all(
    a: Seq<FindingView>,
    b: Seq<FindingView>,
    c: Seq<FindingView>,
    d: Seq<FindingView>,
    e: Seq<FindingView>,
)
    ensures
        five(a, b, c, d, e).to_multiset() == a.to_multiset().add(b.to_multiset()).add(
            c.to_multiset(),
        ).add(d.to_multiset()).add(e.to_multiset()),
{
    vstd::seq_lib::lemma_multiset_commutative(a, b);
    vstd::seq_lib::lemma_multiset_commutative(a + b, c);
    vstd::seq_lib::lemma_multiset_commutative(a + b + c, d);
    vstd::seq_lib::lemma_multiset_commutative(a + b + c + d, e);
}

/// A dataset gets the same verdicts whether its rows come in two batches or in one: as many
/// violations, and the same findings where the limit on them was not reached.
pub proof fn verdicts_ignore_batch_boundaries(
    start: DatasetState,
    between: DatasetState,
    cut_after: DatasetState,
    whole_after: DatasetState,
    plan: DatasetPlan,
    cut: Cut,
    first_runs: DatasetRuns,
    second_runs: DatasetRuns,
    whole_runs: DatasetRuns,
    cut_stored: DatasetStored<'_>,
    whole_stored: DatasetStored<'_>,
    samples: nat,
    cut_end: FinishedDataset,
    whole_end: FinishedDataset,
    m: Measurements,
    rows: u64,
    found: Found,
)
    requires
        cut.wf(plan),
        fed_in_two(start, between, cut_after, plan, cut, first_runs, second_runs),
        whole_after.matches(plan),
        start.advanced(
            whole_after,
            plan,
            cut.schema,
            cut.whole,
            cut.whole_long,
            cut.row_offset,
            whole_runs,
        ),
        cut_after.restored(cut_stored),
        whole_after.restored(whole_stored),
        came_to(cut_after, cut_stored, samples, cut_end),
        came_to(whole_after, whole_stored, samples, whole_end),
    ensures
        ({
            let first = start.batch_findings(
                plan,
                cut.schema,
                cut.first,
                cut.first_long,
                cut.row_offset,
            );
            let second = between.batch_findings(
                plan,
                cut.schema,
                cut.second,
                cut.second_long,
                cut.middle(),
            );
            let whole = start.batch_findings(
                plan,
                cut.schema,
                cut.whole,
                cut.whole_long,
                cut.row_offset,
            );
            same_found(
                concluded(recorded_all(recorded_all(found, first), second), plan, cut_end, m, rows),
                concluded(recorded_all(found, whole), plan, whole_end, m, rows),
            )
        }),
{
    states_ignore_batch_boundaries(
        start,
        between,
        cut_after,
        whole_after,
        plan,
        cut,
        first_runs,
        second_runs,
        whole_runs,
    );
    batch_findings_are_joined(start, between, cut_after, plan, cut, first_runs, second_runs);
    let first = start.batch_findings(plan, cut.schema, cut.first, cut.first_long, cut.row_offset);
    let second = between.batch_findings(
        plan,
        cut.schema,
        cut.second,
        cut.second_long,
        cut.middle(),
    );
    let whole = start.batch_findings(plan, cut.schema, cut.whole, cut.whole_long, cut.row_offset);
    recorded_in_parts(found, first, second);
    order_is_nothing(found, first + second, whole);
    assert(specs_of(cut_after.distinct@).len() == specs_of(whole_after.distinct@).len());
    agreeing_states_end_alike(
        cut_after,
        whole_after,
        cut_stored,
        whole_stored,
        samples,
        cut_end,
        whole_end,
    );
    equal_ends_have_equal_verdicts(
        recorded_all(recorded_all(found, first), second),
        recorded_all(found, whole),
        plan,
        cut_end,
        whole_end,
        m,
        rows,
    );
}

} // verus!
