//! What the rules over a whole dataset say does not depend on how it is cut into batches.

use crate::contract::dataset::{
    CompositeUniquePlan, ConditionalUniquePlan, DatasetPlan, GapDetectionPlan,
};
use crate::distinct::order::Entry;
use crate::distinct::state::ExactState;
use crate::error::ErrorView;
use crate::execution::batching::{
    feeds_ignore_batch_boundaries, order_ignores_batch_boundaries, steps_ignore_batch_boundaries,
    totals_ignore_batch_boundaries,
};
use crate::execution::dataset_state::{
    batch_fits, chosen_rows, composite_feed, composite_feeds, composite_rule, conditional_feed,
    conditional_feeds, conditional_rule, distinct_errors, distinct_feed, earliest, every_row,
    exclusive_lists, gap_errors, gap_findings, gap_steps, nulls_in, order_errors, order_findings,
    order_trail, plan_fits, specs_fit, specs_of, sum_errors, total_stays, DatasetRuns, DatasetState,
};
use crate::execution::ordering::{opt_place, step_more, steps, Steps};
use crate::execution::row_kernels::in_range;
use crate::execution::stacking::{
    exclusive_rules_ignore_batch_boundaries, fed_joined, keys_ignore_batch_boundaries, lower_row,
    of_height, same_answer, stacked, upper_row,
};
use crate::execution::total::sum_of;
use crate::value::{Batch, Cell, Schema};
use vstd::prelude::*;

verus! {

/// Rows in one batch, and the same rows in two; for each step rule and row, whether the step
/// to the row is too long.
pub struct Cut {
    pub schema: Schema,
    pub first: Batch,
    pub second: Batch,
    pub whole: Batch,
    pub first_long: Seq<Vec<bool>>,
    pub second_long: Seq<Vec<bool>>,
    pub whole_long: Seq<Vec<bool>>,
    pub row_offset: int,
}

impl Cut {
    /// The rows of the first batch stand over those of the second in the whole.
    pub open spec fn wf(self, plan: DatasetPlan) -> bool {
        &&& batch_fits(self.schema, self.whole, self.row_offset)
        &&& self.first.wf()
        &&& self.second.wf()
        &&& self.whole.rows == self.first.rows + self.second.rows
        &&& stacked(
            self.first.columns@,
            self.second.columns@,
            self.whole.columns@,
            self.first.rows as nat,
        )
        &&& plan_fits(plan, self.whole.columns@.len() as int)
        &&& self.first_long.len() == plan.gap_detection@.len()
        &&& self.second_long.len() == plan.gap_detection@.len()
        &&& self.whole_long.len() == plan.gap_detection@.len()
        &&& forall|i: int|
            #![trigger self.whole_long[i]]
            0 <= i < self.whole_long.len() ==> self.first_long[i]@.len() == self.first.rows
                && self.second_long[i]@.len() == self.second.rows && self.whole_long[i]@
                == self.first_long[i]@ + self.second_long[i]@
    }

    /// Where the second batch begins.
    pub open spec fn middle(self) -> int {
        self.row_offset + self.first.rows
    }
}

/// Whether two states hold the same of a dataset.
pub open spec fn agree(a: DatasetState, b: DatasetState) -> bool {
    &&& a.null_counts@ == b.null_counts@
    &&& a.sums@ == b.sums@
    &&& specs_of(a.distinct@) == specs_of(b.distinct@)
    &&& forall|i: int|
        #![trigger a.distinct@[i]]
        0 <= i < a.distinct@.len() ==> a.distinct@[i].saw_null == b.distinct@[i].saw_null
            && a.distinct@[i].exact.all() == b.distinct@[i].exact.all()
    &&& a.ordering@.len() == b.ordering@.len()
    &&& forall|i: int|
        #![trigger a.ordering@[i]]
        0 <= i < a.ordering@.len() ==> opt_place(a.ordering@[i]) == opt_place(b.ordering@[i])
    &&& a.gaps@.len() == b.gaps@.len()
    &&& forall|i: int|
        #![trigger a.gaps@[i]]
        0 <= i < a.gaps@.len() ==> a.gaps@[i].so_far() == b.gaps@[i].so_far()
    &&& same_entries(a.composites@, b.composites@)
    &&& same_entries(a.conditional@, b.conditional@)
}

/// Whether exact states hold the same entries.
pub open spec fn same_entries(a: Seq<ExactState>, b: Seq<ExactState>) -> bool {
    &&& a.len() == b.len()
    &&& forall|i: int| #![trigger a[i]] 0 <= i < a.len() ==> a[i].all() == b[i].all()
}

/// Whether each list is the one of the first batch and then the one of the second.
pub open spec fn lists_joined<A>(first: Seq<Seq<A>>, second: Seq<Seq<A>>, whole: Seq<Seq<A>>) -> bool {
    &&& first.len() == whole.len()
    &&& second.len() == whole.len()
    &&& forall|i: int|
        #![trigger whole[i]]
        0 <= i < whole.len() ==> whole[i] == first[i] + second[i]
}

proof fn no_error_at(errors: Seq<Option<ErrorView>>, i: int, n: nat)
    requires
        earliest(errors, n) is None,
        0 <= i < n,
    ensures
        errors[i] is None,
    decreases n,
{
    if i < n - 1 {
        no_error_at(errors, i, (n - 1) as nat);
    }
}

proof fn no_errors(errors: Seq<Option<ErrorView>>, n: nat)
    requires
        forall|i: int| #![trigger errors[i]] 0 <= i < n ==> errors[i] is None,
    ensures
        earliest(errors, n) is None,
    decreases n,
{
    if n > 0 {
        no_errors(errors, (n - 1) as nat);
        assert(errors[n - 1] is None);
    }
}

/// The findings that came before change nothing in the steps that follow.
proof fn earlier_findings_stay(
    s: Steps,
    plan: GapDetectionPlan,
    shown: Seq<char>,
    cells: Seq<Cell>,
    long: Seq<bool>,
    row_offset: int,
    n: nat,
)
    ensures
        ({
            let t = steps(
                Steps { findings: Seq::empty(), ..s },
                plan,
                shown,
                cells,
                long,
                row_offset,
                n,
            );
            steps(s, plan, shown, cells, long, row_offset, n) == (Steps {
                findings: s.findings + t.findings,
                ..t
            })
        }),
    decreases n,
{
    let fresh = Steps { findings: Seq::empty(), ..s };
    if n == 0 {
        assert(s.findings + Seq::empty() =~= s.findings);
    } else {
        earlier_findings_stay(s, plan, shown, cells, long, row_offset, (n - 1) as nat);
        let t = steps(fresh, plan, shown, cells, long, row_offset, (n - 1) as nat);
        let u = step_more(
            t,
            plan,
            shown,
            cells[n - 1],
            long[n - 1],
            (row_offset + n - 1) as u64,
        );
        if u.findings.len() > t.findings.len() {
            assert(s.findings + t.findings.push(u.findings.last()) =~= (s.findings
                + t.findings).push(u.findings.last()));
        }
    }
}

proof fn gap_joined(start: DatasetState, between: DatasetState, plan: DatasetPlan, cut: Cut, i: int)
    requires
        cut.wf(plan),
        0 <= i < plan.gap_detection@.len(),
        between.gaps@[i].so_far() == (Steps {
            findings: Seq::empty(),
            ..gap_steps(
                plan.gap_detection@,
                cut.schema,
                cut.first,
                cut.first_long,
                cut.row_offset,
                start.gaps@,
                i,
            )
        }),
    ensures
        ({
            let a = gap_steps(
                plan.gap_detection@,
                cut.schema,
                cut.first,
                cut.first_long,
                cut.row_offset,
                start.gaps@,
                i,
            );
            let b = gap_steps(
                plan.gap_detection@,
                cut.schema,
                cut.second,
                cut.second_long,
                cut.middle(),
                between.gaps@,
                i,
            );
            gap_steps(
                plan.gap_detection@,
                cut.schema,
                cut.whole,
                cut.whole_long,
                cut.row_offset,
                start.gaps@,
                i,
            ) == (Steps { findings: a.findings + b.findings, ..b })
        }),
{
    let rule = plan.gap_detection@[i];
    let c = rule.column_index as int;
    let shown = cut.schema.fields@[c].type_text@;
    let a = cut.first.columns@[c]@;
    let b = cut.second.columns@[c]@;
    assert(cut.whole.columns@[c]@ == a + b);
    assert(cut.whole_long[i]@ == cut.first_long[i]@ + cut.second_long[i]@);
    assert(b.len() == cut.second.rows);
    steps_ignore_batch_boundaries(
        start.gaps@[i].so_far(),
        rule,
        shown,
        a,
        b,
        cut.first_long[i]@,
        cut.second_long[i]@,
        cut.row_offset,
        b.len(),
    );
    earlier_findings_stay(
        steps(
            start.gaps@[i].so_far(),
            rule,
            shown,
            a,
            cut.first_long[i]@,
            cut.row_offset,
            a.len(),
        ),
        rule,
        shown,
        b,
        cut.second_long[i]@,
        cut.middle(),
        b.len(),
    );
}

proof fn order_joined(start: DatasetState, between: DatasetState, plan: DatasetPlan, cut: Cut, i: int)
    requires
        cut.wf(plan),
        0 <= i < plan.monotonicity@.len(),
        order_trail(
            plan.monotonicity@,
            cut.schema,
            cut.first,
            cut.row_offset,
            start.ordering@,
            i,
        ).error is None,
        opt_place(between.ordering@[i]) == order_trail(
            plan.monotonicity@,
            cut.schema,
            cut.first,
            cut.row_offset,
            start.ordering@,
            i,
        ).last,
    ensures
        ({
            let a = order_trail(
                plan.monotonicity@,
                cut.schema,
                cut.first,
                cut.row_offset,
                start.ordering@,
                i,
            );
            let b = order_trail(
                plan.monotonicity@,
                cut.schema,
                cut.second,
                cut.middle(),
                between.ordering@,
                i,
            );
            let w = order_trail(
                plan.monotonicity@,
                cut.schema,
                cut.whole,
                cut.row_offset,
                start.ordering@,
                i,
            );
            w.findings == a.findings + b.findings && w.last == b.last && w.error == b.error
        }),
{
    let rule = plan.monotonicity@[i];
    let c = rule.column_index as int;
    let a = cut.first.columns@[c]@;
    let b = cut.second.columns@[c]@;
    assert(cut.whole.columns@[c]@ == a + b);
    assert(b.len() == cut.second.rows);
    order_ignores_batch_boundaries(
        rule,
        cut.schema.fields@[c].type_text@,
        a,
        b,
        cut.row_offset,
        opt_place(start.ordering@[i]),
        b.len(),
    );
}

proof fn composite_joined(rule: CompositeUniquePlan, plan: DatasetPlan, cut: Cut)
    requires
        cut.wf(plan),
        forall|j: int|
            0 <= j < rule.columns@.len() ==> (#[trigger] rule.columns@[j])
                < cut.whole.columns@.len(),
    ensures
        composite_feed(rule, cut.schema, cut.whole, cut.row_offset) == fed_joined(
            composite_feed(rule, cut.schema, cut.first, cut.row_offset),
            composite_feed(rule, cut.schema, cut.second, cut.middle()),
        ),
{
    let upper = every_row(cut.first.rows as nat);
    let lower = every_row(cut.second.rows as nat);
    assert(every_row(cut.whole.rows as nat) =~= upper + lower);
    assert(of_height(cut.second.columns@, lower.len()));
    keys_ignore_batch_boundaries(
        composite_rule(rule),
        cut.schema,
        cut.first.columns@,
        cut.second.columns@,
        cut.whole.columns@,
        upper,
        lower,
        cut.first.rows as nat,
        cut.row_offset,
        lower.len(),
    );
}

proof fn conditional_joined(rule: ConditionalUniquePlan, plan: DatasetPlan, cut: Cut)
    requires
        cut.wf(plan),
        in_range(
            rule.predicate@,
            cut.whole.columns@.len() as int,
        ),
        forall|j: int|
            0 <= j < rule.columns@.len() ==> (#[trigger] rule.columns@[j])
                < cut.whole.columns@.len(),
    ensures
        conditional_feed(rule, cut.schema, cut.whole, cut.row_offset) == fed_joined(
            conditional_feed(rule, cut.schema, cut.first, cut.row_offset),
            conditional_feed(rule, cut.schema, cut.second, cut.middle()),
        ),
{
    let upper = chosen_rows(rule, cut.first);
    let lower = chosen_rows(rule, cut.second);
    let whole = chosen_rows(rule, cut.whole);
    assert(of_height(cut.second.columns@, lower.len()));
    assert forall|i: int| 0 <= i < whole.len() implies whole[i] == (upper + lower)[i] by {
        if i < upper.len() {
            upper_row(
                cut.first.columns@,
                cut.second.columns@,
                cut.whole.columns@,
                cut.first.rows as nat,
                i,
            );
            same_answer(rule.predicate@, cut.whole.columns@, i, cut.first.columns@, i);
        } else {
            let j = i - upper.len();
            lower_row(
                cut.first.columns@,
                cut.second.columns@,
                cut.whole.columns@,
                cut.first.rows as nat,
                lower.len(),
                j,
            );
            same_answer(rule.predicate@, cut.whole.columns@, i, cut.second.columns@, j);
        }
    }
    assert(whole =~= upper + lower);
    keys_ignore_batch_boundaries(
        conditional_rule(rule),
        cut.schema,
        cut.first.columns@,
        cut.second.columns@,
        cut.whole.columns@,
        upper,
        lower,
        cut.first.rows as nat,
        cut.row_offset,
        lower.len(),
    );
}

proof fn total_stays_joined(start: int, a: Seq<Cell>, b: Seq<Cell>)
    requires
        total_stays(start, a),
        total_stays(start + sum_of(a, a.len()), b),
    ensures
        total_stays(start, a + b),
{
    assert forall|k: nat| k <= (a + b).len() implies i128::MIN <= start + #[trigger] sum_of(
        a + b,
        k,
    ) <= i128::MAX by {
        if k <= a.len() {
            let head = a.take(k as int);
            totals_ignore_batch_boundaries(head, a.skip(k as int), 0);
            totals_ignore_batch_boundaries(head, a.skip(k as int) + b, 0);
            assert(head + a.skip(k as int) =~= a);
            assert(head + (a.skip(k as int) + b) =~= a + b);
            assert(sum_of(a, k) == sum_of(a + b, k));
        } else {
            totals_ignore_batch_boundaries(a, b, (k - a.len()) as nat);
            assert(sum_of(b, (k - a.len()) as nat) == sum_of(b, (k - a.len()) as nat));
        }
    }
}

proof fn entries_added(a: Seq<Entry>, b: Seq<Entry>, before: vstd::multiset::Multiset<Entry>)
    ensures
        before.add((a + b).to_multiset()) == before.add(a.to_multiset()).add(b.to_multiset()),
{
    vstd::seq_lib::lemma_multiset_commutative(a, b);
    assert(before.add((a + b).to_multiset()) =~= before.add(a.to_multiset()).add(b.to_multiset()));
}

/// Whether a state was fed the first batch and then the second, neither with an error.
pub open spec fn fed_in_two(
    start: DatasetState,
    between: DatasetState,
    after: DatasetState,
    plan: DatasetPlan,
    cut: Cut,
    first_runs: DatasetRuns,
    second_runs: DatasetRuns,
) -> bool {
    &&& start.matches(plan)
    &&& between.matches(plan)
    &&& after.matches(plan)
    &&& start.batch_error(plan, cut.schema, cut.first, cut.first_long, cut.row_offset) is None
    &&& between.batch_error(plan, cut.schema, cut.second, cut.second_long, cut.middle()) is None
    &&& start.advanced(
        between,
        plan,
        cut.schema,
        cut.first,
        cut.first_long,
        cut.row_offset,
        first_runs,
    )
    &&& between.advanced(
        after,
        plan,
        cut.schema,
        cut.second,
        cut.second_long,
        cut.middle(),
        second_runs,
    )
}

proof fn distinct_joined(
    start: DatasetState,
    between: DatasetState,
    after: DatasetState,
    plan: DatasetPlan,
    cut: Cut,
    first_runs: DatasetRuns,
    second_runs: DatasetRuns,
    i: int,
)
    requires
        cut.wf(plan),
        fed_in_two(start, between, after, plan, cut, first_runs, second_runs),
        0 <= i < start.distinct@.len(),
    ensures
        between.distinct@.len() == start.distinct@.len(),
        between.distinct@[i].rules == start.distinct@[i].rules,
        ({
            let rule = start.distinct@[i].rules;
            let a = distinct_feed(rule, cut.schema, cut.first, cut.row_offset);
            let b = distinct_feed(rule, cut.schema, cut.second, cut.middle());
            let w = distinct_feed(rule, cut.schema, cut.whole, cut.row_offset);
            &&& w.entries == a.entries + b.entries
            &&& w.saw_null == (a.saw_null || b.saw_null)
            &&& w.error is None
        }),
{
    let specs = specs_of(start.distinct@);
    assert(specs_of(between.distinct@).len() == specs.len());
    assert(specs_of(between.distinct@)[i] == specs[i]);
    assert(plan.distinct_counts.len() == plan.distinct_counts@.len());
    assert(plan.distinct_ratios.len() == plan.distinct_ratios@.len());
    assert(start.specs() =~= specs);
    specs_fit(plan, specs, cut.whole.columns@.len() as int);
    let c = specs[i].column_index as int;
    let a = cut.first.columns@[c]@;
    let b = cut.second.columns@[c]@;
    assert(cut.whole.columns@[c]@ == a + b);
    assert(b.len() == cut.second.rows);
    let first = distinct_errors(specs, cut.schema, cut.first, cut.row_offset);
    let second = distinct_errors(specs, cut.schema, cut.second, cut.middle());
    no_error_at(first, i, first.len());
    no_error_at(second, i, second.len());
    feeds_ignore_batch_boundaries(
        a,
        b,
        cut.schema.fields@[c].type_text@,
        false,
        cut.row_offset,
        b.len(),
    );
}

/// Rows that two batches hold without an error have none in one batch, and every rule finds
/// in them what it finds in the first batch and then in the second.
pub proof fn findings_ignore_batch_boundaries(
    start: DatasetState,
    between: DatasetState,
    after: DatasetState,
    plan: DatasetPlan,
    cut: Cut,
    first_runs: DatasetRuns,
    second_runs: DatasetRuns,
)
    requires
        cut.wf(plan),
        fed_in_two(start, between, after, plan, cut, first_runs, second_runs),
    ensures
        start.batch_error(plan, cut.schema, cut.whole, cut.whole_long, cut.row_offset) is None,
        lists_joined(
            order_findings(
                plan.monotonicity@,
                cut.schema,
                cut.first,
                cut.row_offset,
                start.ordering@,
            ),
            order_findings(
                plan.monotonicity@,
                cut.schema,
                cut.second,
                cut.middle(),
                between.ordering@,
            ),
            order_findings(
                plan.monotonicity@,
                cut.schema,
                cut.whole,
                cut.row_offset,
                start.ordering@,
            ),
        ),
        lists_joined(
            gap_findings(
                plan.gap_detection@,
                cut.schema,
                cut.first,
                cut.first_long,
                cut.row_offset,
                start.gaps@,
            ),
            gap_findings(
                plan.gap_detection@,
                cut.schema,
                cut.second,
                cut.second_long,
                cut.middle(),
                between.gaps@,
            ),
            gap_findings(
                plan.gap_detection@,
                cut.schema,
                cut.whole,
                cut.whole_long,
                cut.row_offset,
                start.gaps@,
            ),
        ),
        lists_joined(
            conditional_feeds(
                plan.conditional_unique@,
                cut.schema,
                cut.first,
                cut.row_offset,
            ).findings,
            conditional_feeds(
                plan.conditional_unique@,
                cut.schema,
                cut.second,
                cut.middle(),
            ).findings,
            conditional_feeds(
                plan.conditional_unique@,
                cut.schema,
                cut.whole,
                cut.row_offset,
            ).findings,
        ),
        lists_joined(
            exclusive_lists(plan.mutually_exclusive@, cut.first, cut.row_offset),
            exclusive_lists(plan.mutually_exclusive@, cut.second, cut.middle()),
            exclusive_lists(plan.mutually_exclusive@, cut.whole, cut.row_offset),
        ),
        lists_joined(
            composite_feeds(plan.composite_unique@, cut.schema, cut.first, cut.row_offset).findings,
            composite_feeds(plan.composite_unique@, cut.schema, cut.second, cut.middle()).findings,
            composite_feeds(plan.composite_unique@, cut.schema, cut.whole, cut.row_offset).findings,
        ),
{
    counted_rules(start, between, after, plan, cut, first_runs, second_runs);
    ordered_rules(start, between, after, plan, cut, first_runs, second_runs);
    stepping_rules(start, between, after, plan, cut, first_runs, second_runs);
    summed_rules(start, between, after, plan, cut, first_runs, second_runs);
    keyed_rules(start, between, after, plan, cut, first_runs, second_runs);
    let first = exclusive_lists(plan.mutually_exclusive@, cut.first, cut.row_offset);
    let second = exclusive_lists(plan.mutually_exclusive@, cut.second, cut.middle());
    let whole = exclusive_lists(plan.mutually_exclusive@, cut.whole, cut.row_offset);
    assert(of_height(cut.second.columns@, cut.second.rows as nat));
    assert forall|i: int| #![trigger whole[i]] 0 <= i < whole.len() implies whole[i] == first[i]
        + second[i] by {
        assert(plan.mutually_exclusive@[i] == plan.mutually_exclusive@[i]);
        exclusive_rules_ignore_batch_boundaries(
            plan.mutually_exclusive@[i],
            cut.first.columns@,
            cut.second.columns@,
            cut.whole.columns@,
            cut.first.rows as nat,
            cut.second.rows as nat,
            cut.row_offset,
            cut.second.rows as nat,
        );
    }
}

proof fn counted_rules(
    start: DatasetState,
    between: DatasetState,
    after: DatasetState,
    plan: DatasetPlan,
    cut: Cut,
    first_runs: DatasetRuns,
    second_runs: DatasetRuns,
)
    requires
        cut.wf(plan),
        fed_in_two(start, between, after, plan, cut, first_runs, second_runs),
    ensures
        ({
            let errors = distinct_errors(
                specs_of(start.distinct@),
                cut.schema,
                cut.whole,
                cut.row_offset,
            );
            earliest(errors, errors.len()) is None
        }),
{
    let errors = distinct_errors(specs_of(start.distinct@), cut.schema, cut.whole, cut.row_offset);
    assert forall|i: int| #![trigger errors[i]] 0 <= i < errors.len() implies errors[i] is None by {
        distinct_joined(start, between, after, plan, cut, first_runs, second_runs, i);
    }
    no_errors(errors, errors.len());
}

proof fn ordered_rules(
    start: DatasetState,
    between: DatasetState,
    after: DatasetState,
    plan: DatasetPlan,
    cut: Cut,
    first_runs: DatasetRuns,
    second_runs: DatasetRuns,
)
    requires
        cut.wf(plan),
        fed_in_two(start, between, after, plan, cut, first_runs, second_runs),
    ensures
        earliest(
            order_errors(
                plan.monotonicity@,
                cut.schema,
                cut.whole,
                cut.row_offset,
                start.ordering@,
            ),
            plan.monotonicity@.len(),
        ) is None,
        forall|i: int|
            #![trigger plan.monotonicity@[i]]
            0 <= i < plan.monotonicity@.len() ==> {
                let a = order_trail(
                    plan.monotonicity@,
                    cut.schema,
                    cut.first,
                    cut.row_offset,
                    start.ordering@,
                    i,
                );
                let b = order_trail(
                    plan.monotonicity@,
                    cut.schema,
                    cut.second,
                    cut.middle(),
                    between.ordering@,
                    i,
                );
                let w = order_trail(
                    plan.monotonicity@,
                    cut.schema,
                    cut.whole,
                    cut.row_offset,
                    start.ordering@,
                    i,
                );
                w.findings == a.findings + b.findings && w.last == b.last && w.error is None
            },
{
    let rules = plan.monotonicity@;
    let first = order_errors(rules, cut.schema, cut.first, cut.row_offset, start.ordering@);
    let second = order_errors(rules, cut.schema, cut.second, cut.middle(), between.ordering@);
    let whole = order_errors(rules, cut.schema, cut.whole, cut.row_offset, start.ordering@);
    assert forall|i: int| #![trigger rules[i]] 0 <= i < rules.len() implies {
        let a = order_trail(rules, cut.schema, cut.first, cut.row_offset, start.ordering@, i);
        let b = order_trail(rules, cut.schema, cut.second, cut.middle(), between.ordering@, i);
        let w = order_trail(rules, cut.schema, cut.whole, cut.row_offset, start.ordering@, i);
        w.findings == a.findings + b.findings && w.last == b.last && w.error is None
    } by {
        no_error_at(first, i, rules.len());
        no_error_at(second, i, rules.len());
        assert(opt_place(between.ordering@[i]) == opt_place(between.ordering@[i]));
        order_joined(start, between, plan, cut, i);
    }
    assert forall|i: int| #![trigger whole[i]] 0 <= i < rules.len() implies whole[i] is None by {
        assert(rules[i] == rules[i]);
    }
    no_errors(whole, rules.len());
}

proof fn stepping_rules(
    start: DatasetState,
    between: DatasetState,
    after: DatasetState,
    plan: DatasetPlan,
    cut: Cut,
    first_runs: DatasetRuns,
    second_runs: DatasetRuns,
)
    requires
        cut.wf(plan),
        fed_in_two(start, between, after, plan, cut, first_runs, second_runs),
    ensures
        earliest(
            gap_errors(
                plan.gap_detection@,
                cut.schema,
                cut.whole,
                cut.whole_long,
                cut.row_offset,
                start.gaps@,
            ),
            plan.gap_detection@.len(),
        ) is None,
        forall|i: int|
            #![trigger plan.gap_detection@[i]]
            0 <= i < plan.gap_detection@.len() ==> {
                let a = gap_steps(
                    plan.gap_detection@,
                    cut.schema,
                    cut.first,
                    cut.first_long,
                    cut.row_offset,
                    start.gaps@,
                    i,
                );
                let b = gap_steps(
                    plan.gap_detection@,
                    cut.schema,
                    cut.second,
                    cut.second_long,
                    cut.middle(),
                    between.gaps@,
                    i,
                );
                gap_steps(
                    plan.gap_detection@,
                    cut.schema,
                    cut.whole,
                    cut.whole_long,
                    cut.row_offset,
                    start.gaps@,
                    i,
                ) == (Steps { findings: a.findings + b.findings, ..b })
            },
{
    let rules = plan.gap_detection@;
    let second = gap_errors(
        rules,
        cut.schema,
        cut.second,
        cut.second_long,
        cut.middle(),
        between.gaps@,
    );
    let whole = gap_errors(
        rules,
        cut.schema,
        cut.whole,
        cut.whole_long,
        cut.row_offset,
        start.gaps@,
    );
    assert forall|i: int| #![trigger rules[i]] 0 <= i < rules.len() implies {
        let a = gap_steps(
            rules,
            cut.schema,
            cut.first,
            cut.first_long,
            cut.row_offset,
            start.gaps@,
            i,
        );
        let b = gap_steps(
            rules,
            cut.schema,
            cut.second,
            cut.second_long,
            cut.middle(),
            between.gaps@,
            i,
        );
        gap_steps(rules, cut.schema, cut.whole, cut.whole_long, cut.row_offset, start.gaps@, i) == (
        Steps { findings: a.findings + b.findings, ..b })
    } by {
        assert(between.gaps@[i].so_far() == between.gaps@[i].so_far());
        gap_joined(start, between, plan, cut, i);
    }
    assert forall|i: int| #![trigger whole[i]] 0 <= i < rules.len() implies whole[i] is None by {
        no_error_at(second, i, rules.len());
        assert(rules[i] == rules[i]);
    }
    no_errors(whole, rules.len());
}

proof fn summed_rules(
    start: DatasetState,
    between: DatasetState,
    after: DatasetState,
    plan: DatasetPlan,
    cut: Cut,
    first_runs: DatasetRuns,
    second_runs: DatasetRuns,
)
    requires
        cut.wf(plan),
        fed_in_two(start, between, after, plan, cut, first_runs, second_runs),
    ensures
        earliest(sum_errors(plan.sums@, cut.whole, start.sums@), plan.sums@.len()) is None,
        forall|i: int|
            #![trigger plan.sums@[i]]
            0 <= i < plan.sums@.len() ==> {
                let c = plan.sums@[i].column_index as int;
                sum_of(cut.whole.columns@[c]@, cut.whole.columns@[c]@.len()) == sum_of(
                    cut.first.columns@[c]@,
                    cut.first.columns@[c]@.len(),
                ) + sum_of(cut.second.columns@[c]@, cut.second.columns@[c]@.len())
            },
        forall|i: int|
            #![trigger plan.null_ratios@[i]]
            0 <= i < plan.null_ratios@.len() ==> {
                let c = plan.null_ratios@[i].column_index as int;
                nulls_in(cut.whole.columns@[c]@, cut.whole.columns@[c]@.len()) == nulls_in(
                    cut.first.columns@[c]@,
                    cut.first.columns@[c]@.len(),
                ) + nulls_in(cut.second.columns@[c]@, cut.second.columns@[c]@.len())
            },
{
    let rules = plan.sums@;
    let first = sum_errors(rules, cut.first, start.sums@);
    let second = sum_errors(rules, cut.second, between.sums@);
    let whole = sum_errors(rules, cut.whole, start.sums@);
    assert forall|i: int| #![trigger whole[i]] 0 <= i < rules.len() implies whole[i] is None by {
        no_error_at(first, i, rules.len());
        no_error_at(second, i, rules.len());
        let c = rules[i].column_index as int;
        let a = cut.first.columns@[c]@;
        let b = cut.second.columns@[c]@;
        assert(cut.whole.columns@[c]@ == a + b);
        assert(between.sums@[i] == between.sums@[i]);
        if rules[i].bounds is Integer {
            total_stays_joined(start.sums@[i] as int, a, b);
        }
    }
    no_errors(whole, rules.len());
    assert forall|i: int| #![trigger rules[i]] 0 <= i < rules.len() implies {
        let c = rules[i].column_index as int;
        sum_of(cut.whole.columns@[c]@, cut.whole.columns@[c]@.len()) == sum_of(
            cut.first.columns@[c]@,
            cut.first.columns@[c]@.len(),
        ) + sum_of(cut.second.columns@[c]@, cut.second.columns@[c]@.len())
    } by {
        let c = rules[i].column_index as int;
        let a = cut.first.columns@[c]@;
        let b = cut.second.columns@[c]@;
        assert(cut.whole.columns@[c]@ == a + b);
        totals_ignore_batch_boundaries(a, b, b.len());
    }
    let ratios = plan.null_ratios@;
    assert forall|i: int| #![trigger ratios[i]] 0 <= i < ratios.len() implies {
        let c = ratios[i].column_index as int;
        nulls_in(cut.whole.columns@[c]@, cut.whole.columns@[c]@.len()) == nulls_in(
            cut.first.columns@[c]@,
            cut.first.columns@[c]@.len(),
        ) + nulls_in(cut.second.columns@[c]@, cut.second.columns@[c]@.len())
    } by {
        let c = ratios[i].column_index as int;
        let a = cut.first.columns@[c]@;
        let b = cut.second.columns@[c]@;
        assert(cut.whole.columns@[c]@ == a + b);
        totals_ignore_batch_boundaries(a, b, b.len());
    }
}

proof fn keyed_rules(
    start: DatasetState,
    between: DatasetState,
    after: DatasetState,
    plan: DatasetPlan,
    cut: Cut,
    first_runs: DatasetRuns,
    second_runs: DatasetRuns,
)
    requires
        cut.wf(plan),
        fed_in_two(start, between, after, plan, cut, first_runs, second_runs),
    ensures
        ({
            let a = composite_feeds(plan.composite_unique@, cut.schema, cut.first, cut.row_offset);
            let b = composite_feeds(plan.composite_unique@, cut.schema, cut.second, cut.middle());
            let w = composite_feeds(plan.composite_unique@, cut.schema, cut.whole, cut.row_offset);
            &&& earliest(w.errors, plan.composite_unique@.len()) is None
            &&& lists_joined(a.findings, b.findings, w.findings)
            &&& lists_joined(a.entries, b.entries, w.entries)
        }),
        ({
            let a = conditional_feeds(
                plan.conditional_unique@,
                cut.schema,
                cut.first,
                cut.row_offset,
            );
            let b = conditional_feeds(
                plan.conditional_unique@,
                cut.schema,
                cut.second,
                cut.middle(),
            );
            let w = conditional_feeds(
                plan.conditional_unique@,
                cut.schema,
                cut.whole,
                cut.row_offset,
            );
            &&& earliest(w.errors, plan.conditional_unique@.len()) is None
            &&& lists_joined(a.findings, b.findings, w.findings)
            &&& lists_joined(a.entries, b.entries, w.entries)
        }),
{
    let rules = plan.composite_unique@;
    let a = composite_feeds(rules, cut.schema, cut.first, cut.row_offset);
    let b = composite_feeds(rules, cut.schema, cut.second, cut.middle());
    let w = composite_feeds(rules, cut.schema, cut.whole, cut.row_offset);
    assert forall|i: int| 0 <= i < rules.len() implies #[trigger] w.errors[i] is None
        && w.findings[i] == a.findings[i] + b.findings[i] && w.entries[i] == a.entries[i]
        + b.entries[i] by {
        no_error_at(a.errors, i, rules.len());
        no_error_at(b.errors, i, rules.len());
        assert(rules[i] == rules[i]);
        composite_joined(rules[i], plan, cut);
    }
    assert forall|i: int| 0 <= i < rules.len() implies #[trigger] w.findings[i] == a.findings[i]
        + b.findings[i] by {
        assert(w.errors[i] is None);
    }
    assert forall|i: int| 0 <= i < rules.len() implies #[trigger] w.entries[i] == a.entries[i]
        + b.entries[i] by {
        assert(w.errors[i] is None);
    }
    no_errors(w.errors, rules.len());
    let chosen = plan.conditional_unique@;
    let c = conditional_feeds(chosen, cut.schema, cut.first, cut.row_offset);
    let d = conditional_feeds(chosen, cut.schema, cut.second, cut.middle());
    let v = conditional_feeds(chosen, cut.schema, cut.whole, cut.row_offset);
    assert forall|i: int| 0 <= i < chosen.len() implies #[trigger] v.errors[i] is None
        && v.findings[i] == c.findings[i] + d.findings[i] && v.entries[i] == c.entries[i]
        + d.entries[i] by {
        no_error_at(c.errors, i, chosen.len());
        no_error_at(d.errors, i, chosen.len());
        assert(chosen[i] == chosen[i]);
        conditional_joined(chosen[i], plan, cut);
    }
    assert forall|i: int| 0 <= i < chosen.len() implies #[trigger] v.findings[i] == c.findings[i]
        + d.findings[i] by {
        assert(v.errors[i] is None);
    }
    assert forall|i: int| 0 <= i < chosen.len() implies #[trigger] v.entries[i] == c.entries[i]
        + d.entries[i] by {
        assert(v.errors[i] is None);
    }
    no_errors(v.errors, chosen.len());
}

#[verifier::spinoff_prover]
proof fn same_null_counts(
    start: DatasetState,
    between: DatasetState,
    cut_after: DatasetState,
    whole_after: DatasetState,
    plan: DatasetPlan,
    cut: Cut,
    first_runs: DatasetRuns,
    second_runs: DatasetRuns,
    whole_runs: DatasetRuns,
)
    requires
        cut.wf(plan),
        fed_in_two(start, between, cut_after, plan, cut, first_runs, second_runs),
        whole_after.matches(plan),
        start.advanced(
            whole_after,
            plan,
            cut.schema,
            cut.whole,
            cut.whole_long,
            cut.row_offset,
            whole_runs,
        ),
    ensures
        cut_after.null_counts@ == whole_after.null_counts@,
{
    summed_rules(start, between, cut_after, plan, cut, first_runs, second_runs);
    assert forall|i: int| 0 <= i < plan.null_ratios@.len() implies cut_after.null_counts@[i]
        == whole_after.null_counts@[i] by {
        assert(plan.null_ratios@[i] == plan.null_ratios@[i]);
        assert(between.null_counts@[i] == between.null_counts@[i]);
    }
    assert(cut_after.null_counts@ =~= whole_after.null_counts@);
}

#[verifier::spinoff_prover]
proof fn same_sums(
    start: DatasetState,
    between: DatasetState,
    cut_after: DatasetState,
    whole_after: DatasetState,
    plan: DatasetPlan,
    cut: Cut,
    first_runs: DatasetRuns,
    second_runs: DatasetRuns,
    whole_runs: DatasetRuns,
)
    requires
        cut.wf(plan),
        fed_in_two(start, between, cut_after, plan, cut, first_runs, second_runs),
        whole_after.matches(plan),
        start.advanced(
            whole_after,
            plan,
            cut.schema,
            cut.whole,
            cut.whole_long,
            cut.row_offset,
            whole_runs,
        ),
    ensures
        cut_after.sums@ == whole_after.sums@,
{
    summed_rules(start, between, cut_after, plan, cut, first_runs, second_runs);
    assert forall|i: int| 0 <= i < plan.sums@.len() implies cut_after.sums@[i]
        == whole_after.sums@[i] by {
        assert(plan.sums@[i] == plan.sums@[i]);
        assert(between.sums@[i] == between.sums@[i]);
    }
    assert(cut_after.sums@ =~= whole_after.sums@);
}

proof fn same_values(
    start: DatasetState,
    between: DatasetState,
    cut_after: DatasetState,
    whole_after: DatasetState,
    plan: DatasetPlan,
    cut: Cut,
    first_runs: DatasetRuns,
    second_runs: DatasetRuns,
    whole_runs: DatasetRuns,
)
    requires
        cut.wf(plan),
        fed_in_two(start, between, cut_after, plan, cut, first_runs, second_runs),
        whole_after.matches(plan),
        start.advanced(
            whole_after,
            plan,
            cut.schema,
            cut.whole,
            cut.whole_long,
            cut.row_offset,
            whole_runs,
        ),
    ensures
        specs_of(cut_after.distinct@) == specs_of(whole_after.distinct@),
        forall|i: int|
            #![trigger cut_after.distinct@[i]]
            0 <= i < cut_after.distinct@.len() ==> cut_after.distinct@[i].saw_null
                == whole_after.distinct@[i].saw_null && cut_after.distinct@[i].exact.all()
                == whole_after.distinct@[i].exact.all(),
{
    let n = start.distinct@.len();
    assert(specs_of(cut_after.distinct@).len() == n);
    assert(specs_of(between.distinct@).len() == n);
    assert(specs_of(whole_after.distinct@).len() == n);
    assert forall|i: int|
        #![trigger cut_after.distinct@[i]]
        0 <= i < n implies cut_after.distinct@[i].saw_null == whole_after.distinct@[i].saw_null
        && cut_after.distinct@[i].exact.all() == whole_after.distinct@[i].exact.all() by {
        distinct_joined(start, between, cut_after, plan, cut, first_runs, second_runs, i);
        assert(between.distinct@[i].saw_null == between.distinct@[i].saw_null);
        assert(whole_after.distinct@[i].saw_null == whole_after.distinct@[i].saw_null);
        let rule = start.distinct@[i].rules;
        entries_added(
            distinct_feed(rule, cut.schema, cut.first, cut.row_offset).entries,
            distinct_feed(rule, cut.schema, cut.second, cut.middle()).entries,
            start.distinct@[i].exact.all(),
        );
    }
}

proof fn same_places(
    start: DatasetState,
    between: DatasetState,
    cut_after: DatasetState,
    whole_after: DatasetState,
    plan: DatasetPlan,
    cut: Cut,
    first_runs: DatasetRuns,
    second_runs: DatasetRuns,
    whole_runs: DatasetRuns,
)
    requires
        cut.wf(plan),
        fed_in_two(start, between, cut_after, plan, cut, first_runs, second_runs),
        whole_after.matches(plan),
        start.advanced(
            whole_after,
            plan,
            cut.schema,
            cut.whole,
            cut.whole_long,
            cut.row_offset,
            whole_runs,
        ),
    ensures
        forall|i: int|
            #![trigger cut_after.ordering@[i]]
            0 <= i < cut_after.ordering@.len() ==> opt_place(cut_after.ordering@[i]) == opt_place(
                whole_after.ordering@[i],
            ),
        forall|i: int|
            #![trigger cut_after.gaps@[i]]
            0 <= i < cut_after.gaps@.len() ==> cut_after.gaps@[i].so_far()
                == whole_after.gaps@[i].so_far(),
{
    ordered_rules(start, between, cut_after, plan, cut, first_runs, second_runs);
    stepping_rules(start, between, cut_after, plan, cut, first_runs, second_runs);
    assert forall|i: int|
        #![trigger cut_after.ordering@[i]]
        0 <= i < cut_after.ordering@.len() implies opt_place(cut_after.ordering@[i]) == opt_place(
        whole_after.ordering@[i],
    ) by {
        assert(plan.monotonicity@[i] == plan.monotonicity@[i]);
        assert(whole_after.ordering@[i] == whole_after.ordering@[i]);
    }
    assert forall|i: int|
        #![trigger cut_after.gaps@[i]]
        0 <= i < cut_after.gaps@.len() implies cut_after.gaps@[i].so_far()
        == whole_after.gaps@[i].so_far() by {
        assert(plan.gap_detection@[i] == plan.gap_detection@[i]);
        assert(whole_after.gaps@[i].so_far() == whole_after.gaps@[i].so_far());
    }
}

proof fn same_composites(
    start: DatasetState,
    between: DatasetState,
    cut_after: DatasetState,
    whole_after: DatasetState,
    plan: DatasetPlan,
    cut: Cut,
    first_runs: DatasetRuns,
    second_runs: DatasetRuns,
    whole_runs: DatasetRuns,
)
    requires
        cut.wf(plan),
        fed_in_two(start, between, cut_after, plan, cut, first_runs, second_runs),
        whole_after.matches(plan),
        start.advanced(
            whole_after,
            plan,
            cut.schema,
            cut.whole,
            cut.whole_long,
            cut.row_offset,
            whole_runs,
        ),
    ensures
        same_entries(cut_after.composites@, whole_after.composites@),
{
    keyed_rules(start, between, cut_after, plan, cut, first_runs, second_runs);
    let a = composite_feeds(plan.composite_unique@, cut.schema, cut.first, cut.row_offset);
    let b = composite_feeds(plan.composite_unique@, cut.schema, cut.second, cut.middle());
    let w = composite_feeds(plan.composite_unique@, cut.schema, cut.whole, cut.row_offset);
    assert forall|i: int|
        #![trigger cut_after.composites@[i]]
        0 <= i < cut_after.composites@.len() implies cut_after.composites@[i].all()
        == whole_after.composites@[i].all() by {
        assert(w.entries[i] == a.entries[i] + b.entries[i]);
        assert(between.composites@[i].all() == between.composites@[i].all());
        assert(whole_after.composites@[i].all() == whole_after.composites@[i].all());
        entries_added(a.entries[i], b.entries[i], start.composites@[i].all());
    }
}

proof fn same_conditional(
    start: DatasetState,
    between: DatasetState,
    cut_after: DatasetState,
    whole_after: DatasetState,
    plan: DatasetPlan,
    cut: Cut,
    first_runs: DatasetRuns,
    second_runs: DatasetRuns,
    whole_runs: DatasetRuns,
)
    requires
        cut.wf(plan),
        fed_in_two(start, between, cut_after, plan, cut, first_runs, second_runs),
        whole_after.matches(plan),
        start.advanced(
            whole_after,
            plan,
            cut.schema,
            cut.whole,
            cut.whole_long,
            cut.row_offset,
            whole_runs,
        ),
    ensures
        same_entries(cut_after.conditional@, whole_after.conditional@),
{
    keyed_rules(start, between, cut_after, plan, cut, first_runs, second_runs);
    let c = conditional_feeds(plan.conditional_unique@, cut.schema, cut.first, cut.row_offset);
    let d = conditional_feeds(plan.conditional_unique@, cut.schema, cut.second, cut.middle());
    let v = conditional_feeds(plan.conditional_unique@, cut.schema, cut.whole, cut.row_offset);
    assert forall|i: int|
        #![trigger cut_after.conditional@[i]]
        0 <= i < cut_after.conditional@.len() implies cut_after.conditional@[i].all()
        == whole_after.conditional@[i].all() by {
        assert(v.entries[i] == c.entries[i] + d.entries[i]);
        assert(between.conditional@[i].all() == between.conditional@[i].all());
        assert(whole_after.conditional@[i].all() == whole_after.conditional@[i].all());
        entries_added(c.entries[i], d.entries[i], start.conditional@[i].all());
    }
}

/// A state that is fed the rows of a dataset in two batches holds what it holds after one
/// batch with all of them: the same counts, totals, places and steps, and the same values.
pub proof fn states_ignore_batch_boundaries(
    start: DatasetState,
    between: DatasetState,
    cut_after: DatasetState,
    whole_after: DatasetState,
    plan: DatasetPlan,
    cut: Cut,
    first_runs: DatasetRuns,
    second_runs: DatasetRuns,
    whole_runs: DatasetRuns,
)
    requires
        cut.wf(plan),
        fed_in_two(start, between, cut_after, plan, cut, first_runs, second_runs),
        whole_after.matches(plan),
        start.advanced(
            whole_after,
            plan,
            cut.schema,
            cut.whole,
            cut.whole_long,
            cut.row_offset,
            whole_runs,
        ),
    ensures
        agree(cut_after, whole_after),
{
    same_null_counts(
        start,
        between,
        cut_after,
        whole_after,
        plan,
        cut,
        first_runs,
        second_runs,
        whole_runs,
    );
    same_sums(
        start,
        between,
        cut_after,
        whole_after,
        plan,
        cut,
        first_runs,
        second_runs,
        whole_runs,
    );
    same_values(
        start,
        between,
        cut_after,
        whole_after,
        plan,
        cut,
        first_runs,
        second_runs,
        whole_runs,
    );
    same_places(
        start,
        between,
        cut_after,
        whole_after,
        plan,
        cut,
        first_runs,
        second_runs,
        whole_runs,
    );
    same_composites(
        start,
        between,
        cut_after,
        whole_after,
        plan,
        cut,
        first_runs,
        second_runs,
        whole_runs,
    );
    same_conditional(
        start,
        between,
        cut_after,
        whole_after,
        plan,
        cut,
        first_runs,
        second_runs,
        whole_runs,
    );
}

} // verus!
