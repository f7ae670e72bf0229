//! Checking cells against the rules of a contract without types.

use crate::contract::rules::{
    pattern_of, regex_error, regex_is_match, regex_matches, regex_new,
};
use crate::diff::table::KeySet;
use crate::encoding::{canonical_value_bytes, encodable, encoded, item_of};
use crate::error::{ErrorView, ProofFrameError};
use crate::execution::validation::{
    recorded_all, recorded_in_parts, Finding, FindingView, Found, ValidationOutcome,
    ValidationState,
};
use crate::fingerprint::readable;
use crate::numbers::{is_nan64, key64, nan64, order_key64};
use crate::profile::legacy::{ColumnContract, Contract};
use crate::text::{cat3, cat4, cat5, str_eq, str_in, text, texts};
use crate::value::{first_named, Batch, Cell, Field, Schema};
use vstd::prelude::*;
use vstd::string::*;

verus! {

/// Whether one float is below another. Nothing is below or above what is not a number.
pub open spec fn below64(a: u64, b: u64) -> bool {
    !nan64(a) && !nan64(b) && key64(a) < key64(b)
}

/// Whether one float is below another.
pub fn is_below64(a: u64, b: u64) -> (r: bool)
    ensures
        r == below64(a, b),
{
    !is_nan64(a) && !is_nan64(b) && order_key64(a) < order_key64(b)
}

/// One finding where a rule is broken, and none where it holds.
pub open spec fn broken(
    is_broken: bool,
    rule: Seq<char>,
    column: Seq<char>,
    row: u64,
    message: Seq<char>,
) -> Seq<FindingView> {
    if is_broken {
        seq![FindingView { rule, column, row: Some(row), message }]
    } else {
        Seq::empty()
    }
}

/// The findings of a value: repeats, bounds, pattern and allowlist, in this order. `shown`
/// is the display text of the value, and `number` the float that it is.
pub open spec fn value_findings(
    rule: ColumnContract,
    column: Seq<char>,
    shown: Seq<char>,
    number: Option<u64>,
    repeated: bool,
    row: u64,
) -> Seq<FindingView> {
    broken(
        rule.unique && repeated,
        "unique"@,
        column,
        row,
        "Duplicate value `"@ + shown + "`"@,
    ) + broken(
        rule.min is Some && number is Some && below64(number.unwrap(), rule.min.unwrap().bits),
        "min"@,
        column,
        row,
        "Value `"@ + shown + "` is below "@ + rule.min.unwrap().shown@,
    ) + broken(
        rule.max is Some && number is Some && below64(rule.max.unwrap().bits, number.unwrap()),
        "max"@,
        column,
        row,
        "Value `"@ + shown + "` is above "@ + rule.max.unwrap().shown@,
    ) + broken(
        rule.pattern is Some && !regex_matches(rule.pattern.unwrap()@, shown),
        "pattern"@,
        column,
        row,
        "Value `"@ + shown + "` does not match `"@ + rule.pattern.unwrap()@ + "`"@,
    ) + broken(
        rule.allowed is Some && !texts(rule.allowed.unwrap()@).contains(shown),
        "allowed"@,
        column,
        row,
        "Value `"@ + shown + "` is not in the allowlist"@,
    )
}

/// The findings of a cell.
pub open spec fn cell_findings(
    rule: ColumnContract,
    column: Seq<char>,
    cell: Cell,
    shown: Seq<char>,
    number: Option<u64>,
    repeated: bool,
    row: u64,
) -> Seq<FindingView> {
    if cell is Null {
        broken(rule.not_null, "not_null"@, column, row, "Null value is not allowed"@)
    } else {
        value_findings(rule, column, shown, number, repeated, row)
    }
}

/// The rules for a column: the first with its name.
pub open spec fn rule_of(columns: Seq<(String, ColumnContract)>, name: Seq<char>) -> Option<int>
    decreases columns.len(),
{
    if columns.len() == 0 {
        None
    } else {
        match rule_of(columns.drop_last(), name) {
            Some(k) => Some(k),
            None => if columns.last().0@ == name {
                Some(columns.len() - 1)
            } else {
                None
            },
        }
    }
}

/// What checking cells has found, and the values that each set of rules has seen.
pub struct Checked {
    pub findings: Seq<FindingView>,
    pub seen: Seq<Set<Seq<u8>>>,
}

/// What was found with one more cell.
pub open spec fn checked_cell(
    s: Checked,
    columns: Seq<(String, ColumnContract)>,
    field: Field,
    cell: Cell,
    shown: Seq<char>,
    number: Option<u64>,
    row: u64,
) -> Checked {
    match rule_of(columns, field.name@) {
        None => s,
        Some(k) => {
            let rule = columns[k].1;
            let value = encoded(item_of(cell));
            Checked {
                findings: s.findings + cell_findings(
                    rule,
                    field.name@,
                    cell,
                    shown,
                    number,
                    s.seen[k].contains(value),
                    row,
                ),
                seen: if !(cell is Null) && rule.unique {
                    s.seen.update(k, s.seen[k].insert(value))
                } else {
                    s.seen
                },
            }
        },
    }
}

/// What was found with the first `n` cells of one more row.
pub open spec fn checked_row(
    s: Checked,
    columns: Seq<(String, ColumnContract)>,
    fields: Seq<Field>,
    batch: Batch,
    shown: Seq<Vec<String>>,
    numbers: Seq<Vec<Option<u64>>>,
    at: int,
    row: u64,
    n: nat,
) -> Checked
    decreases n,
{
    if n == 0 {
        s
    } else {
        checked_cell(
            checked_row(s, columns, fields, batch, shown, numbers, at, row, (n - 1) as nat),
            columns,
            fields[n - 1],
            batch.columns@[n - 1]@[at],
            shown[n - 1]@[at]@,
            numbers[n - 1]@[at],
            row,
        )
    }
}

/// What was found with the first `n` rows of one more batch.
pub open spec fn checked_rows(
    s: Checked,
    columns: Seq<(String, ColumnContract)>,
    fields: Seq<Field>,
    batch: Batch,
    shown: Seq<Vec<String>>,
    numbers: Seq<Vec<Option<u64>>>,
    row_offset: int,
    n: nat,
) -> Checked
    decreases n,
{
    if n == 0 {
        s
    } else {
        checked_row(
            checked_rows(
                s,
                columns,
                fields,
                batch,
                shown,
                numbers,
                row_offset,
                (n - 1) as nat,
            ),
            columns,
            fields,
            batch,
            shown,
            numbers,
            n - 1,
            (row_offset + n - 1) as u64,
            fields.len(),
        )
    }
}

/// The findings of required columns that are not there.
pub open spec fn absent_columns(fields: Seq<Field>, columns: Seq<(String, ColumnContract)>) -> Seq<
    FindingView,
>
    decreases columns.len(),
{
    if columns.len() == 0 {
        Seq::empty()
    } else {
        let before = absent_columns(fields, columns.drop_last());
        let (name, rule) = columns.last();
        if rule.required && first_named(fields, name@) is None {
            before.push(
                FindingView {
                    rule: "required"@,
                    column: name@,
                    row: None,
                    message: "Required column `"@ + name@ + "` is missing"@,
                },
            )
        } else {
            before
        }
    }
}

/// The error of the first pattern that is no regular expression.
pub open spec fn pattern_error(columns: Seq<(String, ColumnContract)>) -> Option<Seq<char>>
    decreases columns.len(),
{
    if columns.len() == 0 {
        None
    } else {
        match pattern_error(columns.drop_last()) {
            Some(e) => Some(e),
            None => match columns.last().1.pattern {
                Some(p) => regex_error(p@),
                None => None,
            },
        }
    }
}

proof fn pattern_error_stays(columns: Seq<(String, ColumnContract)>, n: int)
    requires
        0 <= n <= columns.len(),
        pattern_error(columns.take(n)) is Some,
    ensures
        pattern_error(columns) == pattern_error(columns.take(n)),
    decreases columns.len() - n,
{
    if n < columns.len() {
        assert(columns.take(n + 1).drop_last() =~= columns.take(n));
        pattern_error_stays(columns, n + 1);
    } else {
        assert(columns.take(n) =~= columns);
    }
}

proof fn rule_of_bound(columns: Seq<(String, ColumnContract)>, name: Seq<char>)
    ensures
        rule_of(columns, name) matches Some(k) ==> 0 <= k < columns.len(),
    decreases columns.len(),
{
    if columns.len() > 0 {
        rule_of_bound(columns.drop_last(), name);
    }
}

/// The rules for a column: the first with its name.
fn find_rule(columns: &Vec<(String, ColumnContract)>, name: &str) -> (r: Option<usize>)
    ensures
        match rule_of(columns@, name@) {
            Some(k) => r matches Some(x) && x == k && x < columns@.len(),
            None => r is None,
        },
{
    let mut found: Option<usize> = None;
    let mut i: usize = 0;
    assert(columns@.take(0) =~= Seq::empty());
    while i < columns.len()
        invariant
            i <= columns@.len(),
            match rule_of(columns@.take(i as int), name@) {
                Some(k) => found matches Some(x) && x == k && x < columns@.len(),
                None => found is None,
            },
        decreases columns@.len() - i,
    {
        assert(columns@.take(i + 1).drop_last() =~= columns@.take(i as int));
        assert(columns@.take(i + 1).last() == columns@[i as int]);
        if found.is_none() && str_eq(columns[i].0.as_str(), name) {
            found = Some(i);
        }
        i = i + 1;
    }
    assert(columns@.take(columns@.len() as int) =~= columns@);
    found
}

/// Whether cells stand for every column and row, with display texts and numbers.
pub open spec fn described(
    fields: Seq<Field>,
    batch: Batch,
    shown: Seq<Vec<String>>,
    numbers: Seq<Vec<Option<u64>>>,
) -> bool {
    &&& batch.wf()
    &&& batch.columns@.len() == fields.len()
    &&& shown.len() == fields.len()
    &&& numbers.len() == fields.len()
    &&& forall|c: int|
        #![trigger shown[c]]
        #![trigger numbers[c]]
        #![trigger batch.columns@[c]]
        0 <= c < fields.len() ==> shown[c]@.len() == batch.rows && numbers[c]@.len() == batch.rows
}

/// The rules of a contract at work.
pub struct RuleValidation {
    validation: ValidationState,
    seen: Vec<KeySet>,
    patterns: Vec<Option<regex::Regex>>,
    rule_at: Vec<Option<usize>>,
}

/// The values that sets hold.
pub open spec fn set_views(sets: Seq<KeySet>) -> Seq<Set<Seq<u8>>> {
    sets.map_values(|s: KeySet| s@)
}

impl RuleValidation {
    /// The values that each set of rules has seen.
    pub closed spec fn seen(&self) -> Seq<Set<Seq<u8>>> {
        set_views(self.seen@)
    }

    /// What was found.
    pub closed spec fn found(&self) -> Found {
        self.validation@
    }

    /// The rules belong to a contract and the columns of a table.
    pub closed spec fn wf(&self, contract: Contract, fields: Seq<Field>) -> bool {
        &&& self.validation.wf()
        &&& self.seen@.len() == contract.columns@.len()
        &&& forall|k: int| 0 <= k < self.seen@.len() ==> (#[trigger] self.seen@[k]).wf()
        &&& self.patterns@.len() == contract.columns@.len()
        &&& forall|k: int|
            0 <= k < self.patterns@.len() ==> match contract.columns@[k].1.pattern {
                Some(p) => #[trigger] self.patterns@[k] matches Some(re) && pattern_of(re) == p@,
                None => self.patterns@[k] is None,
            }
        &&& self.rule_at@.len() == fields.len()
        &&& forall|c: int|
            0 <= c < fields.len() ==> match rule_of(contract.columns@, fields[c].name@) {
                Some(k) => #[trigger] self.rule_at@[c] matches Some(x) && x == k && x
                    < contract.columns@.len(),
                None => self.rule_at@[c] is None,
            }
    }

    /// Prepares the rules of a contract for a table: columns that must be there and are not
    /// are found at once.
    pub fn new(schema: &Schema, contract: &Contract) -> (r: Result<Self, ProofFrameError>)
        ensures
            match pattern_error(contract.columns@) {
                Some(m) => r matches Err(e) && e@ == ErrorView::Regex(m),
                None => {
                    &&& r matches Ok(v)
                    &&& v.wf(*contract, schema.fields@)
                    &&& v.found() == recorded_all(
                        Found {
                            findings: Seq::empty(),
                            count: 0,
                            limit: contract.max_findings as nat,
                            places: 0,
                            owed: 0,
                        },
                        absent_columns(schema.fields@, contract.columns@),
                    )
                    &&& v.seen() == Seq::new(
                        contract.columns@.len(),
                        |i: int| Set::<Seq<u8>>::empty(),
                    )
                },
            },
    {
        let mut validation = ValidationState::new(contract.max_findings);
        let ghost start = validation@;
        let mut seen: Vec<KeySet> = Vec::new();
        let mut patterns: Vec<Option<regex::Regex>> = Vec::new();
        let columns = &contract.columns;
        let mut i: usize = 0;
        assert(columns@.take(0) =~= Seq::empty());
        assert(absent_columns(schema.fields@, columns@.take(0)) =~= Seq::empty());
        while i < columns.len()
            invariant
                i <= columns@.len(),
                columns@ == contract.columns@,
                validation.wf(),
                seen@.len() == i,
                patterns@.len() == i,
                pattern_error(columns@.take(i as int)) is None,
                validation@ == recorded_all(
                    start,
                    absent_columns(schema.fields@, columns@.take(i as int)),
                ),
                forall|k: int|
                    0 <= k < i ==> (#[trigger] seen@[k]).wf() && seen@[k]@ == Set::<
                        Seq<u8>,
                    >::empty(),
                forall|k: int|
                    0 <= k < i ==> match columns@[k].1.pattern {
                        Some(p) => #[trigger] patterns@[k] matches Some(re) && pattern_of(re)
                            == p@,
                        None => patterns@[k] is None,
                    },
            decreases columns@.len() - i,
        {
            let entry = &columns[i];
            let ghost now = columns@.take(i as int);
            let ghost next = columns@.take(i + 1);
            proof {
                assert(next.drop_last() =~= now);
                assert(next.last() == *entry);
            }
            if entry.1.required && schema.index_of(entry.0.as_str()).is_none() {
                let ghost list = absent_columns(schema.fields@, next);
                assert(list.drop_last() =~= absent_columns(schema.fields@, now));
                validation.record(
                    Finding {
                        rule: "required",
                        column: text(entry.0.as_str()),
                        row: None,
                        message: cat3("Required column `", entry.0.as_str(), "` is missing"),
                    },
                );
            }
            seen.push(KeySet::new());
            match &entry.1.pattern {
                None => patterns.push(None),
                Some(p) => match regex_new(p.as_str()) {
                    Ok(re) => patterns.push(Some(re)),
                    Err(m) => {
                        proof {
                            pattern_error_stays(columns@, i + 1);
                        }
                        return Err(ProofFrameError::Regex(m));
                    },
                },
            }
            i = i + 1;
        }
        assert(columns@.take(columns@.len() as int) =~= columns@);
        let mut rule_at: Vec<Option<usize>> = Vec::new();
        let mut c: usize = 0;
        while c < schema.fields.len()
            invariant
                c <= schema.fields@.len(),
                rule_at@.len() == c,
                columns@ == contract.columns@,
                forall|k: int|
                    0 <= k < c ==> match rule_of(
                        contract.columns@,
                        schema.fields@[k].name@,
                    ) {
                        Some(j) => #[trigger] rule_at@[k] matches Some(x) && x == j && x
                            < contract.columns@.len(),
                        None => rule_at@[k] is None,
                    },
            decreases schema.fields@.len() - c,
        {
            rule_at.push(find_rule(columns, schema.fields[c].name.as_str()));
            c = c + 1;
        }
        let v = RuleValidation { validation, seen, patterns, rule_at };
        assert(v.seen() =~= Seq::new(columns@.len(), |i: int| Set::<Seq<u8>>::empty()));
        Ok(v)
    }

    /// Records a finding where a rule is broken.
    fn note(
        &mut self,
        is_broken: bool,
        rule: &'static str,
        column: &str,
        row: u64,
        message: String,
    )
        requires
            old(self).validation.wf(),
        ensures
            final(self).validation.wf(),
            final(self).seen == old(self).seen,
            final(self).patterns == old(self).patterns,
            final(self).rule_at == old(self).rule_at,
            final(self).found() == recorded_all(
                old(self).found(),
                broken(is_broken, rule@, column@, row, message@),
            ),
    {
        let ghost list = broken(is_broken, rule@, column@, row, message@);
        if is_broken {
            proof {
                reveal_with_fuel(recorded_all, 2);
                assert(list.drop_last() =~= Seq::empty());
            }
            self.validation.record(
                Finding { rule, column: text(column), row: Some(row), message },
            );
        }
    }

    /// Checks a value against the rules of its column.
    #[verifier::spinoff_prover]
    #[verifier::rlimit(60)]
    fn check_value(
        &mut self,
        contract: &Contract,
        k: usize,
        column: &str,
        shown: &str,
        number: Option<u64>,
        repeated: bool,
        row: u64,
        Ghost(fields): Ghost<Seq<Field>>,
    )
        requires
            old(self).wf(*contract, fields),
            k < contract.columns@.len(),
        ensures
            final(self).wf(*contract, fields),
            final(self).seen == old(self).seen,
            final(self).found() == recorded_all(
                old(self).found(),
                value_findings(
                    contract.columns@[k as int].1,
                    column@,
                    shown@,
                    number,
                    repeated,
                    row,
                ),
            ),
    {
        let rule = &contract.columns[k].1;
        let ghost start = self.found();
        let ghost whole = *rule;
        let ghost a = broken(
            whole.unique && repeated,
            "unique"@,
            column@,
            row,
            "Duplicate value `"@ + shown@ + "`"@,
        );
        let ghost b = broken(
            whole.min is Some && number is Some && below64(
                number.unwrap(),
                whole.min.unwrap().bits,
            ),
            "min"@,
            column@,
            row,
            "Value `"@ + shown@ + "` is below "@ + whole.min.unwrap().shown@,
        );
        let ghost c = broken(
            whole.max is Some && number is Some && below64(
                whole.max.unwrap().bits,
                number.unwrap(),
            ),
            "max"@,
            column@,
            row,
            "Value `"@ + shown@ + "` is above "@ + whole.max.unwrap().shown@,
        );
        let ghost d = broken(
            whole.pattern is Some && !regex_matches(whole.pattern.unwrap()@, shown@),
            "pattern"@,
            column@,
            row,
            "Value `"@ + shown@ + "` does not match `"@ + whole.pattern.unwrap()@ + "`"@,
        );
        let ghost e = broken(
            whole.allowed is Some && !texts(whole.allowed.unwrap()@).contains(shown@),
            "allowed"@,
            column@,
            row,
            "Value `"@ + shown@ + "` is not in the allowlist"@,
        );
        proof {
            recorded_in_parts(start, a, b);
            recorded_in_parts(start, a + b, c);
            recorded_in_parts(start, a + b + c, d);
            recorded_in_parts(start, a + b + c + d, e);
        }
        self.note(
            rule.unique && repeated,
            "unique",
            column,
            row,
            cat3("Duplicate value `", shown, "`"),
        );
        match &rule.min {
            Some(bound) => {
                let under = match number {
                    Some(v) => is_below64(v, bound.bits),
                    None => false,
                };
                self.note(
                    under,
                    "min",
                    column,
                    row,
                    cat4("Value `", shown, "` is below ", bound.shown.as_str()),
                );
            },
            None => {},
        }
        assert(self.found() == recorded_all(start, a + b));
        match &rule.max {
            Some(bound) => {
                let over = match number {
                    Some(v) => is_below64(bound.bits, v),
                    None => false,
                };
                self.note(
                    over,
                    "max",
                    column,
                    row,
                    cat4("Value `", shown, "` is above ", bound.shown.as_str()),
                );
            },
            None => {},
        }
        assert(self.found() == recorded_all(start, a + b + c));
        match &rule.pattern {
            Some(p) => {
                let matched = match &self.patterns[k] {
                    Some(re) => regex_is_match(re, shown),
                    None => true,
                };
                self.note(
                    !matched,
                    "pattern",
                    column,
                    row,
                    cat5("Value `", shown, "` does not match `", p.as_str(), "`"),
                );
            },
            None => {},
        }
        assert(self.found() == recorded_all(start, a + b + c + d));
        match &rule.allowed {
            Some(list) => {
                let listed = str_in(shown, list);
                self.note(
                    !listed,
                    "allowed",
                    column,
                    row,
                    cat3("Value `", shown, "` is not in the allowlist"),
                );
            },
            None => {},
        }
    }

    /// Checks a cell against the rules of its column.
    #[verifier::spinoff_prover]
    #[verifier::rlimit(60)]
    fn check_cell(
        &mut self,
        contract: &Contract,
        schema: &Schema,
        c: usize,
        cell: &Cell,
        shown: &str,
        number: Option<u64>,
        row: u64,
        Ghost(s): Ghost<Checked>,
        Ghost(start): Ghost<Found>,
    )
        requires
            old(self).wf(*contract, schema.fields@),
            c < schema.fields@.len(),
            encodable(item_of(*cell)),
            s.seen == old(self).seen(),
            old(self).found() == recorded_all(start, s.findings),
        ensures
            final(self).wf(*contract, schema.fields@),
            ({
                let t = checked_cell(
                    s,
                    contract.columns@,
                    schema.fields@[c as int],
                    *cell,
                    shown@,
                    number,
                    row,
                );
                final(self).seen() == t.seen && final(self).found() == recorded_all(
                    start,
                    t.findings,
                )
            }),
    {
        let column = schema.fields[c].name.as_str();
        assert(self.rule_at@[c as int] == self.rule_at@[c as int]);
        let k: usize = match self.rule_at[c] {
            None => return,
            Some(k) => k,
        };
        let ghost rule = contract.columns@[k as int].1;
        let ghost value = encoded(item_of(*cell));
        let ghost repeated = s.seen[k as int].contains(value);
        let ghost more = cell_findings(
            rule,
            column@,
            *cell,
            shown@,
            number,
            repeated,
            row,
        );
        proof {
            recorded_in_parts(start, s.findings, more);
        }
        let null = match cell {
            Cell::Null => true,
            _ => false,
        };
        if null {
            self.note(
                contract.columns[k].1.not_null,
                "not_null",
                column,
                row,
                text("Null value is not allowed"),
            );
            return;
        }
        let mut again = false;
        if contract.columns[k].1.unique {
            let bytes = match canonical_value_bytes(cell) {
                Some(b) => b,
                None => Vec::new(),
            };
            assert(self.seen@[k as int].wf());
            assert(self.seen()[k as int] == self.seen@[k as int]@);
            let ghost before = self.seen@;
            let mut set = KeySet::new();
            std::mem::swap(&mut self.seen[k], &mut set);
            let is_new = set.insert(bytes.as_slice());
            self.seen.set(k, set);
            again = !is_new;
            proof {
                assert(self.seen@ =~= before.update(k as int, set));
                assert(self.seen() =~= s.seen.update(k as int, s.seen[k as int].insert(value)));
            }
        }
        self.check_value(
            contract,
            k,
            column,
            shown,
            number,
            again,
            row,
            Ghost(schema.fields@),
        );
        proof {
            if !rule.unique {
                assert(value_findings(rule, column@, shown@, number, false, row)
                    =~= value_findings(rule, column@, shown@, number, repeated, row));
            }
        }
    }

    /// Checks the cells of a batch, row by row.
    #[verifier::spinoff_prover]
    #[verifier::rlimit(60)]
    pub fn update(
        &mut self,
        contract: &Contract,
        schema: &Schema,
        batch: &Batch,
        shown: &Vec<Vec<String>>,
        numbers: &Vec<Vec<Option<u64>>>,
        row_offset: u64,
    )
        requires
            old(self).wf(*contract, schema.fields@),
            described(schema.fields@, *batch, shown@, numbers@),
            readable(*batch, schema.fields@.len()),
            row_offset + batch.rows <= u64::MAX,
        ensures
            final(self).wf(*contract, schema.fields@),
            ({
                let t = checked_rows(
                    Checked { findings: Seq::empty(), seen: old(self).seen() },
                    contract.columns@,
                    schema.fields@,
                    *batch,
                    shown@,
                    numbers@,
                    row_offset as int,
                    batch.rows as nat,
                );
                final(self).seen() == t.seen && final(self).found() == recorded_all(
                    old(self).found(),
                    t.findings,
                )
            }),
    {
        let ghost start = self.found();
        let ghost s0 = Checked { findings: Seq::empty(), seen: self.seen() };
        let ghost columns = contract.columns@;
        let ghost fields = schema.fields@;
        let ghost offset = row_offset as int;
        let mut r: usize = 0;
        while r < batch.rows
            invariant
                r <= batch.rows,
                self.wf(*contract, schema.fields@),
                described(schema.fields@, *batch, shown@, numbers@),
                readable(*batch, schema.fields@.len()),
                row_offset + batch.rows <= u64::MAX,
                columns == contract.columns@,
                fields == schema.fields@,
                offset == row_offset,
                start == old(self).found(),
                s0 == (Checked { findings: Seq::empty(), seen: old(self).seen() }),
                ({
                    let t = checked_rows(
                        s0,
                        columns,
                        fields,
                        *batch,
                        shown@,
                        numbers@,
                        offset,
                        r as nat,
                    );
                    self.seen() == t.seen && self.found() == recorded_all(start, t.findings)
                }),
            decreases batch.rows - r,
        {
            let ghost t = checked_rows(
                s0,
                columns,
                fields,
                *batch,
                shown@,
                numbers@,
                offset,
                r as nat,
            );
            let row: u64 = row_offset + r as u64;
            let mut c: usize = 0;
            while c < batch.columns.len()
                invariant
                    r < batch.rows,
                    c <= batch.columns@.len(),
                    self.wf(*contract, schema.fields@),
                    described(schema.fields@, *batch, shown@, numbers@),
                    readable(*batch, schema.fields@.len()),
                    columns == contract.columns@,
                    fields == schema.fields@,
                    ({
                        let u = checked_row(
                            t,
                            columns,
                            fields,
                            *batch,
                            shown@,
                            numbers@,
                            r as int,
                            row,
                            c as nat,
                        );
                        self.seen() == u.seen && self.found() == recorded_all(start, u.findings)
                    }),
                decreases batch.columns@.len() - c,
            {
                let ghost u = checked_row(
                    t,
                    columns,
                    fields,
                    *batch,
                    shown@,
                    numbers@,
                    r as int,
                    row,
                    c as nat,
                );
                assert(batch.columns@[c as int]@.len() == batch.rows);
                assert(shown@[c as int]@.len() == batch.rows);
                let cell = &batch.columns[c][r];
                assert(encodable(item_of(batch.columns@[c as int]@[r as int])));
                let number: Option<u64> = numbers[c][r];
                self.check_cell(
                    contract,
                    schema,
                    c,
                    cell,
                    shown[c][r].as_str(),
                    number,
                    row,
                    Ghost(u),
                    Ghost(start),
                );
                c = c + 1;
            }
            r = r + 1;
        }
    }

    /// The outcome of all checks.
    pub fn finish(self) -> (r: ValidationOutcome)
        ensures
            crate::execution::validation::finding_views(r.findings@) == self.found().findings,
            r.violation_count == self.found().count,
            r.truncated == (self.found().count > self.found().findings.len()),
    {
        self.validation.finish()
    }
}

} // verus!
