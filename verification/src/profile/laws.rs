//! What a profile says of its columns.

use crate::contract::rules::regex_matches;
use crate::encoding::{encoded, item_of};
use crate::execution::validation::FindingView;
use crate::numbers::{binary_places, exponent64, finite64, fraction64, nan64, significand64};
use crate::profile::agreement::{floats64_order_as_numbers, units64};
use crate::profile::columns::{column_entries, highest, lowest, nulls};
use crate::profile::legacy::{whole64, ColumnContract};
use crate::profile::rules::{
    absent_columns, below64, broken, cell_findings, checked_cell, checked_row, checked_rows,
    rule_of, value_findings, Checked,
};
use crate::text::texts;
use crate::value::{first_named, first_named_is_first, Batch, Cell, Field};
use vstd::arithmetic::power2::{lemma_pow2_adds, lemma_pow2_pos, pow2};
use vstd::prelude::*;

verus! {

/// The nulls of a column are counted one by one.
pub proof fn profiles_count_nulls(cells: Seq<Cell>)
    ensures
        nulls(cells) == cells.filter(|c: Cell| c is Null).len(),
        nulls(cells) <= cells.len(),
    decreases cells.len(),
{
    reveal(Seq::filter);
    if cells.len() > 0 {
        profiles_count_nulls(cells.drop_last());
    }
}

/// Whether a row of a column holds a float that is a number.
pub open spec fn holds_number(cells: Seq<Cell>, numbers: Seq<Option<u64>>, i: int) -> bool {
    0 <= i < cells.len() && !(cells[i] is Null) && numbers[i] is Some && !nan64(numbers[i].unwrap())
}

/// The least and the greatest number of a column are numbers of the column, and none of its
/// numbers is less than the one or greater than the other.
pub proof fn extremes_bound_every_number(cells: Seq<Cell>, numbers: Seq<Option<u64>>)
    requires
        numbers.len() >= cells.len(),
    ensures
        ({
            let low = lowest(None, cells, numbers);
            let high = highest(None, cells, numbers);
            &&& forall|i: int|
                #[trigger] holds_number(cells, numbers, i) ==> low is Some && high is Some
                    && !nan64(low.unwrap()) && !nan64(high.unwrap()) && units64(low.unwrap())
                    <= units64(numbers[i].unwrap()) <= units64(high.unwrap())
            &&& low matches Some(v) ==> (nan64(v) || exists|i: int|
                #[trigger] holds_number(cells, numbers, i) && numbers[i] == Some(v))
            &&& high matches Some(v) ==> (nan64(v) || exists|i: int|
                #[trigger] holds_number(cells, numbers, i) && numbers[i] == Some(v))
        }),
    decreases cells.len(),
{
    if cells.len() > 0 {
        let rest = cells.drop_last();
        extremes_bound_every_number(rest, numbers);
        let (l, h) = (lowest(None, rest, numbers), highest(None, rest, numbers));
        let low = lowest(None, cells, numbers);
        let high = highest(None, cells, numbers);
        let last = cells.len() - 1;
        assert forall|i: int| #[trigger] holds_number(cells, numbers, i) implies low is Some
            && high is Some && !nan64(low.unwrap()) && !nan64(high.unwrap()) && units64(
            low.unwrap(),
        ) <= units64(numbers[i].unwrap()) <= units64(high.unwrap()) by {
            if i < last {
                assert(holds_number(rest, numbers, i));
            }
            if !(cells.last() is Null) && numbers[last] is Some {
                let n = numbers[last].unwrap();
                if l is Some {
                    floats64_order_as_numbers(n, l.unwrap());
                }
                if h is Some {
                    floats64_order_as_numbers(h.unwrap(), n);
                }
            }
        }
        if low is Some && !nan64(low.unwrap()) {
            if low == l {
                let i = choose|i: int|
                    #[trigger] holds_number(rest, numbers, i) && numbers[i] == low;
                assert(holds_number(cells, numbers, i));
            } else {
                assert(holds_number(cells, numbers, last));
            }
        }
        if high is Some && !nan64(high.unwrap()) {
            if high == h {
                let i = choose|i: int|
                    #[trigger] holds_number(rest, numbers, i) && numbers[i] == high;
                assert(holds_number(cells, numbers, i));
            } else {
                assert(holds_number(cells, numbers, last));
            }
        }
    }
}

/// The values of a column that are counted are those that are not null, each under the number of
/// its row.
pub proof fn profiles_count_every_value(cells: Seq<Cell>, row_offset: int, i: int)
    requires
        0 <= i < cells.len(),
    ensures
        !(cells[i] is Null) ==> column_entries(cells, row_offset).contains(
            (
                crate::distinct::order::Key::Bytes(encoded(item_of(cells[i]))),
                (row_offset + i) as u64,
            ),
        ),
        column_entries(cells, row_offset).len() == cells.len() - nulls(cells),
    decreases cells.len(),
{
    let rest = cells.drop_last();
    let before = column_entries(rest, row_offset);
    let all = column_entries(cells, row_offset);
    if rest.len() > 0 {
        profiles_count_every_value(
            rest,
            row_offset,
            if i < rest.len() {
                i
            } else {
                0
            },
        );
    } else {
        assert(nulls(rest) == 0);
        assert(before.len() == 0);
    }
    if !(cells[i] is Null) {
        let entry = (
            crate::distinct::order::Key::Bytes(encoded(item_of(cells[i]))),
            (row_offset + i) as u64,
        );
        if i < rest.len() {
            let k = choose|k: int| 0 <= k < before.len() && before[k] == entry;
            assert(all[k] == entry);
        } else {
            assert(all[all.len() - 1] == entry);
        }
    }
}

/// Whether a rule is among findings.
pub open spec fn names_rule(findings: Seq<FindingView>, rule: Seq<char>) -> bool {
    exists|k: int| 0 <= k < findings.len() && (#[trigger] findings[k]).rule == rule
}

proof fn named_in_either(a: Seq<FindingView>, b: Seq<FindingView>, rule: Seq<char>)
    ensures
        names_rule(a + b, rule) <==> names_rule(a, rule) || names_rule(b, rule),
{
    let c = a + b;
    if names_rule(a, rule) {
        let k = choose|k: int| 0 <= k < a.len() && (#[trigger] a[k]).rule == rule;
        assert(c[k] == a[k]);
    }
    if names_rule(b, rule) {
        let k = choose|k: int| 0 <= k < b.len() && (#[trigger] b[k]).rule == rule;
        assert(c[a.len() + k] == b[k]);
    }
    if names_rule(c, rule) {
        let k = choose|k: int| 0 <= k < c.len() && (#[trigger] c[k]).rule == rule;
        if k < a.len() {
            assert(a[k].rule == rule);
        } else {
            assert(b[k - a.len()].rule == rule);
        }
    }
}

proof fn named_where_broken(
    is_broken: bool,
    rule: Seq<char>,
    column: Seq<char>,
    row: u64,
    message: Seq<char>,
    name: Seq<char>,
)
    ensures
        names_rule(broken(is_broken, rule, column, row, message), name) <==> is_broken && rule == name,
{
    if is_broken {
        assert(broken(is_broken, rule, column, row, message)[0].rule == rule);
    }
}

proof fn profile_rules_differ()
    ensures
        "unique"@ != "min"@,
        "unique"@ != "max"@,
        "unique"@ != "pattern"@,
        "unique"@ != "allowed"@,
        "min"@ != "max"@,
        "min"@ != "pattern"@,
        "min"@ != "allowed"@,
        "max"@ != "pattern"@,
        "max"@ != "allowed"@,
        "pattern"@ != "allowed"@,
{
    reveal_strlit("unique");
    reveal_strlit("min");
    reveal_strlit("max");
    reveal_strlit("pattern");
    reveal_strlit("allowed");
    assert("unique"@.len() == 6 && "min"@.len() == 3 && "max"@.len() == 3);
    assert("pattern"@.len() == 7 && "allowed"@.len() == 7);
    assert("min"@[1] == 'i' && "max"@[1] == 'a' && "pattern"@[0] == 'p' && "allowed"@[0] == 'a');
}

/// A value breaks exactly the rules of a profile that it should: it repeats, its number is less
/// than the minimum or greater than the maximum, its text does not match or is not on the list.
pub proof fn profiled_values_break_the_rules_they_should(
    rule: ColumnContract,
    column: Seq<char>,
    shown: Seq<char>,
    number: Option<u64>,
    repeated: bool,
    row: u64,
    name: Seq<char>,
)
    requires
        number matches Some(n) ==> !nan64(n),
        rule.min matches Some(b) ==> !nan64(b.bits),
        rule.max matches Some(b) ==> !nan64(b.bits),
    ensures
        names_rule(value_findings(rule, column, shown, number, repeated, row), name) <==> {
            ||| name == "unique"@ && rule.unique && repeated
            ||| name == "min"@ && (rule.min matches Some(b) && number matches Some(n) && units64(n)
                < units64(b.bits))
            ||| name == "max"@ && (rule.max matches Some(b) && number matches Some(n) && units64(n)
                > units64(b.bits))
            ||| name == "pattern"@ && (rule.pattern matches Some(p) && !regex_matches(p@, shown))
            ||| name == "allowed"@ && (rule.allowed matches Some(list) && !texts(list@).contains(
                shown,
            ))
        },
        forall|k: int|
            0 <= k < value_findings(rule, column, shown, number, repeated, row).len() ==> (
            #[trigger] value_findings(rule, column, shown, number, repeated, row)[k]).row == Some(
                row,
            ),
{
    profile_rules_differ();
    if number is Some && rule.min is Some {
        floats64_order_as_numbers(number.unwrap(), rule.min.unwrap().bits);
    }
    if number is Some && rule.max is Some {
        floats64_order_as_numbers(rule.max.unwrap().bits, number.unwrap());
    }
    let low = rule.min is Some && number is Some && below64(
        number.unwrap(),
        rule.min.unwrap().bits,
    );
    let high = rule.max is Some && number is Some && below64(
        rule.max.unwrap().bits,
        number.unwrap(),
    );
    let odd = rule.pattern is Some && !regex_matches(rule.pattern.unwrap()@, shown);
    let strange = rule.allowed is Some && !texts(rule.allowed.unwrap()@).contains(shown);
    let a = broken(
        rule.unique && repeated,
        "unique"@,
        column,
        row,
        "Duplicate value `"@ + shown + "`"@,
    );
    let low_text = "Value `"@ + shown + "` is below "@ + rule.min.unwrap().shown@;
    let high_text = "Value `"@ + shown + "` is above "@ + rule.max.unwrap().shown@;
    let odd_text = "Value `"@ + shown + "` does not match `"@ + rule.pattern.unwrap()@ + "`"@;
    let strange_text = "Value `"@ + shown + "` is not in the allowlist"@;
    let b = broken(low, "min"@, column, row, low_text);
    let c = broken(high, "max"@, column, row, high_text);
    let d = broken(odd, "pattern"@, column, row, odd_text);
    let e = broken(strange, "allowed"@, column, row, strange_text);
    named_where_broken(
        rule.unique && repeated,
        "unique"@,
        column,
        row,
        "Duplicate value `"@ + shown + "`"@,
        name,
    );
    named_where_broken(low, "min"@, column, row, low_text, name);
    named_where_broken(high, "max"@, column, row, high_text, name);
    named_where_broken(odd, "pattern"@, column, row, odd_text, name);
    named_where_broken(strange, "allowed"@, column, row, strange_text, name);
    named_in_either(a, b, name);
    named_in_either(a + b, c, name);
    named_in_either(a + b + c, d, name);
    named_in_either(a + b + c + d, e, name);
    assert(value_findings(rule, column, shown, number, repeated, row) == a + b + c + d + e);
}

/// A null breaks the rule against nulls, and no other.
pub proof fn profiled_nulls_break_one_rule(
    rule: ColumnContract,
    column: Seq<char>,
    shown: Seq<char>,
    number: Option<u64>,
    repeated: bool,
    row: u64,
)
    ensures
        cell_findings(rule, column, Cell::Null, shown, number, repeated, row).len()
            == if rule.not_null {
            1nat
        } else {
            0nat
        },
        rule.not_null ==> cell_findings(rule, column, Cell::Null, shown, number, repeated, row)[0].rule
            == "not_null"@,
{
}

/// Under a rule of uniqueness a value is found to repeat exactly where it was seen before: in the
/// rows that came earlier, or in the row just before.
pub proof fn repeated_values_are_found(
    s: Checked,
    columns: Seq<(String, ColumnContract)>,
    field: Field,
    a: Cell,
    b: Cell,
    shown: Seq<char>,
    row: u64,
    next: u64,
)
    requires
        rule_of(columns, field.name@) matches Some(k) ==> 0 <= k < s.seen.len()
            && columns[k].1.unique && columns[k].1.min is None && columns[k].1.max is None
            && columns[k].1.pattern is None && columns[k].1.allowed is None,
        !(a is Null),
        !(b is Null),
    ensures
        rule_of(columns, field.name@) matches Some(k) ==> ({
            let t = checked_cell(s, columns, field, a, shown, None, row);
            let u = checked_cell(t, columns, field, b, shown, None, next);
            &&& u.findings.len() - t.findings.len() == if s.seen[k].contains(encoded(item_of(b)))
                || encoded(item_of(a)) == encoded(item_of(b)) {
                1int
            } else {
                0
            }
            &&& u.findings.len() > t.findings.len() ==> u.findings.last().row == Some(next)
                && u.findings.last().rule == "unique"@
        }),
{
    if let Some(k) = rule_of(columns, field.name@) {
        let t = checked_cell(s, columns, field, a, shown, None, row);
        let u = checked_cell(t, columns, field, b, shown, None, next);
        let repeated = t.seen[k].contains(encoded(item_of(b)));
        let more = value_findings(columns[k].1, field.name@, shown, None, repeated, next);
        let first = broken(
            repeated,
            "unique"@,
            field.name@,
            next,
            "Duplicate value `"@ + shown + "`"@,
        );
        assert(more =~= first);
        assert(u.findings == t.findings + more);
    }
}

/// The rules for a column are the first under its name.
pub proof fn rules_are_the_first_under_a_name(
    columns: Seq<(String, ColumnContract)>,
    name: Seq<char>,
)
    ensures
        match rule_of(columns, name) {
            Some(k) => 0 <= k < columns.len() && columns[k].0@ == name && forall|j: int|
                0 <= j < k ==> (#[trigger] columns[j]).0@ != name,
            None => forall|j: int| 0 <= j < columns.len() ==> (#[trigger] columns[j]).0@ != name,
        },
    decreases columns.len(),
{
    if columns.len() > 0 {
        let rest = columns.drop_last();
        rules_are_the_first_under_a_name(rest, name);
        assert forall|j: int| 0 <= j < rest.len() implies rest[j] == #[trigger] columns[j] by {}
    }
}

/// Whether a finding on a missing column is among findings.
pub open spec fn reports_missing(findings: Seq<FindingView>, name: Seq<char>) -> bool {
    exists|k: int|
        0 <= k < findings.len() && (#[trigger] findings[k]).column == name && findings[k].rule
            == "required"@
}

/// A required column is reported as missing exactly where no field has its name.
pub proof fn missing_columns_are_reported(
    fields: Seq<Field>,
    columns: Seq<(String, ColumnContract)>,
    i: int,
)
    requires
        0 <= i < columns.len(),
        columns[i].1.required,
    ensures
        (forall|j: int| 0 <= j < fields.len() ==> (#[trigger] fields[j]).name@ != columns[i].0@)
            ==> reports_missing(absent_columns(fields, columns), columns[i].0@),
        absent_columns(fields, columns).len() == 0 ==> exists|j: int|
            0 <= j < fields.len() && (#[trigger] fields[j]).name@ == columns[i].0@,
    decreases columns.len(),
{
    let rest = columns.drop_last();
    let before = absent_columns(fields, rest);
    let all = absent_columns(fields, columns);
    first_named_is_first(fields, columns[i].0@);
    if i < rest.len() {
        assert(rest[i] == columns[i]);
        missing_columns_are_reported(fields, rest, i);
        if reports_missing(before, columns[i].0@) {
            let k = choose|k: int|
                0 <= k < before.len() && (#[trigger] before[k]).column == columns[i].0@
                    && before[k].rule == "required"@;
            assert(all[k] == before[k]);
        }
    } else {
        if first_named(fields, columns[i].0@) is None {
            assert(all[all.len() - 1].column == columns[i].0@);
        }
    }
}

/// Whether every finding of one list is among those of another.
pub open spec fn among(some: Seq<FindingView>, all: Seq<FindingView>) -> bool {
    forall|k: int| 0 <= k < some.len() ==> all.contains(#[trigger] some[k])
}

proof fn among_more(some: Seq<FindingView>, a: Seq<FindingView>, b: Seq<FindingView>)
    ensures
        among(some, a) ==> among(some, a + b),
        among(b, a + b),
{
    let all = a + b;
    assert forall|k: int| 0 <= k < b.len() implies all.contains(#[trigger] b[k]) by {
        assert(all[a.len() + k] == b[k]);
    }
    if among(some, a) {
        assert forall|k: int| 0 <= k < some.len() implies all.contains(#[trigger] some[k]) by {
            assert(a.contains(some[k]));
            let i = choose|i: int| 0 <= i < a.len() && a[i] == some[k];
            assert(all[i] == some[k]);
        }
    }
}

proof fn cell_keeps_findings(
    some: Seq<FindingView>,
    s: Checked,
    columns: Seq<(String, ColumnContract)>,
    field: Field,
    cell: Cell,
    shown: Seq<char>,
    number: Option<u64>,
    row: u64,
)
    requires
        among(some, s.findings),
    ensures
        among(some, checked_cell(s, columns, field, cell, shown, number, row).findings),
{
    if let Some(k) = rule_of(columns, field.name@) {
        among_more(
            some,
            s.findings,
            cell_findings(
                columns[k].1,
                field.name@,
                cell,
                shown,
                number,
                s.seen[k].contains(encoded(item_of(cell))),
                row,
            ),
        );
    }
}

proof fn row_keeps_findings(
    some: Seq<FindingView>,
    s: Checked,
    columns: Seq<(String, ColumnContract)>,
    fields: Seq<Field>,
    batch: Batch,
    shown: Seq<Vec<String>>,
    numbers: Seq<Vec<Option<u64>>>,
    at: int,
    row: u64,
    m: nat,
    n: nat,
)
    requires
        m <= n,
        among(some, checked_row(s, columns, fields, batch, shown, numbers, at, row, m).findings),
    ensures
        among(some, checked_row(s, columns, fields, batch, shown, numbers, at, row, n).findings),
    decreases n - m,
{
    if m < n {
        let l = (n - 1) as nat;
        row_keeps_findings(some, s, columns, fields, batch, shown, numbers, at, row, m, l);
        cell_keeps_findings(
            some,
            checked_row(s, columns, fields, batch, shown, numbers, at, row, l),
            columns,
            fields[n - 1],
            batch.columns@[n - 1]@[at],
            shown[n - 1]@[at]@,
            numbers[n - 1]@[at],
            row,
        );
    }
}

/// Whether what a cell breaks is among some findings, be it a repeat or not.
pub open spec fn cell_told(
    rule: ColumnContract,
    column: Seq<char>,
    cell: Cell,
    shown: Seq<char>,
    number: Option<u64>,
    row: u64,
    findings: Seq<FindingView>,
) -> bool {
    exists|repeated: bool|
        among(#[trigger] cell_findings(rule, column, cell, shown, number, repeated, row), findings)
}

/// Every cell of every row is checked under the rules of its column, at its row.
pub proof fn every_profiled_cell_is_checked(
    s: Checked,
    columns: Seq<(String, ColumnContract)>,
    fields: Seq<Field>,
    batch: Batch,
    shown: Seq<Vec<String>>,
    numbers: Seq<Vec<Option<u64>>>,
    row_offset: int,
    n: nat,
    r: int,
    c: int,
)
    requires
        0 <= r < n,
        0 <= c < fields.len(),
        rule_of(columns, fields[c].name@) is Some,
    ensures
        cell_told(
            columns[rule_of(columns, fields[c].name@).unwrap()].1,
            fields[c].name@,
            batch.columns@[c]@[r],
            shown[c]@[r]@,
            numbers[c]@[r],
            (row_offset + r) as u64,
            checked_rows(s, columns, fields, batch, shown, numbers, row_offset, n).findings,
        ),
    decreases n,
{
    let m = (n - 1) as nat;
    let before = checked_rows(s, columns, fields, batch, shown, numbers, row_offset, m);
    let row = (row_offset + r) as u64;
    let k = rule_of(columns, fields[c].name@).unwrap();
    let rule = columns[k].1;
    let cell = batch.columns@[c]@[r];
    if r < m {
        every_profiled_cell_is_checked(
            s,
            columns,
            fields,
            batch,
            shown,
            numbers,
            row_offset,
            m,
            r,
            c,
        );
        let repeated = choose|repeated: bool|
            among(
                #[trigger] cell_findings(
                    rule,
                    fields[c].name@,
                    cell,
                    shown[c]@[r]@,
                    numbers[c]@[r],
                    repeated,
                    row,
                ),
                before.findings,
            );
        let own = cell_findings(
            rule,
            fields[c].name@,
            cell,
            shown[c]@[r]@,
            numbers[c]@[r],
            repeated,
            row,
        );
        row_keeps_findings(
            own,
            before,
            columns,
            fields,
            batch,
            shown,
            numbers,
            n - 1,
            (row_offset + n - 1) as u64,
            0,
            fields.len(),
        );
    } else {
        let so_far = checked_row(before, columns, fields, batch, shown, numbers, r, row, c as nat);
        let own = cell_findings(
            rule,
            fields[c].name@,
            cell,
            shown[c]@[r]@,
            numbers[c]@[r],
            so_far.seen[k].contains(encoded(item_of(cell))),
            row,
        );
        among_more(own, so_far.findings, own);
        row_keeps_findings(
            own,
            before,
            columns,
            fields,
            batch,
            shown,
            numbers,
            r,
            row,
            (c + 1) as nat,
            fields.len(),
        );
    }
}

/// The number of a float without its sign, in the units of `units64`.
pub open spec fn magnitude64(bits: u64) -> int {
    if units64(bits) < 0 {
        -units64(bits)
    } else {
        units64(bits)
    }
}

/// A bound is spelled as a whole number exactly where its number is one: a multiple of one.
pub proof fn whole_numbers_are_told(bits: u64)
    requires
        finite64(bits),
    ensures
        whole64(bits) <==> magnitude64(bits) % (pow2(1075) as int) == 0,
{
    let top: u64 = 0x8000_0000_0000_0000;
    let unit: nat = 0x10_0000_0000_0000;
    let m: nat = if bits < top {
        bits as nat
    } else {
        (bits - top) as nat
    };
    let e = exponent64(bits);
    assert(e == m / unit && fraction64(bits) == m % unit);
    let sig = significand64(bits);
    let shift: nat = if e == 0 {
        1
    } else {
        e
    };
    lemma_pow2_pos(shift);
    lemma_pow2_pos(1075);
    assert(sig * pow2(shift) >= 0) by (nonlinear_arith);
    assert(magnitude64(bits) == sig * pow2(shift));
    if e >= 1075 {
        let over = (e - 1075) as nat;
        lemma_pow2_adds(over, 1075);
        let k = (sig * pow2(over)) as int;
        assert(sig * pow2(shift) == k * pow2(1075)) by (nonlinear_arith)
            requires
                pow2(over) * pow2(1075) == pow2(shift),
                k == sig * pow2(over),
        ;
        vstd::arithmetic::div_mod::lemma_mod_multiples_basic(k, pow2(1075) as int);
    } else {
        let places = binary_places(bits);
        assert(places + shift == 1075);
        lemma_pow2_pos(places);
        lemma_pow2_adds(shift, places);
        vstd::arithmetic::div_mod::lemma_truncate_middle(
            sig as int,
            pow2(shift) as int,
            pow2(places) as int,
        );
        let b = pow2(shift) as int;
        let r = sig as int % pow2(places) as int;
        vstd::arithmetic::div_mod::lemma_mod_bound(sig as int, pow2(places) as int);
        assert(b * (sig as int) == sig * pow2(shift)) by (nonlinear_arith)
            requires
                b == pow2(shift),
        ;
        assert(b * r == 0 <==> r == 0) by (nonlinear_arith)
            requires
                b > 0,
                r >= 0,
        ;
    }
}

} // verus!
