//! What a reader of a file, a caller and a verifier may rely on.

use crate::contract::json::Json;
use crate::execution::meaning::{of_type, whole};
use crate::surface::attest::{assembly_error, IdentityView};
use crate::surface::csv::{
    cell_of, column_fits, height, is_type, row_shown, shown_error, shown_rows, texts_where_empty,
    window, CsvColumn, CsvRows, Shown,
};
use crate::surface::requests::pii_request_error;
use crate::value::{Cell, DataType};
use vstd::prelude::*;

verus! {

/// The value of a column at a row is there or missing.
pub open spec fn value_there(column: CsvColumn, row: int) -> bool {
    match column {
        CsvColumn::Wholes(s) => s[row] is Some,
        CsvColumn::Floats(s) => s[row] is Some,
        CsvColumn::Words(s) => s[row] is Some,
        CsvColumn::Unread => false,
    }
}

proof fn kinds_differ()
    ensures
        "Null"@ != "Utf8"@ && "Null"@ != "Float64"@ && "Null"@ != "Boolean"@ && "Null"@ != "Int64"@
            && "Null"@ != "Date32"@,
        "Boolean"@ != "Int64"@ && "Boolean"@ != "Float64"@ && "Boolean"@ != "Date32"@ && "Boolean"@
            != "Utf8"@,
        "Int64"@ != "Float64"@ && "Int64"@ != "Date32"@ && "Int64"@ != "Utf8"@,
        "Float64"@ != "Date32"@ && "Float64"@ != "Utf8"@,
        "Date32"@ != "Utf8"@,
{
    reveal_strlit("Null");
    reveal_strlit("Boolean");
    reveal_strlit("Int64");
    reveal_strlit("Float64");
    reveal_strlit("Date32");
    reveal_strlit("Utf8");
    assert("Null"@[0] == 'N' && "Boolean"@[0] == 'B' && "Int64"@[0] == 'I');
    assert("Float64"@[0] == 'F' && "Date32"@[0] == 'D' && "Utf8"@[0] == 'U');
}

/// A cell that is read from a file is null exactly where the file holds nothing, and otherwise of
/// the type of its column, with the number, the bits or the text that was read; a truth value is
/// true where its number is not zero.
pub proof fn cells_hold_what_was_read(
    cell: Cell,
    column: CsvColumn,
    kind: Seq<char>,
    data_type: DataType,
    row: int,
)
    requires
        cell_of(cell, column, kind, row),
        column_fits(column, kind),
        is_type(data_type, kind),
        !(column is Unread),
    ensures
        cell is Null <==> !value_there(column, row),
        value_there(column, row) && !(cell is Other) ==> of_type(cell, data_type),
        cell is Other ==> data_type is Date32 && (column matches CsvColumn::Wholes(s) && (
        s[row].unwrap() < i32::MIN || s[row].unwrap() > i32::MAX)),
        column matches CsvColumn::Wholes(s) ==> (s[row] matches Some(v) ==> (
        cell matches Cell::Boolean(b) ==> (!b <==> v == 0)) && (whole(cell) matches Some(n) ==> n
            == v)),
        column matches CsvColumn::Wholes(s) && !(data_type is Boolean) && !(cell is Null) && !(
        cell is Other) ==> whole(cell) is Some,
        column matches CsvColumn::Floats(s) ==> (s[row] matches Some(v) ==> cell == Cell::Float64(
            v,
        )),
        column matches CsvColumn::Words(s) ==> (s[row] matches Some(v) ==> (
        cell matches Cell::Utf8(w) && w@ == v)),
{
    kinds_differ();
}

/// A column in which nothing was found is read as text; every other column keeps its type, and
/// every column its name and its place.
pub proof fn empty_columns_are_texts(columns: Seq<(Seq<char>, Seq<char>)>, i: int)
    requires
        0 <= i < columns.len(),
    ensures
        texts_where_empty(columns).len() == columns.len(),
        texts_where_empty(columns)[i].0 == columns[i].0,
        texts_where_empty(columns)[i].1 != "Null"@,
        columns[i].1 != "Null"@ ==> texts_where_empty(columns)[i].1 == columns[i].1,
        columns[i].1 == "Null"@ ==> texts_where_empty(columns)[i].1 == "Utf8"@,
{
    kinds_differ();
}

/// The number of rows of the first batches.
pub open spec fn rows_before(tables: Seq<CsvRows>, n: nat) -> nat
    decreases n,
{
    if n == 0 {
        0
    } else {
        rows_before(tables, (n - 1) as nat) + height(tables[n - 1])
    }
}

/// The rows of every batch are shown, in order, each once: behind all the rows of the batches
/// before it.
pub proof fn every_row_is_shown(tables: Seq<CsvRows>, n: nat, t: int, row: int)
    requires
        n <= tables.len(),
        0 <= t < n,
        0 <= row < height(tables[t]),
    ensures
        shown_rows(tables, n).len() == rows_before(tables, n),
        rows_before(tables, t as nat) + row < rows_before(tables, n),
        shown_rows(tables, n)[rows_before(tables, t as nat) + row] == row_shown(tables[t], row),
    decreases n,
{
    let m = (n - 1) as nat;
    shown_count(tables, m);
    shown_count(tables, n);
    if t < m {
        every_row_is_shown(tables, m, t, row);
    }
}

proof fn shown_count(tables: Seq<CsvRows>, n: nat)
    requires
        n <= tables.len(),
    ensures
        shown_rows(tables, n).len() == rows_before(tables, n),
    decreases n,
{
    if n > 0 {
        shown_count(tables, (n - 1) as nat);
    }
}

/// A page of a table holds the rows from its start on, in order, as many as were asked for while
/// there are any; the pages that follow one another hold together what one page would.
pub proof fn pages_follow_one_another(rows: Seq<Seq<Shown>>, start: int, first: int, second: int)
    requires
        0 <= start,
        0 <= first,
        0 <= second,
    ensures
        window(rows, start, first).len() <= first,
        forall|i: int|
            0 <= i < window(rows, start, first).len() ==> #[trigger] window(rows, start, first)[i]
                == rows[start + i],
        start + first <= rows.len() ==> window(rows, start, first).len() == first,
        start <= rows.len() < start + first ==> window(rows, start, first).len() == rows.len()
            - start,
        window(rows, start, first) + window(rows, start + first, second) == window(
            rows,
            start,
            first + second,
        ),
{
    assert(window(rows, start, first) + window(rows, start + first, second) =~= window(
        rows,
        start,
        first + second,
    ));
}

/// A row is shown only where every cell of it can be; otherwise the error is that of the first
/// cell that cannot.
pub proof fn unshown_cells_fail_the_row(cells: Seq<Shown>)
    ensures
        shown_error(cells) is None ==> forall|c: int|
            0 <= c < cells.len() ==> (#[trigger] cells[c]) is Ok,
        shown_error(cells) is Some ==> exists|c: int|
            fails_first(cells, c, shown_error(cells).unwrap()),
    decreases cells.len(),
{
    if cells.len() > 0 {
        let rest = cells.drop_last();
        unshown_cells_fail_the_row(rest);
        match shown_error(rest) {
            Some(e) => {
                let c = choose|c: int| fails_first(rest, c, e);
                assert(shown_error(cells) == Some(e));
                assert(cells[c] == rest[c]);
                assert(fails_first(cells, c, e)) by {
                    assert forall|d: int| 0 <= d < c implies (#[trigger] cells[d]) is Ok by {
                        assert(rest[d] is Ok);
                    }
                }
            },
            None => {
                assert forall|c: int| 0 <= c < rest.len() implies (#[trigger] cells[c]) is Ok by {
                    assert(rest[c] is Ok);
                }
                match cells.last() {
                    Err(e) => {
                        assert(shown_error(cells) == Some(e));
                        assert(fails_first(cells, cells.len() - 1, shown_error(cells).unwrap()));
                    },
                    Ok(_) => {
                        assert forall|c: int| 0 <= c < cells.len() implies (#[trigger] cells[c])
                            is Ok by {
                            if c < rest.len() {
                                assert(rest[c] is Ok);
                            }
                        }
                    },
                }
            },
        }
    }
}

/// Whether a cell is the first of a row that cannot be shown.
pub open spec fn fails_first(cells: Seq<Shown>, c: int, error: Seq<char>) -> bool {
    &&& 0 <= c < cells.len()
    &&& cells[c] == Err::<Option<Seq<char>>, Seq<char>>(error)
    &&& forall|d: int| 0 <= d < c ==> (#[trigger] cells[d]) is Ok
}

/// A search for personal data runs with a key and its name where its fingerprints are to be
/// stable, and with neither where they are not to be linked: in no other way.
pub proof fn searches_have_the_keys_they_need(mode: Seq<char>, has_key: bool, has_key_id: bool)
    ensures
        pii_request_error(mode, has_key, has_key_id) is None <==> (mode == "stable"@ && has_key
            && has_key_id) || (mode == "unlinkable"@ && !has_key && !has_key_id),
{
    reveal_strlit("stable");
    reveal_strlit("unlinkable");
    assert("stable"@.len() != "unlinkable"@.len());
}

/// Whether a field of a report holds a text.
pub open spec fn holds_text(report: Json, field: Seq<char>, text: Seq<char>) -> bool {
    report.spec_field(field) matches Some(Json::Text(t)) && t@ == text
}

/// Evidence is made only of a report that names the digests of the contract, the plan and the
/// schema that it is made for, and says whether the data is valid, how often it is not, and
/// whether findings were left out.
pub proof fn evidence_is_made_of_its_own_report(report: Json, ids: IdentityView)
    requires
        assembly_error(report, ids) is None,
    ensures
        holds_text(report, "contract_source_digest"@, ids.source_digest),
        holds_text(report, "compiled_plan_digest"@, ids.compiled_plan_digest),
        holds_text(report, "schema_digest"@, ids.schema_digest),
        report.spec_field("valid"@) matches Some(Json::Bool(_)),
        report.spec_field("truncated"@) matches Some(Json::Bool(_)),
        report.spec_field("violation_count"@) matches Some(Json::Number(n)) && n.as_u64 is Some,
{
}

} // verus!
