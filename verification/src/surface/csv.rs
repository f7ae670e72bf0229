//! Tables that are read from the bytes of a CSV file.

use crate::surface::browser::{as_text_where_empty, read_as_text};
use crate::text::{cat2, opt_text, str_eq, text};
use crate::value::{Batch, Cell, DataType, Field, Schema, TimeUnit};
use arrow::array::AsArray;
use arrow::csv::reader::Format;
use arrow::csv::ReaderBuilder;
use arrow::datatypes::{Field as ArrowField, Fields, Schema as ArrowSchema};
use arrow::error::ArrowError;
use std::io::Cursor;
use std::sync::Arc;
use vstd::prelude::*;
use vstd::string::*;

verus! {

/// Rows that are read to find the types of the columns.
pub const SCHEMA_INFERENCE_ROWS: usize = 1000;

/// The values of a column of a table that was read: integers for the truth values, the whole
/// numbers, the days and the ticks, floats by their bit patterns, or texts. Nothing is known
/// of a column of any other type.
pub enum CsvColumn {
    Wholes(Seq<Option<i64>>),
    Floats(Seq<Option<u64>>),
    Words(Seq<Option<Seq<char>>>),
    Unread,
}

/// Rows that were read: the values by columns, and the display texts by columns and rows.
pub struct CsvRows {
    pub columns: Seq<CsvColumn>,
    pub shown: Seq<Seq<Result<Option<Seq<char>>, Seq<char>>>>,
}

/// Rows that were read, in an `arrow::record_batch::RecordBatch`.
#[verifier::external_body]
pub struct CsvBatch {
    batch: arrow::record_batch::RecordBatch,
}

/// The rows that a batch holds.
pub uninterp spec fn rows_in(batch: CsvBatch) -> CsvRows;

/// The names of the columns of a CSV file and the display texts of their types, as the first
/// rows show them; or the error of a file that cannot be read.
pub uninterp spec fn csv_columns(csv: Seq<u8>, delimiter: u8, has_header: bool, rows: nat) -> Result<
    Seq<(Seq<char>, Seq<char>)>,
    Seq<char>,
>;

/// The rows of a CSV file with given columns, in batches, up to the first error, and that
/// error; or the error of a reader that cannot be made.
pub uninterp spec fn csv_batches(
    csv: Seq<u8>,
    delimiter: u8,
    has_header: bool,
    columns: Seq<(Seq<char>, Seq<char>)>,
) -> Result<(Seq<CsvRows>, Option<Seq<char>>), Seq<char>>;

/// Names and types.
pub open spec fn pair_views(columns: Seq<(String, String)>) -> Seq<(Seq<char>, Seq<char>)> {
    columns.map_values(|c: (String, String)| (c.0@, c.1@))
}

/// The rows that batches hold.
pub open spec fn all_rows_in(batches: Seq<CsvBatch>) -> Seq<CsvRows> {
    batches.map_values(|b: CsvBatch| rows_in(b))
}

/// The number of values of a column, where they are known.
pub open spec fn column_len(column: CsvColumn) -> Option<nat> {
    match column {
        CsvColumn::Wholes(s) => Some(s.len()),
        CsvColumn::Floats(s) => Some(s.len()),
        CsvColumn::Words(s) => Some(s.len()),
        CsvColumn::Unread => None,
    }
}

/// Whether a type is held as integers.
pub open spec fn whole_type(kind: Seq<char>) -> bool {
    kind == "Boolean"@ || kind == "Int64"@ || kind == "Date32"@ || kind == "Timestamp(s)"@ || kind
        == "Timestamp(ms)"@ || kind == "Timestamp(\u{b5}s)"@ || kind == "Timestamp(ns)"@
}

/// Whether the values of a column are of the form that its type has.
pub open spec fn column_fits(column: CsvColumn, kind: Seq<char>) -> bool {
    if whole_type(kind) {
        column is Wholes
    } else if kind == "Float64"@ {
        column is Floats
    } else if kind == "Utf8"@ {
        column is Words
    } else {
        column is Unread
    }
}

/// Whether rows have the given columns, with as many display texts in each.
pub open spec fn rows_fit(rows: CsvRows, columns: Seq<(Seq<char>, Seq<char>)>, height: nat) -> bool {
    &&& rows.columns.len() == columns.len()
    &&& rows.shown.len() == columns.len()
    &&& forall|c: int|
        #![trigger rows.columns[c]]
        0 <= c < columns.len() ==> column_fits(rows.columns[c], columns[c].1) && (column_len(
            rows.columns[c],
        ) matches Some(n) ==> n == height)
    &&& forall|c: int|
        #![trigger rows.shown[c]]
        0 <= c < columns.len() ==> rows.shown[c].len() == height
}

/// Whether rows have the given columns, for some number of rows that fits in memory.
pub open spec fn whole_rows(rows: CsvRows, columns: Seq<(Seq<char>, Seq<char>)>) -> bool {
    exists|height: nat| #[trigger] rows_fit(rows, columns, height) && height <= usize::MAX
}

/// `arrow::csv::reader::Format::infer_schema` on the bytes, with the delimiter, the header
/// and the number of rows given: the name of every field and the display text of its type,
/// or the text of the error.
#[verifier::external_body]
fn infer_columns(csv: &[u8], delimiter: u8, has_header: bool, rows: usize) -> (r: Result<
    Vec<(String, String)>,
    String,
>)
    ensures
        match r {
            Ok(columns) => csv_columns(csv@, delimiter, has_header, rows as nat) == Ok::<
                Seq<(Seq<char>, Seq<char>)>,
                Seq<char>,
            >(pair_views(columns@)),
            Err(e) => csv_columns(csv@, delimiter, has_header, rows as nat) == Err::<
                Seq<(Seq<char>, Seq<char>)>,
                Seq<char>,
            >(e@),
        },
{
    let format = Format::default().with_header(has_header).with_delimiter(delimiter);
    match format.infer_schema(Cursor::new(csv), Some(rows)) {
        Ok((schema, _)) => Ok(
            schema.fields().iter().map(|f| (f.name().clone(), f.data_type().to_string())).collect(),
        ),
        Err(e) => Err(e.to_string()),
    }
}

/// `arrow::csv::ReaderBuilder` with nullable fields of the given names and types, and the
/// batches that its reader gives for the bytes up to its first error, with the text of that
/// error. Every batch has the given columns, one value of each for every row.
#[verifier::external_body]
fn read_batches(csv: &[u8], delimiter: u8, has_header: bool, columns: &Vec<(String, String)>) -> (r:
    Result<(Vec<CsvBatch>, Option<String>), String>)
    ensures
        match r {
            Ok(read) => csv_batches(csv@, delimiter, has_header, pair_views(columns@)) == Ok::<
                (Seq<CsvRows>, Option<Seq<char>>),
                Seq<char>,
            >((all_rows_in(read.0@), opt_text(read.1))) && forall|i: int|
                #![trigger read.0@[i]]
                0 <= i < read.0@.len() ==> whole_rows(rows_in(read.0@[i]), pair_views(columns@)),
            Err(e) => csv_batches(csv@, delimiter, has_header, pair_views(columns@)) == Err::<
                (Seq<CsvRows>, Option<Seq<char>>),
                Seq<char>,
            >(e@),
        },
{
    let fields: Result<Fields, ArrowError> =
        columns.iter().map(|(name, kind)| Ok(ArrowField::new(name, kind.parse()?, true))).collect();
    let schema = Arc::new(ArrowSchema::new(fields.map_err(|e| e.to_string())?));
    let format = Format::default().with_header(has_header).with_delimiter(delimiter);
    let reader = ReaderBuilder::new(schema).with_format(format).build(Cursor::new(csv));
    let mut read = vec![];
    for batch in reader.map_err(|e| e.to_string())? {
        match batch {
            Ok(batch) => read.push(CsvBatch { batch }),
            Err(e) => return Ok((read, Some(e.to_string()))),
        }
    }
    Ok((read, None))
}

/// `arrow::record_batch::RecordBatch::num_rows`: the number of rows of a batch, which is that
/// of the display texts of each of its columns.
#[verifier::external_body]
fn height_of(batch: &CsvBatch) -> (r: usize)
    ensures
        forall|c: int|
            #![trigger rows_in(*batch).shown[c]]
            0 <= c < rows_in(*batch).shown.len() ==> rows_in(*batch).shown[c].len() == r,
{
    batch.batch.num_rows()
}

/// `arrow::compute::cast` of a column of truth values, whole numbers, days or ticks to whole
/// numbers of eight bytes: nothing for a null, zero and one for the truth values, and the
/// number itself for the others.
#[verifier::external_body]
fn wholes_of(batch: &CsvBatch, column: usize) -> (r: Vec<Option<i64>>)
    requires
        column < rows_in(*batch).columns.len(),
        rows_in(*batch).columns[column as int] is Wholes,
    ensures
        r@ == rows_in(*batch).columns[column as int]->Wholes_0,
{
    let whole = arrow::datatypes::DataType::Int64;
    match arrow::compute::cast(batch.batch.column(column), &whole) {
        Ok(array) => array.as_primitive::<arrow::datatypes::Int64Type>().iter().collect(),
        Err(_) => Vec::new(),
    }
}

/// `arrow::array::AsArray::as_primitive` on a column of floats: nothing for a null, else the
/// bit pattern.
#[verifier::external_body]
fn floats_of(batch: &CsvBatch, column: usize) -> (r: Vec<Option<u64>>)
    requires
        column < rows_in(*batch).columns.len(),
        rows_in(*batch).columns[column as int] is Floats,
    ensures
        r@ == rows_in(*batch).columns[column as int]->Floats_0,
{
    let array = batch.batch.column(column).as_primitive::<arrow::datatypes::Float64Type>();
    array.iter().map(|v| v.map(|v| v.to_bits())).collect()
}

/// Texts, of which some are missing.
pub open spec fn word_views(words: Seq<Option<String>>) -> Seq<Option<Seq<char>>> {
    words.map_values(|w: Option<String>| opt_text(w))
}

/// `arrow::array::AsArray::as_string` on a column of texts: nothing for a null, else the text.
#[verifier::external_body]
fn words_of(batch: &CsvBatch, column: usize) -> (r: Vec<Option<String>>)
    requires
        column < rows_in(*batch).columns.len(),
        rows_in(*batch).columns[column as int] is Words,
    ensures
        word_views(r@) == rows_in(*batch).columns[column as int]->Words_0,
{
    batch.batch.column(column).as_string::<i32>().iter().map(|v| v.map(|v| v.to_string())).collect()
}

/// A display text, nothing for a null, or the error of a value that has none.
pub open spec fn shown_view(r: Result<Option<String>, String>) -> Result<
    Option<Seq<char>>,
    Seq<char>,
> {
    match r {
        Ok(t) => Ok(opt_text(t)),
        Err(e) => Err(e@),
    }
}

/// `arrow::util::display::array_value_to_string` of a value that is no null: nothing for a
/// null, else its display text or the text of the error.
#[verifier::external_body]
fn shown_in(batch: &CsvBatch, column: usize, row: usize) -> (r: Result<
    Option<String>,
    String,
>)
    requires
        column < rows_in(*batch).shown.len(),
        row < rows_in(*batch).shown[column as int].len(),
    ensures
        shown_view(r) == rows_in(*batch).shown[column as int][row as int],
{
    let array = batch.batch.column(column);
    match arrow::array::Array::is_null(array, row) {
        true => Ok(None),
        false => arrow::util::display::array_value_to_string(array, row).map(Some).map_err(
            |e| e.to_string(),
        ),
    }
}

/// Whether a type is the one with a display text.
pub open spec fn is_type(data_type: DataType, kind: Seq<char>) -> bool {
    if kind == "Null"@ {
        data_type is Null
    } else if kind == "Boolean"@ {
        data_type is Boolean
    } else if kind == "Int64"@ {
        data_type is Int64
    } else if kind == "Float64"@ {
        data_type is Float64
    } else if kind == "Date32"@ {
        data_type is Date32
    } else if kind == "Utf8"@ {
        data_type is Utf8
    } else if kind == "Timestamp(s)"@ {
        data_type matches DataType::Timestamp(u, z) && u == TimeUnit::Second && z is None
    } else if kind == "Timestamp(ms)"@ {
        data_type matches DataType::Timestamp(u, z) && u == TimeUnit::Millisecond && z is None
    } else if kind == "Timestamp(\u{b5}s)"@ {
        data_type matches DataType::Timestamp(u, z) && u == TimeUnit::Microsecond && z is None
    } else if kind == "Timestamp(ns)"@ {
        data_type matches DataType::Timestamp(u, z) && u == TimeUnit::Nanosecond && z is None
    } else {
        data_type is Other
    }
}

/// The type with a display text.
pub fn type_named(kind: &str) -> (r: DataType)
    ensures
        is_type(r, kind@),
{
    if str_eq(kind, "Null") {
        DataType::Null
    } else if str_eq(kind, "Boolean") {
        DataType::Boolean
    } else if str_eq(kind, "Int64") {
        DataType::Int64
    } else if str_eq(kind, "Float64") {
        DataType::Float64
    } else if str_eq(kind, "Date32") {
        DataType::Date32
    } else if str_eq(kind, "Utf8") {
        DataType::Utf8
    } else if str_eq(kind, "Timestamp(s)") {
        DataType::Timestamp(TimeUnit::Second, None)
    } else if str_eq(kind, "Timestamp(ms)") {
        DataType::Timestamp(TimeUnit::Millisecond, None)
    } else if str_eq(kind, "Timestamp(\u{b5}s)") {
        DataType::Timestamp(TimeUnit::Microsecond, None)
    } else if str_eq(kind, "Timestamp(ns)") {
        DataType::Timestamp(TimeUnit::Nanosecond, None)
    } else {
        DataType::Other
    }
}

/// The columns in which no value was seen, read as text.
pub open spec fn texts_where_empty(columns: Seq<(Seq<char>, Seq<char>)>) -> Seq<
    (Seq<char>, Seq<char>),
> {
    columns.map_values(
        |c: (Seq<char>, Seq<char>)|
            if c.1 == "Null"@ {
                (c.0, "Utf8"@)
            } else {
                c
            },
    )
}

/// Whether a schema has the given columns, all of which may be null, and no metadata.
pub open spec fn schema_of(schema: Schema, columns: Seq<(Seq<char>, Seq<char>)>) -> bool {
    &&& schema.fields@.len() == columns.len()
    &&& schema.metadata@.len() == 0
    &&& forall|i: int|
        #![trigger schema.fields@[i]]
        0 <= i < columns.len() ==> {
            let f = schema.fields@[i];
            &&& f.name@ == columns[i].0
            &&& f.type_text@ == columns[i].1
            &&& is_type(f.data_type, columns[i].1)
            &&& f.nullable
            &&& f.metadata@.len() == 0
        }
}

/// Whether a cell holds a value of a column of a type.
pub open spec fn cell_of(cell: Cell, column: CsvColumn, kind: Seq<char>, row: int) -> bool {
    match column {
        CsvColumn::Wholes(s) => match s[row] {
            None => cell is Null,
            Some(v) => if kind == "Boolean"@ {
                cell matches Cell::Boolean(b) && b == (v != 0)
            } else if kind == "Int64"@ {
                cell matches Cell::Int64(n) && n == v
            } else if kind == "Date32"@ {
                if i32::MIN <= v <= i32::MAX {
                    cell matches Cell::Date32(d) && d == v
                } else {
                    cell is Other
                }
            } else {
                cell matches Cell::Timestamp(u, n) && n == v && is_type(
                    DataType::Timestamp(u, None),
                    kind,
                )
            },
        },
        CsvColumn::Floats(s) => match s[row] {
            None => cell is Null,
            Some(v) => cell matches Cell::Float64(bits) && bits == v,
        },
        CsvColumn::Words(s) => match s[row] {
            None => cell is Null,
            Some(v) => cell matches Cell::Utf8(w) && w@ == v,
        },
        CsvColumn::Unread => cell is Other,
    }
}

/// Whether a batch holds rows with the given columns.
pub open spec fn batch_of(
    batch: Batch,
    rows: CsvRows,
    columns: Seq<(Seq<char>, Seq<char>)>,
) -> bool {
    &&& batch.wf()
    &&& batch.columns@.len() == columns.len()
    &&& rows_fit(rows, columns, batch.rows as nat)
    &&& forall|c: int, row: int|
        #![trigger batch.columns@[c]@[row]]
        0 <= c < columns.len() && 0 <= row < batch.rows ==> cell_of(
            batch.columns@[c]@[row],
            rows.columns[c],
            columns[c].1,
            row,
        )
}

/// A table that was read: its columns, its rows in batches, and the error at which reading
/// stopped, if any.
#[derive(Debug)]
pub struct CsvTable {
    pub schema: Schema,
    pub batches: Vec<Batch>,
    pub failure: Option<String>,
}

/// A file that was opened: its columns, and its rows as they were read.
struct OpenCsv {
    schema: Schema,
    columns: Vec<(String, String)>,
    batches: Vec<CsvBatch>,
    failure: Option<String>,
}

/// The schema with the given columns.
fn schema_with(columns: &Vec<(String, String)>) -> (r: Schema)
    ensures
        schema_of(r, pair_views(columns@)),
{
    let mut fields: Vec<Field> = Vec::new();
    let mut i: usize = 0;
    while i < columns.len()
        invariant
            i <= columns@.len(),
            fields@.len() == i,
            forall|k: int|
                #![trigger fields@[k]]
                0 <= k < i ==> {
                    &&& fields@[k].name@ == pair_views(columns@)[k].0
                    &&& fields@[k].type_text@ == pair_views(columns@)[k].1
                    &&& is_type(fields@[k].data_type, pair_views(columns@)[k].1)
                    &&& fields@[k].nullable
                    &&& fields@[k].metadata@.len() == 0
                },
        decreases columns@.len() - i,
    {
        let (name, kind) = &columns[i];
        assert(pair_views(columns@)[i as int] == (name@, kind@));
        fields.push(
            Field {
                name: text(name.as_str()),
                data_type: type_named(kind.as_str()),
                type_text: text(kind.as_str()),
                nullable: true,
                metadata: Vec::new(),
            },
        );
        i = i + 1;
    }
    Schema { fields, metadata: Vec::new() }
}

/// The names and types of the columns of a schema.
fn columns_of(schema: &Schema) -> (r: Vec<(String, String)>)
    ensures
        r@.len() == schema.fields@.len(),
        forall|i: int|
            #![trigger pair_views(r@)[i]]
            0 <= i < r@.len() ==> pair_views(r@)[i] == (
                schema.fields@[i].name@,
                schema.fields@[i].type_text@,
            ),
{
    let mut out: Vec<(String, String)> = Vec::new();
    let mut i: usize = 0;
    while i < schema.fields.len()
        invariant
            i <= schema.fields@.len(),
            out@.len() == i,
            forall|k: int|
                #![trigger out@[k]]
                0 <= k < i ==> out@[k].0@ == schema.fields@[k].name@ && out@[k].1@
                    == schema.fields@[k].type_text@,
        decreases schema.fields@.len() - i,
    {
        let field = &schema.fields[i];
        out.push((text(field.name.as_str()), text(field.type_text.as_str())));
        i = i + 1;
    }
    assert forall|k: int|
        #![trigger pair_views(out@)[k]]
        0 <= k < out@.len() implies pair_views(out@)[k] == (
        schema.fields@[k].name@,
        schema.fields@[k].type_text@,
    ) by {
        assert(out@[k].0@ == schema.fields@[k].name@);
    }
    out
}

/// What comes of the bytes of a CSV file: the columns, the rows and the error at which
/// reading stops; or the error of a file that cannot be read at all.
pub open spec fn csv_content(csv: Seq<u8>, delimiter: u8, has_header: bool) -> Result<
    (Seq<(Seq<char>, Seq<char>)>, Seq<CsvRows>, Option<Seq<char>>),
    Seq<char>,
> {
    match csv_columns(csv, delimiter, has_header, SCHEMA_INFERENCE_ROWS as nat) {
        Err(e) => Err("could not read the CSV: "@ + e),
        Ok(found) => {
            let columns = texts_where_empty(found);
            match csv_batches(csv, delimiter, has_header, columns) {
                Err(e) => Err("could not read the CSV: "@ + e),
                Ok(read) => Ok((columns, read.0, read.1)),
            }
        },
    }
}

/// Finds the columns of a file and reads its rows under them.
fn open_csv(csv: &[u8], delimiter: u8, has_header: bool) -> (r: Result<OpenCsv, String>)
    ensures
        match csv_content(csv@, delimiter, has_header) {
            Err(m) => r matches Err(e) && e@ == m,
            Ok(content) => r matches Ok(t) && schema_of(t.schema, content.0) && pair_views(
                t.columns@,
            ) == content.0 && all_rows_in(t.batches@) == content.1 && opt_text(t.failure)
                == content.2 && forall|i: int|
                #![trigger t.batches@[i]]
                0 <= i < t.batches@.len() ==> whole_rows(rows_in(t.batches@[i]), content.0),
        },
{
    let found = match infer_columns(csv, delimiter, has_header, SCHEMA_INFERENCE_ROWS) {
        Ok(columns) => columns,
        Err(e) => return Err(cat2("could not read the CSV: ", e.as_str())),
    };
    let inferred = schema_with(&found);
    let schema = as_text_where_empty(&inferred);
    let columns = columns_of(&schema);
    proof {
        let wanted = texts_where_empty(pair_views(found@));
        reveal_strlit("Null");
        reveal_strlit("Utf8");
        reveal_strlit("Boolean");
        reveal_strlit("Int64");
        reveal_strlit("Float64");
        reveal_strlit("Date32");
        reveal_strlit("Timestamp(s)");
        reveal_strlit("Timestamp(ms)");
        reveal_strlit("Timestamp(\u{b5}s)");
        reveal_strlit("Timestamp(ns)");
        assert("Null"@.len() == 4 && "Utf8"@.len() == 4 && "Null"@[0] != "Utf8"@[0]);
        assert forall|i: int|
            #![trigger schema.fields@[i]]
            0 <= i < wanted.len() implies {
            let f = schema.fields@[i];
            &&& f.name@ == wanted[i].0
            &&& f.type_text@ == wanted[i].1
            &&& is_type(f.data_type, wanted[i].1)
            &&& f.nullable
            &&& f.metadata@.len() == 0
        } by {
            let was = inferred.fields@[i];
            assert(read_as_text(was, schema.fields@[i]));
            assert(is_type(was.data_type, pair_views(found@)[i].1));
        }
        assert(pair_views(columns@) =~= wanted) by {
            assert forall|i: int| 0 <= i < wanted.len() implies pair_views(columns@)[i]
                == wanted[i] by {
                assert(schema.fields@[i].name@ == wanted[i].0);
            }
        }
        assert(schema_of(schema, wanted));
        assert(csv_columns(csv@, delimiter, has_header, SCHEMA_INFERENCE_ROWS as nat) == Ok::<
            Seq<(Seq<char>, Seq<char>)>,
            Seq<char>,
        >(pair_views(found@)));
    }
    match read_batches(csv, delimiter, has_header, &columns) {
        Ok((batches, failure)) => Ok(OpenCsv { schema, columns, batches, failure }),
        Err(e) => Err(cat2("could not read the CSV: ", e.as_str())),
    }
}

/// The cells of a column of a batch.
fn cells_of(batch: &CsvBatch, column: usize, kind: &str, height: usize) -> (r: Vec<Cell>)
    requires
        column < rows_in(*batch).columns.len(),
        column_fits(rows_in(*batch).columns[column as int], kind@),
        column_len(rows_in(*batch).columns[column as int]) matches Some(n) ==> n == height,
    ensures
        r@.len() == height,
        forall|row: int|
            #![trigger r@[row]]
            0 <= row < height ==> cell_of(
                r@[row],
                rows_in(*batch).columns[column as int],
                kind@,
                row,
            ),
{
    let ghost held = rows_in(*batch).columns[column as int];
    let mut out: Vec<Cell> = Vec::new();
    let mut row: usize = 0;
    let truth = str_eq(kind, "Boolean");
    let whole = str_eq(kind, "Int64");
    let days = str_eq(kind, "Date32");
    let unit = if str_eq(kind, "Timestamp(s)") {
        Some(TimeUnit::Second)
    } else if str_eq(kind, "Timestamp(ms)") {
        Some(TimeUnit::Millisecond)
    } else if str_eq(kind, "Timestamp(\u{b5}s)") {
        Some(TimeUnit::Microsecond)
    } else if str_eq(kind, "Timestamp(ns)") {
        Some(TimeUnit::Nanosecond)
    } else {
        None
    };
    proof {
        type_texts_differ();
    }
    if truth || whole || days || unit.is_some() {
        let values = wholes_of(batch, column);
        while row < height
            invariant
                row <= height,
                values@.len() == height,
                held == CsvColumn::Wholes(values@),
                held == rows_in(*batch).columns[column as int],
                out@.len() == row,
                truth == (kind@ == "Boolean"@),
                whole == (kind@ == "Int64"@),
                days == (kind@ == "Date32"@),
                !truth && !whole && !days ==> unit is Some && is_type(
                    DataType::Timestamp(unit.unwrap(), None),
                    kind@,
                ),
                forall|k: int|
                    #![trigger out@[k]]
                    0 <= k < row ==> cell_of(out@[k], held, kind@, k),
            decreases height - row,
        {
            let cell = match values[row] {
                None => Cell::Null,
                Some(v) => if truth {
                    Cell::Boolean(v != 0)
                } else if whole {
                    Cell::Int64(v)
                } else if days {
                    if v >= i32::MIN as i64 && v <= i32::MAX as i64 {
                        Cell::Date32(v as i32)
                    } else {
                        Cell::Other
                    }
                } else {
                    match unit {
                        Some(u) => Cell::Timestamp(u, v),
                        None => Cell::Other,
                    }
                },
            };
            assert(cell_of(cell, held, kind@, row as int));
            out.push(cell);
            row = row + 1;
        }
    } else if str_eq(kind, "Float64") {
        let values = floats_of(batch, column);
        while row < height
            invariant
                row <= height,
                values@.len() == height,
                held == CsvColumn::Floats(values@),
                held == rows_in(*batch).columns[column as int],
                out@.len() == row,
                forall|k: int|
                    #![trigger out@[k]]
                    0 <= k < row ==> cell_of(out@[k], held, kind@, k),
            decreases height - row,
        {
            out.push(
                match values[row] {
                    None => Cell::Null,
                    Some(bits) => Cell::Float64(bits),
                },
            );
            row = row + 1;
        }
    } else if str_eq(kind, "Utf8") {
        let values = words_of(batch, column);
        assert(word_views(values@).len() == values@.len());
        while row < height
            invariant
                row <= height,
                values@.len() == height,
                held == CsvColumn::Words(word_views(values@)),
                held == rows_in(*batch).columns[column as int],
                out@.len() == row,
                forall|k: int|
                    #![trigger out@[k]]
                    0 <= k < row ==> cell_of(out@[k], held, kind@, k),
            decreases height - row,
        {
            assert(word_views(values@)[row as int] == opt_text(values@[row as int]));
            out.push(
                match &values[row] {
                    None => Cell::Null,
                    Some(word) => Cell::Utf8(text(word.as_str())),
                },
            );
            row = row + 1;
        }
    } else {
        while row < height
            invariant
                row <= height,
                held is Unread,
                out@.len() == row,
                forall|k: int|
                    #![trigger out@[k]]
                    0 <= k < row ==> cell_of(out@[k], held, kind@, k),
            decreases height - row,
        {
            out.push(Cell::Other);
            row = row + 1;
        }
    }
    out
}

/// The display texts of the types that a file can have are different.
proof fn type_texts_differ()
    ensures
        !whole_type("Float64"@),
        !whole_type("Utf8"@),
        "Float64"@ != "Utf8"@,
        is_type(DataType::Timestamp(TimeUnit::Second, None), "Timestamp(s)"@),
        is_type(DataType::Timestamp(TimeUnit::Millisecond, None), "Timestamp(ms)"@),
        is_type(DataType::Timestamp(TimeUnit::Microsecond, None), "Timestamp(\u{b5}s)"@),
        is_type(DataType::Timestamp(TimeUnit::Nanosecond, None), "Timestamp(ns)"@),
{
    reveal_strlit("Null");
    reveal_strlit("Boolean");
    reveal_strlit("Int64");
    reveal_strlit("Float64");
    reveal_strlit("Date32");
    reveal_strlit("Utf8");
    reveal_strlit("Timestamp(s)");
    reveal_strlit("Timestamp(ms)");
    reveal_strlit("Timestamp(\u{b5}s)");
    reveal_strlit("Timestamp(ns)");
    let all = seq![
        "Null"@,
        "Boolean"@,
        "Int64"@,
        "Float64"@,
        "Date32"@,
        "Utf8"@,
        "Timestamp(s)"@,
        "Timestamp(ms)"@,
        "Timestamp(\u{b5}s)"@,
        "Timestamp(ns)"@,
    ];
    assert(all[0][0] == 'N' && all[1][0] == 'B' && all[2][0] == 'I' && all[3][0] == 'F'
        && all[4][0] == 'D' && all[5][0] == 'U');
    assert(all[6][0] == 'T' && all[7][0] == 'T' && all[8][0] == 'T' && all[9][0] == 'T');
    assert(all[6][10] == 's' && all[7][10] == 'm' && all[8][10] == '\u{b5}' && all[9][10] == 'n');
}

/// Reads the bytes of a CSV file: its columns, of which those without a value in the first
/// rows are texts, and its rows in batches, up to the error at which reading stops.
pub fn read_csv(csv: &[u8], delimiter: u8, has_header: bool) -> (r: Result<CsvTable, String>)
    ensures
        match csv_content(csv@, delimiter, has_header) {
            Err(m) => r matches Err(e) && e@ == m,
            Ok(content) => r matches Ok(t) && schema_of(t.schema, content.0) && t.batches@.len()
                == content.1.len() && opt_text(t.failure) == content.2 && forall|i: int|
                #![trigger t.batches@[i]]
                0 <= i < t.batches@.len() ==> batch_of(t.batches@[i], content.1[i], content.0),
        },
{
    let opened = open_csv(csv, delimiter, has_header)?;
    let ghost columns = pair_views(opened.columns@);
    let ghost content = csv_content(csv@, delimiter, has_header)->Ok_0;
    let mut batches: Vec<Batch> = Vec::new();
    let mut i: usize = 0;
    while i < opened.batches.len()
        invariant
            i <= opened.batches@.len(),
            columns == pair_views(opened.columns@),
            columns == content.0,
            all_rows_in(opened.batches@) == content.1,
            batches@.len() == i,
            forall|k: int|
                #![trigger opened.batches@[k]]
                0 <= k < opened.batches@.len() ==> whole_rows(rows_in(opened.batches@[k]), columns),
            forall|k: int|
                #![trigger batches@[k]]
                0 <= k < i ==> batch_of(batches@[k], content.1[k], columns),
        decreases opened.batches@.len() - i,
    {
        let batch = &opened.batches[i];
        let ghost held = rows_in(*batch);
        assert(content.1[i as int] == held);
        let ghost tall = choose|height: nat| #[trigger]
            rows_fit(held, columns, height) && height <= usize::MAX;
        let rows: usize = if opened.columns.len() == 0 {
            0
        } else {
            height_of(batch)
        };
        proof {
            assert(columns.len() == opened.columns@.len());
            if columns.len() > 0 {
                assert(held.shown[0].len() == tall);
                assert(rows == tall);
            }
            assert(rows_fit(held, columns, rows as nat));
        }
        let mut list: Vec<Vec<Cell>> = Vec::new();
        let mut c: usize = 0;
        while c < opened.columns.len()
            invariant
                c <= opened.columns@.len(),
                columns == pair_views(opened.columns@),
                held == rows_in(*batch),
                rows_fit(held, columns, rows as nat),
                list@.len() == c,
                forall|k: int|
                    #![trigger list@[k]]
                    0 <= k < c ==> list@[k]@.len() == rows && forall|row: int|
                        #![trigger list@[k]@[row]]
                        0 <= row < rows ==> cell_of(
                            list@[k]@[row],
                            held.columns[k],
                            columns[k].1,
                            row,
                        ),
            decreases opened.columns@.len() - c,
        {
            let kind = opened.columns[c].1.as_str();
            assert(columns[c as int].1 == kind@);
            assert(column_fits(held.columns[c as int], columns[c as int].1));
            let cells = cells_of(batch, c, kind, rows);
            list.push(cells);
            c = c + 1;
        }
        let one = Batch { columns: list, rows };
        assert(batch_of(one, held, columns));
        batches.push(one);
        i = i + 1;
    }
    Ok(CsvTable { schema: opened.schema, batches, failure: opened.failure })
}

/// A display text, or none where the value is null, or an error.
pub type Shown = Result<Option<Seq<char>>, Seq<char>>;

/// The number of rows of batches.
pub open spec fn height(rows: CsvRows) -> nat {
    if rows.shown.len() == 0 {
        0
    } else {
        rows.shown[0].len()
    }
}

/// The display texts of a row.
pub open spec fn row_shown(rows: CsvRows, row: int) -> Seq<Shown> {
    Seq::new(rows.shown.len(), |c: int| rows.shown[c][row])
}

/// The display texts of the rows of the first batches.
pub open spec fn shown_rows(tables: Seq<CsvRows>, n: nat) -> Seq<Seq<Shown>>
    decreases n,
{
    if n == 0 {
        Seq::empty()
    } else {
        shown_rows(tables, (n - 1) as nat) + Seq::new(
            height(tables[n - 1]),
            |row: int| row_shown(tables[n - 1], row),
        )
    }
}

/// The first error among display texts.
pub open spec fn shown_error(cells: Seq<Shown>) -> Option<Seq<char>>
    decreases cells.len(),
{
    if cells.len() == 0 {
        None
    } else {
        match shown_error(cells.drop_last()) {
            Some(e) => Some(e),
            None => match cells.last() {
                Ok(_) => None,
                Err(e) => Some(e),
            },
        }
    }
}

/// The first error among the display texts of rows.
pub open spec fn rows_error(rows: Seq<Seq<Shown>>) -> Option<Seq<char>>
    decreases rows.len(),
{
    if rows.len() == 0 {
        None
    } else {
        match rows_error(rows.drop_last()) {
            Some(e) => Some(e),
            None => shown_error(rows.last()),
        }
    }
}

/// The rows of a window: at most `count` of them, from `start` on.
pub open spec fn window(rows: Seq<Seq<Shown>>, start: int, count: int) -> Seq<Seq<Shown>> {
    if start >= rows.len() {
        Seq::empty()
    } else if start + count > rows.len() {
        rows.subrange(start, rows.len() as int)
    } else {
        rows.subrange(start, start + count)
    }
}

/// A row of a preview, with its number in the file.
#[derive(Debug)]
pub struct PreviewRow {
    pub row: u128,
    pub cells: Vec<Option<String>>,
}

/// Rows of a file as text, with its columns.
#[derive(Debug)]
pub struct CsvPreview {
    pub schema: Schema,
    pub rows: Vec<PreviewRow>,
}

/// Whether rows of a preview are those of a window.
pub open spec fn previews(list: Seq<PreviewRow>, rows: Seq<Seq<Shown>>, start: int) -> bool {
    &&& list.len() == rows.len()
    &&& forall|i: int|
        #![trigger list[i]]
        0 <= i < list.len() ==> list[i].row == start + i && list[i].cells@.len() == rows[i].len()
            && forall|c: int|
            #![trigger list[i].cells@[c]]
            0 <= c < rows[i].len() ==> rows[i][c] == Ok::<Option<Seq<char>>, Seq<char>>(
                opt_text(list[i].cells@[c]),
            )
}

/// A row more at the end of a table is in the window where it is reached and not yet full.
proof fn window_push(rows: Seq<Seq<Shown>>, row: Seq<Shown>, start: int, count: int)
    requires
        0 <= start,
        0 <= count,
    ensures
        window(rows.push(row), start, count) == if start <= rows.len() < start + count {
            window(rows, start, count).push(row)
        } else {
            window(rows, start, count)
        },
{
    let more = rows.push(row);
    let w = window(more, start, count);
    if start <= rows.len() < start + count {
        assert(w =~= window(rows, start, count).push(row));
    } else {
        assert(w =~= window(rows, start, count));
    }
}

/// The window of the first rows is the first part of the window of all.
proof fn window_of_prefix(all: Seq<Seq<Shown>>, n: int, start: int, count: int)
    requires
        0 <= n <= all.len(),
        0 <= start,
        0 <= count,
    ensures
        ({
            let w = window(all.take(n), start, count);
            &&& w.len() <= window(all, start, count).len()
            &&& w == window(all, start, count).take(w.len() as int)
            &&& w.len() >= count ==> w == window(all, start, count)
        }),
{
    let some = all.take(n);
    let w = window(some, start, count);
    let whole = window(all, start, count);
    assert(w =~= whole.take(w.len() as int));
    if w.len() >= count {
        assert(w =~= whole);
    }
}

/// An error among the first rows is the error of all.
proof fn rows_error_stays(rows: Seq<Seq<Shown>>, n: int)
    requires
        0 <= n <= rows.len(),
        rows_error(rows.take(n)) is Some,
    ensures
        rows_error(rows) == rows_error(rows.take(n)),
    decreases rows.len(),
{
    if n < rows.len() {
        assert(rows.drop_last().take(n) =~= rows.take(n));
        rows_error_stays(rows.drop_last(), n);
    } else {
        assert(rows.take(n) =~= rows);
    }
}

/// An error among the first cells is the error of the row.
proof fn shown_error_stays(cells: Seq<Shown>, n: int)
    requires
        0 <= n <= cells.len(),
        shown_error(cells.take(n)) is Some,
    ensures
        shown_error(cells) == shown_error(cells.take(n)),
    decreases cells.len(),
{
    if n < cells.len() {
        assert(cells.drop_last().take(n) =~= cells.take(n));
        shown_error_stays(cells.drop_last(), n);
    } else {
        assert(cells.take(n) =~= cells);
    }
}

/// The rows of the first batches are the first rows of all.
proof fn shown_rows_of_prefix(tables: Seq<CsvRows>, n: nat, m: nat)
    requires
        n <= m <= tables.len(),
    ensures
        shown_rows(tables, n).len() <= shown_rows(tables, m).len(),
        shown_rows(tables, n) == shown_rows(tables, m).take(shown_rows(tables, n).len() as int),
    decreases m,
{
    if n < m {
        shown_rows_of_prefix(tables, n, (m - 1) as nat);
        let a = shown_rows(tables, n);
        let b = shown_rows(tables, (m - 1) as nat);
        let c = shown_rows(tables, m);
        assert forall|i: int| 0 <= i < a.len() implies a[i] == c[i] by {
            assert(b.take(a.len() as int)[i] == b[i]);
        }
        assert(a =~= c.take(a.len() as int));
    } else {
        assert(shown_rows(tables, n) =~= shown_rows(tables, n).take(
            shown_rows(tables, n).len() as int,
        ));
    }
}

/// The display texts of a row.
fn shown_row(batch: &CsvBatch, width: usize, row: usize) -> (r: Result<Vec<Option<String>>, String>)
    requires
        width == rows_in(*batch).shown.len(),
        forall|c: int|
            #![trigger rows_in(*batch).shown[c]]
            0 <= c < width ==> row < rows_in(*batch).shown[c].len(),
    ensures
        match shown_error(row_shown(rows_in(*batch), row as int)) {
            Some(m) => r matches Err(e) && e@ == m,
            None => r matches Ok(cells) && cells@.len() == width && forall|c: int|
                #![trigger cells@[c]]
                0 <= c < width ==> rows_in(*batch).shown[c][row as int] == Ok::<
                    Option<Seq<char>>,
                    Seq<char>,
                >(opt_text(cells@[c])),
        },
{
    let ghost all = row_shown(rows_in(*batch), row as int);
    let mut cells: Vec<Option<String>> = Vec::new();
    let mut c: usize = 0;
    assert(all.take(0) =~= Seq::empty());
    while c < width
        invariant
            c <= width,
            width == rows_in(*batch).shown.len(),
            all == row_shown(rows_in(*batch), row as int),
            forall|k: int|
                #![trigger rows_in(*batch).shown[k]]
                0 <= k < width ==> row < rows_in(*batch).shown[k].len(),
            cells@.len() == c,
            shown_error(all.take(c as int)) is None,
            forall|k: int|
                #![trigger cells@[k]]
                0 <= k < c ==> rows_in(*batch).shown[k][row as int] == Ok::<
                    Option<Seq<char>>,
                    Seq<char>,
                >(opt_text(cells@[k])),
        decreases width - c,
    {
        assert(row < rows_in(*batch).shown[c as int].len());
        assert(all.take(c + 1).drop_last() =~= all.take(c as int));
        assert(all.take(c + 1).last() == all[c as int]);
        match shown_in(batch, c, row) {
            Ok(cell) => cells.push(cell),
            Err(e) => {
                proof {
                    shown_error_stays(all, c + 1);
                }
                return Err(e);
            },
        }
        c = c + 1;
    }
    assert(all.take(width as int) =~= all);
    Ok(cells)
}

/// Reads a window of rows of a CSV file back as text. Batches are gone through until the
/// window is full; an error at which reading stopped is met only where it is not.
#[verifier::spinoff_prover]
#[verifier::rlimit(60)]
pub fn preview_rows(csv: &[u8], delimiter: u8, has_header: bool, start: usize, count: usize) -> (r:
    Result<CsvPreview, String>)
    ensures
        match csv_content(csv@, delimiter, has_header) {
            Err(m) => r matches Err(e) && e@ == m,
            Ok(content) => {
                let rows = window(
                    shown_rows(content.1, content.1.len()),
                    start as int,
                    count as int,
                );
                match rows_error(rows) {
                    Some(m) => r matches Err(e) && e@ == m,
                    None => if content.2 is Some && (content.1.len() == 0 || rows.len() < count) {
                        r matches Err(e) && e@ == content.2.unwrap()
                    } else {
                        r matches Ok(p) && schema_of(p.schema, content.0) && previews(
                            p.rows@,
                            rows,
                            start as int,
                        )
                    },
                }
            },
        },
{
    let opened = open_csv(csv, delimiter, has_header)?;
    let ghost content = csv_content(csv@, delimiter, has_header)->Ok_0;
    let ghost tables = content.1;
    let ghost all = shown_rows(tables, tables.len());
    let width: usize = opened.columns.len();
    let mut list: Vec<PreviewRow> = Vec::new();
    let mut offset: u128 = 0;
    let mut i: usize = 0;
    let mut full = false;
    while i < opened.batches.len() && !full
        invariant
            i <= opened.batches@.len(),
            csv_content(csv@, delimiter, has_header) is Ok,
            content == csv_content(csv@, delimiter, has_header)->Ok_0,
            width == opened.columns@.len(),
            content.0 == pair_views(opened.columns@),
            tables == content.1,
            all_rows_in(opened.batches@) == tables,
            all == shown_rows(tables, tables.len()),
            offset == shown_rows(tables, i as nat).len(),
            offset <= i * usize::MAX,
            forall|k: int|
                #![trigger opened.batches@[k]]
                0 <= k < opened.batches@.len() ==> whole_rows(rows_in(opened.batches@[k]), content.0),
            previews(
                list@,
                window(shown_rows(tables, i as nat), start as int, count as int),
                start as int,
            ),
            rows_error(window(shown_rows(tables, i as nat), start as int, count as int)) is None,
            full == (i > 0 && list@.len() >= count),
        decreases opened.batches@.len() - i,
    {
        let batch = &opened.batches[i];
        let ghost held = rows_in(*batch);
        let ghost before = shown_rows(tables, i as nat);
        assert(tables[i as int] == held);
        let ghost tall = choose|h: nat| #[trigger]
            rows_fit(held, content.0, h) && h <= usize::MAX;
        let rows: usize = if width == 0 {
            0
        } else {
            height_of(batch)
        };
        proof {
            if width > 0 {
                assert(held.shown[0].len() == tall);
            }
            assert(rows == height(held));
            assert forall|c: int|
                #![trigger held.shown[c]]
                0 <= c < width implies held.shown[c].len() == rows by {
                assert(held.shown[c].len() == tall);
            }
            shown_rows_of_prefix(tables, (i + 1) as nat, tables.len());
            assert(i * usize::MAX + usize::MAX == (i + 1) * usize::MAX) by (nonlinear_arith);
            assert((i + 1) * usize::MAX <= usize::MAX * usize::MAX) by (nonlinear_arith)
                requires
                    i < usize::MAX,
            ;
            assert(usize::MAX * usize::MAX <= u128::MAX) by (nonlinear_arith)
                requires
                    usize::MAX <= 0xffff_ffff_ffff_ffff,
            ;
        }
        let mut row: usize = 0;
        let ghost now = shown_rows(tables, (i + 1) as nat);
        assert(now.take(before.len() as int) =~= before);
        while row < rows
            invariant
                row <= rows,
                csv_content(csv@, delimiter, has_header) is Ok,
                content == csv_content(csv@, delimiter, has_header)->Ok_0,
                all == shown_rows(content.1, content.1.len()),
                held == rows_in(*batch),
                width == held.shown.len(),
                forall|c: int|
                    #![trigger held.shown[c]]
                    0 <= c < width ==> held.shown[c].len() == rows,
                offset == before.len(),
                offset + rows <= u128::MAX,
                now.len() == before.len() + rows,
                now == before + Seq::new(rows as nat, |k: int| row_shown(held, k)),
                now == all.take(now.len() as int),
                now.len() <= all.len(),
                previews(
                    list@,
                    window(now.take(before.len() + row), start as int, count as int),
                    start as int,
                ),
                rows_error(
                    window(now.take(before.len() + row), start as int, count as int),
                ) is None,
            decreases rows - row,
        {
            let number: u128 = offset + row as u128;
            let ghost so_far = now.take(number as int);
            let ghost next = now.take(number + 1);
            let ghost cells_shown = row_shown(held, row as int);
            proof {
                assert(next =~= so_far.push(cells_shown));
                window_push(so_far, cells_shown, start as int, count as int);
            }
            let ghost had = window(so_far, start as int, count as int);
            if number >= start as u128 && list.len() < count {
                assert(had.len() == number - start);
                assert(had.push(cells_shown).drop_last() =~= had);
                match shown_row(batch, width, row) {
                    Ok(cells) => {
                        let ghost was = list@;
                        list.push(PreviewRow { row: number, cells });
                        proof {
                            let w = had.push(cells_shown);
                            assert forall|k: int|
                                #![trigger list@[k]]
                                0 <= k < list@.len() implies list@[k].row == start + k
                                && list@[k].cells@.len() == w[k].len() && forall|c: int|
                                #![trigger list@[k].cells@[c]]
                                0 <= c < w[k].len() ==> w[k][c] == Ok::<
                                    Option<Seq<char>>,
                                    Seq<char>,
                                >(opt_text(list@[k].cells@[c])) by {
                                if k < was.len() {
                                    assert(list@[k] == was[k]);
                                    assert(w[k] == had[k]);
                                }
                            }
                        }
                    },
                    Err(e) => {
                        proof {
                            assert(all.take(number + 1) =~= next);
                            window_of_prefix(all, number + 1, start as int, count as int);
                            rows_error_stays(
                                window(all, start as int, count as int),
                                had.push(cells_shown).len() as int,
                            );
                        }
                        return Err(e);
                    },
                }
            }
            row = row + 1;
        }
        proof {
            assert(now.take(now.len() as int) =~= now);
        }
        offset = offset + rows as u128;
        i = i + 1;
        full = list.len() >= count;
    }
    proof {
        shown_rows_of_prefix(tables, i as nat, tables.len());
        window_of_prefix(
            all,
            shown_rows(tables, i as nat).len() as int,
            start as int,
            count as int,
        );
        if !full {
            assert(shown_rows(tables, i as nat) == all);
        }
    }
    if !full {
        match opened.failure {
            Some(e) => return Err(e),
            None => {},
        }
    }
    Ok(CsvPreview { schema: opened.schema, rows: list })
}

} // verus!
