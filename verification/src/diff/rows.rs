//! The rows of a dataset as a diff sees them: a key, a text of it, and encoded values.

use crate::bytes::{
    from_le, le, le_len, prefixed, push_all, push_le, push_prefixed, read_le, slice_of, span,
};
use crate::contract::ast::outcome;
use crate::diff::record::{value_view, value_views, RowEntry, RowView, PARTITIONS};
use crate::digest::{blake3_digest, digest_of};
use crate::encoding::{canonical_value_bytes, encodable, encoded, item_of, prefixed_splits};
use crate::error::{ErrorView, ProofFrameError};
use crate::text::{join, joined, str_eq, text, texts, utf8};
use crate::value::{first_named, Batch, Cell, Schema};
use vstd::prelude::*;
use vstd::string::*;

verus! {

/// What a diff compares of a column.
pub struct ColumnView {
    pub name: Seq<char>,
    pub data_type: Seq<char>,
    pub nullable: bool,
}

/// A column as a diff compares it.
#[derive(Debug)]
pub struct ColumnSchema {
    pub name: String,
    pub data_type: String,
    pub nullable: bool,
}

impl View for ColumnSchema {
    type V = ColumnView;

    open spec fn view(&self) -> ColumnView {
        ColumnView { name: self.name@, data_type: self.data_type@, nullable: self.nullable }
    }
}

/// The columns of a schema as a diff compares them.
pub open spec fn signature_of(schema: Schema) -> Seq<ColumnView> {
    Seq::new(
        schema.fields@.len(),
        |i: int|
            ColumnView {
                name: schema.fields@[i].name@,
                data_type: schema.fields@[i].type_text@,
                nullable: schema.fields@[i].nullable,
            },
    )
}

/// Columns as a diff compares them.
pub open spec fn column_views(signature: Seq<ColumnSchema>) -> Seq<ColumnView> {
    Seq::new(signature.len(), |i: int| signature[i]@)
}

/// The columns of a schema as a diff compares them.
pub fn schema_signature(schema: &Schema) -> (r: Vec<ColumnSchema>)
    ensures
        column_views(r@) == signature_of(*schema),
{
    let mut out: Vec<ColumnSchema> = Vec::new();
    let mut i: usize = 0;
    while i < schema.fields.len()
        invariant
            i <= schema.fields@.len(),
            column_views(out@) == signature_of(*schema).take(i as int),
        decreases schema.fields@.len() - i,
    {
        let ghost before = out@;
        out.push(
            ColumnSchema {
                name: schema.fields[i].name.clone(),
                data_type: schema.fields[i].type_text.clone(),
                nullable: schema.fields[i].nullable,
            },
        );
        assert(column_views(out@) =~= column_views(before).push(signature_of(*schema)[i as int]));
        assert(signature_of(*schema).take(i + 1) =~= signature_of(*schema).take(i as int).push(
            signature_of(*schema)[i as int],
        ));
        i = i + 1;
    }
    assert(signature_of(*schema).take(schema.fields@.len() as int) =~= signature_of(*schema));
    out
}

/// Whether two signatures are the same.
pub fn same_signature(a: &Vec<ColumnSchema>, b: &Vec<ColumnSchema>) -> (r: bool)
    ensures
        r == (column_views(a@) == column_views(b@)),
{
    if a.len() != b.len() {
        assert(column_views(a@).len() != column_views(b@).len());
        return false;
    }
    let mut i: usize = 0;
    while i < a.len()
        invariant
            i <= a@.len(),
            a@.len() == b@.len(),
            forall|k: int| 0 <= k < i ==> #[trigger] column_views(a@)[k] == column_views(b@)[k],
        decreases a@.len() - i,
    {
        if !str_eq(a[i].name.as_str(), b[i].name.as_str()) || !str_eq(
            a[i].data_type.as_str(),
            b[i].data_type.as_str(),
        ) || a[i].nullable != b[i].nullable {
            assert(column_views(a@)[i as int] != column_views(b@)[i as int]);
            return false;
        }
        i = i + 1;
    }
    assert(column_views(a@) =~= column_views(b@));
    true
}

/// The bytes of a column in the hash of a signature.
pub open spec fn column_stream(column: ColumnView) -> Seq<u8> {
    prefixed(utf8(column.name)) + prefixed(utf8(column.data_type)) + seq![
        if column.nullable {
            1u8
        } else {
            0u8
        },
    ]
}

/// The bytes of columns in the hash of a signature.
pub open spec fn columns_stream(columns: Seq<ColumnView>) -> Seq<u8>
    decreases columns.len(),
{
    if columns.len() == 0 {
        Seq::empty()
    } else {
        columns_stream(columns.drop_last()) + column_stream(columns.last())
    }
}

/// What is hashed of a signature.
pub open spec fn signature_stream(columns: Seq<ColumnView>) -> Seq<u8> {
    utf8("proofframe:diff-schema:v2\0"@) + columns_stream(columns)
}

/// The digest of a signature.
pub fn signature_digest(signature: &Vec<ColumnSchema>) -> (r: [u8; 32])
    ensures
        r@ == blake3_digest(signature_stream(column_views(signature@))),
{
    let ghost all = column_views(signature@);
    let mut out: Vec<u8> = Vec::new();
    push_all(&mut out, "proofframe:diff-schema:v2\0".as_bytes());
    let ghost head = out@;
    assert(head + columns_stream(all.take(0)) =~= head);
    let mut i: usize = 0;
    while i < signature.len()
        invariant
            i <= signature@.len(),
            all == column_views(signature@),
            out@ == head + columns_stream(all.take(i as int)),
        decreases signature@.len() - i,
    {
        push_prefixed(&mut out, signature[i].name.as_str().as_bytes());
        push_prefixed(&mut out, signature[i].data_type.as_str().as_bytes());
        out.push(
            if signature[i].nullable {
                1
            } else {
                0
            },
        );
        proof {
            assert(all.take(i + 1).drop_last() =~= all.take(i as int));
            assert(all.take(i + 1).last() == signature@[i as int]@);
            assert(out@ =~= head + columns_stream(all.take(i + 1)));
        }
        i = i + 1;
    }
    assert(all.take(all.len() as int) =~= all);
    assert(out@ =~= signature_stream(all));
    digest_of(out.as_slice())
}

/// The error of a key column that is not in a schema, and the positions of those that are.
pub open spec fn key_error(schema: Schema, keys: Seq<Seq<char>>, n: nat) -> Option<ErrorView>
    decreases n,
{
    if n == 0 || n > keys.len() {
        None
    } else {
        match key_error(schema, keys, (n - 1) as nat) {
            Some(e) => Some(e),
            None => if first_named(schema.fields@, keys[n - 1]) is None {
                Some(ErrorView::MissingColumn(keys[n - 1]))
            } else {
                None
            },
        }
    }
}

proof fn key_error_stays(schema: Schema, keys: Seq<Seq<char>>, early: nat, late: nat)
    requires
        early <= late <= keys.len(),
        key_error(schema, keys, early) is Some,
    ensures
        key_error(schema, keys, late) == key_error(schema, keys, early),
    decreases late,
{
    if early < late {
        key_error_stays(schema, keys, early, (late - 1) as nat);
    }
}

/// Positions are those of the columns with the names of keys.
pub open spec fn resolved(schema: Schema, keys: Seq<Seq<char>>, indexes: Seq<usize>) -> bool {
    &&& indexes.len() == keys.len()
    &&& forall|i: int|
        0 <= i < keys.len() ==> first_named(schema.fields@, keys[i]) == Some(
            (#[trigger] indexes[i]) as int,
        )
}

/// The positions of key columns.
pub fn key_indexes(schema: &Schema, keys: &Vec<String>) -> (r: Result<Vec<usize>, ProofFrameError>)
    ensures
        outcome(r, key_error(*schema, texts(keys@), keys@.len())),
        r matches Ok(indexes) ==> resolved(*schema, texts(keys@), indexes@) && forall|i: int|
            0 <= i < indexes@.len() ==> (#[trigger] indexes@[i]) < schema.fields@.len(),
{
    let ghost names = texts(keys@);
    let mut out: Vec<usize> = Vec::new();
    let mut i: usize = 0;
    while i < keys.len()
        invariant
            i <= keys@.len(),
            names == texts(keys@),
            out@.len() == i,
            key_error(*schema, names, i as nat) is None,
            forall|k: int|
                0 <= k < i ==> first_named(schema.fields@, names[k]) == Some(
                    (#[trigger] out@[k]) as int,
                ) && out@[k] < schema.fields@.len(),
        decreases keys@.len() - i,
    {
        assert(names[i as int] == keys@[i as int]@);
        match schema.index_of(keys[i].as_str()) {
            Some(index) => {
                out.push(index);
            },
            None => {
                proof {
                    assert(key_error(*schema, names, (i + 1) as nat) is Some);
                    key_error_stays(*schema, names, (i + 1) as nat, keys@.len());
                }
                return Err(ProofFrameError::MissingColumn(keys[i].clone()));
            },
        }
        i = i + 1;
    }
    Ok(out)
}

/// One column of a key: its position, and its value behind its length.
pub open spec fn key_part(index: nat, cell: Cell) -> Seq<u8> {
    le(index, 8) + prefixed(encoded(item_of(cell)))
}

/// The bytes of the first `n` columns of a key.
pub open spec fn key_stream(batch: Batch, row: int, indexes: Seq<usize>, n: nat) -> Seq<u8>
    decreases n,
{
    if n == 0 || n > indexes.len() {
        Seq::empty()
    } else {
        key_stream(batch, row, indexes, (n - 1) as nat) + key_part(
            indexes[n - 1] as nat,
            batch.columns@[indexes[n - 1] as int]@[row],
        )
    }
}

/// The texts of a key, one for each column. A null has a text of its own.
pub open spec fn key_texts(
    batch: Batch,
    row: int,
    indexes: Seq<usize>,
    shown: Seq<Vec<String>>,
) -> Seq<Seq<char>> {
    Seq::new(
        indexes.len(),
        |i: int|
            if batch.columns@[indexes[i] as int]@[row] is Null {
                "<null>"@
            } else {
                shown[i]@[row]@
            },
    )
}

/// The text of a key.
pub open spec fn key_display(
    batch: Batch,
    row: int,
    indexes: Seq<usize>,
    shown: Seq<Vec<String>>,
) -> Seq<char> {
    joined(key_texts(batch, row, indexes, shown), "\u{1f}"@)
}

/// The error of a key with a value without an encoding, among its first `n` columns.
pub open spec fn key_value_error(
    schema: Schema,
    batch: Batch,
    row: int,
    indexes: Seq<usize>,
    n: nat,
) -> Option<ErrorView>
    decreases n,
{
    if n == 0 || n > indexes.len() {
        None
    } else {
        match key_value_error(schema, batch, row, indexes, (n - 1) as nat) {
            Some(e) => Some(e),
            None => if encodable(item_of(batch.columns@[indexes[n - 1] as int]@[row])) {
                None
            } else {
                Some(
                    ErrorView::UnsupportedType(
                        schema.fields@[indexes[n - 1] as int].type_text@,
                    ),
                )
            },
        }
    }
}

/// An error of the first columns of a key is the error of all.
pub proof fn key_value_error_stays(
    schema: Schema,
    batch: Batch,
    row: int,
    indexes: Seq<usize>,
    early: nat,
    late: nat,
)
    requires
        early <= late <= indexes.len(),
        key_value_error(schema, batch, row, indexes, early) is Some,
    ensures
        key_value_error(schema, batch, row, indexes, late) == key_value_error(
            schema,
            batch,
            row,
            indexes,
            early,
        ),
    decreases late,
{
    if early < late {
        key_value_error_stays(schema, batch, row, indexes, early, (late - 1) as nat);
    }
}

/// A batch that fits a schema, with the texts of its key columns.
pub open spec fn keyed_batch(
    schema: Schema,
    batch: Batch,
    indexes: Seq<usize>,
    shown: Seq<Vec<String>>,
) -> bool {
    &&& batch.wf()
    &&& batch.columns@.len() == schema.fields@.len()
    &&& shown.len() == indexes.len()
    &&& forall|i: int|
        0 <= i < indexes.len() ==> (#[trigger] indexes[i]) < schema.fields@.len()
    &&& forall|i: int| 0 <= i < shown.len() ==> (#[trigger] shown[i])@.len() == batch.rows
}

/// The key of a row, and its text.
pub fn diff_key(
    schema: &Schema,
    batch: &Batch,
    indexes: &Vec<usize>,
    shown: &Vec<Vec<String>>,
    row: usize,
) -> (r: Result<(Vec<u8>, String), ProofFrameError>)
    requires
        keyed_batch(*schema, *batch, indexes@, shown@),
        row < batch.rows,
    ensures
        outcome(r, key_value_error(*schema, *batch, row as int, indexes@, indexes@.len())),
        r matches Ok(pair) ==> pair.0@ == key_stream(
            *batch,
            row as int,
            indexes@,
            indexes@.len(),
        ) && pair.1@ == key_display(*batch, row as int, indexes@, shown@),
{
    let mut canonical: Vec<u8> = Vec::new();
    let mut display: Vec<String> = Vec::new();
    let ghost wanted = key_texts(*batch, row as int, indexes@, shown@);
    let mut i: usize = 0;
    while i < indexes.len()
        invariant
            i <= indexes@.len(),
            keyed_batch(*schema, *batch, indexes@, shown@),
            row < batch.rows,
            wanted == key_texts(*batch, row as int, indexes@, shown@),
            key_value_error(*schema, *batch, row as int, indexes@, i as nat) is None,
            canonical@ == key_stream(*batch, row as int, indexes@, i as nat),
            texts(display@) == wanted.take(i as int),
        decreases indexes@.len() - i,
    {
        let index: usize = indexes[i];
        assert(batch.columns@[index as int]@.len() == batch.rows);
        assert(shown@[i as int]@.len() == batch.rows);
        let cell = &batch.columns[index][row];
        match canonical_value_bytes(cell) {
            None => {
                proof {
                    assert(key_value_error(
                        *schema,
                        *batch,
                        row as int,
                        indexes@,
                        (i + 1) as nat,
                    ) is Some);
                    key_value_error_stays(
                        *schema,
                        *batch,
                        row as int,
                        indexes@,
                        (i + 1) as nat,
                        indexes@.len(),
                    );
                }
                return Err(
                    ProofFrameError::UnsupportedType(schema.fields[index].type_text.clone()),
                );
            },
            Some(value) => {
                let ghost before = canonical@;
                push_le(&mut canonical, index as u128, 8);
                push_prefixed(&mut canonical, value.as_slice());
                assert(canonical@ =~= before + key_part(index as nat, *cell));
            },
        }
        let ghost named = display@;
        match cell {
            Cell::Null => {
                display.push(text("<null>"));
            },
            _ => {
                display.push(shown[i][row].clone());
            },
        }
        assert(texts(display@) =~= texts(named).push(wanted[i as int]));
        assert(wanted.take(i + 1) =~= wanted.take(i as int).push(wanted[i as int]));
        i = i + 1;
    }
    assert(wanted.take(indexes@.len() as int) =~= wanted);
    let shown_key = join(&display, "\u{1f}");
    Ok((canonical, shown_key))
}

/// A value of a row.
pub open spec fn cell_value(cell: Cell) -> Option<Seq<u8>> {
    if cell is Null {
        None
    } else {
        Some(encoded(item_of(cell)))
    }
}

/// The values of a row.
pub open spec fn row_values(batch: Batch, row: int) -> Seq<Option<Seq<u8>>> {
    Seq::new(batch.columns@.len(), |i: int| cell_value(batch.columns@[i]@[row]))
}

/// The error of a row with a value without an encoding, among its first `n` columns.
pub open spec fn row_value_error(schema: Schema, batch: Batch, row: int, n: nat) -> Option<
    ErrorView,
>
    decreases n,
{
    if n == 0 || n > batch.columns@.len() {
        None
    } else {
        match row_value_error(schema, batch, row, (n - 1) as nat) {
            Some(e) => Some(e),
            None => if encodable(item_of(batch.columns@[n - 1]@[row])) {
                None
            } else {
                Some(ErrorView::UnsupportedType(schema.fields@[n - 1].type_text@))
            },
        }
    }
}

proof fn row_value_error_stays(schema: Schema, batch: Batch, row: int, early: nat, late: nat)
    requires
        early <= late <= batch.columns@.len(),
        row_value_error(schema, batch, row, early) is Some,
    ensures
        row_value_error(schema, batch, row, late) == row_value_error(schema, batch, row, early),
    decreases late,
{
    if early < late {
        row_value_error_stays(schema, batch, row, early, (late - 1) as nat);
    }
}

fn values_of(schema: &Schema, batch: &Batch, row: usize) -> (r: Result<
    Vec<Option<Vec<u8>>>,
    ProofFrameError,
>)
    requires
        batch.wf(),
        batch.columns@.len() == schema.fields@.len(),
        row < batch.rows,
    ensures
        outcome(r, row_value_error(*schema, *batch, row as int, batch.columns@.len())),
        r matches Ok(values) ==> value_views(values@) == row_values(*batch, row as int),
{
    let ghost wanted = row_values(*batch, row as int);
    let mut out: Vec<Option<Vec<u8>>> = Vec::new();
    let mut i: usize = 0;
    while i < batch.columns.len()
        invariant
            i <= batch.columns@.len(),
            batch.wf(),
            batch.columns@.len() == schema.fields@.len(),
            row < batch.rows,
            wanted == row_values(*batch, row as int),
            row_value_error(*schema, *batch, row as int, i as nat) is None,
            value_views(out@) == wanted.take(i as int),
        decreases batch.columns@.len() - i,
    {
        assert(batch.columns@[i as int]@.len() == batch.rows);
        let cell = &batch.columns[i][row];
        let ghost before = out@;
        match cell {
            Cell::Null => {
                out.push(None);
            },
            _ => {
                match canonical_value_bytes(cell) {
                    Some(bytes) => {
                        out.push(Some(bytes));
                    },
                    None => {
                        proof {
                            assert(row_value_error(
                                *schema,
                                *batch,
                                row as int,
                                (i + 1) as nat,
                            ) is Some);
                            row_value_error_stays(
                                *schema,
                                *batch,
                                row as int,
                                (i + 1) as nat,
                                batch.columns@.len(),
                            );
                        }
                        return Err(
                            ProofFrameError::UnsupportedType(
                                schema.fields[i].type_text.clone(),
                            ),
                        );
                    },
                }
            },
        }
        assert(value_views(out@) =~= value_views(before).push(cell_value(*cell)));
        assert(wanted.take(i + 1) =~= wanted.take(i as int).push(wanted[i as int]));
        i = i + 1;
    }
    assert(wanted.take(batch.columns@.len() as int) =~= wanted);
    Ok(out)
}

/// The bytes of a value in the hash of a row.
pub open spec fn hashed_value(value: Option<Seq<u8>>) -> Seq<u8> {
    match value {
        None => seq![0u8],
        Some(b) => seq![1u8] + prefixed(b),
    }
}

/// The bytes of values in the hash of a row.
pub open spec fn hashed_values(values: Seq<Option<Seq<u8>>>) -> Seq<u8>
    decreases values.len(),
{
    if values.len() == 0 {
        Seq::empty()
    } else {
        hashed_values(values.drop_last()) + hashed_value(values.last())
    }
}

/// What is hashed of a row.
pub open spec fn row_stream(values: Seq<Option<Seq<u8>>>) -> Seq<u8> {
    utf8("proofframe:diff-row:v2\0"@) + hashed_values(values)
}

/// The hash of the values of a row.
pub fn row_hash(values: &Vec<Option<Vec<u8>>>) -> (r: [u8; 32])
    ensures
        r@ == blake3_digest(row_stream(value_views(values@))),
{
    let ghost all = value_views(values@);
    let mut out: Vec<u8> = Vec::new();
    push_all(&mut out, "proofframe:diff-row:v2\0".as_bytes());
    let ghost head = out@;
    assert(head + hashed_values(all.take(0)) =~= head);
    let mut i: usize = 0;
    while i < values.len()
        invariant
            i <= values@.len(),
            all == value_views(values@),
            out@ == head + hashed_values(all.take(i as int)),
        decreases values@.len() - i,
    {
        match &values[i] {
            None => {
                out.push(0);
            },
            Some(bytes) => {
                out.push(1);
                push_prefixed(&mut out, bytes.as_slice());
            },
        }
        proof {
            assert(all.take(i + 1).drop_last() =~= all.take(i as int));
            assert(all.take(i + 1).last() == value_view(values@[i as int]));
            assert(out@ =~= head + hashed_values(all.take(i + 1)));
        }
        i = i + 1;
    }
    assert(all.take(all.len() as int) =~= all);
    assert(out@ =~= row_stream(all));
    digest_of(out.as_slice())
}

/// The partition of a key.
pub open spec fn partition_of(key: Seq<u8>) -> int {
    (from_le(blake3_digest(key).take(8)) % 64) as int
}

/// The partition of a key.
pub fn row_partition(key: &[u8]) -> (r: usize)
    ensures
        r == partition_of(key@),
        r < PARTITIONS,
{
    let digest = digest_of(key);
    let first = slice_of(digest.as_slice(), 0, 8);
    let number: u64 = read_le(first.as_slice(), 0, 8);
    assert(first@ =~= blake3_digest(key@).take(8));
    assert(first@.subrange(0, 8) =~= first@);
    (number % 64) as usize
}

/// The error of a row.
pub open spec fn row_error(schema: Schema, batch: Batch, row: int, indexes: Seq<usize>) -> Option<
    ErrorView,
> {
    match key_value_error(schema, batch, row, indexes, indexes.len()) {
        Some(e) => Some(e),
        None => row_value_error(schema, batch, row, batch.columns@.len()),
    }
}

/// A row under its key.
pub open spec fn row_view(
    batch: Batch,
    row: int,
    indexes: Seq<usize>,
    shown: Seq<Vec<String>>,
) -> (Seq<u8>, RowView) {
    (
        key_stream(batch, row, indexes, indexes.len()),
        RowView {
            display: key_display(batch, row, indexes, shown),
            values: row_values(batch, row),
            hash: blake3_digest(row_stream(row_values(batch, row))),
        },
    )
}

/// A row under its key.
pub fn row_entry(
    schema: &Schema,
    batch: &Batch,
    indexes: &Vec<usize>,
    shown: &Vec<Vec<String>>,
    row: usize,
) -> (r: Result<(Vec<u8>, RowEntry), ProofFrameError>)
    requires
        keyed_batch(*schema, *batch, indexes@, shown@),
        row < batch.rows,
    ensures
        outcome(r, row_error(*schema, *batch, row as int, indexes@)),
        r matches Ok(pair) ==> (pair.0@, pair.1@) == row_view(
            *batch,
            row as int,
            indexes@,
            shown@,
        ) && pair.1.values@.len() == batch.columns@.len(),
{
    let (key, display_key) = diff_key(schema, batch, indexes, shown, row)?;
    let values = values_of(schema, batch, row)?;
    let hash = row_hash(&values);
    assert(value_views(values@).len() == values@.len());
    Ok((key, RowEntry { display_key, values, hash }))
}

proof fn hashed_values_front(values: Seq<Option<Seq<u8>>>)
    requires
        values.len() > 0,
    ensures
        hashed_values(values) == hashed_value(values[0]) + hashed_values(values.drop_first()),
    decreases values.len(),
{
    if values.len() == 1 {
        assert(values.drop_last() =~= Seq::empty());
        assert(values.drop_first() =~= Seq::empty());
        assert(hashed_values(values) =~= hashed_value(values[0]) + hashed_values(
            values.drop_first(),
        ));
    } else {
        hashed_values_front(values.drop_last());
        assert(values.drop_last().drop_first() =~= values.drop_first().drop_last());
        assert(hashed_values(values) =~= hashed_value(values[0]) + hashed_values(
            values.drop_first(),
        ));
    }
}

/// Whether all lengths of values fit in eight bytes.
pub open spec fn short_values(values: Seq<Option<Seq<u8>>>) -> bool {
    forall|i: int|
        0 <= i < values.len() ==> (#[trigger] values[i] matches Some(b) ==> b.len() < span(8))
}

/// Rows that are hashed from the same bytes have the same values: rows with other values
/// have other hashes, up to a collision of BLAKE3.
pub proof fn row_stream_is_injective(a: Seq<Option<Seq<u8>>>, b: Seq<Option<Seq<u8>>>)
    requires
        short_values(a),
        short_values(b),
        row_stream(a) == row_stream(b),
    ensures
        a == b,
{
    let head = utf8("proofframe:diff-row:v2\0"@);
    assert(row_stream(a).skip(head.len() as int) =~= hashed_values(a));
    assert(row_stream(b).skip(head.len() as int) =~= hashed_values(b));
    hashed_values_are_injective(a, b);
}

proof fn hashed_values_are_injective(a: Seq<Option<Seq<u8>>>, b: Seq<Option<Seq<u8>>>)
    requires
        short_values(a),
        short_values(b),
        hashed_values(a) == hashed_values(b),
    ensures
        a == b,
    decreases a.len(),
{
    if a.len() == 0 || b.len() == 0 {
        if a.len() > 0 {
            hashed_values_front(a);
            assert(hashed_values(a).len() > 0);
        }
        if b.len() > 0 {
            hashed_values_front(b);
            assert(hashed_values(b).len() > 0);
        }
        assert(a =~= b);
    } else {
        hashed_values_front(a);
        hashed_values_front(b);
        let p = hashed_values(a);
        let more_a = a.drop_first();
        let more_b = b.drop_first();
        assert(p[0] == hashed_value(a[0])[0]);
        assert(p[0] == hashed_value(b[0])[0]);
        match (a[0], b[0]) {
            (None, None) => {
                assert(p.skip(1) =~= hashed_values(more_a));
                assert(p.skip(1) =~= hashed_values(more_b));
            },
            (Some(x), Some(y)) => {
                assert(p.skip(1) =~= prefixed(x) + hashed_values(more_a));
                assert(p.skip(1) =~= prefixed(y) + hashed_values(more_b));
                prefixed_splits(x, hashed_values(more_a), y, hashed_values(more_b));
            },
            _ => {},
        }
        assert forall|i: int| 0 <= i < more_a.len() implies (#[trigger] more_a[i] matches Some(v)
            ==> v.len() < span(8)) by {
            assert(more_a[i] == a[i + 1]);
        }
        assert forall|i: int| 0 <= i < more_b.len() implies (#[trigger] more_b[i] matches Some(v)
            ==> v.len() < span(8)) by {
            assert(more_b[i] == b[i + 1]);
        }
        hashed_values_are_injective(more_a, more_b);
        assert(a =~= seq![a[0]] + more_a);
        assert(b =~= seq![b[0]] + more_b);
    }
}

/// The bytes of a key from its column `k` on.
pub open spec fn key_rest(batch: Batch, row: int, indexes: Seq<usize>, k: nat) -> Seq<u8>
    decreases indexes.len() - k,
{
    if k >= indexes.len() {
        Seq::empty()
    } else {
        key_part(indexes[k as int] as nat, batch.columns@[indexes[k as int] as int]@[row])
            + key_rest(batch, row, indexes, k + 1)
    }
}

proof fn key_stream_splits(batch: Batch, row: int, indexes: Seq<usize>, n: nat)
    requires
        n <= indexes.len(),
    ensures
        key_stream(batch, row, indexes, n) + key_rest(batch, row, indexes, n) == key_rest(
            batch,
            row,
            indexes,
            0,
        ),
    decreases n,
{
    if n == 0 {
        assert(key_stream(batch, row, indexes, 0) + key_rest(batch, row, indexes, 0) =~= key_rest(
            batch,
            row,
            indexes,
            0,
        ));
    } else {
        key_stream_splits(batch, row, indexes, (n - 1) as nat);
        assert(key_stream(batch, row, indexes, n) + key_rest(batch, row, indexes, n) =~= key_stream(
            batch,
            row,
            indexes,
            (n - 1) as nat,
        ) + key_rest(batch, row, indexes, (n - 1) as nat));
    }
}

/// The value of a row in a key column, encoded.
pub open spec fn key_value(batch: Batch, row: int, indexes: Seq<usize>, i: int) -> Seq<u8> {
    encoded(item_of(batch.columns@[indexes[i] as int]@[row]))
}

/// Two rows of any two batches have one key exactly where they have the same values in all
/// key columns, in the order of the columns.
pub proof fn diff_key_is_injective(
    one: Batch,
    row: int,
    other: Batch,
    place: int,
    indexes: Seq<usize>,
)
    requires
        forall|i: int|
            0 <= i < indexes.len() ==> (#[trigger] key_value(one, row, indexes, i)).len() < span(8)
                && key_value(other, place, indexes, i).len() < span(8),
    ensures
        key_stream(one, row, indexes, indexes.len()) == key_stream(
            other,
            place,
            indexes,
            indexes.len(),
        ) <==> forall|i: int|
            0 <= i < indexes.len() ==> #[trigger] key_value(one, row, indexes, i) == key_value(
                other,
                place,
                indexes,
                i,
            ),
{
    key_stream_splits(one, row, indexes, indexes.len());
    key_stream_splits(other, place, indexes, indexes.len());
    assert(key_stream(one, row, indexes, indexes.len()) =~= key_rest(one, row, indexes, 0));
    assert(key_stream(other, place, indexes, indexes.len()) =~= key_rest(other, place, indexes, 0));
    key_rest_is_injective(one, row, other, place, indexes, 0);
}

proof fn key_rest_is_injective(
    one: Batch,
    row: int,
    other: Batch,
    place: int,
    indexes: Seq<usize>,
    k: nat,
)
    requires
        k <= indexes.len(),
        forall|i: int|
            0 <= i < indexes.len() ==> (#[trigger] key_value(one, row, indexes, i)).len() < span(8)
                && key_value(other, place, indexes, i).len() < span(8),
    ensures
        key_rest(one, row, indexes, k) == key_rest(other, place, indexes, k) <==> forall|i: int|
            k <= i < indexes.len() ==> #[trigger] key_value(one, row, indexes, i) == key_value(
                other,
                place,
                indexes,
                i,
            ),
    decreases indexes.len() - k,
{
    if k < indexes.len() {
        key_rest_is_injective(one, row, other, place, indexes, k + 1);
        let a = key_value(one, row, indexes, k as int);
        let b = key_value(other, place, indexes, k as int);
        let p = key_rest(one, row, indexes, k);
        let q = key_rest(other, place, indexes, k);
        le_len(indexes[k as int] as nat, 8);
        assert(p.skip(8) =~= prefixed(a) + key_rest(one, row, indexes, k + 1));
        assert(q.skip(8) =~= prefixed(b) + key_rest(other, place, indexes, k + 1));
        if p == q {
            prefixed_splits(
                a,
                key_rest(one, row, indexes, k + 1),
                b,
                key_rest(other, place, indexes, k + 1),
            );
        }
    }
}

} // verus!
